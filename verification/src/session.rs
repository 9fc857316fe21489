//! The running desktop client: what it knows, and what it does about each
//! message.

use vstd::prelude::*;
use vstd::string::*;

use crate::ipc::{IpcRequest, MemberView, NetworkStatus, UiMsg};
use crate::pages;
use crate::pages::{member_name, Placeholder};
use crate::text;
use crate::text::{join, trim};

verus! {

/// A join request awaiting the user's decision, kept so it survives a missed or
/// dismissed prompt and can be approved later from the main window.
#[derive(Clone, Debug)]
pub struct PendingJoin {
    pub node_id: String,
    pub hostname: String,
    pub sas: Vec<String>,
}

/// What the client knows.
#[derive(Clone, Debug)]
pub struct Session {
    /// The last status (for live "last seen" and online notifications).
    pub status: Option<NetworkStatus>,
    pub pending: Vec<PendingJoin>,
    /// Whether the name of the network is being edited.
    pub editing_name: bool,
    /// Whether the user was told that the client stays in the tray.
    pub told_tray: bool,
}

/// What to put on the screen.
pub enum Show {
    /// Nothing new.
    Nothing,
    /// The network, from the session's status and pending joins.
    Network,
    Placeholder(Placeholder),
    Ticket(String),
    Recovery(String),
    JoinSas(Vec<String>),
    Toast(String),
}

/// What to do about a message: desktop notifications to send, and what to put on
/// the screen.
pub struct Effects {
    pub notices: Vec<String>,
    pub show: Show,
}

// ---------------------------------------------------------------------------
// Notifications
// ---------------------------------------------------------------------------

/// Whether the member with this id was online.
pub open spec fn was_online(members: Seq<MemberView>, node_id: Seq<char>) -> bool {
    exists|i: int|
        0 <= i < members.len() && (#[trigger] members[i]).node_id@ == node_id && members[i].online
}

/// The notifications for members that have come online since the previous
/// members were reported.
pub open spec fn came_online(prev: Seq<MemberView>, new: Seq<MemberView>) -> Seq<Seq<char>>
    decreases new.len(),
{
    if new.len() == 0 {
        Seq::empty()
    } else {
        let m = new.last();
        let front = came_online(prev, new.drop_last());
        if !m.is_self && m.online && !was_online(prev, m.node_id@) {
            front.push(pages::display_name(m) + " came online"@)
        } else {
            front
        }
    }
}

/// The notifications for a new status; none on the first, so as not to announce
/// everyone on startup or reconnect.
pub open spec fn online_notices(prev: Option<NetworkStatus>, new: NetworkStatus) -> Seq<Seq<char>> {
    match prev {
        Some(p) => came_online(p.members@, new.members@),
        None => Seq::empty(),
    }
}

/// Whether the member with this id was online.
fn seen_online(members: &Vec<MemberView>, node_id: &String) -> (r: bool)
    ensures
        r == was_online(members@, node_id@),
{
    let mut i: usize = 0;
    while i < members.len()
        invariant
            i <= members@.len(),
            forall|j: int|
                0 <= j < i ==> !((#[trigger] members@[j]).node_id@ == node_id@ && members@[j].online),
        decreases members@.len() - i,
    {
        if members[i].node_id == *node_id && members[i].online {
            return true;
        }
        i = i + 1;
    }
    false
}

/// The notifications for members that transition from offline to online.
pub fn notify_newly_online(prev: &Option<NetworkStatus>, new: &NetworkStatus) -> (r: Vec<String>)
    ensures
        text::texts(r@) == online_notices(*prev, *new),
{
    let mut notices: Vec<String> = Vec::new();
    assert(text::texts(notices@) =~= Seq::<Seq<char>>::empty());
    let before = match prev {
        Some(p) => &p.members,
        None => {
            return notices;
        },
    };
    let mut i: usize = 0;
    assert(new.members@.take(0) =~= Seq::<MemberView>::empty());
    while i < new.members.len()
        invariant
            i <= new.members@.len(),
            text::texts(notices@) == came_online(before@, new.members@.take(i as int)),
        decreases new.members@.len() - i,
    {
        let m = &new.members[i];
        let ghost sofar = notices@;
        assert(new.members@.take(i + 1).drop_last() =~= new.members@.take(i as int));
        if !m.is_self && m.online && !seen_online(before, &m.node_id) {
            let notice = member_name(m).concat(" came online");
            notices.push(notice);
            assert(text::texts(notices@) =~= text::texts(sofar).push(notice@));
        }
        i = i + 1;
    }
    assert(new.members@.take(i as int) =~= new.members@);
    notices
}

// ---------------------------------------------------------------------------
// Pending joins
// ---------------------------------------------------------------------------

/// Whether a member with this id is listed.
pub open spec fn is_listed(members: Seq<MemberView>, node_id: Seq<char>) -> bool {
    exists|i: int| 0 <= i < members.len() && (#[trigger] members[i]).node_id@ == node_id
}

/// The requests of devices that are not members.
pub open spec fn unlisted(members: Seq<MemberView>) -> spec_fn(PendingJoin) -> bool {
    |p: PendingJoin| !is_listed(members, p.node_id@)
}

/// The requests of other devices than `node_id`.
pub open spec fn not_of(node_id: Seq<char>) -> spec_fn(PendingJoin) -> bool {
    |p: PendingJoin| p.node_id@ != node_id
}

/// Whether a request of this device is waiting.
pub open spec fn is_pending(pending: Seq<PendingJoin>, node_id: Seq<char>) -> bool {
    exists|i: int| 0 <= i < pending.len() && (#[trigger] pending[i]).node_id@ == node_id
}

/// The requests with one more, unless the device has one waiting.
pub open spec fn with_request(pending: Seq<PendingJoin>, p: PendingJoin) -> Seq<PendingJoin> {
    if is_pending(pending, p.node_id@) {
        pending
    } else {
        pending.push(p)
    }
}

/// Whether a member with this id is listed.
fn listed(members: &Vec<MemberView>, node_id: &String) -> (r: bool)
    ensures
        r == is_listed(members@, node_id@),
{
    let mut i: usize = 0;
    while i < members.len()
        invariant
            i <= members@.len(),
            forall|j: int| 0 <= j < i ==> (#[trigger] members@[j]).node_id@ != node_id@,
        decreases members@.len() - i,
    {
        if members[i].node_id == *node_id {
            return true;
        }
        i = i + 1;
    }
    false
}

/// Whether a request of this device is waiting.
fn waiting(pending: &Vec<PendingJoin>, node_id: &String) -> (r: bool)
    ensures
        r == is_pending(pending@, node_id@),
{
    let mut i: usize = 0;
    while i < pending.len()
        invariant
            i <= pending@.len(),
            forall|j: int| 0 <= j < i ==> (#[trigger] pending@[j]).node_id@ != node_id@,
        decreases pending@.len() - i,
    {
        if pending[i].node_id == *node_id {
            return true;
        }
        i = i + 1;
    }
    false
}

/// One more element of a filtered sequence.
proof fn lemma_filter_step(s: Seq<PendingJoin>, p: spec_fn(PendingJoin) -> bool, i: int)
    requires
        0 <= i < s.len(),
    ensures
        s.take(i + 1).filter(p) == if p(s[i]) {
            s.take(i).filter(p).push(s[i])
        } else {
            s.take(i).filter(p)
        },
{
    reveal(Seq::filter);
    assert(s.take(i + 1).drop_last() =~= s.take(i));
}

/// Drop the requests of devices that are members by now.
fn drop_listed(pending: Vec<PendingJoin>, members: &Vec<MemberView>) -> (r: Vec<PendingJoin>)
    ensures
        r@ == pending@.filter(unlisted(members@)),
{
    let ghost all = pending@;
    let mut kept: Vec<PendingJoin> = Vec::new();
    assert(all.take(0).filter(unlisted(members@)) =~= Seq::<PendingJoin>::empty()) by {
        reveal(Seq::filter);
    }
    for p in it: pending.into_iter()
        invariant
            it.seq() == all,
            kept@ == all.take(it.index() as int).filter(unlisted(members@)),
    {
        proof {
            lemma_filter_step(all, unlisted(members@), it.index() as int);
        }
        if !listed(members, &p.node_id) {
            kept.push(p);
        }
    }
    assert(all.take(all.len() as int) =~= all);
    kept
}

/// Drop the requests of one device.
fn drop_device(pending: Vec<PendingJoin>, node_id: &String) -> (r: Vec<PendingJoin>)
    ensures
        r@ == pending@.filter(not_of(node_id@)),
{
    let ghost all = pending@;
    let mut kept: Vec<PendingJoin> = Vec::new();
    assert(all.take(0).filter(not_of(node_id@)) =~= Seq::<PendingJoin>::empty()) by {
        reveal(Seq::filter);
    }
    for p in it: pending.into_iter()
        invariant
            it.seq() == all,
            kept@ == all.take(it.index() as int).filter(not_of(node_id@)),
    {
        proof {
            lemma_filter_step(all, not_of(node_id@), it.index() as int);
        }
        if !(p.node_id == *node_id) {
            kept.push(p);
        }
    }
    assert(all.take(all.len() as int) =~= all);
    kept
}

/// The text of the notification for a join request.
pub open spec fn request_notice(hostname: Seq<char>) -> Seq<char> {
    "“"@ + hostname + "” wants to join — approve in IPN"@
}

/// The title of the row for a join request.
pub open spec fn request_title(hostname: Seq<char>) -> Seq<char> {
    "“"@ + hostname + "” wants to join"@
}

/// A row of the join requests page.
pub struct RequestRow {
    pub title: String,
    /// The code to compare, as the joining device shows it.
    pub subtitle: String,
    pub node_id: String,
}

/// The rows of the join requests page, one for each request, in order.
pub fn request_rows(pending: &Vec<PendingJoin>) -> (r: Vec<RequestRow>)
    ensures
        r@.len() == pending@.len(),
        forall|i: int|
            0 <= i < r@.len() ==> {
                &&& (#[trigger] r@[i]).title@ == request_title(pending@[i].hostname@)
                &&& r@[i].subtitle@ == text::joined(text::texts(pending@[i].sas@), "  "@)
                &&& r@[i].node_id@ == pending@[i].node_id@
            },
{
    let mut rows: Vec<RequestRow> = Vec::new();
    let mut i: usize = 0;
    while i < pending.len()
        invariant
            i <= pending@.len(),
            rows@.len() == i,
            forall|j: int|
                0 <= j < i ==> {
                    &&& (#[trigger] rows@[j]).title@ == request_title(pending@[j].hostname@)
                    &&& rows@[j].subtitle@ == text::joined(text::texts(pending@[j].sas@), "  "@)
                    &&& rows@[j].node_id@ == pending@[j].node_id@
                },
        decreases pending@.len() - i,
    {
        let p = &pending[i];
        let mut title = String::from_str("“");
        title.append(p.hostname.as_str());
        title.append("” wants to join");
        rows.push(RequestRow { title, subtitle: join(&p.sas, "  "), node_id: p.node_id.clone() });
        i = i + 1;
    }
    rows
}

// ---------------------------------------------------------------------------
// Messages
// ---------------------------------------------------------------------------

/// What the client knows after a message.
pub open spec fn session_after(s: Session, msg: UiMsg, next: Session) -> bool {
    &&& next.editing_name == s.editing_name
    &&& next.told_tray == s.told_tray
    &&& match msg {
        UiMsg::Status(Some(status)) => {
            &&& next.status == Some(status)
            &&& next.pending@ == s.pending@.filter(unlisted(status.members@))
        },
        UiMsg::Status(None) => next.status is None && next.pending == s.pending,
        UiMsg::DaemonDown => next.status is None && next.pending == s.pending,
        UiMsg::VersionMismatch { .. } => next.status is None && next.pending == s.pending,
        UiMsg::JoinRequest { node_id, hostname, sas } => {
            &&& next.status == s.status
            &&& next.pending@ == with_request(s.pending@, PendingJoin { node_id, hostname, sas })
        },
        _ => next.status == s.status && next.pending == s.pending,
    }
}

/// The network, if there is one to show.
pub open spec fn network_or_nothing(status: Option<NetworkStatus>) -> Show {
    if status is Some {
        Show::Network
    } else {
        Show::Nothing
    }
}

/// What to put on the screen for a message.
pub open spec fn shown(s: Session, msg: UiMsg) -> Show {
    match msg {
        UiMsg::Status(Some(_)) => Show::Network,
        UiMsg::Status(None) => Show::Placeholder(Placeholder::Empty),
        UiMsg::Refresh => network_or_nothing(s.status),
        UiMsg::DaemonDown => Show::Placeholder(Placeholder::DaemonDown),
        UiMsg::VersionMismatch { daemon, gui } => Show::Placeholder(
            Placeholder::VersionMismatch { daemon, gui },
        ),
        UiMsg::Ticket(t) => Show::Ticket(t),
        UiMsg::Recovery(code) => Show::Recovery(code),
        UiMsg::JoinSas(sas) => Show::JoinSas(sas),
        UiMsg::JoinRequest { .. } => network_or_nothing(s.status),
        UiMsg::Toast(t) => Show::Toast(t),
    }
}

/// The notifications to send for a message.
pub open spec fn noticed(s: Session, msg: UiMsg) -> Seq<Seq<char>> {
    match msg {
        UiMsg::Status(Some(status)) => online_notices(s.status, status),
        UiMsg::JoinRequest { hostname, .. } => seq![request_notice(hostname@)],
        _ => Seq::empty(),
    }
}

/// What follows from the end of an edit of the network's name.
pub enum NameEdit {
    /// Show this name and ask the service to rename the network.
    Rename(String),
    /// Render the current status again.
    Refresh,
}

impl Session {
    /// A client that has just started.
    pub fn new() -> (r: Session)
        ensures
            r.status is None,
            r.pending@ == Seq::<PendingJoin>::empty(),
            !r.editing_name,
            !r.told_tray,
    {
        Session { status: None, pending: Vec::new(), editing_name: false, told_tray: false }
    }

    /// Take in a message, and say what to do about it.
    pub fn handle(&mut self, msg: UiMsg) -> (r: Effects)
        ensures
            session_after(*old(self), msg, *final(self)),
            r.show == shown(*old(self), msg),
            text::texts(r.notices@) == noticed(*old(self), msg),
    {
        let mut notices: Vec<String> = Vec::new();
        assert(text::texts(notices@) =~= Seq::<Seq<char>>::empty());
        let show = match msg {
            UiMsg::Status(Some(status)) => {
                notices = notify_newly_online(&self.status, &status);
                let mut pending: Vec<PendingJoin> = Vec::new();
                std::mem::swap(&mut pending, &mut self.pending);
                self.pending = drop_listed(pending, &status.members);
                self.status = Some(status);
                Show::Network
            },
            UiMsg::Status(None) => {
                self.status = None;
                Show::Placeholder(Placeholder::Empty)
            },
            UiMsg::Refresh => {
                if self.status.is_some() {
                    Show::Network
                } else {
                    Show::Nothing
                }
            },
            UiMsg::DaemonDown => {
                self.status = None;
                Show::Placeholder(Placeholder::DaemonDown)
            },
            UiMsg::VersionMismatch { daemon, gui } => {
                self.status = None;
                Show::Placeholder(Placeholder::VersionMismatch { daemon, gui })
            },
            UiMsg::Ticket(t) => Show::Ticket(t),
            UiMsg::Recovery(code) => Show::Recovery(code),
            UiMsg::JoinSas(sas) => Show::JoinSas(sas),
            UiMsg::JoinRequest { node_id, hostname, sas } => {
                let mut notice = String::from_str("“");
                notice.append(hostname.as_str());
                notice.append("” wants to join — approve in IPN");
                let ghost said = notice@;
                notices.push(notice);
                assert(text::texts(notices@) =~= seq![said]);
                if !waiting(&self.pending, &node_id) {
                    self.pending.push(PendingJoin { node_id, hostname, sas });
                }
                if self.status.is_some() {
                    Show::Network
                } else {
                    Show::Nothing
                }
            },
            UiMsg::Toast(t) => Show::Toast(t),
        };
        Effects { notices, show }
    }

    /// Let a device in: its request is taken off the list and the service is
    /// asked to admit it.
    pub fn approve(&mut self, node_id: String) -> (r: IpcRequest)
        ensures
            r == (IpcRequest::ApproveJoin { node_id }),
            final(self).pending@ == old(self).pending@.filter(not_of(node_id@)),
            final(self).status == old(self).status,
            final(self).editing_name == old(self).editing_name,
            final(self).told_tray == old(self).told_tray,
    {
        let mut pending: Vec<PendingJoin> = Vec::new();
        std::mem::swap(&mut pending, &mut self.pending);
        self.pending = drop_device(pending, &node_id);
        IpcRequest::ApproveJoin { node_id }
    }

    /// Turn a device away: its request is taken off the list, the service is
    /// told, and the user gets a toast.
    pub fn deny(&mut self, node_id: String) -> (r: (IpcRequest, &'static str))
        ensures
            r.0 == (IpcRequest::DenyJoin { node_id }),
            r.1@ == "Join denied"@,
            final(self).pending@ == old(self).pending@.filter(not_of(node_id@)),
            final(self).status == old(self).status,
            final(self).editing_name == old(self).editing_name,
            final(self).told_tray == old(self).told_tray,
    {
        let mut pending: Vec<PendingJoin> = Vec::new();
        std::mem::swap(&mut pending, &mut self.pending);
        self.pending = drop_device(pending, &node_id);
        (IpcRequest::DenyJoin { node_id }, "Join denied")
    }

    /// Begin to edit the network's name. Until the edit ends, a new status does
    /// not touch the name.
    pub fn edit_name(&mut self)
        ensures
            final(self).editing_name,
            final(self).status == old(self).status,
            final(self).pending == old(self).pending,
            final(self).told_tray == old(self).told_tray,
    {
        self.editing_name = true;
    }

    /// End the edit with what was typed: a name that is not blank is taken
    /// without the white space around it.
    pub fn commit_name(&mut self, typed: &str) -> (r: NameEdit)
        ensures
            !final(self).editing_name,
            final(self).status == old(self).status,
            final(self).pending == old(self).pending,
            final(self).told_tray == old(self).told_tray,
            match r {
                NameEdit::Rename(name) => name@ == text::trimmed(typed@) && name@.len() > 0,
                NameEdit::Refresh => text::trimmed(typed@).len() == 0,
            },
    {
        self.editing_name = false;
        let name = trim(typed);
        if name.as_str().unicode_len() > 0 {
            NameEdit::Rename(name)
        } else {
            NameEdit::Refresh
        }
    }

    /// End the edit and keep the name.
    pub fn cancel_name(&mut self) -> (r: NameEdit)
        ensures
            !final(self).editing_name,
            final(self).status == old(self).status,
            final(self).pending == old(self).pending,
            final(self).told_tray == old(self).told_tray,
            r is Refresh,
    {
        self.editing_name = false;
        NameEdit::Refresh
    }

    /// The window was closed and the client stays in the tray: the notification
    /// to send, the first time only.
    pub fn hide_to_tray(&mut self) -> (r: Option<&'static str>)
        ensures
            final(self).told_tray,
            final(self).status == old(self).status,
            final(self).pending == old(self).pending,
            final(self).editing_name == old(self).editing_name,
            r is Some <==> !old(self).told_tray,
            r matches Some(t) ==> t@
                == "Still running in the tray — click the tray icon to reopen, or “Quit IPN” to disconnect."@,
    {
        if self.told_tray {
            return None;
        }
        self.told_tray = true;
        Some(
            "Still running in the tray — click the tray icon to reopen, or “Quit IPN” to disconnect.",
        )
    }
}

// ---------------------------------------------------------------------------
// Laws
// ---------------------------------------------------------------------------

/// Whether no device has two requests waiting.
pub open spec fn one_each(pending: Seq<PendingJoin>) -> bool {
    forall|i: int, j: int|
        0 <= i < j < pending.len() ==> (#[trigger] pending[i]).node_id@ != (#[trigger] pending[j]).node_id@
}

/// What is left of a list with one request each has one request each.
proof fn lemma_filter_one_each(s: Seq<PendingJoin>, p: spec_fn(PendingJoin) -> bool)
    requires
        one_each(s),
    ensures
        one_each(s.filter(p)),
        forall|i: int| 0 <= i < s.filter(p).len() ==> s.contains(#[trigger] s.filter(p)[i]) && p(s.filter(p)[i]),
    decreases s.len(),
{
    reveal(Seq::filter);
    if s.len() > 0 {
        let rest = s.drop_last();
        assert(forall|i: int| 0 <= i < rest.len() ==> #[trigger] rest[i] == s[i]);
        lemma_filter_one_each(rest, p);
        let f = rest.filter(p);
        assert forall|i: int| 0 <= i < s.filter(p).len() implies s.contains(#[trigger] s.filter(p)[i])
            && p(s.filter(p)[i]) by {
            if i < f.len() {
                assert(s.filter(p)[i] == f[i]);
                let j = rest.index_of(f[i]);
                assert(s[j] == f[i]);
            } else {
                assert(s[s.len() - 1] == s.filter(p)[i]);
            }
        }
        if p(s.last()) {
            let g = f.push(s.last());
            assert(s.filter(p) =~= g);
            assert forall|i: int, j: int| 0 <= i < j < g.len() implies (#[trigger] g[i]).node_id@ != (
            #[trigger] g[j]).node_id@ by {
                if j == f.len() {
                    let k = rest.index_of(f[i]);
                    assert(s[k] == f[i]);
                    assert(s[k].node_id@ != s[s.len() - 1].node_id@);
                } else {
                    assert(f[i].node_id@ != f[j].node_id@);
                }
            }
        }
    }
}

/// No device ever has two requests waiting: no message brings that about.
pub proof fn law_one_request_per_device(s: Session, msg: UiMsg, next: Session)
    requires
        one_each(s.pending@),
        session_after(s, msg, next),
    ensures
        one_each(next.pending@),
{
    match msg {
        UiMsg::Status(Some(status)) => {
            lemma_filter_one_each(s.pending@, unlisted(status.members@));
        },
        UiMsg::JoinRequest { node_id, hostname, sas } => {
            let p = PendingJoin { node_id, hostname, sas };
            if !is_pending(s.pending@, node_id@) {
                let g = s.pending@.push(p);
                assert forall|i: int, j: int| 0 <= i < j < g.len() implies (#[trigger] g[i]).node_id@ != (
                #[trigger] g[j]).node_id@ by {
                    if j < s.pending@.len() {
                        assert(s.pending@[i].node_id@ != s.pending@[j].node_id@);
                    } else {
                        assert(s.pending@[i].node_id@ != node_id@);
                    }
                }
            }
        },
        _ => {},
    }
}

/// No device ever has two requests waiting: approving or denying one does not
/// bring that about either.
pub proof fn law_decisions_keep_one_request_per_device(pending: Seq<PendingJoin>, node_id: Seq<char>)
    requires
        one_each(pending),
    ensures
        one_each(pending.filter(not_of(node_id))),
{
    lemma_filter_one_each(pending, not_of(node_id));
}

/// A request is not waiting any more once it is decided on, and the requests of
/// all other devices still are.
pub proof fn law_decided_requests_are_gone(pending: Seq<PendingJoin>, node_id: Seq<char>)
    ensures
        !is_pending(pending.filter(not_of(node_id)), node_id),
        forall|other: Seq<char>|
            other != node_id && #[trigger] is_pending(pending, other) ==> is_pending(
                pending.filter(not_of(node_id)),
                other,
            ),
{
    let p = not_of(node_id);
    let f = pending.filter(p);
    if is_pending(f, node_id) {
        let i = choose|i: int| 0 <= i < f.len() && (#[trigger] f[i]).node_id@ == node_id;
        pending.lemma_filter_pred(p, i);
    }
    assert forall|other: Seq<char>| other != node_id && #[trigger] is_pending(pending, other) implies is_pending(
        f,
        other,
    ) by {
        let i = choose|i: int| 0 <= i < pending.len() && (#[trigger] pending[i]).node_id@ == other;
        pending.lemma_filter_contains(p, i);
        assert(f[f.index_of(pending[i])].node_id@ == other);
    }
}

/// A request of a device that has become a member is not waiting any more.
pub proof fn law_members_are_not_waiting(s: Session, status: NetworkStatus, next: Session, i: int)
    requires
        session_after(s, UiMsg::Status(Some(status)), next),
        0 <= i < status.members@.len(),
    ensures
        !is_pending(next.pending@, status.members@[i].node_id@),
{
    let p = unlisted(status.members@);
    let id = status.members@[i].node_id@;
    if is_pending(next.pending@, id) {
        let j = choose|j: int| 0 <= j < next.pending@.len() && (#[trigger] next.pending@[j]).node_id@ == id;
        s.pending@.lemma_filter_pred(p, j);
        assert(is_listed(status.members@, id));
    }
}

/// A join request survives everything but a decision and membership: it is
/// waiting after it comes in, and no later message other than a status that
/// lists the device takes it away.
pub proof fn law_requests_survive(s: Session, msg: UiMsg, next: Session, node_id: Seq<char>)
    requires
        session_after(s, msg, next),
        is_pending(s.pending@, node_id) || (msg matches UiMsg::JoinRequest { node_id: id, .. } && id@
            == node_id),
        !(msg matches UiMsg::Status(Some(status)) && is_listed(status.members@, node_id)),
    ensures
        is_pending(next.pending@, node_id),
{
    match msg {
        UiMsg::Status(Some(status)) => {
            let p = unlisted(status.members@);
            let i = choose|i: int| 0 <= i < s.pending@.len() && (#[trigger] s.pending@[i]).node_id@
                == node_id;
            s.pending@.lemma_filter_contains(p, i);
            let j = next.pending@.index_of(s.pending@[i]);
            assert(next.pending@[j].node_id@ == node_id);
        },
        UiMsg::JoinRequest { node_id: id, hostname, sas } => {
            if is_pending(s.pending@, node_id) {
                let i = choose|i: int|
                    0 <= i < s.pending@.len() && (#[trigger] s.pending@[i]).node_id@ == node_id;
                assert(next.pending@[i].node_id@ == node_id);
            } else {
                assert(next.pending@[s.pending@.len() as int].node_id@ == node_id);
            }
        },
        _ => {},
    }
}

/// The first status after a start or a reconnect announces nobody.
pub proof fn law_first_status_is_silent(s: Session, status: NetworkStatus)
    requires
        s.status is None,
    ensures
        noticed(s, UiMsg::Status(Some(status))) == Seq::<Seq<char>>::empty(),
{
}

/// A status that reports the same members again announces nobody.
pub proof fn law_same_members_are_silent(members: Seq<MemberView>)
    ensures
        came_online(members, members) == Seq::<Seq<char>>::empty(),
{
    lemma_silent(members, members);
}

proof fn lemma_silent(prev: Seq<MemberView>, new: Seq<MemberView>)
    requires
        forall|i: int|
            0 <= i < new.len() && (#[trigger] new[i]).online ==> was_online(prev, new[i].node_id@),
    ensures
        came_online(prev, new) == Seq::<Seq<char>>::empty(),
    decreases new.len(),
{
    if new.len() > 0 {
        assert(forall|i: int| 0 <= i < new.drop_last().len() ==> #[trigger] new.drop_last()[i] == new[i]);
        lemma_silent(prev, new.drop_last());
        assert(new.last() == new[new.len() - 1]);
    }
}

/// Refreshing changes nothing that the client knows.
pub proof fn law_refresh_keeps_the_session(s: Session, next: Session)
    requires
        session_after(s, UiMsg::Refresh, next),
    ensures
        next == s,
{
}

/// Tests that agree on every request leave the same requests.
proof fn lemma_filter_alike(
    s: Seq<PendingJoin>,
    p: spec_fn(PendingJoin) -> bool,
    q: spec_fn(PendingJoin) -> bool,
)
    requires
        forall|x: PendingJoin| #[trigger] p(x) == q(x),
    ensures
        s.filter(p) == s.filter(q),
    decreases s.len(),
{
    reveal(Seq::filter);
    if s.len() > 0 {
        lemma_filter_alike(s.drop_last(), p, q);
        assert(p(s.last()) == q(s.last()));
    }
}

/// A status is remembered as it came, and of the waiting requests exactly those go
/// whose device it lists as a member, the rest staying in their order; the network
/// is put on the screen.
pub proof fn law_status_is_taken_in(s: Session, status: NetworkStatus, next: Session)
    requires
        session_after(s, UiMsg::Status(Some(status)), next),
    ensures
        next.status == Some(status),
        next.pending@ == s.pending@.filter(
            |p: PendingJoin|
                forall|i: int|
                    0 <= i < status.members@.len() ==> (#[trigger] status.members@[i]).node_id@ != p.node_id@,
        ),
        next.editing_name == s.editing_name,
        next.told_tray == s.told_tray,
        shown(s, UiMsg::Status(Some(status))) == Show::Network,
{
    let p = unlisted(status.members@);
    let q = |p: PendingJoin|
        forall|i: int|
            0 <= i < status.members@.len() ==> (#[trigger] status.members@[i]).node_id@ != p.node_id@;
    assert forall|x: PendingJoin| #[trigger] p(x) == q(x) by {
        if !q(x) {
            let i = choose|i: int|
                0 <= i < status.members@.len() && (#[trigger] status.members@[i]).node_id@ == x.node_id@;
            assert(is_listed(status.members@, x.node_id@));
        }
    }
    lemma_filter_alike(s.pending@, p, q);
}

/// Without a network, without the service and with a service of another version
/// there is no status, the requests keep waiting, nothing is announced, and the
/// page on the screen says which it is, with both versions where they differ.
pub proof fn law_no_network_to_show(s: Session, msg: UiMsg, next: Session)
    requires
        session_after(s, msg, next),
        msg == UiMsg::Status(None) || msg is DaemonDown || msg is VersionMismatch,
    ensures
        next.status is None,
        next.pending@ == s.pending@,
        next.editing_name == s.editing_name,
        next.told_tray == s.told_tray,
        noticed(s, msg).len() == 0,
        msg == UiMsg::Status(None) ==> shown(s, msg) == Show::Placeholder(Placeholder::Empty),
        msg is DaemonDown ==> shown(s, msg) == Show::Placeholder(Placeholder::DaemonDown),
        msg matches UiMsg::VersionMismatch { daemon, gui } ==> shown(s, msg) == Show::Placeholder(
            Placeholder::VersionMismatch { daemon, gui },
        ),
{
}

/// A join request waits behind those that wait already, with its device, name and
/// code as they came, unless one of the same device waits; it is announced by its
/// name either way, and the network is shown again where there is one.
pub proof fn law_join_request_waits(
    s: Session,
    node_id: String,
    hostname: String,
    sas: Vec<String>,
    next: Session,
)
    requires
        session_after(s, UiMsg::JoinRequest { node_id, hostname, sas }, next),
    ensures
        (forall|i: int| 0 <= i < s.pending@.len() ==> (#[trigger] s.pending@[i]).node_id@ != node_id@)
            ==> next.pending@ == s.pending@.push(PendingJoin { node_id, hostname, sas }),
        (exists|i: int| 0 <= i < s.pending@.len() && (#[trigger] s.pending@[i]).node_id@ == node_id@)
            ==> next.pending@ == s.pending@,
        next.status == s.status,
        next.editing_name == s.editing_name,
        next.told_tray == s.told_tray,
        noticed(s, UiMsg::JoinRequest { node_id, hostname, sas }) == seq![
            "“"@ + hostname@ + "” wants to join — approve in IPN"@,
        ],
        s.status is Some ==> shown(s, UiMsg::JoinRequest { node_id, hostname, sas }) == Show::Network,
        s.status is None ==> shown(s, UiMsg::JoinRequest { node_id, hostname, sas }) == Show::Nothing,
{
}

/// Tickets, recovery codes, words to compare and passing texts are shown as they
/// came, a refresh shows the network where there is one, and none of them changes
/// what the client knows or announces anything.
pub proof fn law_other_messages_are_only_shown(s: Session, msg: UiMsg, next: Session)
    requires
        session_after(s, msg, next),
        !(msg is Status || msg is DaemonDown || msg is VersionMismatch || msg is JoinRequest),
    ensures
        next == s,
        noticed(s, msg).len() == 0,
        msg matches UiMsg::Ticket(t) ==> shown(s, msg) == Show::Ticket(t),
        msg matches UiMsg::Recovery(code) ==> shown(s, msg) == Show::Recovery(code),
        msg matches UiMsg::JoinSas(sas) ==> shown(s, msg) == Show::JoinSas(sas),
        msg matches UiMsg::Toast(t) ==> shown(s, msg) == Show::Toast(t),
        msg is Refresh && s.status is Some ==> shown(s, msg) == Show::Network,
        msg is Refresh && s.status is None ==> shown(s, msg) == Show::Nothing,
{
}

/// Whether a member is another device that is online now and was not online, under
/// its id, among the members reported before.
pub open spec fn newly_online(prev: Seq<MemberView>) -> spec_fn(MemberView) -> bool {
    |m: MemberView|
        !m.is_self && m.online && forall|i: int|
            0 <= i < prev.len() && (#[trigger] prev[i]).node_id@ == m.node_id@ ==> !prev[i].online
}

/// The announcements are those of the members that are newly online, in order.
proof fn lemma_came_online(prev: Seq<MemberView>, new: Seq<MemberView>)
    ensures
        came_online(prev, new) == new.filter(newly_online(prev)).map_values(
            |m: MemberView| pages::display_name(m) + " came online"@,
        ),
    decreases new.len(),
{
    reveal(Seq::filter);
    let p = newly_online(prev);
    let f = |m: MemberView| pages::display_name(m) + " came online"@;
    if new.len() == 0 {
        assert(new.filter(p).map_values(f) =~= Seq::<Seq<char>>::empty());
    } else {
        let m = new.last();
        let rest = new.drop_last();
        lemma_came_online(prev, rest);
        if was_online(prev, m.node_id@) {
            let i = choose|i: int| 0 <= i < prev.len() && (#[trigger] prev[i]).node_id@ == m.node_id@ && prev[i].online;
            assert(!p(m));
        } else if !m.is_self && m.online {
            assert(p(m));
        }
        if p(m) {
            assert(new.filter(p) =~= rest.filter(p).push(m));
            assert(rest.filter(p).push(m).map_values(f) =~= rest.filter(p).map_values(f).push(f(m)));
        } else {
            assert(new.filter(p) =~= rest.filter(p));
        }
    }
}

/// Where a status was known before, a new one announces exactly the other devices
/// that have come online since, each once, by name and in the order of the members.
pub proof fn law_newly_online_devices_are_announced(s: Session, prev: NetworkStatus, status: NetworkStatus)
    requires
        s.status == Some(prev),
    ensures
        noticed(s, UiMsg::Status(Some(status))) == status.members@.filter(
            newly_online(prev.members@),
        ).map_values(|m: MemberView| pages::display_name(m) + " came online"@),
{
    lemma_came_online(prev.members@, status.members@);
}

/// The announcements that are computed are those of the devices that have come
/// online; without a status before there are none.
pub proof fn law_announcements_are_computed(
    prev: &Option<NetworkStatus>,
    new: &NetworkStatus,
    r: Vec<String>,
)
    requires
        call_ensures(notify_newly_online, (prev, new), r),
    ensures
        *prev is None ==> r@.len() == 0,
        *prev matches Some(p) ==> r@.len() == new.members@.filter(newly_online(p.members@)).len(),
        *prev matches Some(p) ==> forall|i: int|
            0 <= i < r@.len() ==> (#[trigger] r@[i])@ == pages::display_name(
                new.members@.filter(newly_online(p.members@))[i],
            ) + " came online"@,
{
    assert(text::texts(r@).len() == r@.len());
    match *prev {
        Some(p) => {
            lemma_came_online(p.members@, new.members@);
            assert forall|i: int| 0 <= i < r@.len() implies (#[trigger] r@[i])@ == pages::display_name(
                new.members@.filter(newly_online(p.members@))[i],
            ) + " came online"@ by {
                assert(text::texts(r@)[i] == r@[i]@);
            }
        },
        None => {},
    }
}

/// The requests that stay when one is decided on are exactly those of other
/// devices, in their order.
pub proof fn law_other_requests_stay_in_order(pending: Seq<PendingJoin>, node_id: Seq<char>)
    ensures
        pending.filter(not_of(node_id)) == pending.filter(|p: PendingJoin| p.node_id@ != node_id),
{
    lemma_filter_alike(pending, not_of(node_id), |p: PendingJoin| p.node_id@ != node_id);
}

/// Each waiting request has a row that names the device, shows its code and leads
/// to it, in the order of the requests.
pub proof fn law_each_request_has_a_row(pending: &Vec<PendingJoin>, r: Vec<RequestRow>, i: int)
    requires
        call_ensures(request_rows, (pending,), r),
        0 <= i < pending@.len(),
    ensures
        r@.len() == pending@.len(),
        r@[i].title@ == "“"@ + pending@[i].hostname@ + "” wants to join"@,
        r@[i].subtitle@ == text::joined(text::texts(pending@[i].sas@), "  "@),
        r@[i].node_id@ == pending@[i].node_id@,
{
    assert(r@[i].node_id@ == pending@[i].node_id@);
}

/// Approving a device asks the service to admit that device and takes its requests
/// off the list, those and no others.
pub proof fn law_approval_asks_for_the_device(s: &mut Session, node_id: String, r: IpcRequest)
    requires
        call_ensures(Session::approve, (s, node_id), r),
    ensures
        r == (IpcRequest::ApproveJoin { node_id }),
        final(s).pending@ == old(s).pending@.filter(|p: PendingJoin| p.node_id@ != node_id@),
        final(s).status == old(s).status,
        final(s).editing_name == old(s).editing_name,
        final(s).told_tray == old(s).told_tray,
{
    law_other_requests_stay_in_order(old(s).pending@, node_id@);
}

/// Denying a device tells the service so of that device, says so in passing, and
/// takes its requests off the list, those and no others.
pub proof fn law_denial_names_the_device(s: &mut Session, node_id: String, r: (IpcRequest, &'static str))
    requires
        call_ensures(Session::deny, (s, node_id), r),
    ensures
        r.0 == (IpcRequest::DenyJoin { node_id }),
        r.1@ == "Join denied"@,
        final(s).pending@ == old(s).pending@.filter(|p: PendingJoin| p.node_id@ != node_id@),
        final(s).status == old(s).status,
        final(s).editing_name == old(s).editing_name,
        final(s).told_tray == old(s).told_tray,
{
    law_other_requests_stay_in_order(old(s).pending@, node_id@);
}

/// Committing a name ends the edit; the network is renamed exactly if something
/// other than white space was typed, and the name has no white space around it.
pub proof fn law_committed_names_are_not_blank(s: &mut Session, typed: &str, r: NameEdit)
    requires
        call_ensures(Session::commit_name, (s, typed), r),
    ensures
        !final(s).editing_name,
        final(s).status == old(s).status,
        final(s).pending == old(s).pending,
        final(s).told_tray == old(s).told_tray,
        (exists|i: int| 0 <= i < typed@.len() && !text::is_white(#[trigger] typed@[i])) ==> r is Rename,
        (forall|i: int| 0 <= i < typed@.len() ==> text::is_white(#[trigger] typed@[i])) ==> r is Refresh,
        r matches NameEdit::Rename(name) ==> name@ == text::trimmed(typed@) && name@.len() > 0,
{
    text::lemma_trim_cut(typed@);
}

/// Cancelling ends the edit and keeps the name.
pub proof fn law_cancelled_names_are_kept(s: &mut Session, r: NameEdit)
    requires
        call_ensures(Session::cancel_name, (s,), r),
    ensures
        !final(s).editing_name,
        r is Refresh,
        final(s).status == old(s).status,
        final(s).pending == old(s).pending,
        final(s).told_tray == old(s).told_tray,
{
}

/// Editing begins when it is asked for, and changes nothing else.
pub proof fn law_editing_begins(s: &mut Session)
    requires
        call_ensures(Session::edit_name, (s,), ()),
    ensures
        final(s).editing_name,
        final(s).status == old(s).status,
        final(s).pending == old(s).pending,
        final(s).told_tray == old(s).told_tray,
{
}

/// The user is told once that the client stays in the tray: the first time the
/// window is closed, and never again.
pub proof fn law_the_tray_is_mentioned_once(s: &mut Session, r: Option<&'static str>)
    requires
        call_ensures(Session::hide_to_tray, (s,), r),
    ensures
        old(s).told_tray ==> r is None,
        !old(s).told_tray ==> (r matches Some(t) && t@
            == "Still running in the tray — click the tray icon to reopen, or “Quit IPN” to disconnect."@),
        forall|again: Option<&'static str>, later: &mut Session|
            *later == *final(s) && #[trigger] call_ensures(Session::hide_to_tray, (later,), again)
                ==> again is None,
        final(s).status == old(s).status,
        final(s).pending == old(s).pending,
        final(s).editing_name == old(s).editing_name,
{
}

/// A client that has just started knows nothing, waits for nothing, edits nothing
/// and has told nothing.
pub proof fn law_new_sessions_are_blank(r: Session)
    requires
        call_ensures(Session::new, (), r),
    ensures
        r.status is None,
        r.pending@.len() == 0,
        !r.editing_name,
        !r.told_tray,
{
}

/// A status is remembered and clears away the requests of its members, a join
/// request waits unless one of its device does, the loss of the service forgets the
/// status, and nothing else changes; devices that come online and join requests are
/// announced, and nothing else is.
pub proof fn law_messages_are_handled(s: &mut Session, msg: UiMsg, r: Effects)
    requires
        call_ensures(Session::handle, (s, msg), r),
    ensures
        msg matches UiMsg::Status(status) ==> final(s).status == status,
        msg matches UiMsg::Status(Some(status)) ==> final(s).pending@ == old(s).pending@.filter(
            |p: PendingJoin|
                forall|i: int|
                    0 <= i < status.members@.len() ==> (#[trigger] status.members@[i]).node_id@ != p.node_id@,
        ),
        msg is DaemonDown || msg is VersionMismatch ==> final(s).status is None,
        !(msg is Status || msg is DaemonDown || msg is VersionMismatch) ==> final(s).status == old(
            s,
        ).status,
        !(msg is JoinRequest) && !(msg matches UiMsg::Status(Some(_))) ==> final(s).pending@ == old(
            s,
        ).pending@,
        final(s).editing_name == old(s).editing_name,
        final(s).told_tray == old(s).told_tray,
        r.show == shown(*old(s), msg),
        msg matches UiMsg::JoinRequest { hostname, .. } ==> r.notices@.len() == 1 && r.notices@[0]@ == "“"@
            + hostname@ + "” wants to join — approve in IPN"@,
        !(msg is JoinRequest || msg is Status) ==> r.notices@.len() == 0,
        old(s).status is None && msg is Status ==> r.notices@.len() == 0,
        msg == UiMsg::Status(None) ==> r.notices@.len() == 0,
        msg matches UiMsg::JoinRequest { node_id, hostname, sas } ==> {
            &&& (forall|i: int|
                0 <= i < old(s).pending@.len() ==> (#[trigger] old(s).pending@[i]).node_id@ != node_id@)
                ==> final(s).pending@ == old(s).pending@.push(PendingJoin { node_id, hostname, sas })
            &&& (exists|i: int|
                0 <= i < old(s).pending@.len() && (#[trigger] old(s).pending@[i]).node_id@ == node_id@)
                ==> final(s).pending@ == old(s).pending@
        },
        msg matches UiMsg::Status(Some(status)) ==> (old(s).status matches Some(prev) ==> {
            &&& r.notices@.len() == status.members@.filter(newly_online(prev.members@)).len()
            &&& forall|i: int|
                0 <= i < r.notices@.len() ==> (#[trigger] r.notices@[i])@ == pages::display_name(
                    status.members@.filter(newly_online(prev.members@))[i],
                ) + " came online"@
        }),
{
    assert(text::texts(r.notices@).len() == r.notices@.len());
    if let UiMsg::Status(Some(status)) = msg {
        law_status_is_taken_in(*old(s), status, *final(s));
        if let Some(prev) = old(s).status {
            law_newly_online_devices_are_announced(*old(s), prev, status);
            assert forall|i: int| 0 <= i < r.notices@.len() implies (#[trigger] r.notices@[i])@
                == pages::display_name(status.members@.filter(newly_online(prev.members@))[i])
                + " came online"@ by {
                assert(text::texts(r.notices@)[i] == r.notices@[i]@);
            }
        }
    }
    if let UiMsg::JoinRequest { node_id, hostname, sas } = msg {
        law_join_request_waits(*old(s), node_id, hostname, sas, *final(s));
        assert(text::texts(r.notices@)[0] == r.notices@[0]@);
    }
}

} // verus!
