//! What the pages of the desktop client show.
//!
//! Each function takes the state that the service reported and gives the texts
//! and rows of a page, ready to be put into widgets.

use vstd::prelude::*;
use vstd::string::*;

use crate::ipc::{MemberView, NetworkStatus};
use crate::text;
use crate::text::{decimal_text, last_seen_text, short_id};

verus! {

/// An optional text, or a default in its place.
pub open spec fn text_or(o: Option<String>, default: Seq<char>) -> Seq<char> {
    match o {
        Some(s) => s@,
        None => default,
    }
}

/// An optional text, or a default in its place.
fn or_text(o: &Option<String>, default: &str) -> (r: String)
    ensures
        r@ == text_or(*o, default@),
{
    match o {
        Some(s) => s.clone(),
        None => String::from_str(default),
    }
}

/// The name that a member goes by: its friendly name, else its hostname, else a
/// short form of its id.
pub open spec fn display_name(m: MemberView) -> Seq<char> {
    match (m.label, m.hostname) {
        (Some(label), _) => label@,
        (None, Some(hostname)) => hostname@,
        (None, None) => text::shortened(m.node_id@),
    }
}

/// The name that a member goes by.
pub fn member_name(m: &MemberView) -> (r: String)
    ensures
        r@ == display_name(*m),
{
    match (&m.label, &m.hostname) {
        (Some(label), _) => label.clone(),
        (None, Some(hostname)) => hostname.clone(),
        (None, None) => short_id(m.node_id.as_str()),
    }
}

/// How many members pass a test.
pub open spec fn count(members: Seq<MemberView>, p: spec_fn(MemberView) -> bool) -> nat
    decreases members.len(),
{
    if members.len() == 0 {
        0
    } else {
        count(members.drop_last(), p) + if p(members.last()) {
            1nat
        } else {
            0nat
        }
    }
}

/// No more pass than there are.
proof fn lemma_count_bound(members: Seq<MemberView>, p: spec_fn(MemberView) -> bool)
    ensures
        count(members, p) <= members.len(),
    decreases members.len(),
{
    if members.len() > 0 {
        lemma_count_bound(members.drop_last(), p);
    }
}

// ---------------------------------------------------------------------------
// The main page
// ---------------------------------------------------------------------------

/// The banner over the main page, if anything is amiss.
pub open spec fn banner(online: bool, routing: bool) -> Option<Seq<char>> {
    if !online {
        Some("Disconnected — reopen the app to reconnect"@)
    } else if !routing {
        Some("Routing off — start the daemon elevated to carry traffic"@)
    } else {
        None
    }
}

/// The banner over the main page, if anything is amiss.
pub fn banner_text(s: &NetworkStatus) -> (r: Option<&'static str>)
    ensures
        match r {
            Some(t) => banner(s.online, s.routing) == Some(t@),
            None => banner(s.online, s.routing) is None,
        },
{
    if !s.online {
        Some("Disconnected — reopen the app to reconnect")
    } else if !s.routing {
        Some("Routing off — start the daemon elevated to carry traffic")
    } else {
        None
    }
}

/// The hostname of this device: that of the first member that is this device,
/// empty if there is none or it has none.
pub open spec fn self_host(members: Seq<MemberView>) -> Seq<char>
    decreases members.len(),
{
    if members.len() == 0 {
        Seq::empty()
    } else if members[0].is_self {
        text_or(members[0].hostname, Seq::empty())
    } else {
        self_host(members.drop_first())
    }
}

/// The hostname of this device.
fn own_host(members: &Vec<MemberView>) -> (r: String)
    ensures
        r@ == self_host(members@),
{
    let mut i: usize = 0;
    assert(members@.skip(0) =~= members@);
    while i < members.len()
        invariant
            i <= members@.len(),
            self_host(members@) == self_host(members@.skip(i as int)),
        decreases members@.len() - i,
    {
        let m = &members[i];
        assert(members@.skip(i as int)[0] == m);
        assert(members@.skip(i as int).drop_first() =~= members@.skip(i + 1));
        if m.is_self {
            return match &m.hostname {
                Some(h) => h.clone(),
                None => String::new(),
            };
        }
        i = i + 1;
    }
    String::new()
}

/// The title of the card for this device.
pub open spec fn self_title(s: NetworkStatus) -> Seq<char> {
    text_or(s.self_label, "This device"@)
}

/// The line under the title of the card for this device: hostname, address, role
/// and whether traffic is routed.
pub open spec fn self_subtitle(s: NetworkStatus) -> Seq<char> {
    self_host(s.members@) + (match s.self_ip {
        Some(ip) => " · "@ + ip@,
        None => Seq::empty(),
    }) + (if s.is_originator {
        " · originator"@
    } else {
        Seq::empty()
    }) + " · routing "@ + (if s.routing {
        "on"@
    } else {
        "off"@
    })
}

/// The card for this device.
pub struct SelfCard {
    pub title: String,
    pub subtitle: String,
}

/// The card for this device.
pub fn self_card(s: &NetworkStatus) -> (r: SelfCard)
    ensures
        r.title@ == self_title(*s),
        r.subtitle@ == self_subtitle(*s),
{
    let title = or_text(&s.self_label, "This device");
    let mut subtitle = own_host(&s.members);
    let ghost host = subtitle@;
    if let Some(ip) = &s.self_ip {
        subtitle.append(" · ");
        subtitle.append(ip.as_str());
        assert(subtitle@ =~= host + (" · "@ + ip@));
    } else {
        assert(subtitle@ =~= host + Seq::<char>::empty());
    }
    let ghost with_ip = subtitle@;
    if s.is_originator {
        subtitle.append(" · originator");
    } else {
        assert(subtitle@ =~= with_ip + Seq::<char>::empty());
    }
    subtitle.append(" · routing ");
    subtitle.append(if s.routing { "on" } else { "off" });
    SelfCard { title, subtitle }
}

/// What a section row of the main page opens.
#[derive(Clone, Copy, PartialEq, Eq, Structural, Debug)]
pub enum Section {
    Requests,
    Diagnostics,
    Ticket,
    Administration,
}

/// A section row of the main page.
pub struct SectionRow {
    pub opens: Section,
    pub title: &'static str,
    pub subtitle: String,
    pub icon: &'static str,
}

/// Whether a row opens a section and reads so.
pub open spec fn reads(
    row: SectionRow,
    opens: Section,
    title: Seq<char>,
    subtitle: Seq<char>,
    icon: Seq<char>,
) -> bool {
    row.opens == opens && row.title@ == title && row.subtitle@ == subtitle && row.icon@ == icon
}

/// Whether these are the rows of the sections that are always there.
pub open spec fn standing_sections(rows: Seq<SectionRow>) -> bool {
    &&& rows.len() == 3
    &&& reads(
        rows[0],
        Section::Diagnostics,
        "Diagnostics"@,
        "Relay, connection paths, routing"@,
        "network-wired-symbolic"@,
    )
    &&& reads(
        rows[1],
        Section::Ticket,
        "Show join ticket"@,
        "Invite another device"@,
        "send-to-symbolic"@,
    )
    &&& reads(
        rows[2],
        Section::Administration,
        "Administration"@,
        "Freeze, rotate, recovery, delete/leave"@,
        "emblem-system-symbolic"@,
    )
}

/// The section rows of the main page. Join requests have a row only while some
/// are waiting.
pub fn section_rows(n_pending: usize) -> (r: Vec<SectionRow>)
    ensures
        n_pending == 0 ==> standing_sections(r@),
        n_pending > 0 ==> r@.len() == 4 && reads(
            r@[0],
            Section::Requests,
            "Join requests"@,
            text::decimal(n_pending as nat) + " waiting"@,
            "dialog-question-symbolic"@,
        ) && standing_sections(r@.skip(1)),
{
    let mut rows: Vec<SectionRow> = Vec::new();
    if n_pending > 0 {
        rows.push(
            SectionRow {
                opens: Section::Requests,
                title: "Join requests",
                subtitle: decimal_text(n_pending as u64).concat(" waiting"),
                icon: "dialog-question-symbolic",
            },
        );
    }
    rows.push(
        SectionRow {
            opens: Section::Diagnostics,
            title: "Diagnostics",
            subtitle: String::from_str("Relay, connection paths, routing"),
            icon: "network-wired-symbolic",
        },
    );
    rows.push(
        SectionRow {
            opens: Section::Ticket,
            title: "Show join ticket",
            subtitle: String::from_str("Invite another device"),
            icon: "send-to-symbolic",
        },
    );
    rows.push(
        SectionRow {
            opens: Section::Administration,
            title: "Administration",
            subtitle: String::from_str("Freeze, rotate, recovery, delete/leave"),
            icon: "emblem-system-symbolic",
        },
    );
    rows
}

/// The other devices among the members.
pub open spec fn is_other() -> spec_fn(MemberView) -> bool {
    |m: MemberView| !m.is_self
}

/// The line under the heading of the member list.
pub fn members_description(s: &NetworkStatus) -> (r: String)
    ensures
        r@ == text::decimal(count(s.members@, is_other())) + " other device(s)"@,
{
    let mut n: usize = 0;
    let mut i: usize = 0;
    assert(s.members@.take(0) =~= Seq::<MemberView>::empty());
    while i < s.members.len()
        invariant
            i <= s.members@.len(),
            n == count(s.members@.take(i as int), is_other()),
            n <= i,
        decreases s.members@.len() - i,
    {
        assert(s.members@.take(i + 1).drop_last() =~= s.members@.take(i as int));
        if !s.members[i].is_self {
            n = n + 1;
        }
        i = i + 1;
    }
    assert(s.members@.take(i as int) =~= s.members@);
    decimal_text(n as u64).concat(" other device(s)")
}

/// Online or offline, in a word.
pub open spec fn presence(online: bool) -> Seq<char> {
    if online {
        "Online"@
    } else {
        "Offline"@
    }
}

/// Online or offline, in a word.
pub fn presence_text(online: bool) -> (r: &'static str)
    ensures
        r@ == presence(online),
{
    if online {
        "Online"
    } else {
        "Offline"
    }
}

/// The line under a member's name: the hostname if the name is not it, the
/// address, and the connection or when it was last seen.
pub open spec fn member_subtitle(m: MemberView, now: u64) -> Seq<char> {
    (match (m.label, m.hostname) {
        (Some(_), Some(h)) => h@ + " · "@,
        _ => Seq::empty(),
    }) + text_or(m.virtual_ip, "(no IP)"@) + (if m.online {
        match m.direct {
            Some(true) => " · direct"@,
            Some(false) => " · relay"@,
            None => Seq::empty(),
        }
    } else {
        " · last seen "@ + text::last_seen(m.last_seen, now)
    })
}

/// The line under a member's name.
fn member_line(m: &MemberView, now: u64) -> (r: String)
    ensures
        r@ == member_subtitle(*m, now),
{
    let mut line = String::new();
    match (&m.label, &m.hostname) {
        (Some(_), Some(h)) => {
            line.append(h.as_str());
            line.append(" · ");
            assert(line@ =~= h@ + " · "@);
        },
        _ => {},
    }
    line.append(or_text(&m.virtual_ip, "(no IP)").as_str());
    let ghost front = line@;
    if m.online {
        match m.direct {
            Some(true) => line.append(" · direct"),
            Some(false) => line.append(" · relay"),
            None => {
                assert(line@ =~= front + Seq::<char>::empty());
            },
        }
    } else {
        let seen = last_seen_text(m.last_seen, now);
        line.append(" · last seen ");
        line.append(seen.as_str());
        assert(line@ =~= front + (" · last seen "@ + seen@));
    }
    line
}

/// A row of the member list.
pub struct MemberRow {
    /// The position of the member in the status.
    pub index: usize,
    pub title: String,
    pub subtitle: String,
    pub online: bool,
}

/// What a [`MemberRow`] says.
pub struct MemberRowModel {
    pub index: int,
    pub title: Seq<char>,
    pub subtitle: Seq<char>,
    pub online: bool,
}

impl View for MemberRow {
    type V = MemberRowModel;

    open spec fn view(&self) -> MemberRowModel {
        MemberRowModel {
            index: self.index as int,
            title: self.title@,
            subtitle: self.subtitle@,
            online: self.online,
        }
    }
}

/// What each of a list of rows says.
pub open spec fn member_row_models(rows: Seq<MemberRow>) -> Seq<MemberRowModel> {
    Seq::new(rows.len(), |i: int| rows[i]@)
}

/// The rows of the member list: one for each other device, in order.
pub open spec fn member_list(members: Seq<MemberView>, now: u64) -> Seq<MemberRowModel>
    decreases members.len(),
{
    if members.len() == 0 {
        Seq::empty()
    } else {
        let m = members.last();
        let front = member_list(members.drop_last(), now);
        if m.is_self {
            front
        } else {
            front.push(
                MemberRowModel {
                    index: members.len() - 1,
                    title: display_name(m),
                    subtitle: member_subtitle(m, now),
                    online: m.online,
                },
            )
        }
    }
}

/// The rows of the member list, as seen at `now`.
pub fn member_rows(s: &NetworkStatus, now: u64) -> (r: Vec<MemberRow>)
    ensures
        member_row_models(r@) == member_list(s.members@, now),
{
    let mut rows: Vec<MemberRow> = Vec::new();
    let mut i: usize = 0;
    assert(s.members@.take(0) =~= Seq::<MemberView>::empty());
    assert(member_row_models(rows@) =~= Seq::<MemberRowModel>::empty());
    while i < s.members.len()
        invariant
            i <= s.members@.len(),
            member_row_models(rows@) == member_list(s.members@.take(i as int), now),
        decreases s.members@.len() - i,
    {
        let m = &s.members[i];
        let ghost before = rows@;
        assert(s.members@.take(i + 1).drop_last() =~= s.members@.take(i as int));
        if !m.is_self {
            let row = MemberRow {
                index: i,
                title: member_name(m),
                subtitle: member_line(m, now),
                online: m.online,
            };
            rows.push(row);
            assert(member_row_models(rows@) =~= member_row_models(before).push(row@));
        }
        i = i + 1;
    }
    assert(s.members@.take(i as int) =~= s.members@);
    rows
}

// ---------------------------------------------------------------------------
// Properties: the diagnostics page and the detail page of a member
// ---------------------------------------------------------------------------

/// What can be copied from a property row.
#[derive(Clone, Copy, PartialEq, Eq, Structural, Debug)]
pub enum Copying {
    Nothing,
    VirtualIp,
    NodeId,
}

/// A row with a title and a value.
pub struct Property {
    pub title: &'static str,
    pub value: String,
    pub copying: Copying,
}

/// What a [`Property`] says.
pub struct PropertyModel {
    pub title: Seq<char>,
    pub value: Seq<char>,
    pub copying: Copying,
}

impl View for Property {
    type V = PropertyModel;

    open spec fn view(&self) -> PropertyModel {
        PropertyModel { title: self.title@, value: self.value@, copying: self.copying }
    }
}

/// What each of a list of rows says.
pub open spec fn property_models(rows: Seq<Property>) -> Seq<PropertyModel> {
    Seq::new(rows.len(), |i: int| rows[i]@)
}

/// A row from which nothing is copied.
pub open spec fn plain(title: Seq<char>, value: Seq<char>) -> PropertyModel {
    PropertyModel { title, value, copying: Copying::Nothing }
}

/// Add a row.
fn put(rows: &mut Vec<Property>, title: &'static str, value: String, copying: Copying)
    ensures
        property_models(final(rows)@) == property_models(old(rows)@) + seq![
            PropertyModel { title: title@, value: value@, copying },
        ],
{
    rows.push(Property { title, value, copying });
    assert(property_models(rows@) =~= property_models(old(rows)@) + seq![
        PropertyModel { title: title@, value: value@, copying },
    ]);
}

/// The other devices that are online over a direct connection, or over a relay.
pub open spec fn is_connected(direct: bool) -> spec_fn(MemberView) -> bool {
    |m: MemberView| !m.is_self && m.online && m.direct == Some(direct)
}

/// How many other devices are online over a direct connection, or over a relay.
fn connected(members: &Vec<MemberView>, direct: bool) -> (r: usize)
    ensures
        r == count(members@, is_connected(direct)),
{
    let mut n: usize = 0;
    let mut i: usize = 0;
    assert(members@.take(0) =~= Seq::<MemberView>::empty());
    while i < members.len()
        invariant
            i <= members@.len(),
            n == count(members@.take(i as int), is_connected(direct)),
            n <= i,
        decreases members@.len() - i,
    {
        let m = &members[i];
        assert(members@.take(i + 1).drop_last() =~= members@.take(i as int));
        if !m.is_self && m.online {
            if let Some(d) = m.direct {
                if d == direct {
                    n = n + 1;
                }
            }
        }
        i = i + 1;
    }
    assert(members@.take(i as int) =~= members@);
    n
}

/// The rows of the diagnostics page.
pub open spec fn diagnostics(s: NetworkStatus) -> Seq<PropertyModel> {
    seq![
        plain("Home relay"@, text_or(s.home_relay, "—"@)),
        plain(
            "Connections"@,
            text::decimal(count(s.members@, is_connected(true))) + " direct · "@ + text::decimal(
                count(s.members@, is_connected(false)),
            ) + " via relay"@,
        ),
        plain(
            "Routing (TUN)"@,
            if s.routing {
                "on — carrying traffic"@
            } else {
                "off — needs the elevated daemon"@
            },
        ),
        plain("This device"@, s.self_node_id@),
    ]
}

/// The rows of the diagnostics page.
pub fn diag_rows(s: &NetworkStatus) -> (r: Vec<Property>)
    ensures
        property_models(r@) == diagnostics(*s),
{
    let mut rows: Vec<Property> = Vec::new();
    put(&mut rows, "Home relay", or_text(&s.home_relay, "—"), Copying::Nothing);
    let direct: usize = connected(&s.members, true);
    let relayed: usize = connected(&s.members, false);
    let mut paths = decimal_text(direct as u64);
    paths.append(" direct · ");
    paths.append(decimal_text(relayed as u64).as_str());
    paths.append(" via relay");
    put(&mut rows, "Connections", paths, Copying::Nothing);
    let routing = if s.routing {
        "on — carrying traffic"
    } else {
        "off — needs the elevated daemon"
    };
    put(&mut rows, "Routing (TUN)", String::from_str(routing), Copying::Nothing);
    put(&mut rows, "This device", s.self_node_id.clone(), Copying::Nothing);
    assert(property_models(rows@) =~= diagnostics(*s));
    rows
}

/// How a member is connected, in words.
pub open spec fn connection(direct: Option<bool>) -> Seq<char> {
    match direct {
        Some(true) => "Direct (peer-to-peer)"@,
        Some(false) => "Via relay"@,
        None => "—"@,
    }
}

/// A row, if there is a value for it.
pub open spec fn row_if(title: Seq<char>, value: Option<String>, copying: Copying) -> Seq<PropertyModel> {
    match value {
        Some(v) => seq![PropertyModel { title, value: v@, copying }],
        None => Seq::empty(),
    }
}

/// The rows of the detail page of a member.
pub open spec fn details(m: MemberView, now: u64) -> Seq<PropertyModel> {
    row_if("Friendly name"@, m.label, Copying::Nothing) + seq![
        plain("Hostname"@, text_or(m.hostname, "—"@)),
    ] + seq![plain("Status"@, presence(m.online))] + (if m.online {
        Seq::empty()
    } else {
        seq![plain("Last seen"@, text::last_seen(m.last_seen, now))]
    }) + row_if("Virtual IP"@, m.virtual_ip, Copying::VirtualIp) + (if m.online {
        seq![plain("Connection"@, connection(m.direct))]
    } else {
        Seq::empty()
    }) + row_if("Observed address"@, m.observed_addr, Copying::Nothing) + seq![
        PropertyModel { title: "Node ID"@, value: m.node_id@, copying: Copying::NodeId },
    ]
}

/// Add a row, if there is a value for it.
fn put_if(rows: &mut Vec<Property>, title: &'static str, value: &Option<String>, copying: Copying)
    ensures
        property_models(final(rows)@) == property_models(old(rows)@) + row_if(title@, *value, copying),
{
    match value {
        Some(v) => put(rows, title, v.clone(), copying),
        None => {
            assert(property_models(rows@) =~= property_models(rows@) + Seq::<PropertyModel>::empty());
        },
    }
}

/// The detail page of a member.
pub struct DetailPage {
    pub title: String,
    pub rows: Vec<Property>,
    /// Whether the page offers to remove the member.
    pub kick: bool,
}

/// The detail page of a member, as seen at `now`. Removing the member is offered
/// to the originator only.
pub fn member_detail(m: &MemberView, is_originator: bool, now: u64) -> (r: DetailPage)
    ensures
        r.title@ == display_name(*m),
        property_models(r.rows@) == details(*m, now),
        r.kick == is_originator,
{
    let mut rows: Vec<Property> = Vec::new();
    put_if(&mut rows, "Friendly name", &m.label, Copying::Nothing);
    assert(property_models(rows@) =~= row_if("Friendly name"@, m.label, Copying::Nothing));
    put(&mut rows, "Hostname", or_text(&m.hostname, "—"), Copying::Nothing);
    put(&mut rows, "Status", String::from_str(presence_text(m.online)), Copying::Nothing);
    if !m.online {
        put(&mut rows, "Last seen", last_seen_text(m.last_seen, now), Copying::Nothing);
    } else {
        assert(property_models(rows@) =~= property_models(rows@) + Seq::<PropertyModel>::empty());
    }
    put_if(&mut rows, "Virtual IP", &m.virtual_ip, Copying::VirtualIp);
    if m.online {
        let path = match m.direct {
            Some(true) => "Direct (peer-to-peer)",
            Some(false) => "Via relay",
            None => "—",
        };
        put(&mut rows, "Connection", String::from_str(path), Copying::Nothing);
    } else {
        assert(property_models(rows@) =~= property_models(rows@) + Seq::<PropertyModel>::empty());
    }
    put_if(&mut rows, "Observed address", &m.observed_addr, Copying::Nothing);
    put(&mut rows, "Node ID", m.node_id.clone(), Copying::NodeId);
    DetailPage { title: member_name(m), rows, kick: is_originator }
}

/// The tooltip of the copy button on a row, and the toast after it is pressed;
/// none where there is no button.
pub fn copy_texts(copying: Copying) -> (r: Option<(&'static str, &'static str)>)
    ensures
        match copying {
            Copying::Nothing => r is None,
            Copying::VirtualIp => r matches Some((tip, toast)) && tip@ == "Copy virtual IP"@ && toast@
                == "Virtual IP copied"@,
            Copying::NodeId => r matches Some((tip, toast)) && tip@ == "Copy node ID"@ && toast@
                == "Node ID copied"@,
        },
{
    match copying {
        Copying::Nothing => None,
        Copying::VirtualIp => Some(("Copy virtual IP", "Virtual IP copied")),
        Copying::NodeId => Some(("Copy node ID", "Node ID copied")),
    }
}

// ---------------------------------------------------------------------------
// The administration page
// ---------------------------------------------------------------------------

/// What a row of the administration page does.
#[derive(Clone, Copy, PartialEq, Eq, Structural, Debug)]
pub enum AdminAction {
    /// A switch that freezes the membership; it shows whether it is frozen.
    Freeze { active: bool },
    Rotate,
    Backup,
    Restore,
    Destroy,
}

/// A row of the administration page.
pub struct AdminRow {
    pub action: AdminAction,
    pub title: &'static str,
    pub subtitle: &'static str,
}

/// What an [`AdminRow`] says.
pub struct AdminRowModel {
    pub action: AdminAction,
    pub title: Seq<char>,
    pub subtitle: Seq<char>,
}

impl View for AdminRow {
    type V = AdminRowModel;

    open spec fn view(&self) -> AdminRowModel {
        AdminRowModel { action: self.action, title: self.title@, subtitle: self.subtitle@ }
    }
}

/// What each of a list of rows says.
pub open spec fn admin_row_models(rows: Seq<AdminRow>) -> Seq<AdminRowModel> {
    Seq::new(rows.len(), |i: int| rows[i]@)
}

/// The rows of the administration page: the powers of the originator, or the way
/// to gain them.
pub open spec fn administration(is_originator: bool, frozen: bool) -> Seq<AdminRowModel> {
    if is_originator {
        seq![
            AdminRowModel {
                action: AdminAction::Freeze { active: frozen },
                title: "Freeze membership"@,
                subtitle: "No new devices can join while frozen"@,
            },
            AdminRowModel {
                action: AdminAction::Rotate,
                title: "Rotate secret (re-key)"@,
                subtitle: "Removes everyone; mints a fresh ticket"@,
            },
            AdminRowModel {
                action: AdminAction::Backup,
                title: "Back up originator key"@,
                subtitle: "Save a recovery code to restore admin elsewhere"@,
            },
        ]
    } else {
        seq![
            AdminRowModel {
                action: AdminAction::Restore,
                title: "Restore originator access…"@,
                subtitle: "Paste a recovery code to gain admin powers"@,
            },
        ]
    }
}

/// The rows of the administration page.
pub fn admin_rows(s: &NetworkStatus) -> (r: Vec<AdminRow>)
    ensures
        admin_row_models(r@) == administration(s.is_originator, s.frozen),
{
    let mut rows: Vec<AdminRow> = Vec::new();
    if s.is_originator {
        rows.push(
            AdminRow {
                action: AdminAction::Freeze { active: s.frozen },
                title: "Freeze membership",
                subtitle: "No new devices can join while frozen",
            },
        );
        rows.push(
            AdminRow {
                action: AdminAction::Rotate,
                title: "Rotate secret (re-key)",
                subtitle: "Removes everyone; mints a fresh ticket",
            },
        );
        rows.push(
            AdminRow {
                action: AdminAction::Backup,
                title: "Back up originator key",
                subtitle: "Save a recovery code to restore admin elsewhere",
            },
        );
    } else {
        rows.push(
            AdminRow {
                action: AdminAction::Restore,
                title: "Restore originator access…",
                subtitle: "Paste a recovery code to gain admin powers",
            },
        );
    }
    assert(admin_row_models(rows@) =~= administration(s.is_originator, s.frozen));
    rows
}

/// The row at the bottom of the administration page: the originator can delete
/// the network, everyone else can leave it.
pub fn danger_row(s: &NetworkStatus) -> (r: AdminRow)
    ensures
        r@ == (AdminRowModel {
            action: AdminAction::Destroy,
            title: if s.is_originator {
                "Delete network"@
            } else {
                "Leave network"@
            },
            subtitle: if s.is_originator {
                "Dissolve the network for everyone"@
            } else {
                "Leave on this device only"@
            },
        }),
{
    AdminRow {
        action: AdminAction::Destroy,
        title: if s.is_originator {
            "Delete network"
        } else {
            "Leave network"
        },
        subtitle: if s.is_originator {
            "Dissolve the network for everyone"
        } else {
            "Leave on this device only"
        },
    }
}

// ---------------------------------------------------------------------------
// Placeholders
// ---------------------------------------------------------------------------

/// A full page in place of the network.
#[derive(Clone, Copy, PartialEq, Eq, Structural, Debug)]
pub enum Placeholder {
    /// Nothing was heard from the service yet.
    Connecting,
    /// There is no network.
    Empty,
    /// The service cannot be reached.
    DaemonDown,
    /// The service speaks another version of the protocol.
    VersionMismatch { daemon: u32, gui: u32 },
}

/// The heading of a placeholder.
pub open spec fn placeholder_heading(p: Placeholder) -> Seq<char> {
    match p {
        Placeholder::Connecting => "Connecting…"@,
        Placeholder::Empty => "No network yet"@,
        Placeholder::DaemonDown => "Service not running"@,
        Placeholder::VersionMismatch { .. } => "Version mismatch"@,
    }
}

/// The text of a placeholder.
pub open spec fn placeholder_body(p: Placeholder) -> Seq<char> {
    match p {
        Placeholder::Connecting => "Reaching the IPN background service."@,
        Placeholder::Empty => "Create a private network for your own devices, or join one with a ticket."@,
        Placeholder::DaemonDown => "The privileged ipn-daemon isn't reachable. Start it (Windows: the IPN service; Linux: the daemon / systemd service). This window reconnects automatically."@,
        Placeholder::VersionMismatch { daemon, gui } => "The app (IPC v"@ + text::decimal(gui as nat)
            + ") and the background service (IPC v"@ + text::decimal(daemon as nat)
            + ") are different versions. Update both IPN components to the same release."@,
    }
}

/// The heading and the text of a placeholder.
pub fn placeholder_texts(p: Placeholder) -> (r: (&'static str, String))
    ensures
        r.0@ == placeholder_heading(p),
        r.1@ == placeholder_body(p),
{
    match p {
        Placeholder::Connecting => (
            "Connecting…",
            String::from_str("Reaching the IPN background service."),
        ),
        Placeholder::Empty => (
            "No network yet",
            String::from_str(
                "Create a private network for your own devices, or join one with a ticket.",
            ),
        ),
        Placeholder::DaemonDown => (
            "Service not running",
            String::from_str(
                "The privileged ipn-daemon isn't reachable. Start it (Windows: the IPN service; Linux: the daemon / systemd service). This window reconnects automatically.",
            ),
        ),
        Placeholder::VersionMismatch { daemon, gui } => {
            let mut body = String::from_str("The app (IPC v");
            body.append(decimal_text(gui as u64).as_str());
            body.append(") and the background service (IPC v");
            body.append(decimal_text(daemon as u64).as_str());
            body.append(
                ") are different versions. Update both IPN components to the same release.",
            );
            ("Version mismatch", body)
        },
    }
}

// ---------------------------------------------------------------------------
// Laws
// ---------------------------------------------------------------------------

/// The member list has a row for each other device, as many as the heading says,
/// and each row shows the device that it stands for.
pub proof fn law_every_other_device_has_a_row(members: Seq<MemberView>, now: u64)
    ensures
        member_list(members, now).len() == count(members, is_other()),
        forall|i: int|
            0 <= i < member_list(members, now).len() ==> {
                let row = #[trigger] member_list(members, now)[i];
                &&& 0 <= row.index < members.len()
                &&& !members[row.index].is_self
                &&& row.title == display_name(members[row.index])
                &&& row.online == members[row.index].online
            },
    decreases members.len(),
{
    if members.len() > 0 {
        let rest = members.drop_last();
        law_every_other_device_has_a_row(rest, now);
        assert forall|i: int| 0 <= i < member_list(members, now).len() implies {
            let row = #[trigger] member_list(members, now)[i];
            &&& 0 <= row.index < members.len()
            &&& !members[row.index].is_self
            &&& row.title == display_name(members[row.index])
            &&& row.online == members[row.index].online
        } by {
            if i < member_list(rest, now).len() {
                let row = member_list(rest, now)[i];
                assert(members[row.index] == rest[row.index]);
            }
        }
    }
}

/// The connections on the diagnostics page are no more than there are other
/// devices.
pub proof fn law_connections_are_among_the_others(members: Seq<MemberView>)
    ensures
        count(members, is_connected(true)) + count(members, is_connected(false)) <= count(
            members,
            is_other(),
        ) <= members.len(),
    decreases members.len(),
{
    lemma_count_bound(members, is_other());
    if members.len() > 0 {
        law_connections_are_among_the_others(members.drop_last());
    }
}

} // verus!
