//! What the pages of the desktop client say, in terms of what the service reported.
//!
//! These laws speak of the fields of a status and of its members, and of the texts
//! and rows that the functions of [`crate::pages`] make of them.

use vstd::prelude::*;

use crate::ipc::{MemberView, NetworkStatus};
use crate::pages;
use crate::pages::{
    AdminAction, AdminRow, Copying, DetailPage, MemberRow, Placeholder, Property, Section, SectionRow,
    SelfCard,
};
use crate::text;

verus! {

// ---------------------------------------------------------------------------
// Names and numbers
// ---------------------------------------------------------------------------

/// A device goes by its friendly name if it has one, else by its hostname, and
/// where it has neither by the first ten characters of its id.
pub proof fn law_devices_go_by_their_name(m: &MemberView, r: String)
    requires
        call_ensures(pages::member_name, (m,), r),
    ensures
        m.label matches Some(label) ==> r@ == label@,
        m.label is None ==> (m.hostname matches Some(hostname) ==> r@ == hostname@),
        m.label is None && m.hostname is None && m.node_id@.len() <= 10 ==> r@ == m.node_id@,
        m.label is None && m.hostname is None && m.node_id@.len() > 10 ==> r@ == m.node_id@.take(10),
        pages::display_name(*m) == r@,
{
    assert(m.node_id@.len() == 10 ==> m.node_id@.take(10) =~= m.node_id@);
}

/// Counting counts those that pass, and no others.
pub proof fn law_counting_is_filtering(members: Seq<MemberView>, p: spec_fn(MemberView) -> bool)
    ensures
        pages::count(members, p) == members.filter(p).len(),
    decreases members.len(),
{
    reveal(Seq::filter);
    if members.len() > 0 {
        law_counting_is_filtering(members.drop_last(), p);
    }
}

/// Tests that agree on every member leave the same members.
proof fn lemma_filter_alike(
    s: Seq<MemberView>,
    p: spec_fn(MemberView) -> bool,
    q: spec_fn(MemberView) -> bool,
)
    requires
        forall|x: MemberView| #[trigger] p(x) == q(x),
    ensures
        s.filter(p) == s.filter(q),
    decreases s.len(),
{
    reveal(Seq::filter);
    if s.len() > 0 {
        lemma_filter_alike(s.drop_last(), p, q);
        assert(p(s.last()) == q(s.last()));
    }
}

// ---------------------------------------------------------------------------
// The main page
// ---------------------------------------------------------------------------

/// The banner says that the device is disconnected, else that it does not route,
/// and is not there where it does both.
pub proof fn law_banner_says_what_is_amiss(s: &NetworkStatus, r: Option<&'static str>)
    requires
        call_ensures(pages::banner_text, (s,), r),
    ensures
        !s.online ==> (r matches Some(t) && t@ == "Disconnected — reopen the app to reconnect"@),
        s.online && !s.routing ==> (r matches Some(t) && t@
            == "Routing off — start the daemon elevated to carry traffic"@),
        s.online && s.routing ==> r is None,
{
}

/// The hostname of this device is that of the first member that is this device.
proof fn lemma_own_host(members: Seq<MemberView>, i: int)
    requires
        0 <= i < members.len(),
        members[i].is_self,
        forall|j: int| 0 <= j < i ==> !(#[trigger] members[j]).is_self,
    ensures
        pages::self_host(members) == match members[i].hostname {
            Some(h) => h@,
            None => Seq::<char>::empty(),
        },
    decreases members.len(),
{
    if i > 0 {
        let rest = members.drop_first();
        assert(!members[0].is_self);
        assert(rest[i - 1] == members[i]);
        assert forall|j: int| 0 <= j < i - 1 implies !(#[trigger] rest[j]).is_self by {
            assert(rest[j] == members[j + 1]);
        }
        lemma_own_host(rest, i - 1);
    }
}

/// Without a member that is this device there is no hostname of it.
proof fn lemma_no_own_host(members: Seq<MemberView>)
    requires
        forall|j: int| 0 <= j < members.len() ==> !(#[trigger] members[j]).is_self,
    ensures
        pages::self_host(members) == Seq::<char>::empty(),
    decreases members.len(),
{
    if members.len() > 0 {
        let rest = members.drop_first();
        assert(!members[0].is_self);
        assert forall|j: int| 0 <= j < rest.len() implies !(#[trigger] rest[j]).is_self by {
            assert(rest[j] == members[j + 1]);
        }
        lemma_no_own_host(rest);
    }
}

/// The card of this device is headed by its friendly name, and says under it the
/// hostname that the first member which is this device has, then the address if
/// there is one, then that it is the originator if it is, then whether it routes.
pub proof fn law_own_card_describes_this_device(
    s: &NetworkStatus,
    r: SelfCard,
    i: int,
    host: Seq<char>,
    address: Seq<char>,
    role: Seq<char>,
)
    requires
        call_ensures(pages::self_card, (s,), r),
        0 <= i <= s.members@.len(),
        forall|j: int| 0 <= j < i ==> !(#[trigger] s.members@[j]).is_self,
        i < s.members@.len() ==> s.members@[i].is_self,
        i < s.members@.len() && s.members@[i].hostname is Some ==> host == s.members@[i].hostname->0@,
        i == s.members@.len() || s.members@[i].hostname is None ==> host == Seq::<char>::empty(),
        s.self_ip matches Some(ip) ==> address == " · "@ + ip@,
        s.self_ip is None ==> address == Seq::<char>::empty(),
        s.is_originator ==> role == " · originator"@,
        !s.is_originator ==> role == Seq::<char>::empty(),
    ensures
        s.self_label matches Some(label) ==> r.title@ == label@,
        s.self_label is None ==> r.title@ == "This device"@,
        s.routing ==> r.subtitle@ == host + address + role + " · routing "@ + "on"@,
        !s.routing ==> r.subtitle@ == host + address + role + " · routing "@ + "off"@,
{
    if i < s.members@.len() {
        lemma_own_host(s.members@, i);
    } else {
        lemma_no_own_host(s.members@);
    }
}

/// Whether the rows from `i` on are those of diagnostics, ticket and
/// administration.
pub open spec fn three_rows_from(rows: Seq<SectionRow>, i: int) -> bool {
    &&& rows.len() == i + 3
    &&& rows[i].opens == Section::Diagnostics
    &&& rows[i].title@ == "Diagnostics"@
    &&& rows[i].subtitle@ == "Relay, connection paths, routing"@
    &&& rows[i].icon@ == "network-wired-symbolic"@
    &&& rows[i + 1].opens == Section::Ticket
    &&& rows[i + 1].title@ == "Show join ticket"@
    &&& rows[i + 1].subtitle@ == "Invite another device"@
    &&& rows[i + 1].icon@ == "send-to-symbolic"@
    &&& rows[i + 2].opens == Section::Administration
    &&& rows[i + 2].title@ == "Administration"@
    &&& rows[i + 2].subtitle@ == "Freeze, rotate, recovery, delete/leave"@
    &&& rows[i + 2].icon@ == "emblem-system-symbolic"@
}

/// The sections are diagnostics, ticket and administration, and above them the
/// requests with their number while there are any.
pub proof fn law_requests_have_a_section_while_waiting(n: usize, r: Vec<SectionRow>)
    requires
        call_ensures(pages::section_rows, (n,), r),
    ensures
        n == 0 ==> three_rows_from(r@, 0),
        n > 0 ==> three_rows_from(r@, 1) && r@[0].opens == Section::Requests && r@[0].title@
            == "Join requests"@ && r@[0].subtitle@ == text::decimal(n as nat) + " waiting"@ && r@[0].icon@
            == "dialog-question-symbolic"@,
{
    if n > 0 {
        assert(r@.skip(1)[0] == r@[1]);
        assert(r@.skip(1)[1] == r@[2]);
        assert(r@.skip(1)[2] == r@[3]);
    }
}

/// The heading of the member list counts the members that are not this device.
pub proof fn law_heading_counts_the_others(s: &NetworkStatus, r: String)
    requires
        call_ensures(pages::members_description, (s,), r),
    ensures
        r@ == text::decimal(s.members@.filter(|m: MemberView| !m.is_self).len()) + " other device(s)"@,
{
    law_counting_is_filtering(s.members@, pages::is_other());
    lemma_filter_alike(s.members@, pages::is_other(), |m: MemberView| !m.is_self);
}

/// Presence is said in a word.
pub proof fn law_presence_is_one_word(online: bool, r: &'static str)
    requires
        call_ensures(pages::presence_text, (online,), r),
    ensures
        online ==> r@ == "Online"@,
        !online ==> r@ == "Offline"@,
{
}

/// The line under a device's name: its hostname if it goes by a friendly name,
/// then its address or that it has none, then how it is connected while it is
/// online, or when it was last seen while it is not.
pub proof fn law_device_line_tells_address_and_path(
    m: MemberView,
    now: u64,
    host: Seq<char>,
    address: Seq<char>,
)
    requires
        m.label is Some && m.hostname is Some ==> host == m.hostname->0@ + " · "@,
        m.label is None || m.hostname is None ==> host == Seq::<char>::empty(),
        m.virtual_ip matches Some(ip) ==> address == ip@,
        m.virtual_ip is None ==> address == "(no IP)"@,
    ensures
        m.online && m.direct == Some(true) ==> pages::member_subtitle(m, now) == host + address + " · direct"@,
        m.online && m.direct == Some(false) ==> pages::member_subtitle(m, now) == host + address
            + " · relay"@,
        m.online && m.direct is None ==> pages::member_subtitle(m, now) == host + address,
        !m.online ==> pages::member_subtitle(m, now) == host + address + (" · last seen "@
            + text::last_seen(m.last_seen, now)),
{
    assert(host + address + Seq::<char>::empty() =~= host + address);
}

/// The rows of the member list stand for the other devices, every one of them,
/// once and in order.
pub proof fn law_rows_stand_for_the_others(members: Seq<MemberView>, now: u64)
    ensures
        pages::member_list(members, now).len() == members.filter(|m: MemberView| !m.is_self).len(),
        forall|i: int, j: int|
            0 <= i < j < pages::member_list(members, now).len() ==> (#[trigger] pages::member_list(
                members,
                now,
            )[i]).index < (#[trigger] pages::member_list(members, now)[j]).index,
        forall|k: int|
            0 <= k < members.len() && !(#[trigger] members[k]).is_self ==> exists|i: int|
                0 <= i < pages::member_list(members, now).len() && (#[trigger] pages::member_list(
                    members,
                    now,
                )[i]).index == k,
    decreases members.len(),
{
    law_counting_is_filtering(members, pages::is_other());
    lemma_filter_alike(members, pages::is_other(), |m: MemberView| !m.is_self);
    pages::law_every_other_device_has_a_row(members, now);
    if members.len() > 0 {
        let rest = members.drop_last();
        let front = pages::member_list(rest, now);
        let list = pages::member_list(members, now);
        law_rows_stand_for_the_others(rest, now);
        pages::law_every_other_device_has_a_row(rest, now);
        assert forall|i: int, j: int| 0 <= i < j < list.len() implies (#[trigger] list[i]).index < (
        #[trigger] list[j]).index by {
            assert(list[i] == front[i]);
            if j < front.len() {
                assert(list[j] == front[j]);
            }
        }
        assert forall|k: int| 0 <= k < members.len() && !(#[trigger] members[k]).is_self implies exists|
            i: int,
        |
            0 <= i < list.len() && (#[trigger] list[i]).index == k by {
            if k < rest.len() {
                assert(!rest[k].is_self);
                let i = choose|i: int| 0 <= i < front.len() && (#[trigger] front[i]).index == k;
                assert(list[i].index == k);
            } else {
                assert(list[list.len() - 1].index == k);
            }
        }
    }
}

/// Each row of the member list shows the device that it stands for: its name, the
/// line about it and whether it is online.
pub proof fn law_rows_show_their_device(s: &NetworkStatus, now: u64, r: Vec<MemberRow>, i: int)
    requires
        call_ensures(pages::member_rows, (s, now), r),
        0 <= i < r@.len(),
    ensures
        r@.len() == s.members@.filter(|m: MemberView| !m.is_self).len(),
        r@[i].index < s.members@.len(),
        !s.members@[r@[i].index as int].is_self,
        r@[i].title@ == pages::display_name(s.members@[r@[i].index as int]),
        r@[i].subtitle@ == pages::member_subtitle(s.members@[r@[i].index as int], now),
        r@[i].online == s.members@[r@[i].index as int].online,
        forall|j: int| i < j < r@.len() ==> r@[i].index < (#[trigger] r@[j]).index,
        forall|k: int|
            0 <= k < s.members@.len() && !(#[trigger] s.members@[k]).is_self ==> exists|j: int|
                0 <= j < r@.len() && (#[trigger] r@[j]).index == k,
{
    let list = pages::member_list(s.members@, now);
    let rows = pages::member_row_models(r@);
    pages::law_every_other_device_has_a_row(s.members@, now);
    law_rows_stand_for_the_others(s.members@, now);
    lemma_row_lines(s.members@, now, i);
    assert(rows.len() == r@.len());
    assert(rows[i] == r@[i]@);
    assert forall|j: int| i < j < r@.len() implies r@[i].index < (#[trigger] r@[j]).index by {
        assert(rows[j] == r@[j]@);
        assert(list[i].index < list[j].index);
    }
    assert forall|k: int| 0 <= k < s.members@.len() && !(#[trigger] s.members@[k]).is_self implies exists|
        j: int,
    |
        0 <= j < r@.len() && (#[trigger] r@[j]).index == k by {
        let j = choose|j: int| 0 <= j < list.len() && (#[trigger] list[j]).index == k;
        assert(rows[j] == r@[j]@);
        assert(r@[j].index == k);
    }
}

/// The line of a row is that of the device that the row stands for.
proof fn lemma_row_lines(members: Seq<MemberView>, now: u64, i: int)
    requires
        0 <= i < pages::member_list(members, now).len(),
    ensures
        pages::member_list(members, now)[i].subtitle == pages::member_subtitle(
            members[pages::member_list(members, now)[i].index],
            now,
        ),
    decreases members.len(),
{
    let rest = members.drop_last();
    pages::law_every_other_device_has_a_row(rest, now);
    if i < pages::member_list(rest, now).len() {
        lemma_row_lines(rest, now, i);
        let row = pages::member_list(rest, now)[i];
        assert(members[row.index] == rest[row.index]);
    }
}

// ---------------------------------------------------------------------------
// The diagnostics page and the detail page
// ---------------------------------------------------------------------------

/// Whether a row reads so.
pub open spec fn row_reads(p: Property, title: Seq<char>, value: Seq<char>, copying: Copying) -> bool {
    p.title@ == title && p.value@ == value && p.copying == copying
}

/// The diagnostics page has four rows: the home relay or a dash, how many of the
/// other devices that are online are connected directly and how many over a relay,
/// whether traffic is routed, and the id of this device. Nothing is copied there.
pub proof fn law_diagnostics_report_the_paths(s: &NetworkStatus, r: Vec<Property>)
    requires
        call_ensures(pages::diag_rows, (s,), r),
    ensures
        r@.len() == 4,
        s.home_relay matches Some(relay) ==> row_reads(r@[0], "Home relay"@, relay@, Copying::Nothing),
        s.home_relay is None ==> row_reads(r@[0], "Home relay"@, "—"@, Copying::Nothing),
        row_reads(
            r@[1],
            "Connections"@,
            text::decimal(
                s.members@.filter(
                    |m: MemberView| !m.is_self && m.online && m.direct == Some(true),
                ).len(),
            ) + " direct · "@ + text::decimal(
                s.members@.filter(
                    |m: MemberView| !m.is_self && m.online && m.direct == Some(false),
                ).len(),
            ) + " via relay"@,
            Copying::Nothing,
        ),
        s.routing ==> row_reads(r@[2], "Routing (TUN)"@, "on — carrying traffic"@, Copying::Nothing),
        !s.routing ==> row_reads(
            r@[2],
            "Routing (TUN)"@,
            "off — needs the elevated daemon"@,
            Copying::Nothing,
        ),
        row_reads(r@[3], "This device"@, s.self_node_id@, Copying::Nothing),
{
    let rows = pages::property_models(r@);
    let direct = |m: MemberView| !m.is_self && m.online && m.direct == Some(true);
    let relayed = |m: MemberView| !m.is_self && m.online && m.direct == Some(false);
    law_counting_is_filtering(s.members@, pages::is_connected(true));
    law_counting_is_filtering(s.members@, pages::is_connected(false));
    lemma_filter_alike(s.members@, pages::is_connected(true), direct);
    lemma_filter_alike(s.members@, pages::is_connected(false), relayed);
    assert(rows.len() == r@.len());
    assert(rows[0] == r@[0]@);
    assert(rows[1] == r@[1]@);
    assert(rows[2] == r@[2]@);
    assert(rows[3] == r@[3]@);
}

/// Which rows the detail page of an online device has, from the first to the last:
/// the friendly name if there is one, the hostname or a dash, that it is online,
/// the address if there is one, how it is connected, the address it was observed
/// at if there is one, and the id. Address and id can be copied.
pub proof fn law_details_of_a_device_online(m: &MemberView, is_originator: bool, now: u64, r: DetailPage)
    requires
        call_ensures(pages::member_detail, (m, is_originator, now), r),
        m.online,
    ensures
        ({
            let a: int = if m.label is Some { 1 } else { 0 };
            let b: int = if m.virtual_ip is Some { 1 } else { 0 };
            let c: int = if m.observed_addr is Some { 1 } else { 0 };
            &&& r.rows@.len() == a + b + c + 4
            &&& m.label matches Some(v) ==> row_reads(r.rows@[0], "Friendly name"@, v@, Copying::Nothing)
            &&& m.hostname matches Some(v) ==> row_reads(r.rows@[a], "Hostname"@, v@, Copying::Nothing)
            &&& m.hostname is None ==> row_reads(r.rows@[a], "Hostname"@, "—"@, Copying::Nothing)
            &&& row_reads(r.rows@[a + 1], "Status"@, "Online"@, Copying::Nothing)
            &&& m.virtual_ip matches Some(v) ==> row_reads(
                r.rows@[a + 2],
                "Virtual IP"@,
                v@,
                Copying::VirtualIp,
            )
            &&& m.direct == Some(true) ==> row_reads(
                r.rows@[a + b + 2],
                "Connection"@,
                "Direct (peer-to-peer)"@,
                Copying::Nothing,
            )
            &&& m.direct == Some(false) ==> row_reads(
                r.rows@[a + b + 2],
                "Connection"@,
                "Via relay"@,
                Copying::Nothing,
            )
            &&& m.direct is None ==> row_reads(
                r.rows@[a + b + 2],
                "Connection"@,
                "—"@,
                Copying::Nothing,
            )
            &&& m.observed_addr matches Some(v) ==> row_reads(
                r.rows@[a + b + 3],
                "Observed address"@,
                v@,
                Copying::Nothing,
            )
            &&& row_reads(r.rows@[a + b + c + 3], "Node ID"@, m.node_id@, Copying::NodeId)
        }),
{
    let rows = pages::property_models(r.rows@);
    assert(rows.len() == r.rows@.len());
    let a: int = if m.label is Some { 1 } else { 0 };
    let b: int = if m.virtual_ip is Some { 1 } else { 0 };
    let c: int = if m.observed_addr is Some { 1 } else { 0 };
    assert(r.rows@[0]@ == rows[0]);
    assert(r.rows@[a]@ == rows[a]);
    assert(r.rows@[a + 1]@ == rows[a + 1]);
    assert(r.rows@[a + 2]@ == rows[a + 2]);
    assert(r.rows@[a + b + 2]@ == rows[a + b + 2]);
    assert(r.rows@[a + b + 3]@ == rows[a + b + 3]);
    assert(r.rows@[a + b + c + 3]@ == rows[a + b + c + 3]);
}

/// Which rows the detail page of an offline device has, from the first to the
/// last: the friendly name if there is one, the hostname or a dash, that it is
/// offline, when it was last seen, the address if there is one, the address it was
/// observed at if there is one, and the id. Address and id can be copied.
pub proof fn law_details_of_a_device_offline(m: &MemberView, is_originator: bool, now: u64, r: DetailPage)
    requires
        call_ensures(pages::member_detail, (m, is_originator, now), r),
        !m.online,
    ensures
        ({
            let a: int = if m.label is Some { 1 } else { 0 };
            let b: int = if m.virtual_ip is Some { 1 } else { 0 };
            let c: int = if m.observed_addr is Some { 1 } else { 0 };
            &&& r.rows@.len() == a + b + c + 4
            &&& m.label matches Some(v) ==> row_reads(r.rows@[0], "Friendly name"@, v@, Copying::Nothing)
            &&& m.hostname matches Some(v) ==> row_reads(r.rows@[a], "Hostname"@, v@, Copying::Nothing)
            &&& m.hostname is None ==> row_reads(r.rows@[a], "Hostname"@, "—"@, Copying::Nothing)
            &&& row_reads(r.rows@[a + 1], "Status"@, "Offline"@, Copying::Nothing)
            &&& row_reads(
                r.rows@[a + 2],
                "Last seen"@,
                text::last_seen(m.last_seen, now),
                Copying::Nothing,
            )
            &&& m.virtual_ip matches Some(v) ==> row_reads(
                r.rows@[a + 3],
                "Virtual IP"@,
                v@,
                Copying::VirtualIp,
            )
            &&& m.observed_addr matches Some(v) ==> row_reads(
                r.rows@[a + b + 3],
                "Observed address"@,
                v@,
                Copying::Nothing,
            )
            &&& row_reads(r.rows@[a + b + c + 3], "Node ID"@, m.node_id@, Copying::NodeId)
        }),
{
    let rows = pages::property_models(r.rows@);
    assert(rows.len() == r.rows@.len());
    let a: int = if m.label is Some { 1 } else { 0 };
    let b: int = if m.virtual_ip is Some { 1 } else { 0 };
    let c: int = if m.observed_addr is Some { 1 } else { 0 };
    assert(r.rows@[0]@ == rows[0]);
    assert(r.rows@[a]@ == rows[a]);
    assert(r.rows@[a + 1]@ == rows[a + 1]);
    assert(r.rows@[a + 2]@ == rows[a + 2]);
    assert(r.rows@[a + 3]@ == rows[a + 3]);
    assert(r.rows@[a + b + 3]@ == rows[a + b + 3]);
    assert(r.rows@[a + b + c + 3]@ == rows[a + b + c + 3]);
}

/// The detail page is headed by the name of the device, and offers to remove it to
/// the originator and to nobody else.
pub proof fn law_only_the_originator_is_offered_removal(
    m: &MemberView,
    is_originator: bool,
    now: u64,
    r: DetailPage,
    name: String,
)
    requires
        call_ensures(pages::member_detail, (m, is_originator, now), r),
        call_ensures(pages::member_name, (m,), name),
    ensures
        r.title@ == name@,
        r.kick <==> is_originator,
{
}

/// Copying an address and copying an id are announced as such, and where there is
/// nothing to copy there is nothing to announce.
pub proof fn law_copying_is_announced(copying: Copying, r: Option<(&'static str, &'static str)>)
    requires
        call_ensures(pages::copy_texts, (copying,), r),
    ensures
        copying == Copying::Nothing ==> r is None,
        copying == Copying::VirtualIp ==> (r matches Some(t) && t.0@ == "Copy virtual IP"@ && t.1@
            == "Virtual IP copied"@),
        copying == Copying::NodeId ==> (r matches Some(t) && t.0@ == "Copy node ID"@ && t.1@
            == "Node ID copied"@),
{
}

// ---------------------------------------------------------------------------
// The administration page and the placeholders
// ---------------------------------------------------------------------------

/// Whether a row of the administration page does and reads so.
pub open spec fn admin_reads(r: AdminRow, action: AdminAction, title: Seq<char>, subtitle: Seq<char>) -> bool {
    r.action == action && r.title@ == title && r.subtitle@ == subtitle
}

/// The originator can freeze, rotate and back up; the switch shows whether the
/// membership is frozen. Everyone else can only restore the originator's access.
pub proof fn law_powers_are_the_originators(s: &NetworkStatus, r: Vec<AdminRow>)
    requires
        call_ensures(pages::admin_rows, (s,), r),
    ensures
        s.is_originator ==> r@.len() == 3 && admin_reads(
            r@[0],
            AdminAction::Freeze { active: s.frozen },
            "Freeze membership"@,
            "No new devices can join while frozen"@,
        ) && admin_reads(
            r@[1],
            AdminAction::Rotate,
            "Rotate secret (re-key)"@,
            "Removes everyone; mints a fresh ticket"@,
        ) && admin_reads(
            r@[2],
            AdminAction::Backup,
            "Back up originator key"@,
            "Save a recovery code to restore admin elsewhere"@,
        ),
        !s.is_originator ==> r@.len() == 1 && admin_reads(
            r@[0],
            AdminAction::Restore,
            "Restore originator access…"@,
            "Paste a recovery code to gain admin powers"@,
        ),
{
    let rows = pages::admin_row_models(r@);
    assert(rows.len() == r@.len());
    if s.is_originator {
        assert(rows[0] == r@[0]@);
        assert(rows[1] == r@[1]@);
        assert(rows[2] == r@[2]@);
    } else {
        assert(rows[0] == r@[0]@);
    }
}

/// The originator deletes the network for everyone, anyone else leaves it.
pub proof fn law_originators_delete_and_others_leave(s: &NetworkStatus, r: AdminRow)
    requires
        call_ensures(pages::danger_row, (s,), r),
    ensures
        s.is_originator ==> admin_reads(
            r,
            AdminAction::Destroy,
            "Delete network"@,
            "Dissolve the network for everyone"@,
        ),
        !s.is_originator ==> admin_reads(
            r,
            AdminAction::Destroy,
            "Leave network"@,
            "Leave on this device only"@,
        ),
{
    assert(r@.title == r.title@ && r@.subtitle == r.subtitle@ && r@.action == r.action);
}

/// The placeholders say what is the matter; for different versions they name the
/// version of the application first and that of the service second.
pub proof fn law_placeholders_say_what_is_the_matter(p: Placeholder, r: (&'static str, String))
    requires
        call_ensures(pages::placeholder_texts, (p,), r),
    ensures
        p == Placeholder::Connecting ==> r.0@ == "Connecting…"@ && r.1@
            == "Reaching the IPN background service."@,
        p == Placeholder::Empty ==> r.0@ == "No network yet"@ && r.1@
            == "Create a private network for your own devices, or join one with a ticket."@,
        p == Placeholder::DaemonDown ==> r.0@ == "Service not running"@ && r.1@
            == "The privileged ipn-daemon isn't reachable. Start it (Windows: the IPN service; Linux: the daemon / systemd service). This window reconnects automatically."@,
        p matches Placeholder::VersionMismatch { daemon, gui } ==> r.0@ == "Version mismatch"@ && r.1@
            == "The app (IPC v"@ + text::decimal(gui as nat) + ") and the background service (IPC v"@
            + text::decimal(daemon as nat)
            + ") are different versions. Update both IPN components to the same release."@,
{
}

} // verus!
