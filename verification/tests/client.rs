use ipn::dialogs::{
    confirm_destroy, confirm_kick, confirm_rotate, create_answer, import_answer, join_answer,
    label_answer, JoinAnswer,
};
use ipn::ipc::{
    on_frame, on_reply, open_stream, Frame, IpcEvent, IpcRequest, IpcResponse, MemberView, Message,
    NetworkStatus, Phase, StreamAction, UiMsg, Unreachable,
};
use ipn::pages::{
    admin_rows, banner_text, copy_texts, danger_row, diag_rows, member_detail, member_name,
    member_rows, members_description, placeholder_texts, presence_text, section_rows, self_card,
    AdminAction, Copying, Placeholder, Section,
};
use ipn::session::{notify_newly_online, request_rows, NameEdit, PendingJoin, Session, Show};

fn member(node_id: &str) -> MemberView {
    MemberView {
        node_id: node_id.to_string(),
        hostname: None,
        label: None,
        virtual_ip: None,
        online: false,
        direct: None,
        last_seen: 0,
        observed_addr: None,
        is_self: false,
    }
}

fn online(node_id: &str, direct: Option<bool>) -> MemberView {
    MemberView { online: true, direct, ..member(node_id) }
}

fn me() -> MemberView {
    MemberView { is_self: true, hostname: Some("my-pc".to_string()), ..online("me", None) }
}

fn status(members: Vec<MemberView>) -> NetworkStatus {
    NetworkStatus {
        name: "home".to_string(),
        members,
        online: true,
        routing: true,
        self_label: None,
        self_ip: Some("10.99.0.2".to_string()),
        self_node_id: "me".to_string(),
        is_originator: false,
        frozen: false,
        home_relay: None,
    }
}

fn toast(m: Option<UiMsg>) -> String {
    match m {
        Some(UiMsg::Toast(t)) => t,
        other => panic!("no toast: {other:?}"),
    }
}

fn text(s: &str) -> String {
    s.to_string()
}

// --- the event stream ---

fn hello(version: u32) -> Frame {
    Frame { id: 2, body: Message::Response(IpcResponse::Hello { version }) }
}

#[test]
fn stream_greets_then_subscribes_then_delivers() {
    let (phase, frame) = open_stream(7);
    assert_eq!(phase, Phase::Greeting);
    assert_eq!(frame.id, 2);
    assert!(matches!(frame.body, Message::Request(IpcRequest::Hello { version: 7 })));

    // An event before the greeting is passed over.
    let early = Frame { id: 0, body: Message::Event(IpcEvent::Status(None)) };
    let (phase, action) = on_frame(phase, 7, Some(early));
    assert_eq!(phase, Phase::Greeting);
    assert!(matches!(action, StreamAction::Wait));

    let (phase, action) = on_frame(phase, 7, Some(hello(7)));
    assert_eq!(phase, Phase::Listening);
    match action {
        StreamAction::Write(f) => {
            assert_eq!(f.id, 1);
            assert!(matches!(f.body, Message::Request(IpcRequest::Subscribe)));
        }
        _ => panic!("no subscription"),
    }

    let ev = Frame {
        id: 0,
        body: Message::Event(IpcEvent::JoinRequest {
            node_id: text("n"),
            hostname: text("h"),
            sas: vec![text("a")],
        }),
    };
    let (phase, action) = on_frame(phase, 7, Some(ev));
    assert_eq!(phase, Phase::Listening);
    match action {
        StreamAction::Deliver(UiMsg::JoinRequest { node_id, hostname, sas }) => {
            assert_eq!((node_id, hostname, sas), (text("n"), text("h"), vec![text("a")]));
        }
        _ => panic!("not delivered"),
    }
    let sas = Frame { id: 0, body: Message::Event(IpcEvent::JoinSas { sas: vec![text("b")] }) };
    let (phase, action) = on_frame(phase, 7, Some(sas));
    assert!(matches!(action, StreamAction::Deliver(UiMsg::JoinSas(s)) if s == vec![text("b")]));
    let gone = Frame { id: 0, body: Message::Event(IpcEvent::Status(None)) };
    let (phase, action) = on_frame(phase, 7, Some(gone));
    assert!(matches!(action, StreamAction::Deliver(UiMsg::Status(None))));

    // Answers are not events.
    let (phase, action) = on_frame(phase, 7, Some(hello(7)));
    assert!(matches!(action, StreamAction::Wait));
    let (phase, action) = on_frame(phase, 7, None);
    assert_eq!(phase, Phase::Closed);
    assert!(matches!(action, StreamAction::Stop));
}

#[test]
fn version_mismatch_ends_the_stream() {
    let (phase, action) = on_frame(Phase::Greeting, 7, Some(hello(6)));
    assert_eq!(phase, Phase::Closed);
    assert!(matches!(
        action,
        StreamAction::Deliver(UiMsg::VersionMismatch { daemon: 6, gui: 7 })
    ));
    let (phase, action) = on_frame(phase, 7, Some(hello(7)));
    assert_eq!(phase, Phase::Closed);
    assert!(matches!(action, StreamAction::Stop));
    assert!(matches!(on_frame(Phase::Greeting, 7, None), (Phase::Closed, StreamAction::Stop)));
}

// --- answers ---

#[test]
fn carried_out_requests_are_confirmed() {
    let done = |r: IpcRequest| toast(on_reply(&r, Ok(IpcResponse::Done)));
    assert_eq!(done(IpcRequest::SetNetworkName { name: text("x") }), "Network renamed");
    assert_eq!(done(IpcRequest::SetFrozen { frozen: true }), "Membership frozen");
    assert_eq!(done(IpcRequest::SetFrozen { frozen: false }), "Membership unfrozen");
    assert_eq!(done(IpcRequest::ApproveJoin { node_id: text("n") }), "Approved");
    assert_eq!(done(IpcRequest::RemoveMember { node_id: text("n") }), "Member removed");
    assert_eq!(done(IpcRequest::Join { ticket: text("t") }), "Joined!");
    assert_eq!(done(IpcRequest::SetLabel { label: None }), "Name updated");
    assert_eq!(
        done(IpcRequest::ImportOriginatorKey { code: text("c") }),
        "Originator access restored"
    );
    for quiet in [
        IpcRequest::Connect,
        IpcRequest::Disconnect,
        IpcRequest::GetTicket,
        IpcRequest::DenyJoin { node_id: text("n") },
        IpcRequest::DeleteNetwork,
        IpcRequest::LeaveNetwork,
        IpcRequest::CreateNetwork { name: text("x") },
    ] {
        assert!(on_reply(&quiet, Ok(IpcResponse::Done)).is_none());
        assert!(on_reply(&quiet, Ok(IpcResponse::Other)).is_none());
    }
}

#[test]
fn tickets_and_recovery_codes_are_handed_on() {
    let ticket = || Ok(IpcResponse::Ticket(text("ipn1x")));
    assert!(matches!(on_reply(&IpcRequest::GetTicket, ticket()), Some(UiMsg::Ticket(t)) if t == "ipn1x"));
    assert!(matches!(on_reply(&IpcRequest::RotateNetwork, ticket()), Some(UiMsg::Ticket(t)) if t == "ipn1x"));
    let create = IpcRequest::CreateNetwork { name: text("x") };
    assert_eq!(toast(on_reply(&create, ticket())), "Network created");
    assert!(on_reply(&IpcRequest::Connect, ticket()).is_none());
    let code = || Ok(IpcResponse::Recovery(text("ipnkey1")));
    assert!(
        matches!(on_reply(&IpcRequest::ExportOriginatorKey, code()), Some(UiMsg::Recovery(c)) if c == "ipnkey1")
    );
    assert!(on_reply(&IpcRequest::GetTicket, code()).is_none());
}

#[test]
fn failures_show_the_reason() {
    let failed = || Ok(IpcResponse::Failed(text("no luck")));
    assert_eq!(toast(on_reply(&IpcRequest::Connect, failed())), "no luck");
    assert_eq!(toast(on_reply(&IpcRequest::LeaveNetwork, failed())), "no luck");
    let create = IpcRequest::CreateNetwork { name: text("x") };
    assert_eq!(toast(on_reply(&create, failed())), "create failed: no luck");
    let join = IpcRequest::Join { ticket: text("t") };
    assert_eq!(toast(on_reply(&join, failed())), "join failed: no luck");
    assert!(on_reply(&IpcRequest::DenyJoin { node_id: text("n") }, failed()).is_none());
    assert!(on_reply(&IpcRequest::Disconnect, failed()).is_none());
    assert!(matches!(on_reply(&create, Err(Unreachable)), Some(UiMsg::DaemonDown)));
    assert!(matches!(on_reply(&join, Err(Unreachable)), Some(UiMsg::DaemonDown)));
    assert!(on_reply(&IpcRequest::Connect, Err(Unreachable)).is_none());
}

// --- the session ---

fn request(node_id: &str, hostname: &str) -> UiMsg {
    UiMsg::JoinRequest { node_id: text(node_id), hostname: text(hostname), sas: vec![text("x")] }
}

#[test]
fn newly_online_members_are_announced() {
    let before = status(vec![me(), member("a"), online("b", None)]);
    let mut named = online("a", None);
    named.label = Some(text("Laptop"));
    let after = status(vec![me(), named, online("b", None), online("0123456789abc", None)]);
    assert_eq!(
        notify_newly_online(&Some(before.clone()), &after),
        vec![text("Laptop came online"), text("0123456789 came online")]
    );
    assert_eq!(notify_newly_online(&None, &after), Vec::<String>::new());
    assert_eq!(notify_newly_online(&Some(after.clone()), &after), Vec::<String>::new());
    assert_eq!(notify_newly_online(&Some(after), &before), Vec::<String>::new());
}

#[test]
fn session_shows_what_it_is_told() {
    let mut s = Session::new();
    assert!(matches!(s.handle(UiMsg::Refresh).show, Show::Nothing));
    let first = s.handle(UiMsg::Status(Some(status(vec![me(), online("a", None)]))));
    assert!(matches!(first.show, Show::Network));
    assert!(first.notices.is_empty());
    assert!(matches!(s.handle(UiMsg::Refresh).show, Show::Network));
    assert!(matches!(s.handle(UiMsg::Ticket(text("t"))).show, Show::Ticket(t) if t == "t"));
    assert!(matches!(s.handle(UiMsg::Recovery(text("r"))).show, Show::Recovery(r) if r == "r"));
    assert!(matches!(s.handle(UiMsg::Toast(text("o"))).show, Show::Toast(t) if t == "o"));
    assert!(matches!(s.handle(UiMsg::JoinSas(vec![text("e")])).show, Show::JoinSas(v) if v == vec![text("e")]));
    assert!(s.status.is_some());
    assert!(matches!(
        s.handle(UiMsg::VersionMismatch { daemon: 1, gui: 2 }).show,
        Show::Placeholder(Placeholder::VersionMismatch { daemon: 1, gui: 2 })
    ));
    assert!(s.status.is_none());
    assert!(matches!(s.handle(UiMsg::DaemonDown).show, Show::Placeholder(Placeholder::DaemonDown)));
    assert!(matches!(s.handle(UiMsg::Status(None)).show, Show::Placeholder(Placeholder::Empty)));
}

#[test]
fn join_requests_wait_for_a_decision() {
    let mut s = Session::new();
    let e = s.handle(request("n", "phone"));
    assert_eq!(e.notices, vec![text("“phone” wants to join — approve in IPN")]);
    assert!(matches!(e.show, Show::Nothing));
    s.handle(UiMsg::Status(Some(status(vec![me()]))));
    // The same device again: announced, but not listed twice.
    let e = s.handle(request("n", "phone again"));
    assert_eq!(e.notices.len(), 1);
    assert!(matches!(e.show, Show::Network));
    s.handle(request("m", "tablet"));
    s.handle(UiMsg::DaemonDown);
    let ids = |s: &Session| -> Vec<String> { s.pending.iter().map(|p| p.node_id.clone()).collect() };
    assert_eq!(ids(&s), vec![text("n"), text("m")]);
    assert_eq!(s.pending[0].hostname, "phone");

    let rows = request_rows(&s.pending);
    assert_eq!(rows.len(), 2);
    assert_eq!(rows[0].title, "“phone” wants to join");
    assert_eq!(rows[0].subtitle, "x");
    assert_eq!(rows[1].node_id, "m");

    // Becoming a member settles a request.
    s.handle(UiMsg::Status(Some(status(vec![me(), member("n")]))));
    assert_eq!(ids(&s), vec![text("m")]);
    let (req, said) = s.deny(text("m"));
    assert!(matches!(req, IpcRequest::DenyJoin { node_id } if node_id == "m"));
    assert_eq!(said, "Join denied");
    assert!(s.pending.is_empty());

    s.handle(request("q", "watch"));
    let req = s.approve(text("q"));
    assert!(matches!(req, IpcRequest::ApproveJoin { node_id } if node_id == "q"));
    assert!(s.pending.is_empty());
}

#[test]
fn decisions_touch_one_device_only() {
    let mut s = Session::new();
    for id in ["a", "b", "c"] {
        s.handle(request(id, "host"));
        s.handle(request(id, "host"));
    }
    s.deny(text("b"));
    s.approve(text("nobody"));
    let left: Vec<&str> = s.pending.iter().map(|p| p.node_id.as_str()).collect();
    assert_eq!(left, vec!["a", "c"]);
}

#[test]
fn emoji_codes_are_spaced() {
    let pending = vec![PendingJoin {
        node_id: text("n"),
        hostname: text("h"),
        sas: vec![text("\u{1f600}"), text("\u{1f680}")],
    }];
    assert_eq!(request_rows(&pending)[0].subtitle, "\u{1f600}  \u{1f680}");
}

#[test]
fn renaming_the_network() {
    let mut s = Session::new();
    s.edit_name();
    assert!(s.editing_name);
    assert!(matches!(s.commit_name("  cabin \n"), NameEdit::Rename(n) if n == "cabin"));
    assert!(!s.editing_name);
    s.edit_name();
    assert!(matches!(s.commit_name(" \t "), NameEdit::Refresh));
    s.edit_name();
    assert!(matches!(s.cancel_name(), NameEdit::Refresh));
    assert!(!s.editing_name);
}

#[test]
fn tray_notice_comes_once() {
    let mut s = Session::new();
    assert_eq!(
        s.hide_to_tray(),
        Some("Still running in the tray — click the tray icon to reopen, or “Quit IPN” to disconnect.")
    );
    assert_eq!(s.hide_to_tray(), None);
}

// --- pages ---

#[test]
fn banner_names_the_first_trouble() {
    let mut s = status(vec![]);
    assert_eq!(banner_text(&s), None);
    s.routing = false;
    assert_eq!(banner_text(&s), Some("Routing off — start the daemon elevated to carry traffic"));
    s.online = false;
    assert_eq!(banner_text(&s), Some("Disconnected — reopen the app to reconnect"));
}

#[test]
fn card_of_this_device() {
    let mut s = status(vec![member("a"), me()]);
    let c = self_card(&s);
    assert_eq!(c.title, "This device");
    assert_eq!(c.subtitle, "my-pc · 10.99.0.2 · routing on");
    s.is_originator = true;
    s.routing = false;
    s.self_ip = None;
    s.self_label = Some(text("Desk"));
    let c = self_card(&s);
    assert_eq!(c.title, "Desk");
    assert_eq!(c.subtitle, "my-pc · originator · routing off");
    s.members.clear();
    assert_eq!(self_card(&s).subtitle, " · originator · routing off");
}

#[test]
fn sections_of_the_main_page() {
    let rows = section_rows(0);
    let opens: Vec<Section> = rows.iter().map(|r| r.opens).collect();
    assert_eq!(opens, vec![Section::Diagnostics, Section::Ticket, Section::Administration]);
    assert_eq!(rows[0].subtitle, "Relay, connection paths, routing");
    let rows = section_rows(12);
    assert_eq!(rows.len(), 4);
    assert_eq!(rows[0].opens, Section::Requests);
    assert_eq!(rows[0].title, "Join requests");
    assert_eq!(rows[0].subtitle, "12 waiting");
    assert_eq!(rows[0].icon, "dialog-question-symbolic");
}

#[test]
fn member_list_leaves_this_device_out() {
    let now = 10_000_000;
    let mut a = online("aaaaaaaaaaaaaaaa", Some(true));
    a.label = Some(text("Laptop"));
    a.hostname = Some(text("lt-01"));
    a.virtual_ip = Some(text("10.99.0.3"));
    let mut b = online("b", Some(false));
    b.hostname = Some(text("nas"));
    let mut c = member("cccccccccccccccc");
    c.last_seen = now - 120_000;
    let mut d = online("d", None);
    d.label = Some(text("Phone"));
    let s = status(vec![a.clone(), me(), b, c.clone(), d]);
    assert_eq!(members_description(&s), "4 other device(s)");
    let rows = member_rows(&s, now);
    let shown: Vec<(usize, &str, &str, bool)> = rows
        .iter()
        .map(|r| (r.index, r.title.as_str(), r.subtitle.as_str(), r.online))
        .collect();
    assert_eq!(
        shown,
        vec![
            (0, "Laptop", "lt-01 · 10.99.0.3 · direct", true),
            (2, "nas", "(no IP) · relay", true),
            (3, "cccccccccc", "(no IP) · last seen 2m ago", false),
            (4, "Phone", "(no IP)", true),
        ]
    );
    assert_eq!(member_name(&a), "Laptop");
    assert_eq!(member_name(&c), "cccccccccc");
    assert_eq!(presence_text(true), "Online");
    assert_eq!(presence_text(false), "Offline");
}

#[test]
fn diagnostics_count_connections() {
    let mut s = status(vec![
        me(),
        online("a", Some(true)),
        online("b", Some(true)),
        online("c", Some(false)),
        online("d", None),
        MemberView { direct: Some(true), ..member("e") },
        MemberView { is_self: true, ..online("f", Some(true)) },
    ]);
    let show = |s: &NetworkStatus| -> Vec<(&'static str, String)> {
        diag_rows(s).into_iter().map(|p| (p.title, p.value)).collect()
    };
    assert_eq!(
        show(&s),
        vec![
            ("Home relay", text("—")),
            ("Connections", text("2 direct · 1 via relay")),
            ("Routing (TUN)", text("on — carrying traffic")),
            ("This device", text("me")),
        ]
    );
    s.home_relay = Some(text("relay.example"));
    s.routing = false;
    assert_eq!(show(&s)[0].1, "relay.example");
    assert_eq!(show(&s)[2].1, "off — needs the elevated daemon");
}

#[test]
fn detail_page_of_a_member() {
    let now = 10_000_000;
    let mut m = online("nnnnnnnnnnnnnnnn", Some(true));
    m.label = Some(text("Laptop"));
    m.virtual_ip = Some(text("10.99.0.3"));
    m.observed_addr = Some(text("198.51.100.7:1"));
    let page = member_detail(&m, true, now);
    assert_eq!(page.title, "Laptop");
    assert!(page.kick);
    let rows: Vec<(&str, &str, Copying)> =
        page.rows.iter().map(|p| (p.title, p.value.as_str(), p.copying)).collect();
    assert_eq!(
        rows,
        vec![
            ("Friendly name", "Laptop", Copying::Nothing),
            ("Hostname", "—", Copying::Nothing),
            ("Status", "Online", Copying::Nothing),
            ("Virtual IP", "10.99.0.3", Copying::VirtualIp),
            ("Connection", "Direct (peer-to-peer)", Copying::Nothing),
            ("Observed address", "198.51.100.7:1", Copying::Nothing),
            ("Node ID", "nnnnnnnnnnnnnnnn", Copying::NodeId),
        ]
    );
    let mut off = member("n");
    off.hostname = Some(text("nas"));
    off.last_seen = now - 5000;
    let page = member_detail(&off, false, now);
    assert_eq!(page.title, "nas");
    assert!(!page.kick);
    let rows: Vec<(&str, &str)> = page.rows.iter().map(|p| (p.title, p.value.as_str())).collect();
    assert_eq!(
        rows,
        vec![("Hostname", "nas"), ("Status", "Offline"), ("Last seen", "5s ago"), ("Node ID", "n")]
    );
    let relayed = member_detail(&online("r", Some(false)), false, now);
    assert_eq!(relayed.rows[2].value, "Via relay");
    assert_eq!(copy_texts(Copying::VirtualIp), Some(("Copy virtual IP", "Virtual IP copied")));
    assert_eq!(copy_texts(Copying::NodeId), Some(("Copy node ID", "Node ID copied")));
    assert_eq!(copy_texts(Copying::Nothing), None);
}

#[test]
fn administration_depends_on_the_role() {
    let mut s = status(vec![]);
    let rows = admin_rows(&s);
    assert_eq!(rows.len(), 1);
    assert_eq!(rows[0].action, AdminAction::Restore);
    assert_eq!(rows[0].title, "Restore originator access…");
    assert_eq!(danger_row(&s).title, "Leave network");
    assert_eq!(danger_row(&s).subtitle, "Leave on this device only");
    s.is_originator = true;
    s.frozen = true;
    let rows = admin_rows(&s);
    let actions: Vec<AdminAction> = rows.iter().map(|r| r.action).collect();
    assert_eq!(
        actions,
        vec![AdminAction::Freeze { active: true }, AdminAction::Rotate, AdminAction::Backup]
    );
    assert_eq!(rows[0].subtitle, "No new devices can join while frozen");
    assert_eq!(danger_row(&s).title, "Delete network");
    assert_eq!(danger_row(&s).action, AdminAction::Destroy);
}

#[test]
fn placeholders_say_what_is_wrong() {
    assert_eq!(placeholder_texts(Placeholder::Connecting).0, "Connecting…");
    assert_eq!(placeholder_texts(Placeholder::Empty).0, "No network yet");
    let (heading, body) = placeholder_texts(Placeholder::DaemonDown);
    assert_eq!(heading, "Service not running");
    assert!(body.starts_with("The privileged ipn-daemon isn't reachable."));
    let (heading, body) = placeholder_texts(Placeholder::VersionMismatch { daemon: 3, gui: 41 });
    assert_eq!(heading, "Version mismatch");
    assert_eq!(
        body,
        "The app (IPC v41) and the background service (IPC v3) are different versions. \
         Update both IPN components to the same release."
    );
}

// --- dialogs ---

#[test]
fn confirmations_send_only_when_confirmed() {
    let kick = confirm_kick("node", "Laptop");
    assert_eq!(kick.heading, "Remove “Laptop”?");
    assert!(confirm_kick("node", "Laptop").answered("cancel").is_none());
    assert!(
        matches!(kick.answered("remove"), Some(IpcRequest::RemoveMember { node_id }) if node_id == "node")
    );
    assert!(confirm_rotate().answered("remove").is_none());
    assert!(matches!(confirm_rotate().answered("rotate"), Some(IpcRequest::RotateNetwork)));
    let delete = confirm_destroy(true);
    assert_eq!(delete.heading, "Delete this network?");
    assert_eq!(delete.label, "Delete");
    assert!(matches!(delete.answered("go"), Some(IpcRequest::DeleteNetwork)));
    let leave = confirm_destroy(false);
    assert_eq!(leave.label, "Leave");
    assert!(matches!(leave.answered("go"), Some(IpcRequest::LeaveNetwork)));
}

#[test]
fn networks_have_a_name() {
    assert!(create_answer("cancel", "x").is_none());
    assert!(matches!(create_answer("create", "cabin "), Some(IpcRequest::CreateNetwork { name }) if name == "cabin "));
    assert!(matches!(create_answer("create", " \n"), Some(IpcRequest::CreateNetwork { name }) if name == "home"));
}

#[test]
fn tickets_are_recognised_and_trimmed() {
    assert!(matches!(join_answer("cancel", "ipn1x"), JoinAnswer::Nothing));
    assert!(matches!(join_answer("join", " ipn1abc\n"), JoinAnswer::Send(IpcRequest::Join { ticket }) if ticket == "ipn1abc"));
    assert!(matches!(
        join_answer("join", "hello"),
        JoinAnswer::Refuse("That doesn't look like a join ticket (it should start with “ipn1…”).")
    ));
    assert!(matches!(join_answer("join", ""), JoinAnswer::Refuse(_)));
}

#[test]
fn blank_labels_clear() {
    assert!(label_answer("cancel", "x").is_none());
    assert!(matches!(label_answer("save", "  "), Some(IpcRequest::SetLabel { label: None })));
    assert!(matches!(label_answer("save", " Desk "), Some(IpcRequest::SetLabel { label: Some(l) }) if l == " Desk "));
    assert!(import_answer("cancel", "c").is_none());
    assert!(matches!(import_answer("import", "c"), Some(IpcRequest::ImportOriginatorKey { code }) if code == "c"));
}
