//! The questions that the desktop client asks, and what follows from the
//! answers.

use vstd::prelude::*;
use vstd::string::*;

use crate::ipc::IpcRequest;
use crate::text;
use crate::text::{same_text, starts_with, trim};

verus! {

/// A question with two answers: to cancel, or to go ahead with a request.
pub struct Confirm {
    pub heading: String,
    pub body: &'static str,
    /// The identifier of the answer that goes ahead.
    pub accept: &'static str,
    /// The label of the answer that goes ahead.
    pub label: &'static str,
    pub request: IpcRequest,
}

impl Confirm {
    /// What follows from an answer: the request, if the answer was to go ahead.
    pub fn answered(self, response: &str) -> (r: Option<IpcRequest>)
        ensures
            r == if response@ == self.accept@ {
                Some(self.request)
            } else {
                None
            },
    {
        if same_text(response, self.accept) {
            Some(self.request)
        } else {
            None
        }
    }
}

/// Whether a question reads so.
pub open spec fn asks(
    c: Confirm,
    heading: Seq<char>,
    body: Seq<char>,
    accept: Seq<char>,
    label: Seq<char>,
) -> bool {
    c.heading@ == heading && c.body@ == body && c.accept@ == accept && c.label@ == label
}

/// Ask whether to remove the member with this id and name.
pub fn confirm_kick(node_id: &str, name: &str) -> (r: Confirm)
    ensures
        asks(
            r,
            "Remove “"@ + name@ + "”?"@,
            "This device is kicked from the network and its connection is dropped. You can re-invite it later with the join ticket."@,
            "remove"@,
            "Remove"@,
        ),
        r.request matches IpcRequest::RemoveMember { node_id: id } && id@ == node_id@,
{
    let mut heading = String::from_str("Remove “");
    heading.append(name);
    heading.append("”?");
    Confirm {
        heading,
        body: "This device is kicked from the network and its connection is dropped. You can re-invite it later with the join ticket.",
        accept: "remove",
        label: "Remove",
        request: IpcRequest::RemoveMember { node_id: String::from_str(node_id) },
    }
}

/// Ask whether to rotate the network secret.
pub fn confirm_rotate() -> (r: Confirm)
    ensures
        asks(
            r,
            "Rotate the network secret?"@,
            "Every member is removed and the network is re-keyed with a fresh secret. Anyone holding the old ticket — including a device that was offline — is locked out. You'll get a NEW ticket to re-invite the devices you want to keep."@,
            "rotate"@,
            "Rotate"@,
        ),
        r.request is RotateNetwork,
{
    Confirm {
        heading: String::from_str("Rotate the network secret?"),
        body: "Every member is removed and the network is re-keyed with a fresh secret. Anyone holding the old ticket — including a device that was offline — is locked out. You'll get a NEW ticket to re-invite the devices you want to keep.",
        accept: "rotate",
        label: "Rotate",
        request: IpcRequest::RotateNetwork,
    }
}

/// Ask whether to end it: the originator deletes the network for everyone, any
/// other device leaves it.
pub fn confirm_destroy(is_originator: bool) -> (r: Confirm)
    ensures
        is_originator ==> asks(
            r,
            "Delete this network?"@,
            "This removes every member and dissolves the pool — nobody will be able to reach each other over it. This can't be undone."@,
            "go"@,
            "Delete"@,
        ) && r.request is DeleteNetwork,
        !is_originator ==> asks(
            r,
            "Leave this network?"@,
            "This device will leave the network. Other members are unaffected."@,
            "go"@,
            "Leave"@,
        ) && r.request is LeaveNetwork,
{
    if is_originator {
        Confirm {
            heading: String::from_str("Delete this network?"),
            body: "This removes every member and dissolves the pool — nobody will be able to reach each other over it. This can't be undone.",
            accept: "go",
            label: "Delete",
            request: IpcRequest::DeleteNetwork,
        }
    } else {
        Confirm {
            heading: String::from_str("Leave this network?"),
            body: "This device will leave the network. Other members are unaffected.",
            accept: "go",
            label: "Leave",
            request: IpcRequest::LeaveNetwork,
        }
    }
}

/// The request that follows from the dialog for a new network: its name is what
/// was typed, or `home` if that is blank.
pub fn create_answer(response: &str, typed: &str) -> (r: Option<IpcRequest>)
    ensures
        response@ != "create"@ ==> r is None,
        response@ == "create"@ ==> (r matches Some(IpcRequest::CreateNetwork { name }) && name@
            == if text::trimmed(typed@).len() == 0 {
            "home"@
        } else {
            typed@
        }),
{
    if !same_text(response, "create") {
        return None;
    }
    let name = if trim(typed).as_str().unicode_len() == 0 {
        String::from_str("home")
    } else {
        String::from_str(typed)
    };
    Some(IpcRequest::CreateNetwork { name })
}

/// What follows from the dialog for joining.
pub enum JoinAnswer {
    /// Nothing; the dialog was cancelled.
    Nothing,
    /// What was typed is no ticket; say so.
    Refuse(&'static str),
    Send(IpcRequest),
}

/// Whether a text looks like a join ticket.
pub open spec fn is_ticket(typed: Seq<char>) -> bool {
    "ipn1"@.is_prefix_of(text::trimmed(typed))
}

/// What follows from the dialog for joining: a text that looks like a ticket is
/// sent without the white space around it, any other is refused.
pub fn join_answer(response: &str, typed: &str) -> (r: JoinAnswer)
    ensures
        response@ != "join"@ ==> r is Nothing,
        response@ == "join"@ && !is_ticket(typed@) ==> (r matches JoinAnswer::Refuse(t) && t@
            == "That doesn't look like a join ticket (it should start with “ipn1…”)."@),
        response@ == "join"@ && is_ticket(typed@) ==> (r matches JoinAnswer::Send(
            IpcRequest::Join { ticket },
        ) && ticket@ == text::trimmed(typed@)),
{
    if !same_text(response, "join") {
        return JoinAnswer::Nothing;
    }
    let ticket = trim(typed);
    if !starts_with(ticket.as_str(), "ipn1") {
        return JoinAnswer::Refuse(
            "That doesn't look like a join ticket (it should start with “ipn1…”).",
        );
    }
    JoinAnswer::Send(IpcRequest::Join { ticket })
}

/// The request that follows from the dialog for this device's friendly name: a
/// blank text clears it.
pub fn label_answer(response: &str, typed: &str) -> (r: Option<IpcRequest>)
    ensures
        response@ != "save"@ ==> r is None,
        response@ == "save"@ && text::trimmed(typed@).len() == 0 ==> r == Some(
            IpcRequest::SetLabel { label: None },
        ),
        response@ == "save"@ && text::trimmed(typed@).len() > 0 ==> (r matches Some(
            IpcRequest::SetLabel { label: Some(label) },
        ) && label@ == typed@),
{
    if !same_text(response, "save") {
        return None;
    }
    if trim(typed).as_str().unicode_len() == 0 {
        Some(IpcRequest::SetLabel { label: None })
    } else {
        Some(IpcRequest::SetLabel { label: Some(String::from_str(typed)) })
    }
}

/// The request that follows from the dialog for a recovery code.
pub fn import_answer(response: &str, typed: &str) -> (r: Option<IpcRequest>)
    ensures
        response@ != "import"@ ==> r is None,
        response@ == "import"@ ==> (r matches Some(IpcRequest::ImportOriginatorKey { code }) && code@
            == typed@),
{
    if !same_text(response, "import") {
        return None;
    }
    Some(IpcRequest::ImportOriginatorKey { code: String::from_str(typed) })
}

// ---------------------------------------------------------------------------
// Laws
// ---------------------------------------------------------------------------

/// A question leads to its request if it is answered with the answer that goes
/// ahead, and to nothing by any other answer.
pub proof fn law_only_going_ahead_sends_the_request(c: Confirm, response: &str, r: Option<IpcRequest>)
    requires
        call_ensures(Confirm::answered, (c, response), r),
    ensures
        response@ == c.accept@ ==> r == Some(c.request),
        response@ != c.accept@ ==> r is None,
{
}

/// The question about removing a device names it, and going ahead removes that
/// device.
pub proof fn law_removal_is_asked_by_name(node_id: &str, name: &str, c: Confirm)
    requires
        call_ensures(confirm_kick, (node_id, name), c),
    ensures
        c.heading@ == "Remove “"@ + name@ + "”?"@,
        c.body@
            == "This device is kicked from the network and its connection is dropped. You can re-invite it later with the join ticket."@,
        c.accept@ == "remove"@,
        c.label@ == "Remove"@,
        c.request is RemoveMember,
        c.request->RemoveMember_node_id@ == node_id@,
{
}

/// The question about rotating the secret says what it does, and going ahead
/// rotates it.
pub proof fn law_rotation_is_asked_about(c: Confirm)
    requires
        call_ensures(confirm_rotate, (), c),
    ensures
        c.heading@ == "Rotate the network secret?"@,
        c.body@
            == "Every member is removed and the network is re-keyed with a fresh secret. Anyone holding the old ticket — including a device that was offline — is locked out. You'll get a NEW ticket to re-invite the devices you want to keep."@,
        c.accept@ == "rotate"@,
        c.label@ == "Rotate"@,
        c.request is RotateNetwork,
{
}

/// The originator is asked about deleting the network, and deletes it by going
/// ahead; anyone else is asked about leaving it, and leaves it.
pub proof fn law_the_end_is_asked_about(is_originator: bool, c: Confirm)
    requires
        call_ensures(confirm_destroy, (is_originator,), c),
    ensures
        c.accept@ == "go"@,
        is_originator ==> {
            &&& c.heading@ == "Delete this network?"@
            &&& c.body@
                == "This removes every member and dissolves the pool — nobody will be able to reach each other over it. This can't be undone."@
            &&& c.label@ == "Delete"@
            &&& c.request is DeleteNetwork
        },
        !is_originator ==> {
            &&& c.heading@ == "Leave this network?"@
            &&& c.body@ == "This device will leave the network. Other members are unaffected."@
            &&& c.label@ == "Leave"@
            &&& c.request is LeaveNetwork
        },
{
}

/// Whether nothing but white space was typed.
pub open spec fn is_blank(typed: Seq<char>) -> bool {
    forall|i: int| 0 <= i < typed.len() ==> text::is_white(#[trigger] typed[i])
}

/// What is blank is trimmed to nothing, and nothing else is.
proof fn lemma_blank(typed: Seq<char>)
    ensures
        is_blank(typed) <==> text::trimmed(typed).len() == 0,
{
    text::lemma_trim_cut(typed);
    if !is_blank(typed) {
        let i = choose|i: int| 0 <= i < typed.len() && !text::is_white(#[trigger] typed[i]);
        assert(!text::is_white(typed[i]));
    }
}

/// A new network is called what was typed, letter for letter, or `home` if that
/// was blank; nothing is created by another answer.
pub proof fn law_blank_networks_are_called_home(response: &str, typed: &str, r: Option<IpcRequest>)
    requires
        call_ensures(create_answer, (response, typed), r),
    ensures
        response@ != "create"@ ==> r is None,
        response@ == "create"@ ==> r is Some && r->0 is CreateNetwork,
        response@ == "create"@ && is_blank(typed@) ==> r->0->CreateNetwork_name@ == "home"@,
        response@ == "create"@ && !is_blank(typed@) ==> r->0->CreateNetwork_name@ == typed@,
{
    lemma_blank(typed@);
}

/// What was typed is sent as a ticket exactly if it begins with the letters of
/// `ipn1` behind white space; it is then sent without the white space around it.
/// Anything else is refused, and another answer does nothing.
pub proof fn law_tickets_begin_with_their_mark(response: &str, typed: &str, r: JoinAnswer, t: Seq<char>)
    requires
        call_ensures(join_answer, (response, typed), r),
        t == text::trimmed(typed@),
    ensures
        response@ != "join"@ ==> r is Nothing,
        response@ == "join"@ && t.len() >= 4 && t[0] == 'i' && t[1] == 'p' && t[2] == 'n' && t[3] == '1'
            ==> r is Send && r->Send_0 is Join && r->Send_0->ticket@ == t,
        response@ == "join"@ && (t.len() < 4 || t[0] != 'i' || t[1] != 'p' || t[2] != 'n' || t[3] != '1')
            ==> r is Refuse && r->Refuse_0@
            == "That doesn't look like a join ticket (it should start with “ipn1…”)."@,
{
    reveal_strlit("ipn1");
    if t.len() >= 4 {
        let front = t.subrange(0, 4);
        assert(front[0] == t[0] && front[1] == t[1] && front[2] == t[2] && front[3] == t[3]);
        if t[0] == 'i' && t[1] == 'p' && t[2] == 'n' && t[3] == '1' {
            assert(front =~= "ipn1"@);
        }
    }
}

/// The friendly name becomes what was typed, letter for letter, and is cleared if
/// that was blank; another answer does nothing.
pub proof fn law_blank_labels_are_cleared(response: &str, typed: &str, r: Option<IpcRequest>)
    requires
        call_ensures(label_answer, (response, typed), r),
    ensures
        response@ != "save"@ ==> r is None,
        response@ == "save"@ ==> r is Some && r->0 is SetLabel,
        response@ == "save"@ && is_blank(typed@) ==> r->0->label is None,
        response@ == "save"@ && !is_blank(typed@) ==> r->0->label is Some && r->0->label->0@ == typed@,
{
    lemma_blank(typed@);
}

/// A recovery code is sent as it was typed; another answer does nothing.
pub proof fn law_recovery_codes_are_sent_as_typed(response: &str, typed: &str, r: Option<IpcRequest>)
    requires
        call_ensures(import_answer, (response, typed), r),
    ensures
        response@ != "import"@ ==> r is None,
        response@ == "import"@ ==> r is Some && r->0 is ImportOriginatorKey && r->0->code@ == typed@,
{
}

} // verus!
