//! Text of the alert notifications, and which e-mail to send.

use vstd::prelude::*;

use lettre::message::Mailbox;

use crate::alerts::NotificationKind;
use crate::text::push_str;

verus! {

/// A notification, ready for both channels.
#[derive(Debug, Clone)]
pub struct Notification {
    /// E-mail subject.
    pub subject: String,
    /// E-mail body, HTML.
    pub html: String,
    /// Webhook message (Discord/Slack markdown).
    pub content: String,
}

/// Subject, HTML body and webhook text of a notification about `component`.
pub open spec fn spec_notification(kind: NotificationKind, component: Seq<char>, message: Seq<char>) -> (Seq<char>, Seq<char>, Seq<char>) {
    match kind {
        NotificationKind::Triggered => (
            "[Alerte RustMon] "@ + component,
            "<strong>"@ + message
                + "</strong><br>Connectez-vous au dashboard pour acquitter l'alerte."@,
            "⚠️ **Alerte Serveur** : "@ + message,
        ),
        NotificationKind::Resolved => (
            "[RustMon] Incident résolu : "@ + component,
            "<strong>Incident résolu</strong><br>"@ + message,
            "✅ **Incident résolu** : "@ + message,
        ),
    }
}

/// The notification that an incident on `component` was opened or resolved.
pub fn notification(kind: NotificationKind, component: &str, message: &str) -> (n: Notification)
    ensures
        (n.subject@, n.html@, n.content@) == spec_notification(kind, component@, message@),
{
    match kind {
        NotificationKind::Triggered => {
            let mut subject = String::from_str("[Alerte RustMon] ");
            push_str(&mut subject, component);
            let mut html = String::from_str("<strong>");
            push_str(&mut html, message);
            push_str(&mut html, "</strong><br>Connectez-vous au dashboard pour acquitter l'alerte.");
            let mut content = String::from_str("⚠️ **Alerte Serveur** : ");
            push_str(&mut content, message);
            Notification { subject, html, content }
        },
        NotificationKind::Resolved => {
            let mut subject = String::from_str("[RustMon] Incident résolu : ");
            push_str(&mut subject, component);
            let mut html = String::from_str("<strong>Incident résolu</strong><br>");
            push_str(&mut html, message);
            let mut content = String::from_str("✅ **Incident résolu** : ");
            push_str(&mut content, message);
            Notification { subject, html, content }
        },
    }
}

#[verifier::external_type_specification]
#[verifier::external_body]
pub struct ExMailbox(Mailbox);

/// Whether lettre reads `s` as a mailbox (`user@domain` or `Name <user@domain>`).
pub uninterp spec fn mailbox_accepts(s: Seq<char>) -> bool;

/// The mailbox that lettre reads from `s`, where it reads one.
pub uninterp spec fn parsed_mailbox(s: Seq<char>) -> Mailbox;

/// `s.parse::<lettre::message::Mailbox>()`: lettre's mailbox parser, which
/// depends on `s` alone. It is stated that the parse succeeds exactly on the
/// texts that `mailbox_accepts` names and gives the mailbox that
/// `parsed_mailbox` names; which texts those are, and what the mailbox holds,
/// is left unsaid.
#[verifier::external_body]
fn parse_mailbox(s: &str) -> (r: Option<Mailbox>)
    ensures
        r is Some <==> mailbox_accepts(s@),
        r is Some ==> r->0 == parsed_mailbox(s@),
{
    s.parse::<Mailbox>().ok()
}

/// What to do with an e-mail notification.
#[derive(Debug)]
pub enum EmailPlan {
    /// No SMTP transport or no sender configured: e-mail is disabled.
    Disabled,
    /// The recipient list is empty.
    NoRecipients,
    /// The sender address does not parse.
    InvalidSender,
    /// Send from `from` to `to`. `accepted` are the recipient texts that parsed,
    /// in order, and `to` their mailboxes; `rejected` are those skipped.
    Send { from: Mailbox, to: Vec<Mailbox>, accepted: Vec<String>, rejected: Vec<String> },
}

/// The recipients of `to` that lettre accepts (`keep`) or refuses (`!keep`), in order.
pub open spec fn select_recipients(to: Seq<String>, keep: bool) -> Seq<Seq<char>>
    decreases to.len(),
{
    if to.len() == 0 {
        Seq::empty()
    } else {
        let rest = select_recipients(to.drop_last(), keep);
        if mailbox_accepts(to.last()@) == keep {
            rest.push(to.last()@)
        } else {
            rest
        }
    }
}

/// Every recipient text is sorted once: it is kept when lettre accepts it and
/// skipped when it does not, so the kept and skipped lists together are as
/// long as the input, and each text of the input stands in the list its
/// acceptance decides.
pub proof fn lemma_every_recipient_sorted_once(to: Seq<String>)
    ensures
        select_recipients(to, true).len() + select_recipients(to, false).len() == to.len(),
        forall|i: int|
            0 <= i < select_recipients(to, true).len() ==> mailbox_accepts(
                #[trigger] select_recipients(to, true)[i],
            ),
        forall|i: int|
            0 <= i < select_recipients(to, false).len() ==> !mailbox_accepts(
                #[trigger] select_recipients(to, false)[i],
            ),
        forall|i: int|
            0 <= i < to.len() ==> select_recipients(to, mailbox_accepts((#[trigger] to[i])@)).contains(
                to[i]@,
            ),
    decreases to.len(),
{
    if to.len() > 0 {
        let t = to.drop_last();
        lemma_every_recipient_sorted_once(t);
        let n = to.len() - 1;
        let a = select_recipients(t, true);
        let r = select_recipients(t, false);
        assert forall|i: int|
            0 <= i < select_recipients(to, true).len() implies mailbox_accepts(
            #[trigger] select_recipients(to, true)[i],
        ) by {
            if i < a.len() {
                assert(select_recipients(to, true)[i] == a[i]);
            }
        }
        assert forall|i: int|
            0 <= i < select_recipients(to, false).len() implies !mailbox_accepts(
            #[trigger] select_recipients(to, false)[i],
        ) by {
            if i < r.len() {
                assert(select_recipients(to, false)[i] == r[i]);
            }
        }
        assert forall|i: int|
            0 <= i < to.len() implies select_recipients(to, mailbox_accepts((#[trigger] to[i])@)).contains(
            to[i]@,
        ) by {
            let keep = mailbox_accepts(to[i]@);
            let prev = select_recipients(t, keep);
            if i < n {
                assert(t[i] == to[i]);
                assert(prev.contains(to[i]@));
                let k = choose|k: int| 0 <= k < prev.len() && prev[k] == to[i]@;
                assert(select_recipients(to, keep)[k] == prev[k]);
            } else {
                let cur = select_recipients(to, keep);
                assert(cur[cur.len() - 1] == to[i]@);
            }
        }
    }
}

/// Decides whether and to whom a notification e-mail goes: nothing without an
/// SMTP transport (`smtp_ready`) and a sender, nor without recipients, nor with
/// a sender that does not parse; otherwise every recipient that parses, the
/// others skipped.
pub fn plan_email(smtp_ready: bool, from: Option<&str>, to: &Vec<String>) -> (p: EmailPlan)
    ensures
        (!smtp_ready || from is None) ==> p is Disabled,
        (smtp_ready && from is Some && to@.len() == 0) ==> p is NoRecipients,
        (smtp_ready && from is Some && to@.len() > 0 && !mailbox_accepts(from->0@))
            ==> p is InvalidSender,
        (smtp_ready && from is Some && to@.len() > 0 && mailbox_accepts(from->0@)) ==> (
        match p {
            EmailPlan::Send { from: sender, to: boxes, accepted, rejected } => {
                &&& sender == parsed_mailbox(from->0@)
                &&& accepted@.map_values(|s: String| s@) == select_recipients(to@, true)
                &&& rejected@.map_values(|s: String| s@) == select_recipients(to@, false)
                &&& boxes@ == accepted@.map_values(|s: String| parsed_mailbox(s@))
            },
            _ => false,
        }),
{
    let from = match from {
        Some(f) => f,
        None => return EmailPlan::Disabled,
    };
    if !smtp_ready {
        return EmailPlan::Disabled;
    }
    if to.len() == 0 {
        return EmailPlan::NoRecipients;
    }
    let sender = match parse_mailbox(from) {
        Some(m) => m,
        None => return EmailPlan::InvalidSender,
    };
    let mut boxes: Vec<Mailbox> = Vec::new();
    let mut accepted: Vec<String> = Vec::new();
    let mut rejected: Vec<String> = Vec::new();
    let mut i: usize = 0;
    while i < to.len()
        invariant
            i <= to@.len(),
            boxes@ == accepted@.map_values(|s: String| parsed_mailbox(s@)),
            accepted@.map_values(|s: String| s@) == select_recipients(to@.subrange(0, i as int), true),
            rejected@.map_values(|s: String| s@) == select_recipients(to@.subrange(0, i as int), false),
        decreases to@.len() - i,
    {
        let ghost a0 = accepted@.map_values(|s: String| s@);
        let ghost r0 = rejected@.map_values(|s: String| s@);
        assert(to@.subrange(0, i + 1).drop_last() =~= to@.subrange(0, i as int));
        let ghost b0 = accepted@.map_values(|s: String| parsed_mailbox(s@));
        match parse_mailbox(to[i].as_str()) {
            Some(m) => {
                boxes.push(m);
                accepted.push(to[i].clone());
                assert(accepted@.map_values(|s: String| s@) =~= a0.push(to@[i as int]@));
                assert(accepted@.map_values(|s: String| parsed_mailbox(s@)) =~= b0.push(
                    parsed_mailbox(to@[i as int]@),
                ));
            },
            None => {
                rejected.push(to[i].clone());
                assert(rejected@.map_values(|s: String| s@) =~= r0.push(to@[i as int]@));
            },
        }
        i = i + 1;
    }
    assert(to@.subrange(0, to@.len() as int) =~= to@);
    EmailPlan::Send { from: sender, to: boxes, accepted, rejected }
}

/// The SMTP login to use: the configured user and password, only when both are
/// set; otherwise the transport connects without authentication.
pub fn smtp_credentials(user: &Option<String>, password: &Option<String>) -> (r: Option<(String, String)>)
    ensures
        r is Some <==> (user is Some && password is Some),
        match r {
            Some((u, p)) => u@ == user->0@ && p@ == password->0@,
            None => true,
        },
{
    match (user, password) {
        (Some(u), Some(p)) => Some((u.clone(), p.clone())),
        _ => None,
    }
}

} // verus!
