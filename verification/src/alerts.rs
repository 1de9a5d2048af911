//! Alert lifecycle: the de-duplication rule that decides, on every collection
//! cycle, whether an incident is opened, left alone or resolved, and which
//! notification goes out.
//!
//! The alerts themselves live in the database. Evaluating one metric is a short
//! exchange with it: `evaluate_start` says which lookup to make, and
//! `evaluate_step` takes each answer and says what to do next, until the
//! evaluation stops. A breach opens an incident only when none is `TRIGGERED`;
//! a recovery resolves every open alert of the component, then notifies once.

use vstd::prelude::*;

verus! {

/// Row of the `alerts` table. `status` is one of `TRIGGERED`, `ACKNOWLEDGED`, `RESOLVED`.
#[derive(Debug, Clone)]
pub struct Alert {
    pub id: i64,
    pub timestamp: String,
    pub component: String,
    pub message: String,
    pub status: String,
    pub acknowledged_at: Option<String>,
    pub resolved_at: Option<String>,
}

/// The lookups that an evaluation makes in the alerts table.
#[derive(Debug, Clone, Copy, PartialEq, Eq)]
pub enum AlertLookup {
    /// The `TRIGGERED` alert of the component, if any.
    Triggered,
    /// The `TRIGGERED` or `ACKNOWLEDGED` alert of the component, if any.
    Open,
}

/// Which notification an evaluation sends.
#[derive(Debug, Clone, Copy, PartialEq, Eq)]
pub enum NotificationKind {
    /// A new incident was opened.
    Triggered,
    /// An open incident went back to normal.
    Resolved,
}

/// The database operation that failed, ending an evaluation.
#[derive(Debug, Clone, Copy, PartialEq, Eq)]
pub enum EvaluateFailure {
    QueryTriggered,
    QueryOpen,
    InsertAlert,
    ResolveAlert,
}

/// Where an evaluation stands.
#[derive(Debug, Clone, Copy, PartialEq, Eq)]
pub enum EvaluateStep {
    /// Waiting for the answer to the first lookup; `breached` is the metric's state.
    AwaitingLookup { breached: bool },
    /// Waiting for the insertion of a new `TRIGGERED` alert.
    AwaitingInsert,
    /// Waiting for the resolution of the alert `id`; `resolved_before` tells
    /// whether this evaluation already resolved another alert.
    AwaitingResolve { id: i64, resolved_before: bool },
    /// Alerts were resolved; waiting for the lookup of another open alert.
    AwaitingRecheck,
    /// The evaluation is over.
    Finished,
}

/// What the database answered.
#[derive(Debug, Clone, Copy, PartialEq, Eq)]
pub enum EvaluateEvent {
    /// The lookup found the alert `id`.
    Found { id: i64 },
    /// The lookup found no alert.
    NotFound,
    /// The last write (insertion or resolution) succeeded.
    Written,
    /// The last query or write failed.
    Failed,
}

/// What to do next.
#[derive(Debug, Clone, Copy, PartialEq, Eq)]
pub enum EvaluateAction {
    /// Run this lookup for the component and answer with `Found` or `NotFound`.
    Lookup(AlertLookup),
    /// Insert a `TRIGGERED` alert with the component and message; answer `Written`.
    InsertAlert,
    /// Mark the alert `id` `RESOLVED`; answer `Written`.
    ResolveAlert { id: i64 },
    /// Send this notification in the background, then push the refreshed list
    /// of active alerts to the dashboard. The evaluation is over.
    NotifyAndBroadcast(NotificationKind),
    /// Log the failure. The evaluation is over, nothing changed.
    ReportFailure(EvaluateFailure),
    /// Log the failure and push the refreshed list of active alerts: some
    /// alerts were resolved before it. No notification: the alerts left open
    /// are resolved, and the recovery notified, by a later evaluation.
    ReportFailureAndBroadcast(EvaluateFailure),
    /// Nothing to do. The evaluation is over, nothing changed.
    Stop,
}

/// First step of evaluating a metric whose threshold is `breached` (or not):
/// while breached, look for an already `TRIGGERED` alert; otherwise look for an
/// open one (`TRIGGERED` or `ACKNOWLEDGED`) to resolve.
pub open spec fn spec_evaluate_start(breached: bool) -> (EvaluateStep, EvaluateAction) {
    (
        EvaluateStep::AwaitingLookup { breached },
        EvaluateAction::Lookup(if breached { AlertLookup::Triggered } else { AlertLookup::Open }),
    )
}

/// One step of an evaluation. While a `TRIGGERED` alert exists for the
/// component, a breach changes nothing: no new alert, no notification. A breach
/// without one opens a new alert, and once it is stored, notifies. Back to
/// normal, every open alert is resolved in turn, looking again after each
/// resolution, and once no open alert is left, the recovery is notified once. A
/// failed query or write ends the evaluation; the dashboard is refreshed when
/// alerts were resolved before it.
pub open spec fn spec_evaluate_step(step: EvaluateStep, event: EvaluateEvent) -> (EvaluateStep, EvaluateAction) {
    match step {
        EvaluateStep::AwaitingLookup { breached } => match event {
            EvaluateEvent::Found { id } => if breached {
                (EvaluateStep::Finished, EvaluateAction::Stop)
            } else {
                (
                    EvaluateStep::AwaitingResolve { id, resolved_before: false },
                    EvaluateAction::ResolveAlert { id },
                )
            },
            EvaluateEvent::NotFound => if breached {
                (EvaluateStep::AwaitingInsert, EvaluateAction::InsertAlert)
            } else {
                (EvaluateStep::Finished, EvaluateAction::Stop)
            },
            _ => (
                EvaluateStep::Finished,
                EvaluateAction::ReportFailure(
                    if breached {
                        EvaluateFailure::QueryTriggered
                    } else {
                        EvaluateFailure::QueryOpen
                    },
                ),
            ),
        },
        EvaluateStep::AwaitingInsert => match event {
            EvaluateEvent::Written => (
                EvaluateStep::Finished,
                EvaluateAction::NotifyAndBroadcast(NotificationKind::Triggered),
            ),
            _ => (EvaluateStep::Finished, EvaluateAction::ReportFailure(EvaluateFailure::InsertAlert)),
        },
        EvaluateStep::AwaitingResolve { id, resolved_before } => match event {
            EvaluateEvent::Written => (
                EvaluateStep::AwaitingRecheck,
                EvaluateAction::Lookup(AlertLookup::Open),
            ),
            _ => (
                EvaluateStep::Finished,
                if resolved_before {
                    EvaluateAction::ReportFailureAndBroadcast(EvaluateFailure::ResolveAlert)
                } else {
                    EvaluateAction::ReportFailure(EvaluateFailure::ResolveAlert)
                },
            ),
        },
        EvaluateStep::AwaitingRecheck => match event {
            EvaluateEvent::Found { id } => (
                EvaluateStep::AwaitingResolve { id, resolved_before: true },
                EvaluateAction::ResolveAlert { id },
            ),
            EvaluateEvent::NotFound => (
                EvaluateStep::Finished,
                EvaluateAction::NotifyAndBroadcast(NotificationKind::Resolved),
            ),
            _ => (
                EvaluateStep::Finished,
                EvaluateAction::ReportFailureAndBroadcast(EvaluateFailure::QueryOpen),
            ),
        },
        EvaluateStep::Finished => (EvaluateStep::Finished, EvaluateAction::Stop),
    }
}

/// Starts the evaluation of one metric or component.
pub fn evaluate_start(breached: bool) -> (r: (EvaluateStep, EvaluateAction))
    ensures
        r == spec_evaluate_start(breached),
{
    let lookup = if breached {
        AlertLookup::Triggered
    } else {
        AlertLookup::Open
    };
    (EvaluateStep::AwaitingLookup { breached }, EvaluateAction::Lookup(lookup))
}

/// Advances an evaluation with the database's answer.
pub fn evaluate_step(step: EvaluateStep, event: EvaluateEvent) -> (r: (EvaluateStep, EvaluateAction))
    ensures
        r == spec_evaluate_step(step, event),
{
    match step {
        EvaluateStep::AwaitingLookup { breached } => match event {
            EvaluateEvent::Found { id } => if breached {
                (EvaluateStep::Finished, EvaluateAction::Stop)
            } else {
                (
                    EvaluateStep::AwaitingResolve { id, resolved_before: false },
                    EvaluateAction::ResolveAlert { id },
                )
            },
            EvaluateEvent::NotFound => if breached {
                (EvaluateStep::AwaitingInsert, EvaluateAction::InsertAlert)
            } else {
                (EvaluateStep::Finished, EvaluateAction::Stop)
            },
            _ => {
                let failure = if breached {
                    EvaluateFailure::QueryTriggered
                } else {
                    EvaluateFailure::QueryOpen
                };
                (EvaluateStep::Finished, EvaluateAction::ReportFailure(failure))
            },
        },
        EvaluateStep::AwaitingInsert => match event {
            EvaluateEvent::Written => (
                EvaluateStep::Finished,
                EvaluateAction::NotifyAndBroadcast(NotificationKind::Triggered),
            ),
            _ => (EvaluateStep::Finished, EvaluateAction::ReportFailure(EvaluateFailure::InsertAlert)),
        },
        EvaluateStep::AwaitingResolve { id: _, resolved_before } => match event {
            EvaluateEvent::Written => (
                EvaluateStep::AwaitingRecheck,
                EvaluateAction::Lookup(AlertLookup::Open),
            ),
            _ => {
                let action = if resolved_before {
                    EvaluateAction::ReportFailureAndBroadcast(EvaluateFailure::ResolveAlert)
                } else {
                    EvaluateAction::ReportFailure(EvaluateFailure::ResolveAlert)
                };
                (EvaluateStep::Finished, action)
            },
        },
        EvaluateStep::AwaitingRecheck => match event {
            EvaluateEvent::Found { id } => (
                EvaluateStep::AwaitingResolve { id, resolved_before: true },
                EvaluateAction::ResolveAlert { id },
            ),
            EvaluateEvent::NotFound => (
                EvaluateStep::Finished,
                EvaluateAction::NotifyAndBroadcast(NotificationKind::Resolved),
            ),
            _ => (
                EvaluateStep::Finished,
                EvaluateAction::ReportFailureAndBroadcast(EvaluateFailure::QueryOpen),
            ),
        },
        EvaluateStep::Finished => (EvaluateStep::Finished, EvaluateAction::Stop),
    }
}

/// The evaluation is over: no action of it asks for more.
pub open spec fn is_final(a: EvaluateAction) -> bool {
    match a {
        EvaluateAction::NotifyAndBroadcast(_) => true,
        EvaluateAction::ReportFailure(_) => true,
        EvaluateAction::ReportFailureAndBroadcast(_) => true,
        EvaluateAction::Stop => true,
        _ => false,
    }
}

/// Whether the evaluation is over.
pub fn is_final_action(a: EvaluateAction) -> (r: bool)
    ensures
        r == is_final(a),
{
    match a {
        EvaluateAction::NotifyAndBroadcast(_) => true,
        EvaluateAction::ReportFailure(_) => true,
        EvaluateAction::ReportFailureAndBroadcast(_) => true,
        EvaluateAction::Stop => true,
        _ => false,
    }
}

// ----------------------------------------------------------------------------
// Whole evaluations
// ----------------------------------------------------------------------------

/// The actions that answering `events` in turn produces from `step`.
pub open spec fn actions_after(step: EvaluateStep, events: Seq<EvaluateEvent>) -> Seq<EvaluateAction>
    decreases events.len(),
{
    if events.len() == 0 {
        Seq::empty()
    } else {
        let (next, action) = spec_evaluate_step(step, events[0]);
        seq![action] + actions_after(next, events.drop_first())
    }
}

/// Every action of an evaluation of a metric (`breached` or not) whose
/// database answers are `events`: the first lookup, then one action per answer.
pub open spec fn evaluation(breached: bool, events: Seq<EvaluateEvent>) -> Seq<EvaluateAction> {
    let (step, first) = spec_evaluate_start(breached);
    seq![first] + actions_after(step, events)
}

/// The action sends a notification.
pub open spec fn is_notification(a: EvaluateAction) -> bool {
    a is NotifyAndBroadcast
}

/// Number of notifications among `actions`.
pub open spec fn notification_count(actions: Seq<EvaluateAction>) -> nat
    decreases actions.len(),
{
    if actions.len() == 0 {
        0
    } else {
        (if is_notification(actions[0]) { 1nat } else { 0nat }) + notification_count(
            actions.drop_first(),
        )
    }
}

proof fn lemma_count_cons(a: EvaluateAction, rest: Seq<EvaluateAction>)
    ensures
        notification_count(seq![a] + rest) == (if is_notification(a) { 1nat } else { 0nat })
            + notification_count(rest),
{
    assert((seq![a] + rest).drop_first() =~= rest);
}

proof fn lemma_actions_after_len(step: EvaluateStep, events: Seq<EvaluateEvent>)
    ensures
        actions_after(step, events).len() == events.len(),
    decreases events.len(),
{
    if events.len() > 0 {
        let (next, action) = spec_evaluate_step(step, events[0]);
        lemma_actions_after_len(next, events.drop_first());
    }
}

proof fn lemma_finished_stops(events: Seq<EvaluateEvent>)
    ensures
        forall|i: int|
            0 <= i < events.len() ==> #[trigger] actions_after(EvaluateStep::Finished, events)[i]
                == EvaluateAction::Stop,
        notification_count(actions_after(EvaluateStep::Finished, events)) == 0,
    decreases events.len(),
{
    lemma_actions_after_len(EvaluateStep::Finished, events);
    if events.len() > 0 {
        lemma_finished_stops(events.drop_first());
        let rest = actions_after(EvaluateStep::Finished, events.drop_first());
        let all = actions_after(EvaluateStep::Finished, events);
        assert(all == seq![EvaluateAction::Stop] + rest);
        lemma_count_cons(EvaluateAction::Stop, rest);
        assert forall|i: int| 0 <= i < events.len() implies #[trigger] all[i] == EvaluateAction::Stop by {
            if i > 0 {
                assert(all[i] == rest[i - 1]);
            }
        }
    }
}

proof fn lemma_unfold(step: EvaluateStep, events: Seq<EvaluateEvent>)
    requires
        events.len() > 0,
    ensures
        ({
            let (next, action) = spec_evaluate_step(step, events[0]);
            let all = actions_after(step, events);
            &&& all[0] == action
            &&& all.drop_first() == actions_after(next, events.drop_first())
            &&& forall|i: int|
                0 < i < all.len() ==> #[trigger] all[i] == actions_after(
                    next,
                    events.drop_first(),
                )[i - 1]
            &&& notification_count(all) == (if is_notification(action) { 1nat } else { 0nat })
                + notification_count(actions_after(next, events.drop_first()))
        }),
{
    let (next, action) = spec_evaluate_step(step, events[0]);
    let all = actions_after(step, events);
    assert(all.drop_first() =~= actions_after(next, events.drop_first()));
}

/// The step belongs to the evaluation of a metric that is `breached` (or not).
pub open spec fn step_of(step: EvaluateStep, breached: bool) -> bool {
    match step {
        EvaluateStep::AwaitingLookup { breached: b } => b == breached,
        EvaluateStep::AwaitingInsert => breached,
        EvaluateStep::AwaitingResolve { .. } => !breached,
        EvaluateStep::AwaitingRecheck => !breached,
        EvaluateStep::Finished => true,
    }
}

/// The action fits a metric that is `breached` (or not): a breach never
/// resolves, a metric under its threshold never opens an incident.
pub open spec fn action_of(a: EvaluateAction, breached: bool) -> bool {
    if breached {
        !(a is ResolveAlert) && a != EvaluateAction::NotifyAndBroadcast(NotificationKind::Resolved)
    } else {
        a != EvaluateAction::InsertAlert && a != EvaluateAction::NotifyAndBroadcast(
            NotificationKind::Triggered,
        )
    }
}

proof fn lemma_run(step: EvaluateStep, breached: bool, events: Seq<EvaluateEvent>)
    requires
        step_of(step, breached),
    ensures
        notification_count(actions_after(step, events)) <= 1,
        forall|i: int|
            0 <= i < events.len() ==> action_of(#[trigger] actions_after(step, events)[i], breached),
    decreases events.len(),
{
    lemma_actions_after_len(step, events);
    if events.len() > 0 {
        lemma_unfold(step, events);
        let (next, action) = spec_evaluate_step(step, events[0]);
        let rest = events.drop_first();
        lemma_run(next, breached, rest);
        if is_notification(action) {
            lemma_finished_stops(rest);
        }
        let all = actions_after(step, events);
        assert forall|i: int| 0 <= i < events.len() implies action_of(#[trigger] all[i], breached) by {
            if i > 0 {
                assert(all[i] == actions_after(next, rest)[i - 1]);
            }
        }
    }
}

/// An evaluation sends at most one notification, whatever the database answers.
pub proof fn lemma_at_most_one_notification(breached: bool, events: Seq<EvaluateEvent>)
    ensures
        notification_count(evaluation(breached, events)) <= 1,
{
    let (step, first) = spec_evaluate_start(breached);
    lemma_count_cons(first, actions_after(step, events));
    lemma_run(step, breached, events);
}

/// A metric under its threshold never opens an incident, and a breached one
/// never resolves one.
pub proof fn lemma_no_contrary_action(breached: bool, events: Seq<EvaluateEvent>, i: int)
    requires
        0 <= i < evaluation(breached, events).len(),
    ensures
        !breached ==> evaluation(breached, events)[i] != EvaluateAction::InsertAlert,
        !breached ==> evaluation(breached, events)[i] != EvaluateAction::NotifyAndBroadcast(
            NotificationKind::Triggered,
        ),
        breached ==> !(evaluation(breached, events)[i] is ResolveAlert),
        breached ==> evaluation(breached, events)[i] != EvaluateAction::NotifyAndBroadcast(
            NotificationKind::Resolved,
        ),
{
    let (step, first) = spec_evaluate_start(breached);
    lemma_actions_after_len(step, events);
    lemma_run(step, breached, events);
    if i > 0 {
        assert(evaluation(breached, events)[i] == actions_after(step, events)[i - 1]);
    }
}

/// De-duplication: while a `TRIGGERED` alert exists for the component (the
/// first lookup finds one), a breach neither inserts an alert nor notifies,
/// whatever else the database answers.
pub proof fn lemma_known_incident_is_silent(events: Seq<EvaluateEvent>)
    requires
        events.len() > 0,
        events[0] is Found,
    ensures
        evaluation(true, events)[0] == EvaluateAction::Lookup(AlertLookup::Triggered),
        forall|i: int|
            0 < i < evaluation(true, events).len() ==> #[trigger] evaluation(true, events)[i]
                == EvaluateAction::Stop,
{
    let (step, first) = spec_evaluate_start(true);
    let all = evaluation(true, events);
    lemma_actions_after_len(step, events);
    lemma_unfold(step, events);
    lemma_finished_stops(events.drop_first());
    let rest = actions_after(EvaluateStep::Finished, events.drop_first());
    assert forall|i: int| 0 < i < all.len() implies #[trigger] all[i] == EvaluateAction::Stop by {
        if i > 1 {
            assert(all[i] == actions_after(step, events)[i - 1]);
            assert(actions_after(step, events)[i - 1] == rest[i - 2]);
        }
    }
}

/// A new incident is notified only when the metric is breached, the lookup
/// found no `TRIGGERED` alert for the component, and the new alert was stored.
pub proof fn lemma_triggered_notification_needs_new_alert(
    breached: bool,
    events: Seq<EvaluateEvent>,
    i: int,
)
    requires
        0 <= i < evaluation(breached, events).len(),
        evaluation(breached, events)[i] == EvaluateAction::NotifyAndBroadcast(
            NotificationKind::Triggered,
        ),
    ensures
        breached,
        i == 2,
        events[0] == EvaluateEvent::NotFound,
        events[1] == EvaluateEvent::Written,
        evaluation(breached, events)[1] == EvaluateAction::InsertAlert,
{
    lemma_no_contrary_action(breached, events, i);
    let (step, first) = spec_evaluate_start(breached);
    let all = evaluation(breached, events);
    lemma_actions_after_len(step, events);
    assert(i > 0);
    lemma_unfold(step, events);
    let (s1, a1) = spec_evaluate_step(step, events[0]);
    assert(all[1] == a1);
    if i > 1 {
        assert(s1 != EvaluateStep::Finished) by {
            if s1 == EvaluateStep::Finished {
                lemma_finished_stops(events.drop_first());
                assert(all[i] == actions_after(s1, events.drop_first())[i - 2]);
            }
        }
        let ev1 = events.drop_first();
        lemma_actions_after_len(s1, ev1);
        lemma_unfold(s1, ev1);
        let (s2, a2) = spec_evaluate_step(s1, ev1[0]);
        assert(all[2] == a2);
        if i > 2 {
            lemma_finished_stops(ev1.drop_first());
            assert(all[i] == actions_after(s2, ev1.drop_first())[i - 3]);
        }
    }
}

/// Back to normal: the open alert that the lookup finds is resolved, the lookup
/// is made again, and once it finds no open alert, the recovery is notified.
pub proof fn lemma_recovery_resolves_open_incident(id: i64, events: Seq<EvaluateEvent>)
    requires
        events.len() >= 3,
        events[0] == (EvaluateEvent::Found { id }),
        events[1] == EvaluateEvent::Written,
        events[2] == EvaluateEvent::NotFound,
    ensures
        evaluation(false, events)[0] == EvaluateAction::Lookup(AlertLookup::Open),
        evaluation(false, events)[1] == (EvaluateAction::ResolveAlert { id }),
        evaluation(false, events)[2] == EvaluateAction::Lookup(AlertLookup::Open),
        evaluation(false, events)[3] == EvaluateAction::NotifyAndBroadcast(
            NotificationKind::Resolved,
        ),
{
    let (step, first) = spec_evaluate_start(false);
    lemma_unfold(step, events);
    let (s1, a1) = spec_evaluate_step(step, events[0]);
    let e1 = events.drop_first();
    lemma_unfold(s1, e1);
    let (s2, a2) = spec_evaluate_step(s1, e1[0]);
    lemma_unfold(s2, e1.drop_first());
}

/// A breach with no `TRIGGERED` alert for the component opens one and, once it
/// is stored, notifies: this is also how an incident that was acknowledged
/// (and so is no longer `TRIGGERED`) is notified again when it recurs.
pub proof fn lemma_new_incident_is_notified(events: Seq<EvaluateEvent>)
    requires
        events.len() >= 2,
        events[0] == EvaluateEvent::NotFound,
        events[1] == EvaluateEvent::Written,
    ensures
        evaluation(true, events)[1] == EvaluateAction::InsertAlert,
        evaluation(true, events)[2] == EvaluateAction::NotifyAndBroadcast(
            NotificationKind::Triggered,
        ),
{
    let (step, first) = spec_evaluate_start(true);
    lemma_unfold(step, events);
    let (s1, a1) = spec_evaluate_step(step, events[0]);
    lemma_unfold(s1, events.drop_first());
}

// ----------------------------------------------------------------------------
// The alerts table
// ----------------------------------------------------------------------------

/// Number of `TRIGGERED` alerts of component `c` in the table `t`.
pub open spec fn triggered_for(t: Seq<Alert>, c: Seq<char>) -> nat
    decreases t.len(),
{
    if t.len() == 0 {
        0
    } else {
        triggered_for(t.drop_last(), c) + if t.last().component@ == c && t.last().status@
            == "TRIGGERED"@ {
            1nat
        } else {
            0nat
        }
    }
}

/// The table after the writes of an evaluation of component `c`: the alert
/// `inserted` is appended when the evaluation inserted one and the insertion
/// was stored.
pub open spec fn table_after(
    t: Seq<Alert>,
    breached: bool,
    events: Seq<EvaluateEvent>,
    inserted: Alert,
) -> Seq<Alert> {
    if events.len() >= 2 && evaluation(breached, events)[1] == EvaluateAction::InsertAlert
        && events[1] == EvaluateEvent::Written {
        t.push(inserted)
    } else {
        t
    }
}

/// Uniqueness of the open incident: when the table holds at most one
/// `TRIGGERED` alert for a component and the lookup answers truthfully (it
/// finds an alert exactly when the table holds a `TRIGGERED` one), evaluating a
/// breach of that component leaves at most one `TRIGGERED` alert for it.
pub proof fn lemma_breach_keeps_incident_unique(
    t: Seq<Alert>,
    c: Seq<char>,
    events: Seq<EvaluateEvent>,
    inserted: Alert,
)
    requires
        triggered_for(t, c) <= 1,
        events.len() >= 1,
        events[0] is Found <==> triggered_for(t, c) == 1,
        events[0] is Found || events[0] is NotFound,
        inserted.component@ == c,
        inserted.status@ == "TRIGGERED"@,
    ensures
        triggered_for(table_after(t, true, events, inserted), c) <= 1,
{
    let (step, first) = spec_evaluate_start(true);
    lemma_unfold(step, events);
    let after = table_after(t, true, events, inserted);
    if after != t {
        assert(after.drop_last() =~= t);
        assert(evaluation(true, events)[1] == actions_after(step, events)[0]);
        assert(events[0] is NotFound);
    }
}

// ----------------------------------------------------------------------------
// Successive collection cycles against a truthful database
// ----------------------------------------------------------------------------

/// What the table holds for one component: (`TRIGGERED` alerts, `ACKNOWLEDGED` alerts).
pub type OpenAlerts = (nat, nat);

/// The answer of a database that holds `open` for the component, to `action`;
/// every write succeeds.
pub open spec fn truthful_answer(open: OpenAlerts, action: EvaluateAction) -> EvaluateEvent {
    match action {
        EvaluateAction::Lookup(AlertLookup::Triggered) => if open.0 > 0 {
            EvaluateEvent::Found { id: 0 }
        } else {
            EvaluateEvent::NotFound
        },
        EvaluateAction::Lookup(AlertLookup::Open) => if open.0 + open.1 > 0 {
            EvaluateEvent::Found { id: 0 }
        } else {
            EvaluateEvent::NotFound
        },
        _ => EvaluateEvent::Written,
    }
}

/// The component's open alerts after `action` is carried out: an insertion adds a
/// `TRIGGERED` alert; a resolution closes one open alert, a `TRIGGERED` one when
/// `resolve_triggered` (the lookup may return either kind) or when no
/// acknowledged one is left.
pub open spec fn apply_write(open: OpenAlerts, action: EvaluateAction, resolve_triggered: bool) -> OpenAlerts {
    match action {
        EvaluateAction::InsertAlert => (open.0 + 1, open.1),
        EvaluateAction::ResolveAlert { .. } => if open.0 > 0 && (resolve_triggered || open.1 == 0) {
            ((open.0 - 1) as nat, open.1)
        } else if open.1 > 0 {
            (open.0, (open.1 - 1) as nat)
        } else {
            open
        },
        _ => open,
    }
}

/// Carries out `action` (taken at `step`) and the rest of the evaluation
/// against a truthful database holding `open`, for at most `fuel` more steps:
/// the open alerts afterwards and the actions, `action` first.
pub open spec fn drive(
    open: OpenAlerts,
    step: EvaluateStep,
    action: EvaluateAction,
    fuel: nat,
    resolve_triggered: bool,
) -> (OpenAlerts, Seq<EvaluateAction>)
    decreases fuel,
{
    if is_final(action) || fuel == 0 {
        (open, seq![action])
    } else {
        let (next, following) = spec_evaluate_step(step, truthful_answer(open, action));
        let (after, rest) = drive(
            apply_write(open, action, resolve_triggered),
            next,
            following,
            (fuel - 1) as nat,
            resolve_triggered,
        );
        (after, seq![action] + rest)
    }
}

/// One collection cycle of a component whose metric is `breached` (or not),
/// against a truthful database holding `open`: the open alerts afterwards and
/// the actions of the evaluation (which takes at most two steps per open alert
/// and four more).
pub open spec fn cycle(open: OpenAlerts, breached: bool, resolve_triggered: bool) -> (OpenAlerts, Seq<EvaluateAction>) {
    let (s0, a0) = spec_evaluate_start(breached);
    drive(open, s0, a0, 2 * (open.0 + open.1) + 4, resolve_triggered)
}

/// Number of notifications sent over successive cycles, one per entry of
/// `breaches` (the metric's state at each cycle).
pub open spec fn notifications_over(open: OpenAlerts, breaches: Seq<bool>, resolve_triggered: bool) -> nat
    decreases breaches.len(),
{
    if breaches.len() == 0 {
        0
    } else {
        let (next, actions) = cycle(open, breaches[0], resolve_triggered);
        notification_count(actions) + notifications_over(next, breaches.drop_first(), resolve_triggered)
    }
}

/// One cycle of a breached metric: it notifies exactly when no `TRIGGERED`
/// alert exists for the component, and leaves exactly one.
pub proof fn lemma_breached_cycle(open: OpenAlerts, resolve_triggered: bool)
    ensures
        ({
            let (next, actions) = cycle(open, true, resolve_triggered);
            &&& notification_count(actions) == (if open.0 == 0 { 1nat } else { 0nat })
            &&& next == (if open.0 == 0 { (1nat, open.1) } else { open })
        }),
{
    let fuel = 2 * (open.0 + open.1) + 4;
    let (s0, a0) = spec_evaluate_start(true);
    let (s1, a1) = spec_evaluate_step(s0, truthful_answer(open, a0));
    let o1 = apply_write(open, a0, resolve_triggered);
    let d1 = drive(o1, s1, a1, (fuel - 1) as nat, resolve_triggered);
    assert(cycle(open, true, resolve_triggered) == (d1.0, seq![a0] + d1.1));
    lemma_count_cons(a0, d1.1);
    if open.0 > 0 {
        assert(d1 == (open, seq![a1]));
        lemma_count_cons(a1, Seq::empty());
    } else {
        let (s2, a2) = spec_evaluate_step(s1, truthful_answer(o1, a1));
        let o2 = apply_write(o1, a1, resolve_triggered);
        let d2 = drive(o2, s2, a2, (fuel - 2) as nat, resolve_triggered);
        assert(d1 == (d2.0, seq![a1] + d2.1));
        assert(d2 == (o2, seq![a2]));
        lemma_count_cons(a1, d2.1);
        lemma_count_cons(a2, Seq::empty());
    }
}

/// From a recheck, against a truthful database, the evaluation resolves every
/// open alert left, then notifies the recovery once.
proof fn lemma_recheck(open: OpenAlerts, fuel: nat, resolve_triggered: bool)
    requires
        fuel >= 2 * (open.0 + open.1) + 1,
    ensures
        ({
            let (after, actions) = drive(
                open,
                EvaluateStep::AwaitingRecheck,
                EvaluateAction::Lookup(AlertLookup::Open),
                fuel,
                resolve_triggered,
            );
            &&& after == (0nat, 0nat)
            &&& notification_count(actions) == 1
        }),
    decreases open.0 + open.1,
{
    let a0 = EvaluateAction::Lookup(AlertLookup::Open);
    let (s1, a1) = spec_evaluate_step(EvaluateStep::AwaitingRecheck, truthful_answer(open, a0));
    let d1 = drive(open, s1, a1, (fuel - 1) as nat, resolve_triggered);
    lemma_count_cons(a0, d1.1);
    if open.0 + open.1 == 0 {
        assert(d1 == (open, seq![a1]));
        lemma_count_cons(a1, Seq::empty());
    } else {
        let (s2, a2) = spec_evaluate_step(s1, truthful_answer(open, a1));
        let o2 = apply_write(open, a1, resolve_triggered);
        assert(s2 == EvaluateStep::AwaitingRecheck && a2 == a0);
        assert(o2.0 + o2.1 == open.0 + open.1 - 1);
        lemma_recheck(o2, (fuel - 2) as nat, resolve_triggered);
        let d2 = drive(o2, s2, a2, (fuel - 2) as nat, resolve_triggered);
        assert(d1 == (d2.0, seq![a1] + d2.1));
        lemma_count_cons(a1, d2.1);
    }
}

/// One cycle of a metric back to normal: it resolves every open alert of the
/// component (triggered or acknowledged), and notifies the recovery once when
/// there was any, nothing otherwise.
pub proof fn lemma_recovered_cycle(open: OpenAlerts, resolve_triggered: bool)
    ensures
        ({
            let (next, actions) = cycle(open, false, resolve_triggered);
            &&& next == (0nat, 0nat)
            &&& notification_count(actions) == (if open.0 + open.1 > 0 { 1nat } else { 0nat })
        }),
{
    let fuel = 2 * (open.0 + open.1) + 4;
    let (s0, a0) = spec_evaluate_start(false);
    let (s1, a1) = spec_evaluate_step(s0, truthful_answer(open, a0));
    let d1 = drive(open, s1, a1, (fuel - 1) as nat, resolve_triggered);
    assert(cycle(open, false, resolve_triggered) == (d1.0, seq![a0] + d1.1));
    lemma_count_cons(a0, d1.1);
    if open.0 + open.1 == 0 {
        assert(d1 == (open, seq![a1]));
        lemma_count_cons(a1, Seq::empty());
    } else {
        let (s2, a2) = spec_evaluate_step(s1, truthful_answer(open, a1));
        let o2 = apply_write(open, a1, resolve_triggered);
        assert(s2 == EvaluateStep::AwaitingRecheck);
        assert(a2 == EvaluateAction::Lookup(AlertLookup::Open));
        lemma_recheck(o2, (fuel - 2) as nat, resolve_triggered);
        let d2 = drive(o2, s2, a2, (fuel - 2) as nat, resolve_triggered);
        assert(d1 == (d2.0, seq![a1] + d2.1));
        lemma_count_cons(a1, d2.1);
    }
}

/// Uniqueness of the open incident across a cycle: against a truthful
/// database, a component with at most one `TRIGGERED` alert still has at most
/// one after a cycle, breached or not.
pub proof fn lemma_cycle_keeps_incident_unique(open: OpenAlerts, breached: bool, resolve_triggered: bool)
    requires
        open.0 <= 1,
    ensures
        cycle(open, breached, resolve_triggered).0.0 <= 1,
{
    if breached {
        lemma_breached_cycle(open, resolve_triggered);
    } else {
        lemma_recovered_cycle(open, resolve_triggered);
    }
}

/// Anti-spam: however many cycles a metric stays breached, the incident is
/// notified once, at the first cycle when no `TRIGGERED` alert exists yet, and
/// never when one already exists.
pub proof fn lemma_sustained_breach_notifies_once(open: OpenAlerts, breaches: Seq<bool>, resolve_triggered: bool)
    requires
        breaches.len() > 0,
        forall|i: int| 0 <= i < breaches.len() ==> breaches[i],
    ensures
        notifications_over(open, breaches, resolve_triggered) == (if open.0 == 0 { 1nat } else { 0nat }),
    decreases breaches.len(),
{
    lemma_breached_cycle(open, resolve_triggered);
    assert(breaches[0]);
    let (next, actions) = cycle(open, true, resolve_triggered);
    let rest = breaches.drop_first();
    if rest.len() > 0 {
        assert forall|i: int| 0 <= i < rest.len() implies rest[i] by {
            assert(rest[i] == breaches[i + 1]);
        }
        lemma_sustained_breach_notifies_once(next, rest, resolve_triggered);
    } else {
        assert(notifications_over(next, rest, resolve_triggered) == 0);
    }
}

/// After recovery, every open alert of the component (triggered or
/// acknowledged) is resolved in the first cycle, which notifies the recovery
/// once if there was any; the following cycles stay silent.
pub proof fn lemma_recovery_notifies_once(open: OpenAlerts, breaches: Seq<bool>, resolve_triggered: bool)
    requires
        forall|i: int| 0 <= i < breaches.len() ==> !breaches[i],
    ensures
        notifications_over(open, breaches, resolve_triggered) == (if breaches.len() > 0 && open.0
            + open.1 > 0 {
            1nat
        } else {
            0nat
        }),
    decreases breaches.len(),
{
    if breaches.len() > 0 {
        lemma_recovered_cycle(open, resolve_triggered);
        assert(!breaches[0]);
        let (next, actions) = cycle(open, false, resolve_triggered);
        let rest = breaches.drop_first();
        assert forall|i: int| 0 <= i < rest.len() implies !rest[i] by {
            assert(rest[i] == breaches[i + 1]);
        }
        lemma_recovery_notifies_once(next, rest, resolve_triggered);
    }
}

/// Acknowledging a `TRIGGERED` alert of the component from the dashboard.
pub open spec fn acknowledge(open: OpenAlerts) -> OpenAlerts {
    if open.0 > 0 {
        ((open.0 - 1) as nat, open.1 + 1)
    } else {
        open
    }
}

/// Once the only `TRIGGERED` alert of a component is acknowledged, the system
/// may notify again: the next cycle with the metric still breached notifies a
/// new incident.
pub proof fn lemma_acknowledged_incident_may_notify_again(acknowledged: nat, resolve_triggered: bool)
    ensures
        notification_count(cycle(acknowledge((1nat, acknowledged)), true, resolve_triggered).1) == 1,
{
    lemma_breached_cycle(acknowledge((1nat, acknowledged)), resolve_triggered);
}

} // verus!
