//! The audited mutation: a state change and its audit entry as one atomic
//! unit. The coordinator decides, step by step, what the holder of the
//! transaction does next; it never lets a change be committed without its
//! audit entry, and it rolls back on every failure.

use vstd::prelude::*;
use crate::errors::ErrorKind;

verus! {

/// Where an audited mutation stands.
#[derive(Debug, Clone, Copy, PartialEq, Eq, Structural)]
pub enum TxState {
    /// The transaction is open; the domain writes are under way.
    Open,
    /// The domain writes succeeded; the audit entry is being inserted.
    Mutated,
    /// The audit entry is in; the commit is under way.
    Audited,
    /// Both the change and its audit entry are durable.
    Committed,
    /// The unit did not take effect.
    Failed(ErrorKind),
}

/// What the holder of the transaction reports back.
#[derive(Debug, Clone, Copy, PartialEq, Eq, Structural)]
pub enum TxEvent {
    MutationSucceeded,
    /// The domain writes failed, for the given reason.
    MutationFailed(ErrorKind),
    AuditInserted,
    AuditInsertFailed,
    CommitSucceeded,
    CommitFailed,
}

/// What the holder of the transaction does next.
#[derive(Debug, Clone, Copy, PartialEq, Eq, Structural)]
pub enum TxAction {
    /// Insert the audit entry, on the same transaction.
    InsertAudit,
    /// Commit the transaction.
    Commit,
    /// Roll the transaction back and report the failure.
    RollBack(ErrorKind),
    /// The commit failed and nothing took effect: report the failure.
    Report(ErrorKind),
    /// The unit is durable: send the side-channel notification, whose own
    /// failure changes nothing, and report success.
    NotifyAndSucceed,
    /// The unit ended before: there is nothing to do.
    Nothing,
}

/// The state after an event.
pub open spec fn next_state(state: TxState, event: TxEvent) -> TxState {
    match (state, event) {
        (TxState::Open, TxEvent::MutationSucceeded) => TxState::Mutated,
        (TxState::Open, TxEvent::MutationFailed(kind)) => TxState::Failed(kind),
        (TxState::Mutated, TxEvent::AuditInserted) => TxState::Audited,
        (TxState::Audited, TxEvent::CommitSucceeded) => TxState::Committed,
        (TxState::Committed, _) => TxState::Committed,
        (TxState::Failed(kind), _) => TxState::Failed(kind),
        _ => TxState::Failed(ErrorKind::Internal),
    }
}

/// What to do after an event.
pub open spec fn next_action(state: TxState, event: TxEvent) -> TxAction {
    match (state, event) {
        (TxState::Open, TxEvent::MutationSucceeded) => TxAction::InsertAudit,
        (TxState::Open, TxEvent::MutationFailed(kind)) => TxAction::RollBack(kind),
        (TxState::Mutated, TxEvent::AuditInserted) => TxAction::Commit,
        (TxState::Audited, TxEvent::CommitSucceeded) => TxAction::NotifyAndSucceed,
        (TxState::Audited, TxEvent::CommitFailed) => TxAction::Report(ErrorKind::Internal),
        (TxState::Committed, _) => TxAction::Nothing,
        (TxState::Failed(_), _) => TxAction::Nothing,
        _ => TxAction::RollBack(ErrorKind::Internal),
    }
}

/// Advances an audited mutation by one event.
///
/// Any event that is not the success of the step under way ends the unit in
/// failure: a failed audit insert or commit, and an event out of turn, count
/// as a storage failure.
pub fn step(state: TxState, event: TxEvent) -> (r: (TxState, TxAction))
    ensures
        r.0 == next_state(state, event),
        r.1 == next_action(state, event),
{
    match state {
        TxState::Open => match event {
            TxEvent::MutationSucceeded => (TxState::Mutated, TxAction::InsertAudit),
            TxEvent::MutationFailed(kind) => (TxState::Failed(kind), TxAction::RollBack(kind)),
            _ => (TxState::Failed(ErrorKind::Internal), TxAction::RollBack(ErrorKind::Internal)),
        },
        TxState::Mutated => match event {
            TxEvent::AuditInserted => (TxState::Audited, TxAction::Commit),
            _ => (TxState::Failed(ErrorKind::Internal), TxAction::RollBack(ErrorKind::Internal)),
        },
        TxState::Audited => match event {
            TxEvent::CommitSucceeded => (TxState::Committed, TxAction::NotifyAndSucceed),
            TxEvent::CommitFailed => (
                TxState::Failed(ErrorKind::Internal),
                TxAction::Report(ErrorKind::Internal),
            ),
            _ => (TxState::Failed(ErrorKind::Internal), TxAction::RollBack(ErrorKind::Internal)),
        },
        TxState::Committed => (TxState::Committed, TxAction::Nothing),
        TxState::Failed(kind) => (TxState::Failed(kind), TxAction::Nothing),
    }
}

/// The state after a sequence of events.
pub open spec fn run(state: TxState, events: Seq<TxEvent>) -> TxState
    decreases events.len(),
{
    if events.len() == 0 {
        state
    } else {
        run(next_state(state, events[0]), events.drop_first())
    }
}

/// What is durable once the unit stands in `state`: the staged change with
/// its audit entry if the unit was committed, else what was there before.
pub open spec fn durable<S>(state: TxState, before: S, staged: S) -> S {
    if state == TxState::Committed {
        staged
    } else {
        before
    }
}

/// The HTTP status that reports where the unit ended, or `None` while it is
/// under way.
pub open spec fn final_status(state: TxState) -> Option<u16> {
    match state {
        TxState::Committed => Some(200),
        TxState::Failed(kind) => Some(kind.status_spec()),
        _ => None,
    }
}

/// The status to answer with once the unit has ended.
pub fn status_of(state: TxState) -> (r: Option<u16>)
    ensures
        r == final_status(state),
{
    match state {
        TxState::Committed => Some(200),
        TxState::Failed(kind) => Some(kind.status()),
        _ => None,
    }
}

/// A failed unit stays failed, whatever is reported afterwards.
pub proof fn lemma_failed_is_final(kind: ErrorKind, events: Seq<TxEvent>)
    ensures
        run(TxState::Failed(kind), events) == TxState::Failed(kind),
    decreases events.len(),
{
    if events.len() > 0 {
        lemma_failed_is_final(kind, events.drop_first());
    }
}

/// A committed unit stays committed.
pub proof fn lemma_committed_is_final(events: Seq<TxEvent>)
    ensures
        run(TxState::Committed, events) == TxState::Committed,
    decreases events.len(),
{
    if events.len() > 0 {
        lemma_committed_is_final(events.drop_first());
    }
}

/// A unit is committed only along one path: the domain writes succeeded,
/// then the audit entry was inserted, then the commit succeeded. So no change
/// is ever durable without its audit entry.
pub proof fn lemma_commit_needs_audit(events: Seq<TxEvent>)
    requires
        run(TxState::Open, events) == TxState::Committed,
    ensures
        events.len() >= 3,
        events[0] == TxEvent::MutationSucceeded,
        events[1] == TxEvent::AuditInserted,
        events[2] == TxEvent::CommitSucceeded,
{
    reveal_with_fuel(run, 4);
    if events.len() == 0 {
    } else {
        let s1 = next_state(TxState::Open, events[0]);
        let rest1 = events.drop_first();
        if let TxState::Failed(kind) = s1 {
            lemma_failed_is_final(kind, rest1);
        } else {
            assert(events[0] == TxEvent::MutationSucceeded);
            if rest1.len() == 0 {
            } else {
                let s2 = next_state(s1, rest1[0]);
                let rest2 = rest1.drop_first();
                if let TxState::Failed(kind) = s2 {
                    lemma_failed_is_final(kind, rest2);
                } else {
                    assert(rest1[0] == TxEvent::AuditInserted);
                    if rest2.len() == 0 {
                    } else {
                        let s3 = next_state(s2, rest2[0]);
                        if let TxState::Failed(kind) = s3 {
                            lemma_failed_is_final(kind, rest2.drop_first());
                        } else {
                            assert(rest2[0] == TxEvent::CommitSucceeded);
                        }
                    }
                }
            }
        }
    }
}

/// Atomic pairing: when the audit entry cannot be inserted, the unit fails
/// for good and what was there before stays durable, whatever the staged
/// change was and whatever is reported afterwards.
pub proof fn lemma_audit_failure_rolls_back<S>(before: S, staged: S, later: Seq<TxEvent>)
    ensures
        ({
            let events = seq![TxEvent::MutationSucceeded, TxEvent::AuditInsertFailed] + later;
            &&& run(TxState::Open, events) == TxState::Failed(ErrorKind::Internal)
            &&& durable(run(TxState::Open, events), before, staged) == before
            &&& next_action(TxState::Mutated, TxEvent::AuditInsertFailed) == TxAction::RollBack(
                ErrorKind::Internal,
            )
        }),
{
    let events = seq![TxEvent::MutationSucceeded, TxEvent::AuditInsertFailed] + later;
    reveal_with_fuel(run, 3);
    assert(events.drop_first().drop_first() =~= later);
    lemma_failed_is_final(ErrorKind::Internal, later);
}

/// The side-channel notification is sent only once the unit is durable.
pub proof fn lemma_notify_only_after_commit(state: TxState, event: TxEvent)
    ensures
        next_action(state, event) == TxAction::NotifyAndSucceed <==> (state == TxState::Audited
            && event == TxEvent::CommitSucceeded),
        next_action(state, event) == TxAction::NotifyAndSucceed ==> next_state(state, event)
            == TxState::Committed,
        next_action(state, event) == TxAction::Commit <==> (state == TxState::Mutated && event
            == TxEvent::AuditInserted),
{
}

} // verus!
