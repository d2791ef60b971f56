//! Putting a result into its place: it is made in a scratch file or directory
//! first, brought to its end, and only then moved to where it belongs.
use crate::format::Kind;
use crate::ops::{clears_place, Cleanup};
use vstd::prelude::*;

verus! {

/// Where a delivery stands.
#[derive(Clone, Copy, Debug, PartialEq, Eq, Structural)]
pub enum DeliverState {
    Start,
    Staging,
    Completing,
    Looking,
    Clearing,
    Moving,
    Done,
    Failed,
}

/// What happened.
#[derive(Clone, Copy, Debug, PartialEq, Eq, Structural)]
pub enum DeliverEvent {
    /// A delivery was asked for.
    Begin,
    /// The result is in the scratch file or directory.
    Staged,
    /// The stream came to its end, and all of it was well.
    Completed,
    /// Something stands in the place of the result, or nothing does.
    Looked(bool),
    /// What stood there was removed.
    Cleared,
    /// The result is in its place.
    Moved,
    /// What was to be done could not be done.
    Failed,
}

/// What to do next.
#[derive(Clone, Copy, Debug, PartialEq, Eq, Structural)]
pub enum DeliverAction {
    /// Make a scratch file or directory, and the result in it.
    Stage,
    /// Bring the stream to its end: read it to its final chunk, or write that.
    Complete,
    /// See whether something stands in the place of the result.
    Look,
    /// Remove what stands there.
    Clear,
    /// Move the result there.
    Move,
    /// The result is delivered: do what is left to do about the scratch.
    Settle(Cleanup),
    /// The delivery failed: do this about the scratch, and give the failure back.
    Undo(Cleanup),
}

/// Which events can follow in which state.
pub open spec fn deliver_expects(state: DeliverState, event: DeliverEvent) -> bool {
    match state {
        DeliverState::Start => event is Begin,
        DeliverState::Staging => event is Staged || event is Failed,
        DeliverState::Completing => event is Completed || event is Failed,
        DeliverState::Looking => event is Looked || event is Failed,
        DeliverState::Clearing => event is Cleared || event is Failed,
        DeliverState::Moving => event is Moved || event is Failed,
        DeliverState::Done => false,
        DeliverState::Failed => false,
    }
}

/// What becomes of the scratch of a delivery that failed.
pub open spec fn undone(kind: Kind) -> Cleanup {
    match kind {
        Kind::File => Cleanup::RemoveFile,
        Kind::Directory => Cleanup::RemoveDir,
    }
}

/// What becomes of the scratch of a delivery that came to its end: a file is no
/// longer there, and of a directory the shell may be.
pub open spec fn settled(kind: Kind) -> Cleanup {
    match kind {
        Kind::File => Cleanup::Nothing,
        Kind::Directory => Cleanup::RemoveDir,
    }
}

/// Where an event leads to. `force` says whether what stands in the place of the
/// result may be removed.
pub open spec fn deliver_next(
    kind: Kind,
    force: bool,
    state: DeliverState,
    event: DeliverEvent,
) -> (DeliverState, DeliverAction) {
    if event is Failed {
        (DeliverState::Failed, DeliverAction::Undo(undone(kind)))
    } else {
        match state {
            DeliverState::Start => (DeliverState::Staging, DeliverAction::Stage),
            DeliverState::Staging => (DeliverState::Completing, DeliverAction::Complete),
            DeliverState::Completing => (DeliverState::Looking, DeliverAction::Look),
            DeliverState::Looking => if force && event == DeliverEvent::Looked(true) {
                (DeliverState::Clearing, DeliverAction::Clear)
            } else {
                (DeliverState::Moving, DeliverAction::Move)
            },
            DeliverState::Clearing => (DeliverState::Moving, DeliverAction::Move),
            _ => (DeliverState::Done, DeliverAction::Settle(settled(kind))),
        }
    }
}

/// One step of delivering a file or directory.
pub fn deliver(kind: Kind, force: bool, state: DeliverState, event: DeliverEvent) -> (res: (
    DeliverState,
    DeliverAction,
))
    requires
        deliver_expects(state, event),
    ensures
        res == deliver_next(kind, force, state, event),
{
    match event {
        DeliverEvent::Failed => {
            let cleanup = match kind {
                Kind::File => Cleanup::RemoveFile,
                Kind::Directory => Cleanup::RemoveDir,
            };
            return (DeliverState::Failed, DeliverAction::Undo(cleanup));
        },
        _ => {},
    }
    match state {
        DeliverState::Start => (DeliverState::Staging, DeliverAction::Stage),
        DeliverState::Staging => (DeliverState::Completing, DeliverAction::Complete),
        DeliverState::Completing => (DeliverState::Looking, DeliverAction::Look),
        DeliverState::Looking => {
            let taken = match event {
                DeliverEvent::Looked(taken) => taken,
                _ => false,
            };
            if clears_place(force, taken) {
                (DeliverState::Clearing, DeliverAction::Clear)
            } else {
                (DeliverState::Moving, DeliverAction::Move)
            }
        },
        DeliverState::Clearing => (DeliverState::Moving, DeliverAction::Move),
        _ => {
            let cleanup = match kind {
                Kind::File => Cleanup::Nothing,
                Kind::Directory => Cleanup::RemoveDir,
            };
            (DeliverState::Done, DeliverAction::Settle(cleanup))
        },
    }
}

/// Where a delivery stands after a run of events.
pub open spec fn deliver_after(kind: Kind, force: bool, events: Seq<DeliverEvent>) -> Option<
    DeliverState,
>
    decreases events.len(),
{
    if events.len() == 0 {
        Some(DeliverState::Start)
    } else {
        match deliver_after(kind, force, events.drop_last()) {
            None => None,
            Some(state) => if deliver_expects(state, events.last()) {
                Some(deliver_next(kind, force, state, events.last()).0)
            } else {
                None
            },
        }
    }
}

/// What is to be done after a run of events.
pub open spec fn deliver_does(kind: Kind, force: bool, events: Seq<DeliverEvent>) -> Option<
    DeliverAction,
> {
    if events.len() == 0 {
        None
    } else {
        match deliver_after(kind, force, events.drop_last()) {
            None => None,
            Some(state) => if deliver_expects(state, events.last()) {
                Some(deliver_next(kind, force, state, events.last()).1)
            } else {
                None
            },
        }
    }
}

/// How a delivery came to where it stands.
proof fn lemma_deliver_came(kind: Kind, force: bool, events: Seq<DeliverEvent>)
    ensures
        match deliver_after(kind, force, events) {
            Some(DeliverState::Start) => events.len() == 0,
            Some(DeliverState::Staging) => events =~= seq![DeliverEvent::Begin],
            Some(DeliverState::Completing) => events =~= seq![
                DeliverEvent::Begin,
                DeliverEvent::Staged,
            ],
            Some(DeliverState::Looking) => events =~= seq![
                DeliverEvent::Begin,
                DeliverEvent::Staged,
                DeliverEvent::Completed,
            ],
            Some(DeliverState::Clearing) => force && events =~= seq![
                DeliverEvent::Begin,
                DeliverEvent::Staged,
                DeliverEvent::Completed,
                DeliverEvent::Looked(true),
            ],
            Some(DeliverState::Moving) => {
                &&& events.len() >= 4
                &&& events.take(3) =~= seq![
                    DeliverEvent::Begin,
                    DeliverEvent::Staged,
                    DeliverEvent::Completed,
                ]
                &&& if force && events[3] == DeliverEvent::Looked(true) {
                    events.len() == 5 && events[4] == DeliverEvent::Cleared
                } else {
                    events.len() == 4 && events[3] is Looked
                }
            },
            Some(DeliverState::Done) => events.len() >= 5 && events.last() is Moved
                && deliver_after(kind, force, events.drop_last()) == Some(DeliverState::Moving),
            Some(DeliverState::Failed) => events.len() >= 2 && events.last() is Failed,
            None => true,
        },
    decreases events.len(),
{
    if events.len() > 0 {
        let before = events.drop_last();
        lemma_deliver_came(kind, force, before);
        assert(events =~= before.push(events.last()));
        if let Some(state) = deliver_after(kind, force, before) {
            if state is Looking && events.last() is Looked {
                assert(events.take(3) =~= before);
            }
            if state is Clearing && events.last() is Cleared {
                assert(events.take(3) =~= before.take(3));
                assert(events[3] == before[3]);
            }
        }
    }
}

/// What stood in the place of a result is removed only where that was asked for,
/// and only once the stream came to its end and all of it was well.
pub proof fn law_place_is_cleared_only_after_the_end(
    kind: Kind,
    force: bool,
    events: Seq<DeliverEvent>,
)
    requires
        deliver_does(kind, force, events) == Some(DeliverAction::Clear),
    ensures
        force,
        events == seq![
            DeliverEvent::Begin,
            DeliverEvent::Staged,
            DeliverEvent::Completed,
            DeliverEvent::Looked(true),
        ],
{
    lemma_deliver_came(kind, force, events);
    assert(deliver_after(kind, force, events) == Some(DeliverState::Clearing));
}

/// A result is moved into its place only once the stream came to its end and all
/// of it was well. What stood there and might be removed is removed first.
pub proof fn law_moved_only_after_the_end(kind: Kind, force: bool, events: Seq<DeliverEvent>)
    requires
        deliver_does(kind, force, events) == Some(DeliverAction::Move),
    ensures
        events.len() >= 4,
        events[2] == DeliverEvent::Completed,
        force && events[3] == DeliverEvent::Looked(true) ==> events.last() == DeliverEvent::Cleared,
{
    lemma_deliver_came(kind, force, events);
    assert(deliver_after(kind, force, events) == Some(DeliverState::Moving));
    assert(events.take(3)[2] == events[2]);
}

/// A stream that is refused, or ends early, leaves the place of the result as it
/// was: as long as the stream has not come to its end, nothing there is removed
/// and nothing is moved there, whether or not it might be.
pub proof fn law_refused_stream_leaves_the_place(
    kind: Kind,
    force: bool,
    events: Seq<DeliverEvent>,
    i: int,
)
    requires
        !events.contains(DeliverEvent::Completed),
        0 <= i <= events.len(),
    ensures
        deliver_does(kind, force, events.take(i)) matches Some(action) ==> !(action is Clear
            || action is Move || action is Settle),
{
    let part = events.take(i);
    if let Some(action) = deliver_does(kind, force, part) {
        if action is Clear || action is Move {
            if action is Clear {
                law_place_is_cleared_only_after_the_end(kind, force, part);
            } else {
                law_moved_only_after_the_end(kind, force, part);
            }
            assert(events[2] == part[2]);
            assert(events.contains(events[2]));
        } else if action is Settle {
            lemma_deliver_came(kind, force, part);
            let before = part.drop_last();
            lemma_deliver_came(kind, force, before);
            assert(before.take(3)[2] == before[2]);
            assert(events[2] == before[2]);
            assert(events.contains(events[2]));
        }
    }
}

/// No scratch stays behind: a delivery that failed removes it, and one that came
/// to its end has moved it or removes what is left of it.
pub proof fn law_no_scratch_stays(kind: Kind, force: bool, events: Seq<DeliverEvent>)
    ensures
        deliver_after(kind, force, events) == Some(DeliverState::Failed) ==> deliver_does(
            kind,
            force,
            events,
        ) == Some(DeliverAction::Undo(undone(kind))),
        deliver_after(kind, force, events) == Some(DeliverState::Done) ==> events.last()
            == DeliverEvent::Moved && deliver_does(kind, force, events) == Some(
            DeliverAction::Settle(settled(kind)),
        ),
{
    lemma_deliver_came(kind, force, events);
}

/// What follows what in a delivery, told by what was to be done and what happened,
/// and by nothing else: the stream comes to its end before the place is looked at,
/// what stands there goes only where it may, and whatever fails leads to the
/// removal of the scratch, which is of the kind that is delivered.
pub proof fn law_delivering_step_by_step(
    kind: Kind,
    force: bool,
    events: Seq<DeliverEvent>,
    event: DeliverEvent,
)
    requires
        deliver_does(kind, force, events) is Some,
    ensures
        deliver_does(kind, force, events.push(event)) == match (
            deliver_does(kind, force, events)->0,
            event,
        ) {
            (DeliverAction::Settle(_), _) => None,
            (DeliverAction::Undo(_), _) => None,
            (_, DeliverEvent::Failed) => Some(
                DeliverAction::Undo(
                    match kind {
                        Kind::File => Cleanup::RemoveFile,
                        Kind::Directory => Cleanup::RemoveDir,
                    },
                ),
            ),
            (DeliverAction::Stage, DeliverEvent::Staged) => Some(DeliverAction::Complete),
            (DeliverAction::Complete, DeliverEvent::Completed) => Some(DeliverAction::Look),
            (DeliverAction::Look, DeliverEvent::Looked(taken)) => Some(
                if taken && force {
                    DeliverAction::Clear
                } else {
                    DeliverAction::Move
                },
            ),
            (DeliverAction::Clear, DeliverEvent::Cleared) => Some(DeliverAction::Move),
            (DeliverAction::Move, DeliverEvent::Moved) => Some(
                DeliverAction::Settle(
                    match kind {
                        Kind::File => Cleanup::Nothing,
                        Kind::Directory => Cleanup::RemoveDir,
                    },
                ),
            ),
            _ => None,
        },
        deliver_does(kind, force, seq![event]) == if event is Begin {
            Some(DeliverAction::Stage)
        } else {
            None
        },
{
    assert(events.push(event).drop_last() =~= events);
    assert(deliver_after(kind, force, events) is Some);
    let state = deliver_after(kind, force, events.drop_last())->0;
    assert(seq![event].drop_last() =~= Seq::<DeliverEvent>::empty());
    reveal_with_fuel(deliver_after, 2);
}

} // verus!
