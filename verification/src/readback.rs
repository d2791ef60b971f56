//! Reading a finished container back: the data key is derived again, the
//! manifest and the contents are held against what went in, and the stream is
//! read to its end. Only a container that stood all of it is well.
use crate::format::Kind;
use crate::ops::EncryptEvent;
use vstd::prelude::*;

verus! {

/// Where reading back stands.
#[derive(Clone, Copy, Debug, PartialEq, Eq, Structural)]
pub enum ReadbackState {
    Start,
    Keying,
    Describing,
    Comparing,
    Draining,
    Counting,
    Passed,
    Refused,
}

/// What happened.
#[derive(Clone, Copy, Debug, PartialEq, Eq, Structural)]
pub enum ReadbackEvent {
    /// Reading back was asked for.
    Begin,
    /// The header gave the data key that went in.
    Keyed,
    /// The manifest says what went in.
    Described,
    /// All that the stream holds is the same as in the source.
    Same,
    /// The stream was read to its end, and all of it was well.
    Ended,
    /// The source holds no more than the stream does.
    Counted,
    /// What was to be done could not be done, or does not fit.
    Failed,
}

/// What to do next.
#[derive(Clone, Copy, Debug, PartialEq, Eq, Structural)]
pub enum ReadbackAction {
    /// Read the header, and derive the data key again.
    DeriveKey,
    /// Read the manifest, and hold it against what went in.
    ReadManifest,
    /// Hold the contents against the source.
    Compare,
    /// Read the stream to its end.
    Drain,
    /// Count what is in the source.
    Count,
    /// Tell the encryption how it went.
    Report(EncryptEvent),
}

/// Which events can follow in which state.
pub open spec fn readback_expects(state: ReadbackState, event: ReadbackEvent) -> bool {
    match state {
        ReadbackState::Start => event is Begin,
        ReadbackState::Keying => event is Keyed || event is Failed,
        ReadbackState::Describing => event is Described || event is Failed,
        ReadbackState::Comparing => event is Same || event is Failed,
        ReadbackState::Draining => event is Ended || event is Failed,
        ReadbackState::Counting => event is Counted || event is Failed,
        ReadbackState::Passed => false,
        ReadbackState::Refused => false,
    }
}

/// Where an event leads to. Of a file nothing is left to count.
pub open spec fn readback_next(kind: Kind, state: ReadbackState, event: ReadbackEvent) -> (
    ReadbackState,
    ReadbackAction,
) {
    if event is Failed {
        (ReadbackState::Refused, ReadbackAction::Report(EncryptEvent::Checked(false)))
    } else {
        match state {
            ReadbackState::Start => (ReadbackState::Keying, ReadbackAction::DeriveKey),
            ReadbackState::Keying => (ReadbackState::Describing, ReadbackAction::ReadManifest),
            ReadbackState::Describing => (ReadbackState::Comparing, ReadbackAction::Compare),
            ReadbackState::Comparing => (ReadbackState::Draining, ReadbackAction::Drain),
            ReadbackState::Draining if kind is Directory => (
                ReadbackState::Counting,
                ReadbackAction::Count,
            ),
            _ => (ReadbackState::Passed, ReadbackAction::Report(EncryptEvent::Checked(true))),
        }
    }
}

/// One step of reading back the container of a file or directory.
pub fn readback(kind: Kind, state: ReadbackState, event: ReadbackEvent) -> (res: (
    ReadbackState,
    ReadbackAction,
))
    requires
        readback_expects(state, event),
    ensures
        res == readback_next(kind, state, event),
{
    match event {
        ReadbackEvent::Failed => {
            return (
                ReadbackState::Refused,
                ReadbackAction::Report(EncryptEvent::Checked(false)),
            );
        },
        _ => {},
    }
    match state {
        ReadbackState::Start => (ReadbackState::Keying, ReadbackAction::DeriveKey),
        ReadbackState::Keying => (ReadbackState::Describing, ReadbackAction::ReadManifest),
        ReadbackState::Describing => (ReadbackState::Comparing, ReadbackAction::Compare),
        ReadbackState::Comparing => (ReadbackState::Draining, ReadbackAction::Drain),
        ReadbackState::Draining => match kind {
            Kind::File => (
                ReadbackState::Passed,
                ReadbackAction::Report(EncryptEvent::Checked(true)),
            ),
            Kind::Directory => (ReadbackState::Counting, ReadbackAction::Count),
        },
        _ => (ReadbackState::Passed, ReadbackAction::Report(EncryptEvent::Checked(true))),
    }
}

/// Where reading back stands after a run of events.
pub open spec fn readback_after(kind: Kind, events: Seq<ReadbackEvent>) -> Option<ReadbackState>
    decreases events.len(),
{
    if events.len() == 0 {
        Some(ReadbackState::Start)
    } else {
        match readback_after(kind, events.drop_last()) {
            None => None,
            Some(state) => if readback_expects(state, events.last()) {
                Some(readback_next(kind, state, events.last()).0)
            } else {
                None
            },
        }
    }
}

/// What is to be done after a run of events.
pub open spec fn readback_does(kind: Kind, events: Seq<ReadbackEvent>) -> Option<ReadbackAction> {
    if events.len() == 0 {
        None
    } else {
        match readback_after(kind, events.drop_last()) {
            None => None,
            Some(state) => if readback_expects(state, events.last()) {
                Some(readback_next(kind, state, events.last()).1)
            } else {
                None
            },
        }
    }
}

/// All that has to fit, in the order in which it is looked at.
pub open spec fn all_fits(kind: Kind) -> Seq<ReadbackEvent> {
    let common = seq![
        ReadbackEvent::Begin,
        ReadbackEvent::Keyed,
        ReadbackEvent::Described,
        ReadbackEvent::Same,
        ReadbackEvent::Ended,
    ];
    match kind {
        Kind::File => common,
        Kind::Directory => common.push(ReadbackEvent::Counted),
    }
}

/// How many events come before a state that is not the end.
spec fn passed_by(kind: Kind, state: ReadbackState) -> int {
    match state {
        ReadbackState::Start => 0,
        ReadbackState::Keying => 1,
        ReadbackState::Describing => 2,
        ReadbackState::Comparing => 3,
        ReadbackState::Draining => 4,
        ReadbackState::Counting => 5,
        _ => all_fits(kind).len() as int,
    }
}

/// How reading back came to where it stands.
proof fn lemma_readback_came(kind: Kind, events: Seq<ReadbackEvent>)
    ensures
        match readback_after(kind, events) {
            None => true,
            Some(ReadbackState::Refused) => events.len() >= 2 && events.last() is Failed,
            Some(state) => (state is Counting ==> kind is Directory) && events =~= all_fits(
                kind,
            ).take(passed_by(kind, state)),
        },
    decreases events.len(),
{
    if events.len() > 0 {
        let before = events.drop_last();
        lemma_readback_came(kind, before);
        assert(events =~= before.push(events.last()));
    }
}

/// A container passes only after its data key, its manifest, its contents and the
/// end of its stream all fitted, and of a directory also the count of what is in
/// it: exactly these events came, in this order, and none of them failed.
pub proof fn law_passes_only_where_all_fits(kind: Kind, events: Seq<ReadbackEvent>)
    ensures
        readback_does(kind, events) == Some(ReadbackAction::Report(EncryptEvent::Checked(true)))
            <==> events == all_fits(kind),
{
    lemma_readback_came(kind, events);
    if events =~= all_fits(kind) {
        reveal_with_fuel(readback_after, 7);
        let e = events;
        assert(e.drop_last().drop_last().drop_last().drop_last().len() == e.len() - 4);
    } else if readback_does(kind, events) == Some(
        ReadbackAction::Report(EncryptEvent::Checked(true)),
    ) {
        assert(readback_after(kind, events) == Some(ReadbackState::Passed));
    }
}

/// A container of which anything does not fit, or cannot be read, is refused.
pub proof fn law_any_failure_refuses(kind: Kind, events: Seq<ReadbackEvent>)
    requires
        readback_after(kind, events) is Some,
        events.contains(ReadbackEvent::Failed),
    ensures
        events.last() == ReadbackEvent::Failed,
        readback_does(kind, events) == Some(ReadbackAction::Report(EncryptEvent::Checked(false))),
{
    lemma_readback_came(kind, events);
    if readback_after(kind, events) != Some(ReadbackState::Refused) {
        let i = events.index_of(ReadbackEvent::Failed);
        assert(events[i] == all_fits(kind)[i]);
    }
}

/// What follows what while a container is read back, told by what was to be done
/// and what happened, and by nothing else. Whatever does not fit ends it at once.
pub proof fn law_reading_back_step_by_step(
    kind: Kind,
    events: Seq<ReadbackEvent>,
    event: ReadbackEvent,
)
    requires
        readback_does(kind, events) is Some,
    ensures
        readback_does(kind, events.push(event)) == match (readback_does(kind, events)->0, event) {
            (ReadbackAction::Report(_), _) => None,
            (_, ReadbackEvent::Failed) => Some(
                ReadbackAction::Report(EncryptEvent::Checked(false)),
            ),
            (ReadbackAction::DeriveKey, ReadbackEvent::Keyed) => Some(ReadbackAction::ReadManifest),
            (ReadbackAction::ReadManifest, ReadbackEvent::Described) => Some(
                ReadbackAction::Compare,
            ),
            (ReadbackAction::Compare, ReadbackEvent::Same) => Some(ReadbackAction::Drain),
            (ReadbackAction::Drain, ReadbackEvent::Ended) => Some(
                if kind is Directory {
                    ReadbackAction::Count
                } else {
                    ReadbackAction::Report(EncryptEvent::Checked(true))
                },
            ),
            (ReadbackAction::Count, ReadbackEvent::Counted) => Some(
                ReadbackAction::Report(EncryptEvent::Checked(true)),
            ),
            _ => None,
        },
        readback_does(kind, seq![event]) == if event is Begin {
            Some(ReadbackAction::DeriveKey)
        } else {
            None
        },
{
    assert(events.push(event).drop_last() =~= events);
    assert(readback_after(kind, events) is Some);
    let state = readback_after(kind, events.drop_last())->0;
    assert(seq![event].drop_last() =~= Seq::<ReadbackEvent>::empty());
    reveal_with_fuel(readback_after, 2);
}

} // verus!
