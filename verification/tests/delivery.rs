use cryptosec::deliver::{deliver, DeliverAction, DeliverEvent, DeliverState};
use cryptosec::fault::Fault;
use cryptosec::format::Kind;
use cryptosec::ops::{container_place, contents_place, Cleanup, Options, Place};
use std::path::PathBuf;

fn run(kind: Kind, force: bool, events: &[DeliverEvent]) -> Vec<DeliverAction> {
    let mut state = DeliverState::Start;
    let mut actions = Vec::new();
    for event in events {
        let (next, action) = deliver(kind, force, state, *event);
        state = next;
        actions.push(action);
    }
    actions
}

#[test]
fn a_result_is_moved_once_the_stream_ended() {
    let events = [
        DeliverEvent::Begin,
        DeliverEvent::Staged,
        DeliverEvent::Completed,
        DeliverEvent::Looked(false),
        DeliverEvent::Moved,
    ];
    assert_eq!(
        run(Kind::File, true, &events),
        [
            DeliverAction::Stage,
            DeliverAction::Complete,
            DeliverAction::Look,
            DeliverAction::Move,
            DeliverAction::Settle(Cleanup::Nothing),
        ]
    );
    let last = run(Kind::Directory, false, &events).pop();
    assert_eq!(last, Some(DeliverAction::Settle(Cleanup::RemoveDir)));
}

#[test]
fn an_old_output_goes_only_where_it_may() {
    let events = [
        DeliverEvent::Begin,
        DeliverEvent::Staged,
        DeliverEvent::Completed,
        DeliverEvent::Looked(true),
        DeliverEvent::Cleared,
        DeliverEvent::Moved,
    ];
    let actions = run(Kind::File, true, &events);
    assert_eq!(actions[3], DeliverAction::Clear);
    assert_eq!(actions[4], DeliverAction::Move);
    assert_eq!(actions[5], DeliverAction::Settle(Cleanup::Nothing));
    assert_eq!(run(Kind::File, false, &events[..4])[3], DeliverAction::Move);
}

#[test]
fn a_refused_stream_leaves_an_old_output_alone() {
    for (kind, cleanup) in
        [(Kind::File, Cleanup::RemoveFile), (Kind::Directory, Cleanup::RemoveDir)]
    {
        let actions =
            run(kind, true, &[DeliverEvent::Begin, DeliverEvent::Staged, DeliverEvent::Failed]);
        assert_eq!(
            actions,
            [DeliverAction::Stage, DeliverAction::Complete, DeliverAction::Undo(cleanup)]
        );
        let actions = run(kind, true, &[DeliverEvent::Begin, DeliverEvent::Failed]);
        assert_eq!(actions, [DeliverAction::Stage, DeliverAction::Undo(cleanup)]);
    }
}

fn options(output: Option<&str>) -> Options {
    Options {
        output: output.map(PathBuf::from),
        scheme: None,
        key: None,
        password_stdin: false,
        force: false,
        verify: true,
        keep: false,
        shred: false,
        quiet: false,
    }
}

#[test]
fn a_result_goes_where_it_was_sent_or_next_to_the_input() {
    let given = options(Some("out/x"));
    let none = options(None);
    let path = PathBuf::from("out/x");
    assert!(matches!(container_place(&given, "a.txt"), Place::Given(p) if *p == path));
    assert!(matches!(container_place(&none, "a.txt"), Place::Beside(n) if n == "a.txt.csec"));
    assert!(matches!(contents_place(&given, "d/a.txt"), Ok(Place::Given(p)) if *p == path));
    assert!(matches!(contents_place(&none, "d/a.txt"), Ok(Place::Beside(n)) if n == "a.txt"));
    assert!(matches!(contents_place(&given, ".."), Err(Fault::UnusableName)));
}
