use cryptosec::format::Kind;
use cryptosec::ops::EncryptEvent;
use cryptosec::readback::{readback, ReadbackAction, ReadbackEvent, ReadbackState};

const FITS: [ReadbackEvent; 6] = [
    ReadbackEvent::Begin,
    ReadbackEvent::Keyed,
    ReadbackEvent::Described,
    ReadbackEvent::Same,
    ReadbackEvent::Ended,
    ReadbackEvent::Counted,
];

fn run(kind: Kind, events: &[ReadbackEvent]) -> Vec<ReadbackAction> {
    let mut state = ReadbackState::Start;
    let mut actions = Vec::new();
    for event in events {
        let (next, action) = readback(kind, state, *event);
        state = next;
        actions.push(action);
    }
    actions
}

#[test]
fn a_container_passes_once_everything_fits() {
    let steps = [
        ReadbackAction::DeriveKey,
        ReadbackAction::ReadManifest,
        ReadbackAction::Compare,
        ReadbackAction::Drain,
    ];
    let passed = ReadbackAction::Report(EncryptEvent::Checked(true));
    let file = run(Kind::File, &FITS[..5]);
    assert_eq!(file[..4], steps);
    assert_eq!(file[4], passed);
    let dir = run(Kind::Directory, &FITS);
    assert_eq!(dir[..4], steps);
    assert_eq!(dir[4..], [ReadbackAction::Count, passed]);
}

#[test]
fn a_container_is_refused_wherever_something_does_not_fit() {
    let refused = ReadbackAction::Report(EncryptEvent::Checked(false));
    for (kind, last) in [(Kind::File, 4), (Kind::Directory, 5)] {
        for i in 1..=last {
            let mut events = FITS[..i].to_vec();
            events.push(ReadbackEvent::Failed);
            let actions = run(kind, &events);
            assert_eq!(actions[i], refused);
            assert!(actions[..i].iter().all(|a| !matches!(a, ReadbackAction::Report(_))));
        }
    }
}
