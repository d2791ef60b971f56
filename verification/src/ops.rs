//! Encrypting and decrypting, step by step. Each is a machine that says what to
//! do next and is told how it went; reading, writing and asking are done
//! outside.
use crate::cli::Scheme;
use crate::fault::{Fault, Refusal};
use crate::format::{
    aad, aad_of, header_bytes, header_of, law_header_round_trip, law_manifest_round_trip,
    manifest_length, manifest_record, meta_fault, recipient_fingerprint, write_header,
    write_manifest, Cipher, Kind, Manifest, Meta, Recipient, CHUNK, EXTENSION, MANIFEST_MAX,
    PREAMBLE_LIMIT,
};
use crate::kdf::KDF_NAME;
use crate::keys::{fingerprint_of, public_of, KeyAlgo, KeyView};
use crate::names::{container_name, file_name_of, safe_name};
use crate::recipient::{
    decode_prefix, key_gives, key_opened, password_gives, password_opened, prefix_of,
    unwrap_password, KeyOutcome,
};
use crate::stream::{
    law_only_the_written_stream_opens, law_the_written_stream_opens, sound, stream_open,
    stream_seal, unforged, DecReader, EncWriter, Sealer, SealerView, StreamFault,
};
use crate::text::{push_bytes, same_bytes, same_text};
use std::path::PathBuf;
use vstd::prelude::*;
use vstd::string::*;

verus! {

/// `std::path::PathBuf`: where a file is. The library hands paths on and does
/// not look into them.
#[verifier::external_type_specification]
#[verifier::external_body]
pub struct ExPathBuf(std::path::PathBuf);

/// How to encrypt or decrypt.
#[derive(Debug)]
pub struct Options {
    pub output: Option<PathBuf>,
    pub scheme: Option<Scheme>,
    pub key: Option<String>,
    pub password_stdin: bool,
    pub force: bool,
    pub verify: bool,
    pub keep: bool,
    pub shred: bool,
    pub quiet: bool,
}

// ----------------------------------------------------------------- scratch

/// A half written file or directory: it is removed again unless it was handed
/// over on success.
#[derive(Debug)]
pub struct Scratch {
    path: PathBuf,
    dir: bool,
    armed: bool,
}

/// What is left to do about a scratch file.
#[derive(Clone, Copy, Debug, PartialEq, Eq, Structural)]
pub enum Cleanup {
    Nothing,
    RemoveFile,
    RemoveDir,
}

impl Scratch {
    /// Where it is.
    pub closed spec fn place(self) -> PathBuf {
        self.path
    }

    /// What is left to do about it.
    pub closed spec fn left(self) -> Cleanup {
        if !self.armed {
            Cleanup::Nothing
        } else if self.dir {
            Cleanup::RemoveDir
        } else {
            Cleanup::RemoveFile
        }
    }

    /// A scratch file.
    pub fn file(path: PathBuf) -> (s: Scratch)
        ensures
            s.place() == path,
            s.left() == Cleanup::RemoveFile,
    {
        Scratch { path, dir: false, armed: true }
    }

    /// A scratch directory.
    pub fn dir(path: PathBuf) -> (s: Scratch)
        ensures
            s.place() == path,
            s.left() == Cleanup::RemoveDir,
    {
        Scratch { path, dir: true, armed: true }
    }

    /// Takes note that it was handed over.
    pub fn keep(&mut self)
        ensures
            final(self).place() == old(self).place(),
            final(self).left() == Cleanup::Nothing,
    {
        self.armed = false;
    }

    /// Where it is.
    pub fn path(&self) -> (path: &PathBuf)
        ensures
            *path == self.place(),
    {
        &self.path
    }

    /// What is left to do about it.
    pub fn cleanup(&self) -> (c: Cleanup)
        ensures
            c == self.left(),
    {
        if !self.armed {
            Cleanup::Nothing
        } else if self.dir {
            Cleanup::RemoveDir
        } else {
            Cleanup::RemoveFile
        }
    }
}

// ----------------------------------------------------------------- encrypt

/// What became of the source or the container in the end.
#[derive(Clone, Copy, Debug, PartialEq, Eq, Structural)]
pub enum Note {
    SourceKept,
    SourceUnchecked,
    SourceOverwritten,
    SourceRemoved,
    ContainerKept,
    ContainerRemoved,
}

/// Where encrypting stands.
#[derive(Clone, Copy, Debug, PartialEq, Eq, Structural)]
pub enum EncryptState {
    Start,
    Locating,
    Peeking,
    Confirming,
    Probing(Kind),
    Choosing(Kind),
    Keying(Kind),
    Writing(Kind),
    Checking(Kind),
    Discarding,
    Disposing(Note),
    Done(Note),
}

/// What happened.
#[derive(Clone, Copy, Debug, PartialEq, Eq, Structural)]
pub enum EncryptEvent {
    /// Encrypting was asked for.
    Begin,
    /// The source was found, and is of this kind.
    Located(Kind),
    /// The beginning of the source was read, and looks like a container or not.
    Head(bool),
    /// The question was answered.
    Answer(bool),
    /// Nothing stands where the container is to go, or it may be replaced.
    Free,
    /// A scheme was chosen.
    Chosen(Scheme),
    /// The data key is wrapped.
    Keyed,
    /// The container is written and in its place.
    Written,
    /// The container was read back, and gives back the source or not.
    Checked(bool),
    /// The container was removed.
    Discarded,
    /// The source was removed.
    Disposed,
}

/// What to do next.
#[derive(Clone, Copy, Debug, PartialEq, Eq, Structural)]
pub enum EncryptAction {
    /// Find the source.
    Locate,
    /// Read the beginning of the source.
    Peek,
    /// Ask whether to encrypt a container again.
    Confirm,
    /// See whether the container's place is free.
    Probe,
    /// Ask for the scheme.
    ChooseScheme,
    /// Ask for a password, and wrap a data key under it.
    AskPassword,
    /// Pick a public key, and wrap a data key for it.
    PickKey(KeyAlgo),
    /// Write the container.
    Write,
    /// Read the container back and hold it against the source.
    Check,
    /// Remove the container.
    Discard,
    /// Remove the source.
    Remove(Kind),
    /// Overwrite the source and remove it.
    Shred(Kind),
    /// Tell how it went.
    Finish(Note),
}

/// Which events can follow in which state.
pub open spec fn encrypt_expects(state: EncryptState, event: EncryptEvent) -> bool {
    match state {
        EncryptState::Start => event is Begin,
        EncryptState::Locating => event is Located,
        EncryptState::Peeking => event is Head,
        EncryptState::Confirming => event is Answer,
        EncryptState::Probing(_) => event is Free,
        EncryptState::Choosing(_) => event is Chosen,
        EncryptState::Keying(_) => event is Keyed,
        EncryptState::Writing(_) => event is Written,
        EncryptState::Checking(_) => event is Checked,
        EncryptState::Discarding => event is Discarded,
        EncryptState::Disposing(_) => event is Disposed,
        EncryptState::Done(_) => false,
    }
}

/// How the data key is wrapped under a scheme.
pub open spec fn keying(kind: Kind, scheme: Scheme) -> (EncryptState, EncryptAction) {
    (
        EncryptState::Keying(kind),
        match scheme {
            Scheme::Password(_) => EncryptAction::AskPassword,
            Scheme::KeyPair(algo) => EncryptAction::PickKey(algo),
        },
    )
}

/// What becomes of the source once the container stands.
pub open spec fn disposal(opts: Options, kind: Kind) -> (EncryptState, EncryptAction) {
    if opts.keep {
        (EncryptState::Done(Note::SourceKept), EncryptAction::Finish(Note::SourceKept))
    } else if !opts.verify {
        (EncryptState::Done(Note::SourceUnchecked), EncryptAction::Finish(Note::SourceUnchecked))
    } else if opts.shred {
        (EncryptState::Disposing(Note::SourceOverwritten), EncryptAction::Shred(kind))
    } else {
        (EncryptState::Disposing(Note::SourceRemoved), EncryptAction::Remove(kind))
    }
}

/// Where an event leads to.
pub open spec fn encrypt_next(opts: Options, state: EncryptState, event: EncryptEvent) -> Result<
    (EncryptState, EncryptAction),
    Fault,
> {
    match (state, event) {
        (EncryptState::Start, _) => if opts.shred && opts.keep {
            Err(Fault::ShredAndKeep)
        } else if opts.shred && !opts.verify {
            Err(Fault::ShredUnchecked)
        } else {
            Ok((EncryptState::Locating, EncryptAction::Locate))
        },
        (EncryptState::Locating, EncryptEvent::Located(Kind::File)) => Ok(
            (EncryptState::Peeking, EncryptAction::Peek),
        ),
        (EncryptState::Locating, _) => Ok(
            (EncryptState::Probing(Kind::Directory), EncryptAction::Probe),
        ),
        (EncryptState::Peeking, EncryptEvent::Head(true)) => Ok(
            (EncryptState::Confirming, EncryptAction::Confirm),
        ),
        (EncryptState::Confirming, EncryptEvent::Answer(false)) => Err(Fault::NothingToDo),
        (EncryptState::Peeking, _) => Ok((EncryptState::Probing(Kind::File), EncryptAction::Probe)),
        (EncryptState::Confirming, _) => Ok(
            (EncryptState::Probing(Kind::File), EncryptAction::Probe),
        ),
        (EncryptState::Probing(kind), _) => match opts.scheme {
            Some(scheme) => Ok(keying(kind, scheme)),
            None => Ok((EncryptState::Choosing(kind), EncryptAction::ChooseScheme)),
        },
        (EncryptState::Choosing(kind), EncryptEvent::Chosen(scheme)) => Ok(keying(kind, scheme)),
        (EncryptState::Keying(kind), _) => Ok((EncryptState::Writing(kind), EncryptAction::Write)),
        (EncryptState::Writing(kind), _) => if opts.verify {
            Ok((EncryptState::Checking(kind), EncryptAction::Check))
        } else {
            Ok(disposal(opts, kind))
        },
        (EncryptState::Checking(kind), EncryptEvent::Checked(true)) => Ok(disposal(opts, kind)),
        (EncryptState::Checking(_), _) => Ok((EncryptState::Discarding, EncryptAction::Discard)),
        (EncryptState::Discarding, _) => Err(Fault::CheckFailed),
        (EncryptState::Disposing(note), _) => Ok(
            (EncryptState::Done(note), EncryptAction::Finish(note)),
        ),
        (EncryptState::Choosing(_), _) => Ok((state, EncryptAction::ChooseScheme)),
        (EncryptState::Done(note), _) => Ok((state, EncryptAction::Finish(note))),
    }
}

fn start_keying(kind: Kind, scheme: Scheme) -> (res: (EncryptState, EncryptAction))
    ensures
        res == keying(kind, scheme),
{
    match scheme {
        Scheme::Password(_) => (EncryptState::Keying(kind), EncryptAction::AskPassword),
        Scheme::KeyPair(algo) => (EncryptState::Keying(kind), EncryptAction::PickKey(algo)),
    }
}

/// The source only goes away once the container has been read back and compared
/// against it.
fn dispose(opts: &Options, kind: Kind) -> (res: (EncryptState, EncryptAction))
    ensures
        res == disposal(*opts, kind),
{
    if opts.keep {
        (EncryptState::Done(Note::SourceKept), EncryptAction::Finish(Note::SourceKept))
    } else if !opts.verify {
        (EncryptState::Done(Note::SourceUnchecked), EncryptAction::Finish(Note::SourceUnchecked))
    } else if opts.shred {
        (EncryptState::Disposing(Note::SourceOverwritten), EncryptAction::Shred(kind))
    } else {
        (EncryptState::Disposing(Note::SourceRemoved), EncryptAction::Remove(kind))
    }
}

/// One step of encrypting a file or directory.
pub fn encrypt(opts: &Options, state: EncryptState, event: EncryptEvent) -> (res: Result<
    (EncryptState, EncryptAction),
    Fault,
>)
    requires
        encrypt_expects(state, event),
    ensures
        res == encrypt_next(*opts, state, event),
{
    match state {
        EncryptState::Start => {
            if opts.shred && opts.keep {
                return Err(Fault::ShredAndKeep);
            }
            if opts.shred && !opts.verify {
                return Err(Fault::ShredUnchecked);
            }
            Ok((EncryptState::Locating, EncryptAction::Locate))
        },
        EncryptState::Locating => match event {
            EncryptEvent::Located(Kind::File) => Ok((EncryptState::Peeking, EncryptAction::Peek)),
            _ => Ok((EncryptState::Probing(Kind::Directory), EncryptAction::Probe)),
        },
        EncryptState::Peeking => match event {
            EncryptEvent::Head(true) => Ok((EncryptState::Confirming, EncryptAction::Confirm)),
            _ => Ok((EncryptState::Probing(Kind::File), EncryptAction::Probe)),
        },
        EncryptState::Confirming => match event {
            EncryptEvent::Answer(false) => Err(Fault::NothingToDo),
            _ => Ok((EncryptState::Probing(Kind::File), EncryptAction::Probe)),
        },
        EncryptState::Probing(kind) => match opts.scheme {
            Some(scheme) => Ok(start_keying(kind, scheme)),
            None => Ok((EncryptState::Choosing(kind), EncryptAction::ChooseScheme)),
        },
        EncryptState::Choosing(kind) => match event {
            EncryptEvent::Chosen(scheme) => Ok(start_keying(kind, scheme)),
            _ => Ok((state, EncryptAction::ChooseScheme)),
        },
        EncryptState::Keying(kind) => Ok((EncryptState::Writing(kind), EncryptAction::Write)),
        EncryptState::Writing(kind) => if opts.verify {
            Ok((EncryptState::Checking(kind), EncryptAction::Check))
        } else {
            Ok(dispose(opts, kind))
        },
        EncryptState::Checking(kind) => match event {
            EncryptEvent::Checked(true) => Ok(dispose(opts, kind)),
            _ => Ok((EncryptState::Discarding, EncryptAction::Discard)),
        },
        EncryptState::Discarding => Err(Fault::CheckFailed),
        EncryptState::Disposing(note) => Ok(
            (EncryptState::Done(note), EncryptAction::Finish(note)),
        ),
        EncryptState::Done(note) => Ok((state, EncryptAction::Finish(note))),
    }
}

/// Where encrypting stands after a run of events, as long as it goes on.
pub open spec fn encrypt_after(opts: Options, events: Seq<EncryptEvent>) -> Option<EncryptState>
    decreases events.len(),
{
    if events.len() == 0 {
        Some(EncryptState::Start)
    } else {
        match encrypt_after(opts, events.drop_last()) {
            None => None,
            Some(state) => if !encrypt_expects(state, events.last()) {
                None
            } else {
                match encrypt_next(opts, state, events.last()) {
                    Ok((next, _)) => Some(next),
                    Err(_) => None,
                }
            },
        }
    }
}

/// What is to be done after a run of events.
pub open spec fn encrypt_does(opts: Options, events: Seq<EncryptEvent>) -> Option<EncryptAction> {
    if events.len() == 0 {
        None
    } else {
        match encrypt_after(opts, events.drop_last()) {
            None => None,
            Some(state) => if !encrypt_expects(state, events.last()) {
                None
            } else {
                match encrypt_next(opts, state, events.last()) {
                    Ok((_, action)) => Some(action),
                    Err(_) => None,
                }
            },
        }
    }
}

/// Nothing is deleted on trust: the source is removed only after the container
/// was written and then read back, and gave back the source; and never where it
/// is to be kept or the check is left out. It is overwritten first exactly where
/// that was asked for.
pub proof fn law_source_goes_only_after_the_check(opts: Options, events: Seq<EncryptEvent>)
    requires
        encrypt_does(opts, events) matches Some(action) && (action is Remove || action is Shred),
    ensures
        events.len() >= 2,
        events.last() == EncryptEvent::Checked(true),
        events[events.len() - 2] is Written,
        opts.verify,
        !opts.keep,
        encrypt_does(opts, events)->0 is Shred <==> opts.shred,
{
    let before = events.drop_last();
    let state = encrypt_after(opts, before)->0;
    assert(encrypt_next(opts, state, events.last()) is Ok);
    if state is Writing {
        assert(opts.verify ==> encrypt_next(opts, state, events.last())->Ok_0.1 is Check);
    }
    assert(state is Checking);
    assert(before.len() > 0);
    let earlier = encrypt_after(opts, before.drop_last())->0;
    assert(encrypt_expects(earlier, before.last()));
    assert(earlier is Writing);
    assert(before.last() == events[events.len() - 2]);
}

/// A container that does not give back the source is discarded, and the source
/// stays: nothing but a failure can follow.
pub proof fn law_failed_check_keeps_the_source(opts: Options, events: Seq<EncryptEvent>, i: int)
    requires
        0 <= i < events.len(),
        events[i] == EncryptEvent::Checked(false),
        encrypt_after(opts, events) is Some,
    ensures
        i == events.len() - 1,
        encrypt_does(opts, events) == Some(EncryptAction::Discard),
        forall|more: EncryptEvent| encrypt_after(opts, #[trigger] events.push(more)) is None,
    decreases events.len(),
{
    let before = events.drop_last();
    if i < events.len() - 1 {
        law_failed_check_keeps_the_source(opts, before, i);
        assert(before.push(events.last()) =~= events);
        assert(false);
    }
    let state = encrypt_after(opts, before)->0;
    assert(state is Checking);
    assert(encrypt_after(opts, events) == Some(EncryptState::Discarding));
    assert forall|more: EncryptEvent| encrypt_after(opts, #[trigger] events.push(more)) is None by {
        assert(events.push(more).drop_last() =~= events);
    }
}

/// The source is kept where that was asked for, and where nothing was checked.
pub proof fn law_source_stays(opts: Options, events: Seq<EncryptEvent>)
    requires
        opts.keep || !opts.verify,
    ensures
        encrypt_does(opts, events) matches Some(action) ==> !(action is Remove || action is Shred),
{
    if let Some(action) = encrypt_does(opts, events) {
        if action is Remove || action is Shred {
            law_source_goes_only_after_the_check(opts, events);
        }
    }
}

/// What a run that came to its end did to the source.
pub open spec fn source_note(opts: Options) -> Note {
    if opts.keep {
        Note::SourceKept
    } else if !opts.verify {
        Note::SourceUnchecked
    } else if opts.shred {
        Note::SourceOverwritten
    } else {
        Note::SourceRemoved
    }
}

/// Encrypting replaces the source: a run that came to its end has removed it, or
/// overwritten and removed it, unless it was to be kept or nothing was checked.
/// What is reported is what was done.
pub proof fn law_encrypting_replaces_the_source(opts: Options, events: Seq<EncryptEvent>)
    requires
        encrypt_after(opts, events) matches Some(state) && state is Done,
    ensures
        encrypt_does(opts, events) == Some(EncryptAction::Finish(source_note(opts))),
        !opts.keep && opts.verify ==> {
            &&& events.last() is Disposed
            &&& encrypt_does(opts, events.drop_last()) matches Some(action) && if opts.shred {
                action is Shred
            } else {
                action is Remove
            }
        },
{
    let before = events.drop_last();
    let state = encrypt_after(opts, before)->0;
    assert(encrypt_expects(state, events.last()));
    if state is Disposing {
        assert(before.len() > 0);
        let earlier = encrypt_after(opts, before.drop_last())->0;
        assert(encrypt_expects(earlier, before.last()));
        assert(encrypt_next(opts, earlier, before.last()) is Ok);
    }
}

/// What is known of a run by where it stands: which action is due, and that the
/// kind it works on is the one that the source was found to be.
proof fn lemma_encrypt_stands(opts: Options, events: Seq<EncryptEvent>)
    requires
        encrypt_after(opts, events) is Some,
    ensures
        match encrypt_after(opts, events)->0 {
            EncryptState::Start => events.len() == 0,
            EncryptState::Locating => events =~= seq![EncryptEvent::Begin] && encrypt_does(
                opts,
                events,
            ) == Some(EncryptAction::Locate),
            EncryptState::Peeking => events.len() == 2 && events[1] == EncryptEvent::Located(
                Kind::File,
            ) && encrypt_does(opts, events) == Some(EncryptAction::Peek),
            EncryptState::Confirming => events.len() == 3 && events[1] == EncryptEvent::Located(
                Kind::File,
            ) && encrypt_does(opts, events) == Some(EncryptAction::Confirm),
            EncryptState::Probing(kind) => events.len() >= 2 && events[1]
                == EncryptEvent::Located(kind) && encrypt_does(opts, events) == Some(
                EncryptAction::Probe,
            ),
            EncryptState::Choosing(kind) => events.len() >= 3 && events[1]
                == EncryptEvent::Located(kind) && encrypt_does(opts, events) == Some(
                EncryptAction::ChooseScheme,
            ),
            EncryptState::Keying(kind) => events.len() >= 3 && events[1]
                == EncryptEvent::Located(kind) && (encrypt_does(opts, events) matches Some(a) && (a
                is AskPassword || a is PickKey)),
            EncryptState::Writing(kind) => events.len() >= 4 && events[1]
                == EncryptEvent::Located(kind) && encrypt_does(opts, events) == Some(
                EncryptAction::Write,
            ),
            EncryptState::Checking(kind) => events.len() >= 5 && events[1]
                == EncryptEvent::Located(kind) && opts.verify && encrypt_does(opts, events) == Some(
                EncryptAction::Check,
            ),
            EncryptState::Discarding => encrypt_does(opts, events) == Some(EncryptAction::Discard),
            EncryptState::Disposing(note) => encrypt_does(opts, events) matches Some(a) && (a
                is Remove && note == Note::SourceRemoved || a is Shred && note
                == Note::SourceOverwritten),
            EncryptState::Done(note) => encrypt_does(opts, events) == Some(
                EncryptAction::Finish(note),
            ),
        },
    decreases events.len(),
{
    if events.len() > 0 {
        let before = events.drop_last();
        lemma_encrypt_stands(opts, before);
        assert(events =~= before.push(events.last()));
        if before.len() >= 2 {
            assert(events[1] == before[1]);
        }
    }
}

/// What follows what while encrypting, told by what was to be done and what
/// happened, and by nothing else. A source that looks like a container is only
/// encrypted again where that was confirmed; the place is probed before anything
/// is asked; the data key is wrapped for the scheme that was asked for, or chosen;
/// then the container is written, and read back unless that was left out; and the
/// source goes as what it was found to be. Nothing else can happen.
pub proof fn law_encrypting_step_by_step(
    opts: Options,
    events: Seq<EncryptEvent>,
    event: EncryptEvent,
)
    requires
        encrypt_does(opts, events) is Some,
    ensures
        ({
            let wraps = |scheme: Scheme| match scheme {
                Scheme::Password(_) => EncryptAction::AskPassword,
                Scheme::KeyPair(algo) => EncryptAction::PickKey(algo),
            };
            encrypt_does(opts, events.push(event)) == match (encrypt_does(opts, events)->0, event) {
                (EncryptAction::Locate, EncryptEvent::Located(Kind::File)) => Some(
                    EncryptAction::Peek,
                ),
                (EncryptAction::Locate, EncryptEvent::Located(Kind::Directory)) => Some(
                    EncryptAction::Probe,
                ),
                (EncryptAction::Peek, EncryptEvent::Head(true)) => Some(EncryptAction::Confirm),
                (EncryptAction::Peek, EncryptEvent::Head(false)) => Some(EncryptAction::Probe),
                (EncryptAction::Confirm, EncryptEvent::Answer(true)) => Some(EncryptAction::Probe),
                (EncryptAction::Probe, EncryptEvent::Free) => match opts.scheme {
                    Some(scheme) => Some(wraps(scheme)),
                    None => Some(EncryptAction::ChooseScheme),
                },
                (EncryptAction::ChooseScheme, EncryptEvent::Chosen(scheme)) => Some(wraps(scheme)),
                (EncryptAction::AskPassword, EncryptEvent::Keyed) => Some(EncryptAction::Write),
                (EncryptAction::PickKey(_), EncryptEvent::Keyed) => Some(EncryptAction::Write),
                (EncryptAction::Write, EncryptEvent::Written) => Some(
                    if opts.verify {
                        EncryptAction::Check
                    } else if opts.keep {
                        EncryptAction::Finish(Note::SourceKept)
                    } else {
                        EncryptAction::Finish(Note::SourceUnchecked)
                    },
                ),
                (EncryptAction::Check, EncryptEvent::Checked(false)) => Some(
                    EncryptAction::Discard,
                ),
                (EncryptAction::Check, EncryptEvent::Checked(true)) => Some(
                    if opts.keep {
                        EncryptAction::Finish(Note::SourceKept)
                    } else if opts.shred {
                        EncryptAction::Shred(events[1]->Located_0)
                    } else {
                        EncryptAction::Remove(events[1]->Located_0)
                    },
                ),
                (EncryptAction::Remove(_), EncryptEvent::Disposed) => Some(
                    EncryptAction::Finish(Note::SourceRemoved),
                ),
                (EncryptAction::Shred(_), EncryptEvent::Disposed) => Some(
                    EncryptAction::Finish(Note::SourceOverwritten),
                ),
                _ => None,
            }
        }),
{
    let all = events.push(event);
    assert(all.drop_last() =~= events);
    assert(encrypt_after(opts, events) is Some);
    lemma_encrypt_stands(opts, events);
}

/// Encrypting begins with finding the source, and with nothing else. What cannot
/// be asked for together is refused before that, for its own reason.
pub proof fn law_encrypting_begins(opts: Options, event: EncryptEvent)
    ensures
        encrypt_does(opts, seq![event]) is Some <==> event is Begin && !(opts.shred && (opts.keep
            || !opts.verify)),
        encrypt_does(opts, seq![event]) matches Some(action) ==> action == EncryptAction::Locate,
        encrypt_next(opts, EncryptState::Start, EncryptEvent::Begin) == Err::<
            (EncryptState, EncryptAction),
            _,
        >(Fault::ShredAndKeep) <==> opts.shred && opts.keep,
        encrypt_next(opts, EncryptState::Start, EncryptEvent::Begin) == Err::<
            (EncryptState, EncryptAction),
            _,
        >(Fault::ShredUnchecked) <==> opts.shred && !opts.keep && !opts.verify,
{
    assert(seq![event].drop_last() =~= Seq::<EncryptEvent>::empty());
    reveal_with_fuel(encrypt_after, 2);
}

/// A container is not encrypted again where that was declined, and one that
/// failed the check is reported as such: in every run, what comes after is this
/// failure.
pub proof fn law_encrypting_fails_for_its_reason(
    opts: Options,
    events: Seq<EncryptEvent>,
    event: EncryptEvent,
)
    requires
        encrypt_does(opts, events) is Some,
        encrypt_expects(encrypt_after(opts, events)->0, event),
    ensures
        encrypt_next(opts, encrypt_after(opts, events)->0, event) matches Err(f) ==> (f
            == Fault::NothingToDo && encrypt_does(opts, events) == Some(EncryptAction::Confirm)
            && event == EncryptEvent::Answer(false)) || (f == Fault::CheckFailed && encrypt_does(
            opts,
            events,
        ) == Some(EncryptAction::Discard) && event == EncryptEvent::Discarded),
        encrypt_does(opts, events) == Some(EncryptAction::Confirm) && event
            == EncryptEvent::Answer(false) ==> encrypt_next(
            opts,
            encrypt_after(opts, events)->0,
            event,
        ) is Err,
        encrypt_does(opts, events) == Some(EncryptAction::Discard) && event
            == EncryptEvent::Discarded ==> encrypt_next(
            opts,
            encrypt_after(opts, events)->0,
            event,
        ) is Err,
{
    lemma_encrypt_stands(opts, events);
}

/// The data key is wrapped for the scheme that is in force, the one that was asked
/// for or else the one that was chosen: a key of that very type is picked, or a
/// password is asked for.
pub proof fn law_key_is_of_the_asked_type(opts: Options, events: Seq<EncryptEvent>)
    requires
        encrypt_does(opts, events) is Some,
    ensures
        encrypt_does(opts, events) matches Some(EncryptAction::PickKey(algo)) ==> {
            ||| opts.scheme == Some(Scheme::KeyPair(algo))
            ||| opts.scheme is None && events.last() == EncryptEvent::Chosen(Scheme::KeyPair(algo))
        },
        encrypt_does(opts, events) matches Some(EncryptAction::AskPassword) ==> {
            ||| opts.scheme matches Some(Scheme::Password(_))
            ||| opts.scheme is None && events.last() matches EncryptEvent::Chosen(
                Scheme::Password(_),
            )
        },
        encrypt_does(opts, events) == Some(EncryptAction::ChooseScheme) ==> opts.scheme is None,
{
    if events.len() > 0 {
        let before = events.drop_last();
        lemma_encrypt_stands(opts, before);
        if before.len() > 0 {
            let state = encrypt_after(opts, before)->0;
            if state is Choosing {
                let earlier = before.drop_last();
                assert(encrypt_after(opts, earlier)->0 is Probing);
            }
        }
    }
}

/// What is removed, or overwritten and removed, is what the source was found to
/// be: a file or a directory.
pub proof fn law_source_goes_as_what_it_is(opts: Options, events: Seq<EncryptEvent>)
    ensures
        encrypt_does(opts, events) matches Some(EncryptAction::Remove(kind)) ==> events.len() >= 2
            && events[1] == EncryptEvent::Located(kind),
        encrypt_does(opts, events) matches Some(EncryptAction::Shred(kind)) ==> events.len() >= 2
            && events[1] == EncryptEvent::Located(kind),
{
    if encrypt_does(opts, events) is Some {
        let before = events.drop_last();
        lemma_encrypt_stands(opts, before);
        if before.len() >= 2 {
            assert(events[1] == before[1]);
        }
    }
}

// ------------------------------------------------------------- read-back

/// The data key that a container is read back with. Where it is protected by a
/// password, the key is derived again from what the container says, so a broken
/// password path shows up here and not weeks later.
pub fn verify_key(recipient: &Recipient, dek: &[u8; 32], password: Option<&str>) -> (res: Result<
    [u8; 32],
    Fault,
>)
    requires
        recipient matches Recipient::Password { m_cost, .. } ==> m_cost * 1024 <= isize::MAX,
    ensures
        match (*recipient, password) {
            (
                Recipient::Password { kdf, salt, m_cost, t_cost, p_cost, wrap_nonce, wrapped },
                Some(pass),
            ) => if kdf@ != KDF_NAME@ {
                res matches Err(Fault::UnsupportedKdf(name)) && name@ == kdf@
            } else {
                match password_opened(
                    pass@,
                    salt@,
                    m_cost,
                    t_cost,
                    p_cost,
                    wrap_nonce@,
                    wrapped@,
                ) {
                    Ok(key) => if key == dek@ {
                        res matches Ok(k) && k@ == dek@
                    } else {
                        res matches Err(e) && e is RederivedKey
                    },
                    Err(f) => res matches Err(e) && e.is_for(f),
                }
            },
            _ => res matches Ok(k) && k@ == dek@,
        },
{
    match (recipient, password) {
        (Recipient::Password { .. }, Some(pass)) => {
            let check = match unwrap_password(recipient, pass) {
                Ok(k) => k,
                Err(e) => {
                    return Err(e);
                },
            };
            if !same_bytes(&check, dek) {
                return Err(Fault::RederivedKey);
            }
            Ok(check)
        },
        _ => Ok(*dek),
    }
}

/// Holds the manifest of a container that was read back against what went in.
pub fn verify_manifest(manifest: &Manifest, name: &str, kind: Kind) -> (res: Result<(), Fault>)
    ensures
        match res {
            Ok(_) => manifest.name@ == name@ && manifest.kind == kind,
            Err(e) => !(manifest.name@ == name@ && manifest.kind == kind) && e is OtherContents,
        },
{
    if !same_text(manifest.name.as_str(), name) || manifest.kind != kind {
        return Err(Fault::OtherContents);
    }
    Ok(())
}

// ----------------------------------------------------------------- decrypt

/// Where decrypting stands.
#[derive(Clone, Copy, Debug, PartialEq, Eq, Structural)]
pub enum DecryptState {
    Start,
    Opening,
    Keying,
    Reading,
    Probing(Kind),
    Restoring(Kind),
    Removing,
    Done(Note),
}

/// What happened.
#[derive(Clone, Copy, Debug, PartialEq, Eq, Structural)]
pub enum DecryptEvent {
    /// Decrypting was asked for.
    Begin,
    /// The header was read; the data key is under a password or not.
    Opened(bool),
    /// The data key is known.
    Keyed,
    /// The manifest was read, and says what the contents are.
    Manifest(Kind),
    /// Nothing stands where the contents are to go, or it may be replaced.
    Free,
    /// The stream was read to its end, and the contents are in their place.
    Restored,
    /// The container was removed.
    Removed,
}

/// What to do next.
#[derive(Clone, Copy, Debug, PartialEq, Eq, Structural)]
pub enum DecryptAction {
    /// Read the header.
    Open,
    /// Ask for the password, and take the data key out.
    AskPassword,
    /// Find the private key, and take the data key out.
    LoadKey,
    /// Read the manifest.
    ReadManifest,
    /// See whether the place of the contents is free.
    Probe,
    /// Decrypt the contents and put them into their place.
    Restore(Kind),
    /// Remove the container.
    Remove,
    /// Tell how it went.
    Finish(Note),
}

/// Which events can follow in which state.
pub open spec fn decrypt_expects(state: DecryptState, event: DecryptEvent) -> bool {
    match state {
        DecryptState::Start => event is Begin,
        DecryptState::Opening => event is Opened,
        DecryptState::Keying => event is Keyed,
        DecryptState::Reading => event is Manifest,
        DecryptState::Probing(_) => event is Free,
        DecryptState::Restoring(_) => event is Restored,
        DecryptState::Removing => event is Removed,
        DecryptState::Done(_) => false,
    }
}

/// Where an event leads to.
pub open spec fn decrypt_next(opts: Options, state: DecryptState, event: DecryptEvent) -> (
    DecryptState,
    DecryptAction,
) {
    match (state, event) {
        (DecryptState::Start, _) => (DecryptState::Opening, DecryptAction::Open),
        (DecryptState::Opening, DecryptEvent::Opened(true)) => (
            DecryptState::Keying,
            DecryptAction::AskPassword,
        ),
        (DecryptState::Opening, _) => (DecryptState::Keying, DecryptAction::LoadKey),
        (DecryptState::Keying, _) => (DecryptState::Reading, DecryptAction::ReadManifest),
        (DecryptState::Reading, DecryptEvent::Manifest(kind)) => (
            DecryptState::Probing(kind),
            DecryptAction::Probe,
        ),
        (DecryptState::Reading, _) => (state, DecryptAction::ReadManifest),
        (DecryptState::Probing(kind), _) => (
            DecryptState::Restoring(kind),
            DecryptAction::Restore(kind),
        ),
        (DecryptState::Restoring(_), _) => if opts.keep {
            (DecryptState::Done(Note::ContainerKept), DecryptAction::Finish(Note::ContainerKept))
        } else {
            (DecryptState::Removing, DecryptAction::Remove)
        },
        (DecryptState::Removing, _) => (
            DecryptState::Done(Note::ContainerRemoved),
            DecryptAction::Finish(Note::ContainerRemoved),
        ),
        (DecryptState::Done(note), _) => (state, DecryptAction::Finish(note)),
    }
}

/// One step of decrypting a container.
pub fn decrypt(opts: &Options, state: DecryptState, event: DecryptEvent) -> (res: (
    DecryptState,
    DecryptAction,
))
    requires
        decrypt_expects(state, event),
    ensures
        res == decrypt_next(*opts, state, event),
{
    match state {
        DecryptState::Start => (DecryptState::Opening, DecryptAction::Open),
        DecryptState::Opening => match event {
            DecryptEvent::Opened(true) => (DecryptState::Keying, DecryptAction::AskPassword),
            _ => (DecryptState::Keying, DecryptAction::LoadKey),
        },
        DecryptState::Keying => (DecryptState::Reading, DecryptAction::ReadManifest),
        DecryptState::Reading => match event {
            DecryptEvent::Manifest(kind) => (DecryptState::Probing(kind), DecryptAction::Probe),
            _ => (state, DecryptAction::ReadManifest),
        },
        DecryptState::Probing(kind) => (
            DecryptState::Restoring(kind),
            DecryptAction::Restore(kind),
        ),
        DecryptState::Restoring(_) => {
            // Every chunk was authenticated on the way out, so the container has
            // done its job and is replaced by what it held.
            if opts.keep {
                (
                    DecryptState::Done(Note::ContainerKept),
                    DecryptAction::Finish(Note::ContainerKept),
                )
            } else {
                (DecryptState::Removing, DecryptAction::Remove)
            }
        },
        DecryptState::Removing => (
            DecryptState::Done(Note::ContainerRemoved),
            DecryptAction::Finish(Note::ContainerRemoved),
        ),
        DecryptState::Done(note) => (state, DecryptAction::Finish(note)),
    }
}

/// Where decrypting stands after a run of events.
pub open spec fn decrypt_after(opts: Options, events: Seq<DecryptEvent>) -> Option<DecryptState>
    decreases events.len(),
{
    if events.len() == 0 {
        Some(DecryptState::Start)
    } else {
        match decrypt_after(opts, events.drop_last()) {
            None => None,
            Some(state) => if decrypt_expects(state, events.last()) {
                Some(decrypt_next(opts, state, events.last()).0)
            } else {
                None
            },
        }
    }
}

/// What is to be done after a run of events.
pub open spec fn decrypt_does(opts: Options, events: Seq<DecryptEvent>) -> Option<DecryptAction> {
    if events.len() == 0 {
        None
    } else {
        match decrypt_after(opts, events.drop_last()) {
            None => None,
            Some(state) => if decrypt_expects(state, events.last()) {
                Some(decrypt_next(opts, state, events.last()).1)
            } else {
                None
            },
        }
    }
}

/// The container is removed only once its contents are in their place, and never
/// where it is to be kept. Until then every step of decrypting came and went
/// well: a decryption that fails leaves the container where it is.
pub proof fn law_container_goes_only_after_its_contents_are_restored(
    opts: Options,
    events: Seq<DecryptEvent>,
)
    requires
        decrypt_does(opts, events) == Some(DecryptAction::Remove),
    ensures
        !opts.keep,
        events.len() == 6,
        events[0] is Begin,
        events[1] is Opened,
        events[2] is Keyed,
        events[3] is Manifest,
        events[4] is Free,
        events[5] is Restored,
{
    let a = events.drop_last();
    let b = a.drop_last();
    let c = b.drop_last();
    let d = c.drop_last();
    let e = d.drop_last();
    assert(decrypt_after(opts, a)->0 is Restoring);
    assert(decrypt_after(opts, b)->0 is Probing);
    assert(decrypt_after(opts, c)->0 is Reading);
    assert(decrypt_after(opts, d)->0 is Keying);
    assert(decrypt_after(opts, e)->0 is Opening);
    assert(e.len() > 0);
    assert(decrypt_after(opts, e.drop_last())->0 is Start);
    if e.drop_last().len() > 0 {
        let f = e.drop_last();
        assert(decrypt_after(opts, f.drop_last()) is Some);
        assert(false);
    }
    assert(e.last() == events[0]);
    assert(d.last() == events[1]);
    assert(c.last() == events[2]);
    assert(b.last() == events[3]);
    assert(a.last() == events[4]);
}

/// Decrypting replaces the container: a run that came to its end has removed it,
/// unless it was to be kept. What is reported is what was done.
pub proof fn law_decrypting_replaces_the_container(opts: Options, events: Seq<DecryptEvent>)
    requires
        decrypt_after(opts, events) matches Some(state) && state is Done,
    ensures
        opts.keep ==> decrypt_does(opts, events) == Some(
            DecryptAction::Finish(Note::ContainerKept),
        ),
        !opts.keep ==> decrypt_does(opts, events) == Some(
            DecryptAction::Finish(Note::ContainerRemoved),
        ) && events.last() is Removed && decrypt_does(opts, events.drop_last()) == Some(
            DecryptAction::Remove,
        ),
{
    let before = events.drop_last();
    let state = decrypt_after(opts, before)->0;
    assert(decrypt_expects(state, events.last()));
    if state is Removing {
        assert(before.len() > 0);
        let earlier = decrypt_after(opts, before.drop_last())->0;
        assert(decrypt_expects(earlier, before.last()));
    }
}

/// What is known of a run by where it stands: which action is due, and that the
/// kind it works on is the one that the manifest gave.
proof fn lemma_decrypt_stands(opts: Options, events: Seq<DecryptEvent>)
    requires
        decrypt_after(opts, events) is Some,
    ensures
        match decrypt_after(opts, events)->0 {
            DecryptState::Start => events.len() == 0,
            DecryptState::Opening => events =~= seq![DecryptEvent::Begin] && decrypt_does(
                opts,
                events,
            ) == Some(DecryptAction::Open),
            DecryptState::Keying => events.len() == 2 && (decrypt_does(opts, events) matches Some(
                a,
            ) && (a is AskPassword || a is LoadKey)),
            DecryptState::Reading => events.len() == 3 && decrypt_does(opts, events) == Some(
                DecryptAction::ReadManifest,
            ),
            DecryptState::Probing(kind) => events.len() == 4 && events[3]
                == DecryptEvent::Manifest(kind) && decrypt_does(opts, events) == Some(
                DecryptAction::Probe,
            ),
            DecryptState::Restoring(kind) => events.len() == 5 && events[3]
                == DecryptEvent::Manifest(kind) && decrypt_does(opts, events) matches Some(
                DecryptAction::Restore(_),
            ),
            DecryptState::Removing => decrypt_does(opts, events) == Some(DecryptAction::Remove),
            DecryptState::Done(note) => decrypt_does(opts, events) == Some(
                DecryptAction::Finish(note),
            ),
        },
    decreases events.len(),
{
    if events.len() > 0 {
        let before = events.drop_last();
        lemma_decrypt_stands(opts, before);
        assert(events =~= before.push(events.last()));
        if before.len() >= 4 {
            assert(events[3] == before[3]);
        }
    }
}

/// What follows what while decrypting, told by what was to be done and what
/// happened, and by nothing else. A password is asked for exactly where the data
/// key is under one; the place is probed before anything is put there; what is
/// restored is of the kind that the manifest says; and the container goes unless
/// it is to be kept. Nothing else can happen.
pub proof fn law_decrypting_step_by_step(
    opts: Options,
    events: Seq<DecryptEvent>,
    event: DecryptEvent,
)
    requires
        decrypt_does(opts, events) is Some,
    ensures
        decrypt_does(opts, events.push(event)) == match (decrypt_does(opts, events)->0, event) {
            (DecryptAction::Open, DecryptEvent::Opened(password)) => Some(
                if password {
                    DecryptAction::AskPassword
                } else {
                    DecryptAction::LoadKey
                },
            ),
            (DecryptAction::AskPassword, DecryptEvent::Keyed) => Some(DecryptAction::ReadManifest),
            (DecryptAction::LoadKey, DecryptEvent::Keyed) => Some(DecryptAction::ReadManifest),
            (DecryptAction::ReadManifest, DecryptEvent::Manifest(_)) => Some(DecryptAction::Probe),
            (DecryptAction::Probe, DecryptEvent::Free) => Some(
                DecryptAction::Restore(events.last()->Manifest_0),
            ),
            (DecryptAction::Restore(_), DecryptEvent::Restored) => Some(
                if opts.keep {
                    DecryptAction::Finish(Note::ContainerKept)
                } else {
                    DecryptAction::Remove
                },
            ),
            (DecryptAction::Remove, DecryptEvent::Removed) => Some(
                DecryptAction::Finish(Note::ContainerRemoved),
            ),
            _ => None,
        },
        decrypt_does(opts, seq![event]) == if event is Begin {
            Some(DecryptAction::Open)
        } else {
            None
        },
{
    let all = events.push(event);
    assert(all.drop_last() =~= events);
    assert(decrypt_after(opts, events) is Some);
    lemma_decrypt_stands(opts, events);
    assert(seq![event].drop_last() =~= Seq::<DecryptEvent>::empty());
    reveal_with_fuel(decrypt_after, 2);
}

/// The contents are restored as the kind that the manifest says, a file as a file
/// and a directory as a directory.
pub proof fn law_restored_as_the_manifest_says(opts: Options, events: Seq<DecryptEvent>)
    requires
        decrypt_does(opts, events) matches Some(action) && action is Restore,
    ensures
        events.len() == 5,
        events[3] is Manifest,
        decrypt_does(opts, events) == Some(DecryptAction::Restore(events[3]->Manifest_0)),
        forall|i: int| 0 <= i < events.len() && (#[trigger] events[i]) is Manifest ==> i == 3,
{
    let before = events.drop_last();
    lemma_decrypt_stands(opts, before);
    lemma_decrypt_stands(opts, events);
    assert(events[3] == before[3]);
    let c = before.drop_last();
    let d = c.drop_last();
    let e = d.drop_last();
    lemma_decrypt_stands(opts, c);
    lemma_decrypt_stands(opts, d);
    lemma_decrypt_stands(opts, e);
    assert(c.last() == events[2] && d.last() == events[1] && e.last() == events[0]);
}

/// What stands at the place of the contents is removed first, where something
/// does and may be replaced.
pub fn clears_place(force: bool, taken: bool) -> (yes: bool)
    ensures
        yes == (force && taken),
{
    force && taken
}

/// What is moved into place once a directory is unpacked.
#[derive(Clone, Copy, Debug, PartialEq, Eq, Structural)]
pub enum Staged {
    /// The directory in the archive that goes by the container's name.
    Named,
    /// Everything that was unpacked.
    Whole,
}

/// Decides what is moved into place. `named` says whether the archive held a
/// directory of the container's name.
pub fn staged(named: bool) -> (s: Staged)
    ensures
        s == if named {
            Staged::Named
        } else {
            Staged::Whole
        },
{
    if named {
        Staged::Named
    } else {
        Staged::Whole
    }
}

/// Where a result goes.
#[derive(Debug)]
pub enum Place<'a> {
    /// To the path that was given.
    Given(&'a PathBuf),
    /// Next to the input, under this name.
    Beside(String),
}

/// Where the container of a file or directory of this name goes: to the path that
/// was given with `-o`, or else next to the source, with the extension behind the
/// whole name.
pub fn container_place<'a>(opts: &'a Options, name: &str) -> (place: Place<'a>)
    ensures
        match opts.output {
            Some(path) => place matches Place::Given(p) && *p == path,
            None => place matches Place::Beside(n) && n@ == name@ + "."@ + EXTENSION@,
        },
{
    match &opts.output {
        Some(path) => Place::Given(path),
        None => Place::Beside(container_name(name)),
    }
}

/// Where the contents of a container go that carries this name: to the path that
/// was given with `-o`, or else next to the container, under the last part of the
/// name.
pub fn contents_place<'a>(opts: &'a Options, name: &str) -> (res: Result<Place<'a>, Fault>)
    ensures
        match file_name_of(name@) {
            None => res matches Err(e) && e is UnusableName,
            Some(plain) => match opts.output {
                Some(path) => res matches Ok(Place::Given(p)) && *p == path,
                None => res matches Ok(Place::Beside(n)) && n@ == plain,
            },
        },
{
    let plain = match safe_name(name) {
        Ok(n) => n,
        Err(e) => {
            return Err(e);
        },
    };
    match &opts.output {
        Some(path) => Ok(Place::Given(path)),
        None => Ok(Place::Beside(plain)),
    }
}

// --------------------------------------------------------------- container

/// The stream of a container with this header.
pub open spec fn stream_view(cipher: Cipher, dek: Seq<u8>, prefix: Seq<u8>, json: Seq<u8>) -> SealerView {
    SealerView { cipher, key: dek, prefix, aad: aad_of(json), counter: 0 }
}

/// Begins a container: what comes before the stream, and the stream with the
/// manifest as its first record. `json` is the header, which says `meta`, and
/// `manifest` the manifest. The bytes that come out are to be written first. The
/// cipher and the nonces are those of the header.
pub fn begin_container(
    meta: &Meta,
    json: &[u8],
    dek: &[u8; 32],
    manifest: &[u8],
) -> (res: Result<(Vec<u8>, EncWriter), Fault>)
    ensures
        match prefix_of(meta.nonce_prefix@) {
            Ok(prefix) => res matches Ok((head, w)) && head@ == header_bytes(json@) + w.given()
                && w.start() == stream_view(meta.cipher, dek@, prefix, json@) && w.taken()
                == manifest_record(manifest@),
            Err(f) => res matches Err(e) && e.is_for(f),
        },
{
    let prefix = match decode_prefix(meta) {
        Ok(p) => p,
        Err(e) => {
            return Err(e);
        },
    };
    let mut head = write_header(json);
    let sealer = Sealer::new(meta.cipher, dek, prefix, aad(json));
    let mut w = EncWriter::new(sealer);
    let record = write_manifest(manifest);
    let sealed = match w.write(&record) {
        Ok(s) => s,
        Err(e) => {
            return Err(e);
        },
    };
    push_bytes(&mut head, &sealed);
    assert(w.taken() =~= manifest_record(manifest@));
    assert(w.given() =~= sealed@);
    Ok((head, w))
}

/// Opens the stream of a container whose header is `json` and says `meta`.
pub fn open_container(meta: &Meta, json: &[u8], dek: &[u8; 32]) -> (res: Result<DecReader, Fault>)
    ensures
        match prefix_of(meta.nonce_prefix@) {
            Ok(prefix) => res matches Ok(r) && r.start() == stream_view(
                meta.cipher,
                dek@,
                prefix,
                json@,
            ) && r.sealer() == r.start() && r.left().len() == 0 && !r.done() && r.intact()
                && r.consumed().len() == 0 && r.opened().len() == 0,
            Err(f) => res matches Err(e) && e.is_for(f),
        },
{
    let prefix = match decode_prefix(meta) {
        Ok(p) => p,
        Err(e) => {
            return Err(e);
        },
    };
    Ok(DecReader::new(Sealer::new(meta.cipher, dek, prefix, aad(json))))
}

/// What is written is what is read: a container made of a header and a stream
/// that opens to a manifest and the contents gives back the header, the
/// manifest and the contents.
pub proof fn law_container_round_trip(
    json: Seq<u8>,
    manifest: Seq<u8>,
    contents: Seq<u8>,
    v: SealerView,
    stream: Seq<u8>,
)
    requires
        0 < json.len() <= PREAMBLE_LIMIT,
        0 < manifest.len() <= MANIFEST_MAX,
        stream_open(v, stream) == Ok::<_, StreamFault>(manifest_record(manifest) + contents),
    ensures
        ({
            let container = header_bytes(json) + stream;
            let end = header_bytes(json).len() as int;
            let n = manifest.len() as int;
            &&& header_of(container) == Ok::<_, Fault>((json, end))
            &&& stream_open(v, container.skip(end)) matches Ok(plain) && manifest_length(
                plain.take(4),
            ) == Ok::<_, Fault>(n) && plain.subrange(4, 4 + n) == manifest && plain.skip(4 + n)
                == contents
        }),
{
    let container = header_bytes(json) + stream;
    let end = header_bytes(json).len() as int;
    law_header_round_trip(json, stream);
    law_manifest_round_trip(manifest, contents);
    assert(container.skip(end) =~= stream);
}

/// What opens a container: a password or a private key.
pub enum Secret {
    Password(Seq<char>),
    Key(KeyView),
}

/// The data key that a secret takes out of a recipient, if it takes one out.
pub open spec fn data_key(r: Recipient, secret: Secret) -> Option<Seq<u8>> {
    match (r, secret) {
        (
            Recipient::Password { kdf, salt, m_cost, t_cost, p_cost, wrap_nonce, wrapped },
            Secret::Password(p),
        ) => if kdf@ != KDF_NAME@ {
            None
        } else {
            match password_opened(p, salt@, m_cost, t_cost, p_cost, wrap_nonce@, wrapped@) {
                Ok(dek) => Some(dek),
                Err(_) => None,
            }
        },
        (Recipient::Password { .. }, Secret::Key(_)) => None,
        (_, Secret::Password(_)) => None,
        (_, Secret::Key(sk)) => match key_opened(r, sk) {
            KeyOutcome::Key(dek) => Some(dek),
            _ => None,
        },
    }
}

/// The manifest and the contents that a stream opened to, if it has both.
pub open spec fn records(plain: Seq<u8>) -> Option<(Seq<u8>, Seq<u8>)> {
    match manifest_length(plain.take(4)) {
        Ok(n) => if plain.len() < 4 + n {
            None
        } else {
            Some((plain.subrange(4, 4 + n), plain.skip(4 + n)))
        },
        Err(_) => None,
    }
}

/// The manifest and the contents that a secret takes out of a container whose
/// header says `meta`, if it takes any out.
pub open spec fn restored(container: Seq<u8>, meta: Meta, secret: Secret) -> Option<
    (Seq<u8>, Seq<u8>),
> {
    match (
        header_of(container),
        meta_fault(meta.version, meta.chunk_size),
        data_key(meta.recipient, secret),
        prefix_of(meta.nonce_prefix@),
    ) {
        (Ok((json, end)), None, Some(dek), Ok(prefix)) => match stream_open(
            stream_view(meta.cipher, dek, prefix, json),
            container.skip(end),
        ) {
            Ok(plain) => records(plain),
            Err(_) => None,
        },
        _ => None,
    }
}

/// Whether a secret is the one that a data key was wrapped for: the password that
/// it was wrapped under, or a private key that has the fingerprint in the header
/// and takes the data key out.
pub open spec fn wrapped_to(r: Recipient, secret: Secret, dek: Seq<u8>) -> bool {
    match secret {
        Secret::Password(p) => password_gives(r, p, dek),
        Secret::Key(sk) => recipient_fingerprint(r) == Some(fingerprint_of(public_of(sk)))
            && key_gives(r, sk, dek),
    }
}

/// What was encrypted is decrypted again, with the password or the private key
/// that it was encrypted for: where a data key is wrapped in the header, and the
/// stream is written under that data key and behind that header, the container
/// gives back the manifest and the contents, whatever they hold.
pub proof fn law_encrypted_contents_come_back(
    meta: Meta,
    secret: Secret,
    dek: Seq<u8>,
    prefix: Seq<u8>,
    json: Seq<u8>,
    manifest: Seq<u8>,
    contents: Seq<u8>,
)
    requires
        0 < json.len() <= PREAMBLE_LIMIT,
        0 < manifest.len() <= MANIFEST_MAX,
        meta_fault(meta.version, meta.chunk_size) is None,
        prefix_of(meta.nonce_prefix@) == Ok::<_, Refusal>(prefix),
        wrapped_to(meta.recipient, secret, dek),
        sound(
            stream_view(meta.cipher, dek, prefix, json),
            manifest_record(manifest) + contents,
        ),
    ensures
        ({
            let v = stream_view(meta.cipher, dek, prefix, json);
            let stream = stream_seal(v, manifest_record(manifest) + contents);
            restored(header_bytes(json) + stream, meta, secret) == Some((manifest, contents))
        }),
{
    let v = stream_view(meta.cipher, dek, prefix, json);
    let plain = manifest_record(manifest) + contents;
    let stream = stream_seal(v, plain);
    let container = header_bytes(json) + stream;
    let end = header_bytes(json).len() as int;
    assert(data_key(meta.recipient, secret) == Some(dek));
    assert(stream_open(v, stream) == Ok::<_, StreamFault>(plain)) by {
        law_the_written_stream_opens(v, plain);
    }
    assert(header_of(container) == Ok::<_, Fault>((json, end))) by {
        law_header_round_trip(json, stream);
    }
    assert(container.skip(end) =~= stream);
    assert(records(plain) == Some((manifest, contents))) by {
        law_manifest_round_trip(manifest, contents);
        assert(plain.len() == 4 + manifest.len() + contents.len());
    }
}

/// A header that was edited is refused: the stream does not open behind any
/// other header than the one it was written with, as long as nothing in it is
/// forged and the two headers do not have the same digest.
pub proof fn law_edited_header_is_refused(
    v: SealerView,
    plain: Seq<u8>,
    json: Seq<u8>,
    other: Seq<u8>,
    stream: Seq<u8>,
)
    requires
        v.aad == aad_of(json),
        v.counter == 0,
        unforged(v, plain, SealerView { aad: aad_of(other), ..v }, stream),
        plain.len() / CHUNK as nat <= u32::MAX,
        aad_of(other) != aad_of(json),
    ensures
        stream_open(SealerView { aad: aad_of(other), ..v }, stream) is Err,
{
    if stream_open(SealerView { aad: aad_of(other), ..v }, stream) is Ok {
        law_only_the_written_stream_opens(v, plain, aad_of(other), stream);
    }
}

} // verus!
