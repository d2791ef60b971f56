//! What is asked on the terminal, and what is made of the answers.
use crate::cli::{scheme_entry, scheme_menu, Scheme};
use crate::fault::Fault;
use crate::keys::algo_label;
use crate::store::KeyEntry;
use crate::text::{chars_of, pad_right, padded, same_text, text_of, texts};
use vstd::prelude::*;
use vstd::slice::slice_subrange;
use vstd::string::*;

verus! {

/// Whether somebody can be asked: both standard input and standard error are
/// terminals.
pub fn interactive(stdin: bool, stderr: bool) -> (yes: bool)
    ensures
        yes == (stdin && stderr),
{
    stdin && stderr
}

// ------------------------------------------------------------------ schemes

/// The lines of the menu of schemes, where somebody can be asked.
pub fn choose_scheme(interactive: bool) -> (res: Result<Vec<String>, Fault>)
    ensures
        match res {
            Ok(items) => interactive && texts(items@) == scheme_menu().map_values(
                |s: Scheme| scheme_entry(s),
            ),
            Err(e) => !interactive && e is NoTerminalForScheme,
        },
        res matches Ok(items) ==> items@.len() == 5 && forall|i: int|
            0 <= i < 5 ==> (#[trigger] items@[i])@ == scheme_entry(scheme_menu()[i]),
{
    if !interactive {
        return Err(Fault::NoTerminalForScheme);
    }
    let menu = Scheme::menu();
    let mut items: Vec<String> = Vec::new();
    let mut i: usize = 0;
    while i < 5
        invariant
            i <= 5,
            menu@ == scheme_menu(),
            texts(items@) == scheme_menu().take(i as int).map_values(|s: Scheme| scheme_entry(s)),
        decreases 5 - i,
    {
        let ghost before = texts(items@);
        let line = menu[i].menu_entry();
        items.push(line);
        proof {
            assert(texts(items@) =~= before.push(line@));
            assert(scheme_menu().take(i + 1).map_values(|s: Scheme| scheme_entry(s))
                =~= scheme_menu().take(i as int).map_values(|s: Scheme| scheme_entry(s)).push(
                line@,
            ));
        }
        i += 1;
    }
    assert(scheme_menu().take(5) =~= scheme_menu());
    assert(items@.len() == texts(items@).len());
    assert forall|k: int| 0 <= k < 5 implies (#[trigger] items@[k])@ == scheme_entry(
        scheme_menu()[k],
    ) by {
        assert(texts(items@)[k] == items@[k]@);
    }
    Ok(items)
}

/// The scheme on a line of the menu.
pub fn scheme_at(idx: usize) -> (s: Scheme)
    requires
        idx < 5,
    ensures
        s == scheme_menu()[idx as int],
{
    Scheme::menu()[idx]
}

// --------------------------------------------------------------------- keys

/// What was chosen from the list of key pairs.
#[derive(Debug)]
pub enum KeyChoice {
    Existing(String),
    Generate,
}

/// The line of a key pair in the list to choose from.
pub open spec fn key_item(e: KeyEntry) -> Seq<char> {
    padded(e.name@, 16) + " "@ + padded(algo_label(e.algo), 14) + " "@ + e.fingerprint@
}

/// The lines of the list of key pairs, where somebody can be asked. The last one
/// stands for a new key pair.
pub fn key_items(interactive: bool, entries: &[KeyEntry]) -> (res: Result<Vec<String>, Fault>)
    ensures
        match res {
            Ok(items) => interactive && texts(items@) == entries@.map_values(
                |e: KeyEntry| key_item(e),
            ).push("generate a new key pair"@),
            Err(e) => !interactive && e is NoTerminalForKey,
        },
{
    if !interactive {
        return Err(Fault::NoTerminalForKey);
    }
    let mut items: Vec<String> = Vec::new();
    let mut i: usize = 0;
    assert(texts(items@) =~= entries@.take(0).map_values(|e: KeyEntry| key_item(e)));
    while i < entries.len()
        invariant
            i <= entries@.len(),
            texts(items@) == entries@.take(i as int).map_values(|e: KeyEntry| key_item(e)),
        decreases entries@.len() - i,
    {
        let e = &entries[i];
        let mut line = pad_right(e.name.as_str(), 16);
        line.append(" ");
        line.append(pad_right(e.algo.label(), 14).as_str());
        line.append(" ");
        line.append(e.fingerprint.as_str());
        let ghost before = texts(items@);
        items.push(line);
        proof {
            assert(line@ == key_item(*e));
            assert(texts(items@) =~= before.push(line@));
            assert(entries@.take(i + 1).map_values(|e: KeyEntry| key_item(e)) =~= entries@.take(
                i as int,
            ).map_values(|e: KeyEntry| key_item(e)).push(line@));
        }
        i += 1;
    }
    let ghost before = texts(items@);
    items.push("generate a new key pair".to_string());
    assert(entries@.take(i as int) =~= entries@);
    assert(texts(items@) =~= before.push("generate a new key pair"@));
    Ok(items)
}

/// What a line of the list of key pairs stands for.
pub fn choose_key(entries: &[KeyEntry], idx: usize) -> (choice: KeyChoice)
    requires
        idx <= entries@.len(),
    ensures
        if idx == entries@.len() {
            choice is Generate
        } else {
            choice matches KeyChoice::Existing(name) && name@ == entries@[idx as int].name@
        },
{
    if idx == entries.len() {
        KeyChoice::Generate
    } else {
        KeyChoice::Existing(entries[idx].name.clone())
    }
}

// ------------------------------------------------------------------ answers

/// The name that goes without asking, where nobody can be asked.
pub fn ask_name(interactive: bool, default: &str) -> (res: Option<String>)
    ensures
        match res {
            Some(name) => !interactive && name@ == default@,
            None => interactive,
        },
{
    if !interactive {
        return Some(default.to_string());
    }
    None
}

/// The answer that goes without asking, where nobody can be asked.
pub fn confirm(interactive: bool, default: bool) -> (res: Option<bool>)
    ensures
        res == if interactive {
            None
        } else {
            Some(default)
        },
{
    if !interactive {
        return Some(default);
    }
    None
}

// ---------------------------------------------------------------- passwords

/// A line without the line breaks at its end.
pub open spec fn without_breaks(line: Seq<char>) -> Seq<char>
    decreases line.len(),
{
    if line.len() > 0 && (line.last() == '\n' || line.last() == '\r') {
        without_breaks(line.drop_last())
    } else {
        line
    }
}

/// The password on a line of standard input.
pub fn stdin_password(line: &str) -> (res: Result<String, Fault>)
    ensures
        match res {
            Ok(pass) => pass@ == without_breaks(line@) && pass@.len() > 0,
            Err(e) => without_breaks(line@).len() == 0 && e is EmptyPassword,
        },
{
    let chars = chars_of(line);
    let mut end: usize = chars.len();
    assert(chars@.take(end as int) =~= chars@);
    while end > 0 && (chars[end - 1] == '\n' || chars[end - 1] == '\r')
        invariant
            end <= chars@.len(),
            without_breaks(chars@) == without_breaks(chars@.take(end as int)),
        decreases end,
    {
        assert(chars@.take(end as int).drop_last() =~= chars@.take(end - 1));
        end -= 1;
    }
    let pass = slice_subrange(&chars, 0, end);
    assert(pass@ =~= chars@.take(end as int));
    if pass.len() == 0 {
        return Err(Fault::EmptyPassword);
    }
    Ok(text_of(pass))
}

/// Refuses to ask for a password where nobody can be asked.
pub fn check_terminal(interactive: bool) -> (res: Result<(), Fault>)
    ensures
        match res {
            Ok(_) => interactive,
            Err(e) => !interactive && e is NoTerminalForPassword,
        },
{
    if !interactive {
        return Err(Fault::NoTerminalForPassword);
    }
    Ok(())
}

/// What comes of a password that was typed.
pub enum PasswordStep {
    /// It was empty: ask again.
    Empty,
    /// Ask for it a second time.
    Repeat(String),
    /// It was typed differently the second time: ask for both again.
    Differs,
    /// It stands; a short one deserves a word of warning.
    Done { password: String, short: bool },
}

/// One step of asking for a password. `first` is what was typed the first time,
/// where this is the second. `confirm_twice` is used when the password protects
/// something new, so a typo cannot lock the data away.
pub fn read_password(first: Option<String>, typed: String, confirm_twice: bool) -> (step:
    PasswordStep)
    ensures
        match first {
            None => if typed@.len() == 0 {
                step is Empty
            } else if confirm_twice {
                step matches PasswordStep::Repeat(p) && p@ == typed@
            } else {
                step matches PasswordStep::Done { password, short } && password@ == typed@ && !short
            },
            Some(f) => if f@ != typed@ {
                step is Differs
            } else {
                step matches PasswordStep::Done { password, short } && password@ == typed@ && short
                    == (vstd::utf8::encode_utf8(typed@).len() < 12)
            },
        },
{
    match first {
        None => {
            if typed.as_str().is_empty() {
                PasswordStep::Empty
            } else if confirm_twice {
                PasswordStep::Repeat(typed)
            } else {
                PasswordStep::Done { password: typed, short: false }
            }
        },
        Some(f) => {
            if !same_text(f.as_str(), typed.as_str()) {
                PasswordStep::Differs
            } else {
                let short = typed.as_str().as_bytes().len() < 12;
                PasswordStep::Done { password: typed, short }
            }
        },
    }
}

/// What is asked for the passphrase of a key.
pub fn passphrase_for_key(name: &str) -> (s: String)
    ensures
        s@ == "Passphrase for key '"@ + name@ + "'"@,
{
    let mut s = "Passphrase for key '".to_string();
    s.append(name);
    s.append("'");
    s
}

// --------------------------------------------------------------------- laws

/// Of a line only line breaks at its end are left out, and all of them: what stays
/// is a beginning of the line that ends in none, and what goes is nothing else.
pub proof fn law_only_line_breaks_are_left_out(line: Seq<char>)
    ensures
        ({
            let pass = without_breaks(line);
            &&& pass.len() <= line.len()
            &&& line.take(pass.len() as int) == pass
            &&& forall|i: int|
                pass.len() <= i < line.len() ==> #[trigger] line[i] == '\n' || line[i] == '\r'
            &&& pass.len() > 0 ==> pass.last() != '\n' && pass.last() != '\r'
        }),
    decreases line.len(),
{
    if line.len() > 0 && (line.last() == '\n' || line.last() == '\r') {
        let head = line.drop_last();
        law_only_line_breaks_are_left_out(head);
        let pass = without_breaks(line);
        assert(line.take(pass.len() as int) =~= head.take(pass.len() as int));
        assert forall|i: int| pass.len() <= i < line.len() implies #[trigger] line[i] == '\n'
            || line[i] == '\r' by {
            if i < head.len() {
                assert(head[i] == line[i]);
            }
        }
    } else {
        assert(line.take(line.len() as int) =~= line);
    }
}

/// The line of a key pair in the list to choose from shows its name, its type and
/// its fingerprint, in this order, each in its column or behind what is too long
/// for one.
pub proof fn law_key_item_shows_the_key(e: KeyEntry)
    ensures
        ({
            let line = key_item(e);
            let label = algo_label(e.algo);
            let a = if e.name@.len() < 16 {
                16int
            } else {
                e.name@.len() as int
            };
            &&& line.take(e.name@.len() as int) == e.name@
            &&& line.subrange(a + 1, a + 1 + label.len()) == label
            &&& line.skip(a + 16) == e.fingerprint@
        }),
{
    reveal_strlit(" ");
    crate::keys::law_labels_of_the_types(e.algo, e.algo);
    let line = key_item(e);
    let label = algo_label(e.algo);
    let name = padded(e.name@, 16);
    let a = name.len() as int;
    assert(padded(label, 14).len() == 14);
    assert(line.take(e.name@.len() as int) =~= e.name@);
    assert(line.subrange(a + 1, a + 1 + label.len()) =~= label);
    assert(line.skip(a + 16) =~= e.fingerprint@);
}

} // verus!
