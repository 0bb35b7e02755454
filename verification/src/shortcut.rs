//! The global shortcut as the user names it: modifier names and one key.

use vstd::prelude::*;
use crate::text::{append_chars, chars_of, same_text, string_of};

verus! {

/// The modifiers of a shortcut.
#[derive(Debug, Clone, Copy, PartialEq, Eq, Structural)]
pub struct Modifiers {
    pub control: bool,
    pub alt: bool,
    pub shift: bool,
    pub super_key: bool,
}

/// The key of a shortcut: a letter, given as its capital, or a digit.
#[derive(Debug, Clone, Copy, PartialEq, Eq, Structural)]
pub enum Code {
    Letter(char),
    Digit(char),
}

/// A key with the modifiers held while it is pressed, if any.
#[derive(Debug, Clone, Copy, PartialEq, Eq, Structural)]
pub struct Shortcut {
    pub modifiers: Option<Modifiers>,
    pub code: Code,
}

/// `s` in lower case, as `str::to_lowercase` gives it.
pub uninterp spec fn lowercased(s: Seq<char>) -> Seq<char>;

/// `s` in upper case, as `str::to_uppercase` gives it.
pub uninterp spec fn uppercased(s: Seq<char>) -> Seq<char>;

/// The lower-case form of `s` by Unicode's rules, from `str::to_lowercase`.
#[verifier::external_body]
fn to_lowercase(s: &str) -> (out: String)
    ensures
        out@ == lowercased(s@),
{
    s.to_lowercase()
}

/// The upper-case form of `s` by Unicode's rules, from `str::to_uppercase`.
#[verifier::external_body]
fn to_uppercase(s: &str) -> (out: String)
    ensures
        out@ == uppercased(s@),
{
    s.to_uppercase()
}

/// No modifier.
pub open spec fn no_modifiers() -> Modifiers {
    Modifiers { control: false, alt: false, shift: false, super_key: false }
}

/// The modifier that a name in lower case stands for, alone.
pub open spec fn modifier_named(name: Seq<char>) -> Option<Modifiers> {
    if name == "control"@ || name == "ctrl"@ {
        Some(Modifiers { control: true, ..no_modifiers() })
    } else if name == "alt"@ {
        Some(Modifiers { alt: true, ..no_modifiers() })
    } else if name == "shift"@ {
        Some(Modifiers { shift: true, ..no_modifiers() })
    } else if name == "meta"@ || name == "super"@ {
        Some(Modifiers { super_key: true, ..no_modifiers() })
    } else {
        None
    }
}

/// The modifiers of either.
pub open spec fn both(a: Modifiers, b: Modifiers) -> Modifiers {
    Modifiers {
        control: a.control || b.control,
        alt: a.alt || b.alt,
        shift: a.shift || b.shift,
        super_key: a.super_key || b.super_key,
    }
}

/// The modifiers that the first `n` of `names` stand for together, capitals
/// aside; none where no name is known. A name that is not known counts for
/// nothing.
pub open spec fn modifiers_named(names: Seq<Seq<char>>, n: int) -> Option<Modifiers>
    decreases n,
{
    if n <= 0 {
        None
    } else {
        let before = modifiers_named(names, n - 1);
        match modifier_named(lowercased(names[n - 1])) {
            Some(one) => match before {
                Some(others) => Some(both(others, one)),
                None => Some(one),
            },
            None => before,
        }
    }
}

/// The key that a name in upper case stands for: one letter from `A` to
/// `Z` or one digit.
pub open spec fn key_named(name: Seq<char>) -> Option<Code> {
    if name.len() == 1 && 'A' <= name[0] <= 'Z' {
        Some(Code::Letter(name[0]))
    } else if name.len() == 1 && '0' <= name[0] <= '9' {
        Some(Code::Digit(name[0]))
    } else {
        None
    }
}

/// What is said of a key that is none of the letters and digits.
pub open spec fn unsupported_key(key: Seq<char>) -> Seq<char> {
    "Unsupported key: "@ + key
}

/// The modifier that one name stands for.
fn parse_modifier(name: &str) -> (one: Option<Modifiers>)
    ensures
        one == modifier_named(lowercased(name@)),
{
    let low = to_lowercase(name);
    let none = Modifiers { control: false, alt: false, shift: false, super_key: false };
    if same_text(low.as_str(), "control") || same_text(low.as_str(), "ctrl") {
        Some(Modifiers { control: true, ..none })
    } else if same_text(low.as_str(), "alt") {
        Some(Modifiers { alt: true, ..none })
    } else if same_text(low.as_str(), "shift") {
        Some(Modifiers { shift: true, ..none })
    } else if same_text(low.as_str(), "meta") || same_text(low.as_str(), "super") {
        Some(Modifiers { super_key: true, ..none })
    } else {
        None
    }
}

/// The modifiers that `mods` name together.
pub fn parse_modifiers(mods: &[String]) -> (result: Option<Modifiers>)
    ensures
        result == modifiers_named(mods@.map_values(|m: String| m@), mods@.len() as int),
{
    let ghost names = mods@.map_values(|m: String| m@);
    let mut result: Option<Modifiers> = None;
    let mut i: usize = 0;
    while i < mods.len()
        invariant
            i <= mods@.len(),
            names == mods@.map_values(|m: String| m@),
            result == modifiers_named(names, i as int),
        decreases mods@.len() - i,
    {
        assert(names[i as int] == mods@[i as int]@);
        match parse_modifier(mods[i].as_str()) {
            Some(one) => {
                result = Some(
                    match result {
                        Some(others) => Modifiers {
                            control: others.control || one.control,
                            alt: others.alt || one.alt,
                            shift: others.shift || one.shift,
                            super_key: others.super_key || one.super_key,
                        },
                        None => one,
                    },
                );
            },
            None => {},
        }
        i += 1;
    }
    result
}

/// The key that `key` names.
pub fn parse_key(key: &str) -> (code: Option<Code>)
    ensures
        code == key_named(uppercased(key@)),
{
    let upper = chars_of(to_uppercase(key).as_str());
    if upper.len() != 1 {
        return None;
    }
    let c = upper[0];
    if 'A' <= c && c <= 'Z' {
        Some(Code::Letter(c))
    } else if '0' <= c && c <= '9' {
        Some(Code::Digit(c))
    } else {
        None
    }
}

/// The shortcut that the modifier names and the key name give, or what is
/// said of a key that is not supported.
pub fn parse_shortcut(mods: &[String], key: &str) -> (result: Result<Shortcut, String>)
    ensures
        match key_named(uppercased(key@)) {
            Some(code) => result == Ok::<Shortcut, String>(
                Shortcut {
                    modifiers: modifiers_named(
                        mods@.map_values(|m: String| m@),
                        mods@.len() as int,
                    ),
                    code,
                },
            ),
            None => result is Err && result->Err_0@ == unsupported_key(key@),
        },
{
    match parse_key(key) {
        Some(code) => Ok(Shortcut { modifiers: parse_modifiers(mods), code }),
        None => {
            let mut said = chars_of("Unsupported key: ");
            append_chars(&mut said, chars_of(key).as_slice());
            Err(string_of(said.as_slice()))
        },
    }
}

/// The shortcut in use until another is chosen: Control and K.
pub fn default_shortcut() -> (shortcut: Shortcut)
    ensures
        shortcut == (Shortcut {
            modifiers: Some(Modifiers { control: true, ..no_modifiers() }),
            code: Code::Letter('K'),
        }),
{
    Shortcut {
        modifiers: Some(Modifiers { control: true, alt: false, shift: false, super_key: false }),
        code: Code::Letter('K'),
    }
}

} // verus!
