//! Hotkey combo strings such as `alt+v` or `ctrl+shift+f1`: parsing them
//! into modifiers and a key, writing them back in canonical order, showing
//! them with the macOS modifier symbols, and building them from a captured
//! key event.
//!
//! Registering the hotkey with the system is done by the application, which
//! converts these plain values to the hotkey crate's types.

use vstd::prelude::*;
use vstd::string::StringExecFns;

use crate::text::{
    char_pos, decimal, find_char, trim_end, trim_start, lemma_char_pos, lemma_char_pos_range, push_char, push_chars, range_is,
    to_chars, trim, trim_bounds, lowercase, str_to_lowercase,
};

verus! {

broadcast use vstd::string::group_string_axioms;

/// The modifier keys of a combo.
#[derive(Clone, Copy, Debug, PartialEq, Eq, Structural)]
pub struct Modifiers {
    pub meta: bool,
    pub control: bool,
    pub alt: bool,
    pub shift: bool,
}

/// No modifier keys.
pub open spec fn no_modifiers() -> Modifiers {
    Modifiers { meta: false, control: false, alt: false, shift: false }
}

impl Modifiers {
    /// No modifier keys.
    pub fn empty() -> (m: Modifiers)
        ensures
            m == no_modifiers(),
    {
        Modifiers { meta: false, control: false, alt: false, shift: false }
    }

    /// Whether no modifier key is set.
    pub fn is_empty(&self) -> (r: bool)
        ensures
            r == (*self == no_modifiers()),
    {
        !self.meta && !self.control && !self.alt && !self.shift
    }
}

/// A key of a hotkey combo.
#[derive(Clone, Copy, Debug, PartialEq, Eq, Structural)]
pub enum KeyCode {
    KeyA,
    KeyB,
    KeyC,
    KeyD,
    KeyE,
    KeyF,
    KeyG,
    KeyH,
    KeyI,
    KeyJ,
    KeyK,
    KeyL,
    KeyM,
    KeyN,
    KeyO,
    KeyP,
    KeyQ,
    KeyR,
    KeyS,
    KeyT,
    KeyU,
    KeyV,
    KeyW,
    KeyX,
    KeyY,
    KeyZ,
    Digit0,
    Digit1,
    Digit2,
    Digit3,
    Digit4,
    Digit5,
    Digit6,
    Digit7,
    Digit8,
    Digit9,
    F1,
    F2,
    F3,
    F4,
    F5,
    F6,
    F7,
    F8,
    F9,
    F10,
    F11,
    F12,
    Space,
    Tab,
    Comma,
    /// Any other key.
    Other,
}

/// The name of a key in a combo string.
pub open spec fn key_name(c: KeyCode) -> Seq<char> {
    match c {
        KeyCode::KeyA => seq!['a'],
        KeyCode::KeyB => seq!['b'],
        KeyCode::KeyC => seq!['c'],
        KeyCode::KeyD => seq!['d'],
        KeyCode::KeyE => seq!['e'],
        KeyCode::KeyF => seq!['f'],
        KeyCode::KeyG => seq!['g'],
        KeyCode::KeyH => seq!['h'],
        KeyCode::KeyI => seq!['i'],
        KeyCode::KeyJ => seq!['j'],
        KeyCode::KeyK => seq!['k'],
        KeyCode::KeyL => seq!['l'],
        KeyCode::KeyM => seq!['m'],
        KeyCode::KeyN => seq!['n'],
        KeyCode::KeyO => seq!['o'],
        KeyCode::KeyP => seq!['p'],
        KeyCode::KeyQ => seq!['q'],
        KeyCode::KeyR => seq!['r'],
        KeyCode::KeyS => seq!['s'],
        KeyCode::KeyT => seq!['t'],
        KeyCode::KeyU => seq!['u'],
        KeyCode::KeyV => seq!['v'],
        KeyCode::KeyW => seq!['w'],
        KeyCode::KeyX => seq!['x'],
        KeyCode::KeyY => seq!['y'],
        KeyCode::KeyZ => seq!['z'],
        KeyCode::Digit0 => seq!['0'],
        KeyCode::Digit1 => seq!['1'],
        KeyCode::Digit2 => seq!['2'],
        KeyCode::Digit3 => seq!['3'],
        KeyCode::Digit4 => seq!['4'],
        KeyCode::Digit5 => seq!['5'],
        KeyCode::Digit6 => seq!['6'],
        KeyCode::Digit7 => seq!['7'],
        KeyCode::Digit8 => seq!['8'],
        KeyCode::Digit9 => seq!['9'],
        KeyCode::F1 => seq!['f', '1'],
        KeyCode::F2 => seq!['f', '2'],
        KeyCode::F3 => seq!['f', '3'],
        KeyCode::F4 => seq!['f', '4'],
        KeyCode::F5 => seq!['f', '5'],
        KeyCode::F6 => seq!['f', '6'],
        KeyCode::F7 => seq!['f', '7'],
        KeyCode::F8 => seq!['f', '8'],
        KeyCode::F9 => seq!['f', '9'],
        KeyCode::F10 => seq!['f', '1', '0'],
        KeyCode::F11 => seq!['f', '1', '1'],
        KeyCode::F12 => seq!['f', '1', '2'],
        KeyCode::Space => seq!['s', 'p', 'a', 'c', 'e'],
        KeyCode::Tab => seq!['t', 'a', 'b'],
        KeyCode::Comma => seq!['c', 'o', 'm', 'm', 'a'],
        KeyCode::Other => seq!['u', 'n', 'k', 'n', 'o', 'w', 'n'],
    }
}

/// The key whose name is the single character `ch`.
pub open spec fn single_char_key(ch: char) -> Option<KeyCode> {
    if ch == 'a' {
        Some(KeyCode::KeyA)
    } else if ch == 'b' {
        Some(KeyCode::KeyB)
    } else if ch == 'c' {
        Some(KeyCode::KeyC)
    } else if ch == 'd' {
        Some(KeyCode::KeyD)
    } else if ch == 'e' {
        Some(KeyCode::KeyE)
    } else if ch == 'f' {
        Some(KeyCode::KeyF)
    } else if ch == 'g' {
        Some(KeyCode::KeyG)
    } else if ch == 'h' {
        Some(KeyCode::KeyH)
    } else if ch == 'i' {
        Some(KeyCode::KeyI)
    } else if ch == 'j' {
        Some(KeyCode::KeyJ)
    } else if ch == 'k' {
        Some(KeyCode::KeyK)
    } else if ch == 'l' {
        Some(KeyCode::KeyL)
    } else if ch == 'm' {
        Some(KeyCode::KeyM)
    } else if ch == 'n' {
        Some(KeyCode::KeyN)
    } else if ch == 'o' {
        Some(KeyCode::KeyO)
    } else if ch == 'p' {
        Some(KeyCode::KeyP)
    } else if ch == 'q' {
        Some(KeyCode::KeyQ)
    } else if ch == 'r' {
        Some(KeyCode::KeyR)
    } else if ch == 's' {
        Some(KeyCode::KeyS)
    } else if ch == 't' {
        Some(KeyCode::KeyT)
    } else if ch == 'u' {
        Some(KeyCode::KeyU)
    } else if ch == 'v' {
        Some(KeyCode::KeyV)
    } else if ch == 'w' {
        Some(KeyCode::KeyW)
    } else if ch == 'x' {
        Some(KeyCode::KeyX)
    } else if ch == 'y' {
        Some(KeyCode::KeyY)
    } else if ch == 'z' {
        Some(KeyCode::KeyZ)
    } else if ch == '0' {
        Some(KeyCode::Digit0)
    } else if ch == '1' {
        Some(KeyCode::Digit1)
    } else if ch == '2' {
        Some(KeyCode::Digit2)
    } else if ch == '3' {
        Some(KeyCode::Digit3)
    } else if ch == '4' {
        Some(KeyCode::Digit4)
    } else if ch == '5' {
        Some(KeyCode::Digit5)
    } else if ch == '6' {
        Some(KeyCode::Digit6)
    } else if ch == '7' {
        Some(KeyCode::Digit7)
    } else if ch == '8' {
        Some(KeyCode::Digit8)
    } else if ch == '9' {
        Some(KeyCode::Digit9)
    } else {
        None
    }
}

/// The key named by `s`, if any.
pub open spec fn code_of_name(s: Seq<char>) -> Option<KeyCode> {
    if s.len() == 1 {
        single_char_key(s[0])
    } else if s.len() == 2 && s[0] == 'f' && '1' <= s[1] && s[1] <= '9' {
        f_key(s[1], false)
    } else if s.len() == 3 && s[0] == 'f' && s[1] == '1' && '0' <= s[2] && s[2] <= '2' {
        f_key(s[2], true)
    } else if s =~= seq!['t', 'a', 'b'] {
        Some(KeyCode::Tab)
    } else if s =~= seq!['s', 'p', 'a', 'c', 'e'] {
        Some(KeyCode::Space)
    } else if s =~= seq!['c', 'o', 'm', 'm', 'a'] {
        Some(KeyCode::Comma)
    } else {
        None
    }
}

/// The function key F`d` (or F1`d` when `teen`).
pub open spec fn f_key(d: char, teen: bool) -> Option<KeyCode> {
    if teen {
        if d == '0' {
            Some(KeyCode::F10)
        } else if d == '1' {
            Some(KeyCode::F11)
        } else if d == '2' {
            Some(KeyCode::F12)
        } else {
            None
        }
    } else {
        if d == '1' {
            Some(KeyCode::F1)
        } else if d == '2' {
            Some(KeyCode::F2)
        } else if d == '3' {
            Some(KeyCode::F3)
        } else if d == '4' {
            Some(KeyCode::F4)
        } else if d == '5' {
            Some(KeyCode::F5)
        } else if d == '6' {
            Some(KeyCode::F6)
        } else if d == '7' {
            Some(KeyCode::F7)
        } else if d == '8' {
            Some(KeyCode::F8)
        } else if d == '9' {
            Some(KeyCode::F9)
        } else {
            None
        }
    }
}

fn single_char_key_exec(ch: char) -> (r: Option<KeyCode>)
    ensures
        r == single_char_key(ch),
{
    if ch == 'a' {
        Some(KeyCode::KeyA)
    } else if ch == 'b' {
        Some(KeyCode::KeyB)
    } else if ch == 'c' {
        Some(KeyCode::KeyC)
    } else if ch == 'd' {
        Some(KeyCode::KeyD)
    } else if ch == 'e' {
        Some(KeyCode::KeyE)
    } else if ch == 'f' {
        Some(KeyCode::KeyF)
    } else if ch == 'g' {
        Some(KeyCode::KeyG)
    } else if ch == 'h' {
        Some(KeyCode::KeyH)
    } else if ch == 'i' {
        Some(KeyCode::KeyI)
    } else if ch == 'j' {
        Some(KeyCode::KeyJ)
    } else if ch == 'k' {
        Some(KeyCode::KeyK)
    } else if ch == 'l' {
        Some(KeyCode::KeyL)
    } else if ch == 'm' {
        Some(KeyCode::KeyM)
    } else if ch == 'n' {
        Some(KeyCode::KeyN)
    } else if ch == 'o' {
        Some(KeyCode::KeyO)
    } else if ch == 'p' {
        Some(KeyCode::KeyP)
    } else if ch == 'q' {
        Some(KeyCode::KeyQ)
    } else if ch == 'r' {
        Some(KeyCode::KeyR)
    } else if ch == 's' {
        Some(KeyCode::KeyS)
    } else if ch == 't' {
        Some(KeyCode::KeyT)
    } else if ch == 'u' {
        Some(KeyCode::KeyU)
    } else if ch == 'v' {
        Some(KeyCode::KeyV)
    } else if ch == 'w' {
        Some(KeyCode::KeyW)
    } else if ch == 'x' {
        Some(KeyCode::KeyX)
    } else if ch == 'y' {
        Some(KeyCode::KeyY)
    } else if ch == 'z' {
        Some(KeyCode::KeyZ)
    } else if ch == '0' {
        Some(KeyCode::Digit0)
    } else if ch == '1' {
        Some(KeyCode::Digit1)
    } else if ch == '2' {
        Some(KeyCode::Digit2)
    } else if ch == '3' {
        Some(KeyCode::Digit3)
    } else if ch == '4' {
        Some(KeyCode::Digit4)
    } else if ch == '5' {
        Some(KeyCode::Digit5)
    } else if ch == '6' {
        Some(KeyCode::Digit6)
    } else if ch == '7' {
        Some(KeyCode::Digit7)
    } else if ch == '8' {
        Some(KeyCode::Digit8)
    } else if ch == '9' {
        Some(KeyCode::Digit9)
    } else {
        None
    }
}

fn f_key_exec(d: char, teen: bool) -> (r: Option<KeyCode>)
    ensures
        r == f_key(d, teen),
{
    if teen {
        if d == '0' {
            Some(KeyCode::F10)
        } else if d == '1' {
            Some(KeyCode::F11)
        } else if d == '2' {
            Some(KeyCode::F12)
        } else {
            None
        }
    } else {
        if d == '1' {
            Some(KeyCode::F1)
        } else if d == '2' {
            Some(KeyCode::F2)
        } else if d == '3' {
            Some(KeyCode::F3)
        } else if d == '4' {
            Some(KeyCode::F4)
        } else if d == '5' {
            Some(KeyCode::F5)
        } else if d == '6' {
            Some(KeyCode::F6)
        } else if d == '7' {
            Some(KeyCode::F7)
        } else if d == '8' {
            Some(KeyCode::F8)
        } else if d == '9' {
            Some(KeyCode::F9)
        } else {
            None
        }
    }
}

/// The characters of the name of `code`.
fn key_name_chars(code: KeyCode) -> (r: Vec<char>)
    ensures
        r@ == key_name(code),
{
    let v = match code {
        KeyCode::KeyA => vec!['a'],
        KeyCode::KeyB => vec!['b'],
        KeyCode::KeyC => vec!['c'],
        KeyCode::KeyD => vec!['d'],
        KeyCode::KeyE => vec!['e'],
        KeyCode::KeyF => vec!['f'],
        KeyCode::KeyG => vec!['g'],
        KeyCode::KeyH => vec!['h'],
        KeyCode::KeyI => vec!['i'],
        KeyCode::KeyJ => vec!['j'],
        KeyCode::KeyK => vec!['k'],
        KeyCode::KeyL => vec!['l'],
        KeyCode::KeyM => vec!['m'],
        KeyCode::KeyN => vec!['n'],
        KeyCode::KeyO => vec!['o'],
        KeyCode::KeyP => vec!['p'],
        KeyCode::KeyQ => vec!['q'],
        KeyCode::KeyR => vec!['r'],
        KeyCode::KeyS => vec!['s'],
        KeyCode::KeyT => vec!['t'],
        KeyCode::KeyU => vec!['u'],
        KeyCode::KeyV => vec!['v'],
        KeyCode::KeyW => vec!['w'],
        KeyCode::KeyX => vec!['x'],
        KeyCode::KeyY => vec!['y'],
        KeyCode::KeyZ => vec!['z'],
        KeyCode::Digit0 => vec!['0'],
        KeyCode::Digit1 => vec!['1'],
        KeyCode::Digit2 => vec!['2'],
        KeyCode::Digit3 => vec!['3'],
        KeyCode::Digit4 => vec!['4'],
        KeyCode::Digit5 => vec!['5'],
        KeyCode::Digit6 => vec!['6'],
        KeyCode::Digit7 => vec!['7'],
        KeyCode::Digit8 => vec!['8'],
        KeyCode::Digit9 => vec!['9'],
        KeyCode::F1 => vec!['f', '1'],
        KeyCode::F2 => vec!['f', '2'],
        KeyCode::F3 => vec!['f', '3'],
        KeyCode::F4 => vec!['f', '4'],
        KeyCode::F5 => vec!['f', '5'],
        KeyCode::F6 => vec!['f', '6'],
        KeyCode::F7 => vec!['f', '7'],
        KeyCode::F8 => vec!['f', '8'],
        KeyCode::F9 => vec!['f', '9'],
        KeyCode::F10 => vec!['f', '1', '0'],
        KeyCode::F11 => vec!['f', '1', '1'],
        KeyCode::F12 => vec!['f', '1', '2'],
        KeyCode::Space => vec!['s', 'p', 'a', 'c', 'e'],
        KeyCode::Tab => vec!['t', 'a', 'b'],
        KeyCode::Comma => vec!['c', 'o', 'm', 'm', 'a'],
        KeyCode::Other => vec!['u', 'n', 'k', 'n', 'o', 'w', 'n'],
    };
    proof {
        assert(v@ =~= key_name(code));
    }
    v
}

/// The ASCII upper case of `c`.
pub open spec fn upper_char(c: char) -> char {
    if c == 'a' {
        'A'
    } else if c == 'b' {
        'B'
    } else if c == 'c' {
        'C'
    } else if c == 'd' {
        'D'
    } else if c == 'e' {
        'E'
    } else if c == 'f' {
        'F'
    } else if c == 'g' {
        'G'
    } else if c == 'h' {
        'H'
    } else if c == 'i' {
        'I'
    } else if c == 'j' {
        'J'
    } else if c == 'k' {
        'K'
    } else if c == 'l' {
        'L'
    } else if c == 'm' {
        'M'
    } else if c == 'n' {
        'N'
    } else if c == 'o' {
        'O'
    } else if c == 'p' {
        'P'
    } else if c == 'q' {
        'Q'
    } else if c == 'r' {
        'R'
    } else if c == 's' {
        'S'
    } else if c == 't' {
        'T'
    } else if c == 'u' {
        'U'
    } else if c == 'v' {
        'V'
    } else if c == 'w' {
        'W'
    } else if c == 'x' {
        'X'
    } else if c == 'y' {
        'Y'
    } else if c == 'z' {
        'Z'
    } else {
        c
    }
}

fn upper_char_exec(c: char) -> (r: char)
    ensures
        r == upper_char(c),
{
    if c == 'a' {
        'A'
    } else if c == 'b' {
        'B'
    } else if c == 'c' {
        'C'
    } else if c == 'd' {
        'D'
    } else if c == 'e' {
        'E'
    } else if c == 'f' {
        'F'
    } else if c == 'g' {
        'G'
    } else if c == 'h' {
        'H'
    } else if c == 'i' {
        'I'
    } else if c == 'j' {
        'J'
    } else if c == 'k' {
        'K'
    } else if c == 'l' {
        'L'
    } else if c == 'm' {
        'M'
    } else if c == 'n' {
        'N'
    } else if c == 'o' {
        'O'
    } else if c == 'p' {
        'P'
    } else if c == 'q' {
        'Q'
    } else if c == 'r' {
        'R'
    } else if c == 's' {
        'S'
    } else if c == 't' {
        'T'
    } else if c == 'u' {
        'U'
    } else if c == 'v' {
        'V'
    } else if c == 'w' {
        'W'
    } else if c == 'x' {
        'X'
    } else if c == 'y' {
        'Y'
    } else if c == 'z' {
        'Z'
    } else {
        c
    }
}


/// The key named by `v[lo..hi]`, if any.
fn code_of_chars(v: &Vec<char>, lo: usize, hi: usize) -> (r: Option<KeyCode>)
    requires
        lo <= hi <= v@.len(),
    ensures
        r == code_of_name(v@.subrange(lo as int, hi as int)),
{
    let n = hi - lo;
    if n == 1 {
        single_char_key_exec(v[lo])
    } else if n == 2 && v[lo] == 'f' && '1' <= v[lo + 1] && v[lo + 1] <= '9' {
        f_key_exec(v[lo + 1], false)
    } else if n == 3 && v[lo] == 'f' && v[lo + 1] == '1' && '0' <= v[lo + 2] && v[lo + 2] <= '2' {
        f_key_exec(v[lo + 2], true)
    } else if range_is(v, lo, hi, &key_name_chars(KeyCode::Tab)) {
        Some(KeyCode::Tab)
    } else if range_is(v, lo, hi, &key_name_chars(KeyCode::Space)) {
        Some(KeyCode::Space)
    } else if range_is(v, lo, hi, &key_name_chars(KeyCode::Comma)) {
        Some(KeyCode::Comma)
    } else {
        None
    }
}

/// The key named by `v[lo..hi]`, or the error `unknown key: <name>`.
fn str_to_code(v: &Vec<char>, lo: usize, hi: usize) -> (r: Result<KeyCode, String>)
    requires
        lo <= hi <= v@.len(),
    ensures
        match r {
            Ok(c) => code_of_name(v@.subrange(lo as int, hi as int)) == Some(c),
            Err(e) => code_of_name(v@.subrange(lo as int, hi as int)) is None && e@ == "unknown key: "@
                + v@.subrange(lo as int, hi as int),
        },
{
    match code_of_chars(v, lo, hi) {
        Some(c) => Ok(c),
        None => {
            let mut e = String::from_str("unknown key: ");
            push_range(&mut e, v, lo, hi);
            Err(e)
        },
    }
}

/// Appends `v[lo..hi]` to `out`.
fn push_range(out: &mut String, v: &Vec<char>, lo: usize, hi: usize)
    requires
        lo <= hi <= v@.len(),
    ensures
        final(out)@ == old(out)@ + v@.subrange(lo as int, hi as int),
{
    let ghost start = out@;
    let mut i = lo;
    while i < hi
        invariant
            lo <= i <= hi <= v@.len(),
            out@ == start + v@.subrange(lo as int, i as int),
        decreases hi - i,
    {
        push_char(out, v[i]);
        proof {
            assert(start + v@.subrange(lo as int, i + 1) =~= (start + v@.subrange(
                lo as int,
                i as int,
            )).push(v@[i as int]));
        }
        i = i + 1;
    }
}

/// The modifier a combo part names: 0 for `meta`, 1 for `ctrl`, 2 for
/// `alt`, 3 for `shift`.
pub open spec fn modifier_index(part: Seq<char>) -> Option<int> {
    if part =~= seq!['m', 'e', 't', 'a'] {
        Some(0)
    } else if part =~= seq!['c', 't', 'r', 'l'] {
        Some(1)
    } else if part =~= seq!['a', 'l', 't'] {
        Some(2)
    } else if part =~= seq!['s', 'h', 'i', 'f', 't'] {
        Some(3)
    } else {
        None
    }
}

/// `m` with modifier `k` (numbered as in `modifier_index`) added.
pub open spec fn with_modifier(m: Modifiers, k: int) -> Modifiers {
    if k == 0 {
        Modifiers { meta: true, ..m }
    } else if k == 1 {
        Modifiers { control: true, ..m }
    } else if k == 2 {
        Modifiers { alt: true, ..m }
    } else {
        Modifiers { shift: true, ..m }
    }
}

/// The modifiers that combo parts name, in order; the first part that names
/// none is the error.
pub open spec fn fold_modifiers(parts: Seq<Seq<char>>) -> Result<Modifiers, Seq<char>>
    decreases parts.len(),
{
    if parts.len() == 0 {
        Ok(no_modifiers())
    } else {
        match fold_modifiers(parts.drop_last()) {
            Err(p) => Err(p),
            Ok(m) => match modifier_index(parts.last()) {
                Some(k) => Ok(with_modifier(m, k)),
                None => Err(parts.last()),
            },
        }
    }
}

/// The parts of `s` between `+` signs (`str::split('+')`).
pub open spec fn split_plus(s: Seq<char>) -> Seq<Seq<char>>
    decreases s.len(),
{
    let i = char_pos(s, '+');
    proof {
        lemma_char_pos_range(s, '+');
    }
    if i >= s.len() {
        seq![s]
    } else {
        seq![s.take(i)] + split_plus(s.skip(i + 1))
    }
}

/// What parsing a combo string gives: the modifiers (`None` for none) and
/// the key, or an error message. The key (the last part) is checked before
/// the modifiers.
pub open spec fn parse_combo_spec(s: Seq<char>) -> Result<(Option<Modifiers>, KeyCode), Seq<char>> {
    let parts = split_plus(s);
    let key = parts.last();
    match code_of_name(key) {
        None => Err("unknown key: "@ + key),
        Some(c) => match fold_modifiers(parts.drop_last()) {
            Err(p) => Err("unknown modifier: "@ + p),
            Ok(m) => Ok(
                (
                    if m == no_modifiers() {
                        None
                    } else {
                        Some(m)
                    },
                    c,
                ),
            ),
        },
    }
}

/// The part bounds of `v` between `+` signs.
pub open spec fn parts_of(v: Seq<char>, bounds: Seq<(usize, usize)>) -> Seq<Seq<char>> {
    bounds.map_values(|b: (usize, usize)| v.subrange(b.0 as int, b.1 as int))
}

/// Splits `v` at its `+` signs, giving the bounds of the parts.
fn split_bounds(v: &Vec<char>) -> (r: Vec<(usize, usize)>)
    ensures
        r@.len() > 0,
        forall|i: int| 0 <= i < r@.len() ==> #[trigger] r@[i].0 <= r@[i].1 <= v@.len(),
        parts_of(v@, r@) == split_plus(v@),
{
    let n = v.len();
    let mut r: Vec<(usize, usize)> = Vec::new();
    let mut pos: usize = 0;
    proof {
        assert(v@.subrange(0, n as int) =~= v@);
        assert(parts_of(v@, r@) =~= Seq::empty());
        assert(Seq::<Seq<char>>::empty() + split_plus(v@) =~= split_plus(v@));
    }
    loop
        invariant
            n == v@.len(),
            pos <= n,
            forall|i: int| 0 <= i < r@.len() ==> #[trigger] r@[i].0 <= r@[i].1 <= v@.len(),
            split_plus(v@) == parts_of(v@, r@) + split_plus(v@.subrange(pos as int, n as int)),
        decreases n - pos,
    {
        let j = find_char(v, pos, n, '+');
        let ghost s = v@.subrange(pos as int, n as int);
        let ghost before = r@;
        r.push((pos, j));
        proof {
            assert forall|i: int| 0 <= i < r@.len() implies #[trigger] r@[i].0 <= r@[i].1
                <= v@.len() by {
                if i < before.len() {
                    assert(r@[i] == before[i]);
                }
            };
            assert(parts_of(v@, r@) =~= parts_of(v@, before).push(v@.subrange(pos as int, j as int)));
        }
        if j == n {
            proof {
                assert(s =~= v@.subrange(pos as int, j as int));
                assert(split_plus(s) == seq![s]);
                assert(parts_of(v@, before) + seq![s] =~= parts_of(v@, r@));
            }
            return r;
        }
        proof {
            assert(s.take(j - pos) =~= v@.subrange(pos as int, j as int));
            assert(s.skip(j - pos + 1) =~= v@.subrange(j + 1, n as int));
            assert(parts_of(v@, before) + (seq![s.take(j - pos)] + split_plus(s.skip(j - pos + 1)))
                =~= parts_of(v@, r@) + split_plus(v@.subrange(j + 1, n as int)));
        }
        pos = j + 1;
    }
}

/// The modifier that `v[lo..hi]` names, numbered as in `modifier_index`.
fn modifier_of(v: &Vec<char>, lo: usize, hi: usize) -> (r: Option<u8>)
    requires
        lo <= hi <= v@.len(),
    ensures
        match r {
            Some(k) => modifier_index(v@.subrange(lo as int, hi as int)) == Some(k as int),
            None => modifier_index(v@.subrange(lo as int, hi as int)) is None,
        },
{
    let meta = vec!['m', 'e', 't', 'a'];
    let ctrl = vec!['c', 't', 'r', 'l'];
    let alt = vec!['a', 'l', 't'];
    let shift = vec!['s', 'h', 'i', 'f', 't'];
    proof {
        assert(meta@ =~= seq!['m', 'e', 't', 'a']);
        assert(ctrl@ =~= seq!['c', 't', 'r', 'l']);
        assert(alt@ =~= seq!['a', 'l', 't']);
        assert(shift@ =~= seq!['s', 'h', 'i', 'f', 't']);
    }
    if range_is(v, lo, hi, &meta) {
        Some(0)
    } else if range_is(v, lo, hi, &ctrl) {
        Some(1)
    } else if range_is(v, lo, hi, &alt) {
        Some(2)
    } else if range_is(v, lo, hi, &shift) {
        Some(3)
    } else {
        None
    }
}

/// `m` with modifier `k` added.
fn add_modifier(m: Modifiers, k: u8) -> (r: Modifiers)
    ensures
        r == with_modifier(m, k as int),
{
    if k == 0 {
        Modifiers { meta: true, ..m }
    } else if k == 1 {
        Modifiers { control: true, ..m }
    } else if k == 2 {
        Modifiers { alt: true, ..m }
    } else {
        Modifiers { shift: true, ..m }
    }
}

/// Parses a combo string such as `alt+v` or `ctrl+shift+f1` into its
/// modifiers (`None` when there are none) and its key. Modifiers may come in
/// any order. An unknown key or modifier gives an error message naming it.
pub fn parse_combo(s: &str) -> (r: Result<(Option<Modifiers>, KeyCode), String>)
    ensures
        match r {
            Ok(x) => parse_combo_spec(s@) == Ok::<(Option<Modifiers>, KeyCode), Seq<char>>(x),
            Err(e) => parse_combo_spec(s@) == Err::<(Option<Modifiers>, KeyCode), Seq<char>>(e@),
        },
{
    let v = to_chars(s);
    let bounds = split_bounds(&v);
    let ghost parts = split_plus(s@);
    let last = bounds.len() - 1;
    let (klo, khi) = bounds[last];
    proof {
        assert(parts.last() == v@.subrange(klo as int, khi as int));
    }
    let code = match str_to_code(&v, klo, khi) {
        Ok(c) => c,
        Err(e) => {
            return Err(e);
        },
    };
    let mut mods = Modifiers::empty();
    let mut i: usize = 0;
    while i < last
        invariant
            v@ == s@,
            last + 1 == bounds@.len(),
            parts == split_plus(s@),
            parts_of(v@, bounds@) == parts,
            forall|j: int| 0 <= j < bounds@.len() ==> #[trigger] bounds@[j].0 <= bounds@[j].1
                <= v@.len(),
            i <= last,
            code_of_name(parts.last()) == Some(code),
            fold_modifiers(parts.drop_last().take(i as int)) == Ok::<Modifiers, Seq<char>>(mods),
        decreases last - i,
    {
        let (lo, hi) = bounds[i];
        let ghost pre = parts.drop_last().take(i + 1);
        proof {
            assert(pre.drop_last() =~= parts.drop_last().take(i as int));
            assert(pre.last() == v@.subrange(lo as int, hi as int));
        }
        match modifier_of(&v, lo, hi) {
            Some(k) => {
                mods = add_modifier(mods, k);
            },
            None => {
                let mut e = String::from_str("unknown modifier: ");
                push_range(&mut e, &v, lo, hi);
                proof {
                    lemma_fold_error_stays(parts.drop_last(), i + 1);
                }
                return Err(e);
            },
        }
        i = i + 1;
    }
    proof {
        assert(parts.drop_last().take(i as int) =~= parts.drop_last());
    }
    if mods.is_empty() {
        Ok((None, code))
    } else {
        Ok((Some(mods), code))
    }
}

/// Once folding a prefix fails, folding the whole list fails the same way.
proof fn lemma_fold_error_stays(parts: Seq<Seq<char>>, k: int)
    requires
        0 <= k <= parts.len(),
        fold_modifiers(parts.take(k)) is Err,
    ensures
        fold_modifiers(parts) == fold_modifiers(parts.take(k)),
    decreases parts.len() - k,
{
    if k < parts.len() {
        assert(parts.take(k + 1).drop_last() =~= parts.take(k));
        lemma_fold_error_stays(parts, k + 1);
    } else {
        assert(parts.take(k) =~= parts);
    }
}

/// `rest` preceded by `name` and a `+` when `on`.
pub open spec fn with_part(on: bool, name: Seq<char>, rest: Seq<char>) -> Seq<char> {
    if on {
        name + seq!['+'] + rest
    } else {
        rest
    }
}

/// The modifier names that are set, each followed by `+`, in the order
/// meta, ctrl, alt, shift.
pub open spec fn modifier_prefix(m: Modifiers) -> Seq<char> {
    with_part(
        m.meta,
        seq!['m', 'e', 't', 'a'],
        with_part(
            m.control,
            seq!['c', 't', 'r', 'l'],
            with_part(
                m.alt,
                seq!['a', 'l', 't'],
                with_part(m.shift, seq!['s', 'h', 'i', 'f', 't'], Seq::empty()),
            ),
        ),
    )
}

/// The canonical combo string: the modifiers in the order meta, ctrl, alt,
/// shift, then the key, joined by `+`.
pub open spec fn format_spec(m: Option<Modifiers>, c: KeyCode) -> Seq<char> {
    match m {
        None => key_name(c),
        Some(m) => modifier_prefix(m) + key_name(c),
    }
}

/// Appends `name` and a `+` to `out`.
fn push_part(out: &mut String, name: &Vec<char>)
    ensures
        final(out)@ == old(out)@ + name@ + seq!['+'],
{
    push_chars(out, name);
    push_char(out, '+');
}

/// Appends the names of the modifiers that are set, each followed by `+`.
fn push_modifier_prefix(out: &mut String, m: Modifiers)
    ensures
        final(out)@ == old(out)@ + modifier_prefix(m),
{
    let ghost o = out@;
    let ghost r3 = with_part(m.shift, seq!['s', 'h', 'i', 'f', 't'], Seq::empty());
    let ghost r2 = with_part(m.alt, seq!['a', 'l', 't'], r3);
    let ghost r1 = with_part(m.control, seq!['c', 't', 'r', 'l'], r2);
    let meta = vec!['m', 'e', 't', 'a'];
    let ctrl = vec!['c', 't', 'r', 'l'];
    let alt = vec!['a', 'l', 't'];
    let shift = vec!['s', 'h', 'i', 'f', 't'];
    proof {
        assert(meta@ =~= seq!['m', 'e', 't', 'a']);
        assert(ctrl@ =~= seq!['c', 't', 'r', 'l']);
        assert(alt@ =~= seq!['a', 'l', 't']);
        assert(shift@ =~= seq!['s', 'h', 'i', 'f', 't']);
    }
    if m.meta {
        push_part(out, &meta);
    }
    proof {
        assert(o + modifier_prefix(m) =~= out@ + r1);
    }
    let ghost o1 = out@;
    if m.control {
        push_part(out, &ctrl);
    }
    proof {
        assert(o1 + r1 =~= out@ + r2);
    }
    let ghost o2 = out@;
    if m.alt {
        push_part(out, &alt);
    }
    proof {
        assert(o2 + r2 =~= out@ + r3);
    }
    let ghost o3 = out@;
    if m.shift {
        push_part(out, &shift);
    }
    proof {
        assert(o3 + r3 =~= out@);
    }
}

/// Writes a combo in the canonical form `meta+ctrl+alt+shift+<key>`, with
/// only the modifiers that are set.
pub fn format_combo(modifiers: Option<Modifiers>, code: KeyCode) -> (r: String)
    ensures
        r@ == format_spec(modifiers, code),
{
    let mut out = String::new();
    match modifiers {
        None => {},
        Some(m) => {
            push_modifier_prefix(&mut out, m);
        },
    }
    let name = key_name_chars(code);
    push_chars(&mut out, &name);
    proof {
        assert(Seq::<char>::empty() + key_name(code) =~= key_name(code));
    }
    out
}

/// The macOS symbols for the modifiers that are set, in the order ⌘ ⌃ ⌥ ⇧.
pub open spec fn modifier_symbols(m: Option<Modifiers>) -> Seq<char> {
    match m {
        None => Seq::empty(),
        Some(m) => (if m.meta {
            seq!['\u{2318}']
        } else {
            Seq::empty()
        }) + (if m.control {
            seq!['\u{2303}']
        } else {
            Seq::empty()
        }) + (if m.alt {
            seq!['\u{2325}']
        } else {
            Seq::empty()
        }) + (if m.shift {
            seq!['\u{21e7}']
        } else {
            Seq::empty()
        }),
    }
}

/// ASCII upper case of a whole string.
pub open spec fn ascii_upper(s: Seq<char>) -> Seq<char> {
    s.map_values(|c: char| upper_char(c))
}

/// How a combo is shown: the modifier symbols then the key name in upper
/// case (`alt+v` shows as `⌥V`); a combo that does not parse is shown as
/// it is.
pub open spec fn display_spec(combo: Seq<char>) -> Seq<char> {
    match parse_combo_spec(combo) {
        Err(_) => combo,
        Ok((m, c)) => modifier_symbols(m) + ascii_upper(key_name(c)),
    }
}

/// Shows a combo with the macOS modifier symbols (`alt+v` becomes `⌥V`).
pub fn display_combo(combo: &str) -> (r: String)
    ensures
        r@ == display_spec(combo@),
{
    let (mods, code) = match parse_combo(combo) {
        Ok(x) => x,
        Err(_) => {
            return String::from_str(combo);
        },
    };
    let mut s = String::new();
    match mods {
        Some(m) => {
            if m.meta {
                push_char(&mut s, '\u{2318}');
            }
            if m.control {
                push_char(&mut s, '\u{2303}');
            }
            if m.alt {
                push_char(&mut s, '\u{2325}');
            }
            if m.shift {
                push_char(&mut s, '\u{21e7}');
            }
            proof {
                assert(s@ =~= modifier_symbols(mods));
            }
        },
        None => {
            proof {
                assert(s@ =~= modifier_symbols(mods));
            }
        },
    }
    let name = key_name_chars(code);
    let ghost before = s@;
    let mut i: usize = 0;
    while i < name.len()
        invariant
            i <= name@.len(),
            s@ == before + ascii_upper(name@.take(i as int)),
        decreases name@.len() - i,
    {
        push_char(&mut s, upper_char_exec(name[i]));
        proof {
            assert(ascii_upper(name@.take(i + 1)) =~= ascii_upper(name@.take(i as int)).push(
                upper_char(name@[i as int]),
            ));
            assert(before + ascii_upper(name@.take(i + 1)) =~= (before + ascii_upper(
                name@.take(i as int),
            )).push(upper_char(name@[i as int])));
        }
        i = i + 1;
    }
    proof {
        assert(name@.take(i as int) =~= name@);
    }
    s
}

/// The AppKit modifier flag bit for the Command key.
pub const FLAG_COMMAND: u64 = 1048576;

/// The AppKit modifier flag bit for the Shift key.
pub const FLAG_SHIFT: u64 = 131072;

/// The AppKit modifier flag bit for the Option key.
pub const FLAG_OPTION: u64 = 524288;

/// The AppKit modifier flag bit for the Control key.
pub const FLAG_CONTROL: u64 = 262144;

/// The modifiers set in an AppKit modifier flags value.
pub open spec fn flags_modifiers(bits: u64) -> Modifiers {
    Modifiers {
        meta: bits & FLAG_COMMAND != 0,
        control: bits & FLAG_CONTROL != 0,
        alt: bits & FLAG_OPTION != 0,
        shift: bits & FLAG_SHIFT != 0,
    }
}

/// The function key F`n`, for `n` from 1 to 12.
pub open spec fn function_key(n: int) -> KeyCode {
    if n == 1 {
        KeyCode::F1
    } else if n == 2 {
        KeyCode::F2
    } else if n == 3 {
        KeyCode::F3
    } else if n == 4 {
        KeyCode::F4
    } else if n == 5 {
        KeyCode::F5
    } else if n == 6 {
        KeyCode::F6
    } else if n == 7 {
        KeyCode::F7
    } else if n == 8 {
        KeyCode::F8
    } else if n == 9 {
        KeyCode::F9
    } else if n == 10 {
        KeyCode::F10
    } else if n == 11 {
        KeyCode::F11
    } else {
        KeyCode::F12
    }
}

/// The key that a key event's text stands for when it is one of the
/// characters AppKit gives for keys without a letter name: a space, a tab,
/// a comma, or a function key character (U+F704 for F1 up to U+F70F for
/// F12).
pub open spec fn event_char_key(text: Seq<char>) -> Option<KeyCode> {
    if text.len() != 1 {
        None
    } else if text[0] == ' ' {
        Some(KeyCode::Space)
    } else if text[0] == '\t' {
        Some(KeyCode::Tab)
    } else if text[0] == ',' {
        Some(KeyCode::Comma)
    } else if '\u{F704}' <= text[0] && text[0] <= '\u{F70F}' {
        Some(function_key(text[0] as int - 0xF704 + 1))
    } else {
        None
    }
}

/// The combo built from modifier flags and the (already lower-cased) key
/// text of a key event: the text must be a key character that
/// `event_char_key` maps, or, trimmed, name a key; and at least one
/// modifier must be held.
pub open spec fn combo_from_key_spec(bits: u64, key_text: Seq<char>) -> Result<Seq<char>, Seq<char>> {
    let key = trim(key_text);
    let code = match event_char_key(key_text) {
        Some(c) => Some(c),
        None => code_of_name(key),
    };
    match code {
        None => Err("unknown key: "@ + key),
        Some(c) => if flags_modifiers(bits) == no_modifiers() {
            Err("combo must include at least one modifier key"@)
        } else {
            Ok(format_spec(Some(flags_modifiers(bits)), c))
        },
    }
}

/// The key a key event's text stands for, as `event_char_key`.
fn event_char_key_exec(v: &Vec<char>) -> (r: Option<KeyCode>)
    ensures
        r == event_char_key(v@),
{
    if v.len() != 1 {
        return None;
    }
    let c = v[0];
    if c == ' ' {
        Some(KeyCode::Space)
    } else if c == '\t' {
        Some(KeyCode::Tab)
    } else if c == ',' {
        Some(KeyCode::Comma)
    } else if c == '\u{F704}' {
        Some(KeyCode::F1)
    } else if c == '\u{F705}' {
        Some(KeyCode::F2)
    } else if c == '\u{F706}' {
        Some(KeyCode::F3)
    } else if c == '\u{F707}' {
        Some(KeyCode::F4)
    } else if c == '\u{F708}' {
        Some(KeyCode::F5)
    } else if c == '\u{F709}' {
        Some(KeyCode::F6)
    } else if c == '\u{F70A}' {
        Some(KeyCode::F7)
    } else if c == '\u{F70B}' {
        Some(KeyCode::F8)
    } else if c == '\u{F70C}' {
        Some(KeyCode::F9)
    } else if c == '\u{F70D}' {
        Some(KeyCode::F10)
    } else if c == '\u{F70E}' {
        Some(KeyCode::F11)
    } else if c == '\u{F70F}' {
        Some(KeyCode::F12)
    } else {
        None
    }
}

/// Builds the canonical combo from an AppKit modifier flags value and the
/// lower-cased characters of a key event. A space, tab, comma or function
/// key character is taken for its key before the text is trimmed.
pub fn combo_from_key_text(modifier_bits: u64, key_text: &str) -> (r: Result<String, String>)
    ensures
        match r {
            Ok(s) => combo_from_key_spec(modifier_bits, key_text@) == Ok::<Seq<char>, Seq<char>>(
                s@,
            ),
            Err(e) => combo_from_key_spec(modifier_bits, key_text@) == Err::<Seq<char>, Seq<char>>(
                e@,
            ),
        },
{
    let v = to_chars(key_text);
    let (lo, hi) = trim_bounds(&v, 0, v.len());
    proof {
        assert(v@.subrange(0, v@.len() as int) =~= v@);
    }
    let code = match event_char_key_exec(&v) {
        Some(c) => c,
        None => match str_to_code(&v, lo, hi) {
            Ok(c) => c,
            Err(e) => {
                return Err(e);
            },
        },
    };
    let mods = Modifiers {
        meta: modifier_bits & FLAG_COMMAND != 0,
        control: modifier_bits & FLAG_CONTROL != 0,
        alt: modifier_bits & FLAG_OPTION != 0,
        shift: modifier_bits & FLAG_SHIFT != 0,
    };
    if mods.is_empty() {
        return Err(String::from_str("combo must include at least one modifier key"));
    }
    Ok(format_combo(Some(mods), code))
}

/// Builds the canonical combo from an AppKit modifier flags value and the
/// characters of a key event (taken without modifiers), which are first
/// lower-cased.
pub fn combo_from_event_flags(modifier_bits: u64, chars_ignoring_mods: &str) -> (r: Result<
    String,
    String,
>)
    ensures
        match r {
            Ok(s) => combo_from_key_spec(modifier_bits, str_to_lowercase(chars_ignoring_mods@))
                == Ok::<Seq<char>, Seq<char>>(s@),
            Err(e) => combo_from_key_spec(modifier_bits, str_to_lowercase(chars_ignoring_mods@))
                == Err::<Seq<char>, Seq<char>>(e@),
        },
{
    let key_char = lowercase(chars_ignoring_mods);
    combo_from_key_text(modifier_bits, key_char.as_str())
}

/// A part without `+` followed by `+` splits off as one part.
proof fn lemma_split_part(w: Seq<char>, rest: Seq<char>)
    requires
        !w.contains('+'),
    ensures
        split_plus(w + seq!['+'] + rest) == seq![w] + split_plus(rest),
{
    let s = w + seq!['+'] + rest;
    assert forall|k: int| 0 <= k < w.len() implies s[k] != '+' by {
        assert(s[k] == w[k]);
    };
    lemma_char_pos(s, '+', w.len() as int);
    assert(s.take(w.len() as int) =~= w);
    assert(s.skip(w.len() as int + 1) =~= rest);
}

/// A string without `+` is a single part.
proof fn lemma_split_single(w: Seq<char>)
    requires
        !w.contains('+'),
    ensures
        split_plus(w) == seq![w],
{
    lemma_char_pos(w, '+', w.len() as int);
}

/// Splitting a string that may start with a modifier part.
proof fn lemma_split_with_part(on: bool, w: Seq<char>, rest: Seq<char>, x: Seq<char>)
    requires
        !w.contains('+'),
    ensures
        with_part(on, w, rest) + x == with_part(on, w, rest + x),
        split_plus(with_part(on, w, rest + x)) == (if on {
            seq![w]
        } else {
            Seq::<Seq<char>>::empty()
        }) + split_plus(rest + x),
{
    if on {
        assert(w + seq!['+'] + rest + x =~= w + seq!['+'] + (rest + x));
        lemma_split_part(w, rest + x);
    } else {
        assert(Seq::<Seq<char>>::empty() + split_plus(rest + x) =~= split_plus(rest + x));
    }
}

/// Key names hold no `+`, and every key but `Other` is found by its name.
proof fn lemma_key_name(c: KeyCode)
    ensures
        !key_name(c).contains('+'),
        c != KeyCode::Other ==> code_of_name(key_name(c)) == Some(c),
{
    let n = key_name(c);
    assert forall|k: int| 0 <= k < n.len() implies n[k] != '+' by {
    };
}

/// Folding a list with one more optional modifier.
proof fn lemma_fold_append(p: Seq<Seq<char>>, on: bool, w: Seq<char>, k: int, mm: Modifiers)
    requires
        fold_modifiers(p) == Ok::<Modifiers, Seq<char>>(mm),
        modifier_index(w) == Some(k),
    ensures
        fold_modifiers(
            p + (if on {
                seq![w]
            } else {
                Seq::<Seq<char>>::empty()
            }),
        ) == Ok::<Modifiers, Seq<char>>(
            if on {
                with_modifier(mm, k)
            } else {
                mm
            },
        ),
{
    if on {
        assert((p + seq![w]).drop_last() =~= p);
    } else {
        assert(p + Seq::<Seq<char>>::empty() =~= p);
    }
}

/// Reading back a formatted combo gives its modifiers and key: formatting
/// loses nothing but the difference between no modifiers and an empty set
/// of them. (`Other` has no name of its own and does not read back.)
pub proof fn law_format_then_parse(m: Option<Modifiers>, c: KeyCode)
    requires
        c != KeyCode::Other,
    ensures
        parse_combo_spec(format_spec(m, c)) == Ok::<(Option<Modifiers>, KeyCode), Seq<char>>(
            (
                match m {
                    Some(mm) => if mm == no_modifiers() {
                        None
                    } else {
                        Some(mm)
                    },
                    None => None,
                },
                c,
            ),
        ),
{
    let name = key_name(c);
    lemma_key_name(c);
    lemma_split_single(name);
    let wm = seq!['m', 'e', 't', 'a'];
    let wc = seq!['c', 't', 'r', 'l'];
    let wa = seq!['a', 'l', 't'];
    let ws = seq!['s', 'h', 'i', 'f', 't'];
    assert(modifier_index(wm) == Some(0int));
    assert(modifier_index(wc) == Some(1int));
    assert(!(wa =~= wm) && !(wa =~= wc));
    assert(modifier_index(wa) == Some(2int));
    assert(!(ws =~= wm) && !(ws =~= wc) && !(ws =~= wa));
    assert(modifier_index(ws) == Some(3int));
    assert(!wm.contains('+') && !wc.contains('+') && !wa.contains('+') && !ws.contains('+')) by {
        assert forall|k: int| 0 <= k < wm.len() implies wm[k] != '+' by {};
        assert forall|k: int| 0 <= k < wc.len() implies wc[k] != '+' by {};
        assert forall|k: int| 0 <= k < wa.len() implies wa[k] != '+' by {};
        assert forall|k: int| 0 <= k < ws.len() implies ws[k] != '+' by {};
    };
    match m {
        None => {
            assert(split_plus(name).drop_last() =~= Seq::<Seq<char>>::empty());
        },
        Some(mm) => {
            let e = Seq::<char>::empty();
            let r3 = with_part(mm.shift, ws, e);
            let r2 = with_part(mm.alt, wa, r3);
            let r1 = with_part(mm.control, wc, r2);
            let cm = if mm.meta {
                seq![wm]
            } else {
                Seq::<Seq<char>>::empty()
            };
            let cc = if mm.control {
                seq![wc]
            } else {
                Seq::<Seq<char>>::empty()
            };
            let ca = if mm.alt {
                seq![wa]
            } else {
                Seq::<Seq<char>>::empty()
            };
            let cs = if mm.shift {
                seq![ws]
            } else {
                Seq::<Seq<char>>::empty()
            };
            lemma_split_with_part(mm.meta, wm, r1, name);
            lemma_split_with_part(mm.control, wc, r2, name);
            lemma_split_with_part(mm.alt, wa, r3, name);
            lemma_split_with_part(mm.shift, ws, e, name);
            assert(e + name =~= name);
            let parts = split_plus(format_spec(m, c));
            assert(parts =~= cm + cc + ca + cs + seq![name]);
            assert(parts.drop_last() =~= cm + cc + ca + cs);
            assert(parts.last() == name);
            let z = Seq::<Seq<char>>::empty();
            assert(fold_modifiers(z) == Ok::<Modifiers, Seq<char>>(no_modifiers()));
            lemma_fold_append(z, mm.meta, wm, 0, no_modifiers());
            assert(z + cm =~= cm);
            let m1 = if mm.meta {
                with_modifier(no_modifiers(), 0)
            } else {
                no_modifiers()
            };
            lemma_fold_append(cm, mm.control, wc, 1, m1);
            let m2 = if mm.control {
                with_modifier(m1, 1)
            } else {
                m1
            };
            lemma_fold_append(cm + cc, mm.alt, wa, 2, m2);
            let m3 = if mm.alt {
                with_modifier(m2, 2)
            } else {
                m2
            };
            lemma_fold_append(cm + cc + ca, mm.shift, ws, 3, m3);
            let m4 = if mm.shift {
                with_modifier(m3, 3)
            } else {
                m3
            };
            assert(m4 == mm);
        },
    }
}

/// After trying to register a new hotkey in place of the previous one: the
/// combo then in force, and whether the previous combo must be registered
/// again because the new one could not be. A failed registration never
/// leaves the application without its hotkey.
pub fn after_register(
    previous: (Option<Modifiers>, KeyCode),
    new: (Option<Modifiers>, KeyCode),
    new_registered: bool,
) -> (r: ((Option<Modifiers>, KeyCode), bool))
    ensures
        r == (if new_registered {
            (new, false)
        } else {
            (previous, true)
        }),
{
    if new_registered {
        (new, false)
    } else {
        (previous, true)
    }
}

/// Whether one of `parts` names modifier `k`.
pub open spec fn names_modifier(parts: Seq<Seq<char>>, k: int) -> bool {
    exists|i: int| 0 <= i < parts.len() && modifier_index(#[trigger] parts[i]) == Some(k)
}

/// The modifiers named by a list of parts that all name modifiers.
pub open spec fn named_modifiers(parts: Seq<Seq<char>>) -> Modifiers {
    Modifiers {
        meta: names_modifier(parts, 0),
        control: names_modifier(parts, 1),
        alt: names_modifier(parts, 2),
        shift: names_modifier(parts, 3),
    }
}

/// Modifier parts are read as a set: when every part names a modifier, the
/// result holds exactly the modifiers some part names, whatever their order
/// and however often one is repeated.
pub proof fn law_modifiers_read_as_a_set(parts: Seq<Seq<char>>)
    requires
        forall|i: int| 0 <= i < parts.len() ==> modifier_index(#[trigger] parts[i]) is Some,
    ensures
        fold_modifiers(parts) == Ok::<Modifiers, Seq<char>>(named_modifiers(parts)),
    decreases parts.len(),
{
    if parts.len() > 0 {
        let p = parts.drop_last();
        assert forall|i: int| 0 <= i < p.len() implies modifier_index(#[trigger] p[i]) is Some by {
            assert(p[i] == parts[i]);
        };
        law_modifiers_read_as_a_set(p);
        let k = modifier_index(parts.last())->0;
        assert(modifier_index(parts[parts.len() - 1]) is Some);
        assert forall|j: int| 0 <= j < 4 implies names_modifier(parts, j) == (names_modifier(p, j)
            || k == j) by {
            if names_modifier(parts, j) {
                let i = choose|i: int| 0 <= i < parts.len() && modifier_index(#[trigger] parts[i])
                    == Some(j);
                if i < p.len() {
                    assert(p[i] == parts[i]);
                }
            }
            if names_modifier(p, j) {
                let i = choose|i: int| 0 <= i < p.len() && modifier_index(#[trigger] p[i]) == Some(
                    j,
                );
                assert(p[i] == parts[i]);
            }
            if k == j {
                assert(modifier_index(parts[parts.len() - 1]) == Some(j));
            }
        };
        assert(names_modifier(parts, 0) == (names_modifier(p, 0) || k == 0));
        assert(names_modifier(parts, 1) == (names_modifier(p, 1) || k == 1));
        assert(names_modifier(parts, 2) == (names_modifier(p, 2) || k == 2));
        assert(names_modifier(parts, 3) == (names_modifier(p, 3) || k == 3));
        assert(0 <= k < 4);
    } else {
        assert(!names_modifier(parts, 0) && !names_modifier(parts, 1) && !names_modifier(parts, 2)
            && !names_modifier(parts, 3));
    }
}

/// Any order of the same modifiers gives the same combo: two combo strings
/// with the same key part whose other parts all name modifiers, and name the
/// same ones, parse alike, so they format to the same canonical text.
pub proof fn law_any_modifier_order_formats_alike(s1: Seq<char>, s2: Seq<char>)
    requires
        split_plus(s1).last() == split_plus(s2).last(),
        forall|i: int|
            0 <= i < split_plus(s1).drop_last().len() ==> modifier_index(
                #[trigger] split_plus(s1).drop_last()[i],
            ) is Some,
        forall|i: int|
            0 <= i < split_plus(s2).drop_last().len() ==> modifier_index(
                #[trigger] split_plus(s2).drop_last()[i],
            ) is Some,
        named_modifiers(split_plus(s1).drop_last()) == named_modifiers(split_plus(s2).drop_last()),
    ensures
        parse_combo_spec(s1) == parse_combo_spec(s2),
        parse_combo_spec(s1) matches Ok((m, c)) ==> parse_combo_spec(format_spec(m, c))
            == parse_combo_spec(s1),
{
    law_modifiers_read_as_a_set(split_plus(s1).drop_last());
    law_modifiers_read_as_a_set(split_plus(s2).drop_last());
    match parse_combo_spec(s1) {
        Ok((m, c)) => {
            if c != KeyCode::Other {
                law_format_then_parse(m, c);
            } else {
                lemma_key_name(c);
            }
        },
        Err(_) => {},
    }
}

/// A canonical combo reads back to itself: formatting what a formatted
/// combo parses to gives the same text.
pub proof fn law_canonical_combo_round_trip(m: Option<Modifiers>, c: KeyCode)
    requires
        c != KeyCode::Other,
    ensures
        parse_combo_spec(format_spec(m, c)) matches Ok((m2, c2)) && format_spec(m2, c2)
            == format_spec(m, c),
{
    law_format_then_parse(m, c);
    match m {
        Some(mm) => {
            if mm == no_modifiers() {
                assert(modifier_prefix(mm) =~= Seq::<char>::empty());
                assert(format_spec(m, c) =~= key_name(c));
            }
        },
        None => {},
    }
}

/// The function key F`n` is named `f` and the decimal digits of `n`, and
/// that name is read back as that key.
proof fn lemma_function_key_name(n: int)
    requires
        1 <= n <= 12,
    ensures
        key_name(function_key(n)) == seq!['f'] + decimal(n as nat),
        code_of_name(seq!['f'] + decimal(n as nat)) == Some(function_key(n)),
{
    reveal_with_fuel(decimal, 2);
    let name = seq!['f'] + decimal(n as nat);
    if n == 1 {
        assert(decimal(1nat) =~= seq!['1']);
        assert(name =~= seq!['f', '1']);
    }
    if n == 2 {
        assert(decimal(2nat) =~= seq!['2']);
        assert(name =~= seq!['f', '2']);
    }
    if n == 3 {
        assert(decimal(3nat) =~= seq!['3']);
        assert(name =~= seq!['f', '3']);
    }
    if n == 4 {
        assert(decimal(4nat) =~= seq!['4']);
        assert(name =~= seq!['f', '4']);
    }
    if n == 5 {
        assert(decimal(5nat) =~= seq!['5']);
        assert(name =~= seq!['f', '5']);
    }
    if n == 6 {
        assert(decimal(6nat) =~= seq!['6']);
        assert(name =~= seq!['f', '6']);
    }
    if n == 7 {
        assert(decimal(7nat) =~= seq!['7']);
        assert(name =~= seq!['f', '7']);
    }
    if n == 8 {
        assert(decimal(8nat) =~= seq!['8']);
        assert(name =~= seq!['f', '8']);
    }
    if n == 9 {
        assert(decimal(9nat) =~= seq!['9']);
        assert(name =~= seq!['f', '9']);
    }
    if n == 10 {
        assert(decimal(10nat) =~= seq!['1', '0']);
        assert(name =~= seq!['f', '1', '0']);
    }
    if n == 11 {
        assert(decimal(11nat) =~= seq!['1', '1']);
        assert(name =~= seq!['f', '1', '1']);
    }
    if n == 12 {
        assert(decimal(12nat) =~= seq!['1', '2']);
        assert(name =~= seq!['f', '1', '2']);
    }
}

/// The function-key characters that AppKit gives (U+F704 for F1 up to
/// U+F70F for F12) record as the function key they stand for: character
/// U+F704 + k is the key named `f` followed by the decimal digits of
/// k + 1, and a key event with that character records the same combo as
/// one whose text is that name.
pub proof fn law_function_key_chars(c: char, bits: u64)
    requires
        '\u{F704}' <= c <= '\u{F70F}',
    ensures
        ({
            let name = seq!['f'] + decimal((c as int - 0xF704 + 1) as nat);
            &&& event_char_key(seq![c]) matches Some(k) && key_name(k) == name && code_of_name(
                name,
            ) == Some(k)
            &&& combo_from_key_spec(bits, seq![c]) == combo_from_key_spec(bits, name)
        }),
{
    let n = c as int - 0xF704 + 1;
    let name = seq!['f'] + decimal(n as nat);
    lemma_function_key_name(n);
    assert(seq![c][0] == c);
    assert(event_char_key(seq![c]) == Some(function_key(n)));
    assert(name.len() >= 2);
    assert(event_char_key(name) is None);
    assert(name[0] == 'f');
    assert(trim_start(name) == name);
    let last = name.last();
    assert('0' <= last <= '9') by {
        reveal_with_fuel(decimal, 2);
        lemma_function_key_name(n);
    };
    assert(trim_end(name) == name);
    assert(trim(name) == name);
}

} // verus!
