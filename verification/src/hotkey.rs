//! Hotkey strings such as `alt+shift+v`, `ctrl+alt+c` or `super+shift+f2`:
//! modifier names and one main key (A–Z or F1–F12), joined by `+`.
use vstd::prelude::*;
use crate::text::{
    all_ascii, ascii_lower, lemma_trim_piece, chars_eq_str, chars_of, lowercase, split, split_chars, string_from_chars, to_lowercase, trim,
    trim_chars, trim_str, views,
};

verus! {

/// The modifier keys of a hotkey.
#[derive(Clone, Copy, Debug, PartialEq, Eq, Structural)]
pub struct Modifiers {
    pub control: bool,
    pub alt: bool,
    pub shift: bool,
    pub super_key: bool,
}

/// The main key of a hotkey: a letter `a`–`z` or a function key `F1`–`F12`.
#[derive(Clone, Copy, Debug, PartialEq, Eq, Structural)]
pub enum MainKey {
    Letter(char),
    Function(u8),
}

/// A parsed hotkey: at least one modifier and exactly one main key.
#[derive(Clone, Copy, Debug, PartialEq, Eq, Structural)]
pub struct Hotkey {
    pub modifiers: Modifiers,
    pub key: MainKey,
}

/// Why a hotkey string was refused.
#[derive(Debug, PartialEq, Eq)]
pub enum HotkeyError {
    /// Nothing but white space was given.
    Empty,
    /// A second main key followed the first.
    MultipleMainKeys,
    /// No main key was given.
    MissingMainKey,
    /// No modifier was given.
    NoModifier,
    /// A piece that is neither a modifier nor a supported main key.
    UnsupportedKey(String),
}

/// `HotkeyError` with the refused piece as a character sequence.
pub enum HotkeyFault {
    Empty,
    MultipleMainKeys,
    MissingMainKey,
    NoModifier,
    UnsupportedKey(Seq<char>),
}

impl HotkeyError {
    pub open spec fn fault(&self) -> HotkeyFault {
        match self {
            HotkeyError::Empty => HotkeyFault::Empty,
            HotkeyError::MultipleMainKeys => HotkeyFault::MultipleMainKeys,
            HotkeyError::MissingMainKey => HotkeyFault::MissingMainKey,
            HotkeyError::NoModifier => HotkeyFault::NoModifier,
            HotkeyError::UnsupportedKey(k) => HotkeyFault::UnsupportedKey(k@),
        }
    }

    /// The text shown to the user for this error.
    pub fn message(&self) -> (m: String)
        ensures
            m@ == fault_message(self.fault()),
    {
        match self {
            HotkeyError::Empty => String::from_str("快捷键不能为空"),
            HotkeyError::MultipleMainKeys => String::from_str("只能设置一个主键"),
            HotkeyError::MissingMainKey => String::from_str("缺少主键（A–Z 或 F1–F12）"),
            HotkeyError::NoModifier => String::from_str(
                "至少需要一个修饰键（Ctrl / Alt / Shift / Super）",
            ),
            HotkeyError::UnsupportedKey(k) => {
                let mut m = String::from_str("不支持的按键：");
                m.append(k.as_str());
                m
            },
        }
    }
}

pub open spec fn fault_message(f: HotkeyFault) -> Seq<char> {
    match f {
        HotkeyFault::Empty => "快捷键不能为空"@,
        HotkeyFault::MultipleMainKeys => "只能设置一个主键"@,
        HotkeyFault::MissingMainKey => "缺少主键（A–Z 或 F1–F12）"@,
        HotkeyFault::NoModifier => "至少需要一个修饰键（Ctrl / Alt / Shift / Super）"@,
        HotkeyFault::UnsupportedKey(k) => "不支持的按键："@ + k,
    }
}

pub open spec fn no_modifiers() -> Modifiers {
    Modifiers { control: false, alt: false, shift: false, super_key: false }
}

pub open spec fn has_modifier(m: Modifiers) -> bool {
    m.control || m.alt || m.shift || m.super_key
}

/// Which modifier a piece names: 0 control, 1 alt, 2 shift, 3 super.
pub open spec fn modifier_named(tok: Seq<char>) -> Option<u8> {
    if tok == "ctrl"@ || tok == "control"@ {
        Some(0u8)
    } else if tok == "alt"@ || tok == "option"@ {
        Some(1u8)
    } else if tok == "shift"@ {
        Some(2u8)
    } else if tok == "super"@ || tok == "win"@ || tok == "meta"@ || tok == "cmd"@ {
        Some(3u8)
    } else {
        None
    }
}

pub open spec fn with_modifier(m: Modifiers, which: u8) -> Modifiers {
    if which == 0 {
        Modifiers { control: true, ..m }
    } else if which == 1 {
        Modifiers { alt: true, ..m }
    } else if which == 2 {
        Modifiers { shift: true, ..m }
    } else {
        Modifiers { super_key: true, ..m }
    }
}

/// The main key a piece names: `a`–`z`, or `f1`–`f12`.
pub open spec fn main_key_named(tok: Seq<char>) -> Option<MainKey> {
    if tok.len() == 1 && 'a' as u32 <= tok[0] as u32 <= 'z' as u32 {
        Some(MainKey::Letter(tok[0]))
    } else if tok.len() == 2 && tok[0] == 'f' && '1' as u32 <= tok[1] as u32 <= '9' as u32 {
        Some(MainKey::Function((tok[1] as u32 - '0' as u32) as u8))
    } else if tok.len() == 3 && tok[0] == 'f' && tok[1] == '1' && '0' as u32 <= tok[2] as u32
        <= '2' as u32 {
        Some(MainKey::Function((10 + tok[2] as u32 - '0' as u32) as u8))
    } else {
        None
    }
}

/// What has been read so far: the modifiers and the main key, if any.
pub type Progress = Result<(Modifiers, Option<MainKey>), HotkeyFault>;

/// Reads one `+`-separated piece (white space around it ignored).
pub open spec fn read_piece(acc: Progress, piece: Seq<char>) -> Progress {
    match acc {
        Err(e) => Err(e),
        Ok((m, k)) => {
            let tok = trim(piece);
            if tok.len() == 0 {
                Ok((m, k))
            } else if modifier_named(tok) is Some {
                Ok((with_modifier(m, modifier_named(tok)->0), k))
            } else if k is Some {
                Err(HotkeyFault::MultipleMainKeys)
            } else {
                match main_key_named(tok) {
                    Some(c) => Ok((m, Some(c))),
                    None => Err(HotkeyFault::UnsupportedKey(tok)),
                }
            }
        },
    }
}

/// Reads the pieces in order, stopping at the first fault.
pub open spec fn read_pieces(pieces: Seq<Seq<char>>) -> Progress
    decreases pieces.len(),
{
    if pieces.len() == 0 {
        Ok((no_modifiers(), None))
    } else {
        read_piece(read_pieces(pieces.drop_last()), pieces.last())
    }
}

/// The hotkey that an already trimmed, lower-case string describes.
pub open spec fn hotkey_of(text: Seq<char>) -> Result<Hotkey, HotkeyFault> {
    if text.len() == 0 {
        Err(HotkeyFault::Empty)
    } else {
        match read_pieces(split(text, '+')) {
            Err(e) => Err(e),
            Ok((m, k)) => match k {
                None => Err(HotkeyFault::MissingMainKey),
                Some(c) => if has_modifier(m) {
                    Ok(Hotkey { modifiers: m, key: c })
                } else {
                    Err(HotkeyFault::NoModifier)
                },
            },
        }
    }
}

pub open spec fn result_fault(r: Result<Hotkey, HotkeyError>) -> Result<Hotkey, HotkeyFault> {
    match r {
        Ok(h) => Ok(h),
        Err(e) => Err(e.fault()),
    }
}

/// What one `+`-separated piece stands for once white space around it is
/// dropped: nothing, a modifier (by its index), a main key, or nothing the
/// grammar knows.
pub enum PieceMeaning {
    Nothing,
    Modifier(u8),
    Key(MainKey),
    Unknown,
}

pub open spec fn meaning(piece: Seq<char>) -> PieceMeaning {
    let tok = trim(piece);
    if tok.len() == 0 {
        PieceMeaning::Nothing
    } else if modifier_named(tok) is Some {
        PieceMeaning::Modifier(modifier_named(tok)->0)
    } else {
        match main_key_named(tok) {
            Some(k) => PieceMeaning::Key(k),
            None => PieceMeaning::Unknown,
        }
    }
}

/// Whether some piece of `pieces` stands for `x`.
pub open spec fn means(pieces: Seq<Seq<char>>, x: PieceMeaning) -> bool {
    exists|j: int| 0 <= j < pieces.len() && meaning(#[trigger] pieces[j]) == x
}

/// How many pieces name a main key.
pub open spec fn key_count(pieces: Seq<Seq<char>>) -> nat
    decreases pieces.len(),
{
    if pieces.len() == 0 {
        0
    } else {
        key_count(pieces.drop_last()) + if meaning(pieces.last()) is Key {
            1nat
        } else {
            0nat
        }
    }
}

/// The two lists of pieces stand for the same modifiers and keys, whatever
/// their order, their white space, repeats, empty pieces or which alias of
/// a modifier they use.
pub open spec fn same_meanings(p: Seq<Seq<char>>, q: Seq<Seq<char>>) -> bool {
    forall|x: PieceMeaning| x != PieceMeaning::Nothing ==> (means(p, x) <==> means(q, x))
}

/// Once a fault is met, reading further pieces keeps it.
pub proof fn lemma_fault_sticks(pieces: Seq<Seq<char>>, i: int)
    requires
        0 <= i <= pieces.len(),
        read_pieces(pieces.take(i)) is Err,
    ensures
        read_pieces(pieces) == read_pieces(pieces.take(i)),
    decreases pieces.len() - i,
{
    if i < pieces.len() {
        assert(pieces.take(i + 1).drop_last() == pieces.take(i));
        lemma_fault_sticks(pieces, i + 1);
    } else {
        assert(pieces.take(i) == pieces);
    }
}

fn modifier_index(tok: &[char]) -> (r: Option<u8>)
    ensures
        r == modifier_named(tok@),
{
    if chars_eq_str(tok, "ctrl") || chars_eq_str(tok, "control") {
        Some(0)
    } else if chars_eq_str(tok, "alt") || chars_eq_str(tok, "option") {
        Some(1)
    } else if chars_eq_str(tok, "shift") {
        Some(2)
    } else if chars_eq_str(tok, "super") || chars_eq_str(tok, "win") || chars_eq_str(tok, "meta")
        || chars_eq_str(tok, "cmd") {
        Some(3)
    } else {
        None
    }
}

fn add_modifier(m: Modifiers, which: u8) -> (r: Modifiers)
    ensures
        r == with_modifier(m, which),
{
    if which == 0 {
        Modifiers { control: true, ..m }
    } else if which == 1 {
        Modifiers { alt: true, ..m }
    } else if which == 2 {
        Modifiers { shift: true, ..m }
    } else {
        Modifiers { super_key: true, ..m }
    }
}

/// The main key named by a piece (`parse_code` of the hotkey grammar).
pub fn parse_code(tok: &[char]) -> (r: Option<MainKey>)
    ensures
        r == main_key_named(tok@),
{
    let n = tok.len();
    if n == 1 && 'a' as u32 <= tok[0] as u32 && tok[0] as u32 <= 'z' as u32 {
        Some(MainKey::Letter(tok[0]))
    } else if n == 2 && tok[0] == 'f' && '1' as u32 <= tok[1] as u32 && tok[1] as u32 <= '9' as u32 {
        Some(MainKey::Function((tok[1] as u32 - '0' as u32) as u8))
    } else if n == 3 && tok[0] == 'f' && tok[1] == '1' && '0' as u32 <= tok[2] as u32 && tok[2] as u32
        <= '2' as u32 {
        Some(MainKey::Function((10 + tok[2] as u32 - '0' as u32) as u8))
    } else {
        None
    }
}

/// Parses a hotkey string that has already been trimmed and lower-cased.
pub fn parse_normalized(text: &str) -> (r: Result<Hotkey, HotkeyError>)
    ensures
        result_fault(r) == hotkey_of(text@),
{
    let chars = chars_of(text);
    if chars.len() == 0 {
        return Err(HotkeyError::Empty);
    }
    let parts = split_chars(chars.as_slice(), '+');
    let ghost pieces = views(parts@);
    let mut mods = Modifiers { control: false, alt: false, shift: false, super_key: false };
    let mut main: Option<MainKey> = None;
    let n = parts.len();
    let mut i: usize = 0;
    while i < n
        invariant
            i <= n == parts@.len() == pieces.len(),
            pieces == views(parts@),
            pieces == split(text@, '+'),
            read_pieces(pieces.take(i as int)) == Progress::Ok((mods, main)),
        decreases n - i,
    {
        assert(pieces.take(i as int + 1).drop_last() == pieces.take(i as int));
        assert(pieces.take(i as int + 1).last() == parts@[i as int]@);
        let tok = trim_chars(parts[i].as_slice());
        if tok.len() == 0 {
        } else {
            match modifier_index(tok.as_slice()) {
                Some(which) => {
                    mods = add_modifier(mods, which);
                },
                None => {
                    if main.is_some() {
                        proof {
                            lemma_fault_sticks(pieces, i + 1);
                        }
                        return Err(HotkeyError::MultipleMainKeys);
                    }
                    match parse_code(tok.as_slice()) {
                        Some(c) => {
                            main = Some(c);
                        },
                        None => {
                            let key = string_from_chars(tok.as_slice());
                            proof {
                                lemma_fault_sticks(pieces, i + 1);
                            }
                            return Err(HotkeyError::UnsupportedKey(key));
                        },
                    }
                },
            }
        }
        i = i + 1;
    }
    assert(pieces.take(n as int) == pieces);
    match main {
        None => Err(HotkeyError::MissingMainKey),
        Some(c) => {
            if mods.control || mods.alt || mods.shift || mods.super_key {
                Ok(Hotkey { modifiers: mods, key: c })
            } else {
                Err(HotkeyError::NoModifier)
            }
        },
    }
}

/// The message shown when the system offers no global hotkeys.
pub fn no_global_hotkeys_message() -> (m: String)
    ensures
        m@ == "当前系统不支持全局快捷键，可使用 ClipRail --toggle"@,
{
    String::from_str("当前系统不支持全局快捷键，可使用 ClipRail --toggle")
}

/// The message shown when the system refused to register the hotkey, with
/// the system's own `detail`.
pub fn registration_failed_message(detail: &str) -> (m: String)
    ensures
        m@ == "快捷键注册失败（可能与其他程序冲突）："@ + detail@,
{
    let mut m = String::from_str("快捷键注册失败（可能与其他程序冲突）：");
    m.append(detail);
    m
}

/// A draft hotkey string as it is stored: trimmed and lower-cased.
pub fn normalize(input: &str) -> (r: String)
    ensures
        r@ == lowercase(trim(input@)),
        all_ascii(input@) ==> r@ == ascii_lower(trim(input@)),
{
    let t = trim_str(input);
    proof {
        lemma_trim_piece(input@);
    }
    to_lowercase(t)
}

/// Parses a hotkey string such as `alt+shift+v`; white space around the
/// whole string and around each piece is ignored, and case does not matter.
pub fn parse(input: &str) -> (r: Result<Hotkey, HotkeyError>)
    ensures
        result_fault(r) == hotkey_of(lowercase(trim(input@))),
        all_ascii(input@) ==> result_fault(r) == hotkey_of(ascii_lower(trim(input@))),
{
    let text = normalize(input);
    parse_normalized(text.as_str())
}

} // verus!
