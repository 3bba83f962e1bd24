//! The data the clipboard history is made of.
use vstd::prelude::*;
use crate::text::{decimal, decimal_string};

verus! {

/// Characters of a text record that its card shows at most.
pub const PREVIEW_CHARS: usize = 300;

/// What a card shows of a text: the text, cut after `PREVIEW_CHARS`
/// characters with `…` appended when it is longer.
pub open spec fn preview_of(t: Seq<char>) -> Seq<char> {
    if t.len() > PREVIEW_CHARS {
        t.take(PREVIEW_CHARS as int).push('…')
    } else {
        t
    }
}

/// The line under a card: the kind of record and its size.
pub open spec fn meta_text(kind: ClipKind, text: Seq<char>, width: u32, height: u32) -> Seq<char> {
    match kind {
        ClipKind::Text => "文本 · "@ + decimal(text.len()) + " 字"@,
        ClipKind::Image => if width > 0 {
            "图片 · "@ + decimal(width as nat) + "×"@ + decimal(height as nat)
        } else {
            "图片"@
        },
    }
}

/// What a clipboard record holds.
#[derive(Clone, Copy, Debug, PartialEq, Eq, Structural)]
pub enum ClipKind {
    Text,
    Image,
}

/// One clipboard record. `image_path` is relative to the program's base
/// directory and empty for text records; `created` is a UNIX timestamp.
#[derive(Debug)]
pub struct ClipItem {
    pub id: String,
    pub kind: ClipKind,
    pub text: String,
    pub image_path: String,
    pub hash: String,
    pub created: i64,
    pub pinned: bool,
    pub width: u32,
    pub height: u32,
}

impl ClipItem {
    /// The local calendar date of the record as `YYYY-MM-DD` (`未知日期`
    /// when its time is out of range); it depends on the machine's time zone.
    pub fn date_key(&self) -> (d: String)
        ensures
            !crate::store::has_local_time(self.created as int) ==> d@ == "未知日期"@,
            crate::store::has_local_time(self.created as int) ==> crate::calendar::local_text(
                "%Y-%m-%d"@,
                self.created as int,
                d@,
            ),
    {
        crate::store::local_date_key(self.created)
    }

    /// The local month, day and time the record was made, as `MM-DD HH:MM`;
    /// it depends on the machine's time zone.
    pub fn local_time(&self) -> (t: String)
        ensures
            !crate::store::has_local_time(self.created as int) ==> t@ == "-"@,
            crate::store::has_local_time(self.created as int) ==> crate::calendar::local_text(
                "%m-%d %H:%M"@,
                self.created as int,
                t@,
            ),
    {
        proof {
            crate::store::lemma_history_patterns_plain();
        }
        crate::store::format_ts(self.created, "%m-%d %H:%M")
    }

    /// The number of characters of the record's text.
    pub fn char_count(&self) -> (n: usize)
        ensures
            n == self.text@.len(),
    {
        self.text.as_str().unicode_len()
    }

    /// What the record's card shows of its text.
    pub fn preview(&self) -> (p: String)
        ensures
            p@ == preview_of(self.text@),
    {
        let n = self.text.as_str().unicode_len();
        if n > PREVIEW_CHARS {
            let mut p = String::from_str(self.text.as_str().substring_char(0, PREVIEW_CHARS));
            p.append("…");
            proof {
                reveal_strlit("…");
            }
            assert(p@ =~= preview_of(self.text@));
            p
        } else {
            self.text.clone()
        }
    }

    /// The line under the record's card, such as `文本 · 12 字` or
    /// `图片 · 640×480`.
    pub fn meta_label(&self) -> (m: String)
        ensures
            m@ == meta_text(self.kind, self.text@, self.width, self.height),
    {
        match self.kind {
            ClipKind::Text => {
                let n = self.text.as_str().unicode_len();
                let mut m = String::from_str("文本 · ");
                m.append(decimal_string(n as u64).as_str());
                m.append(" 字");
                m
            },
            ClipKind::Image => {
                if self.width > 0 {
                    let mut m = String::from_str("图片 · ");
                    m.append(decimal_string(self.width as u64).as_str());
                    m.append("×");
                    m.append(decimal_string(self.height as u64).as_str());
                    m
                } else {
                    String::from_str("图片")
                }
            },
        }
    }

    /// A copy of this record.
    pub fn duplicate(&self) -> (r: ClipItem)
        ensures
            r == *self,
    {
        ClipItem {
            id: self.id.clone(),
            kind: self.kind,
            text: self.text.clone(),
            image_path: self.image_path.clone(),
            hash: self.hash.clone(),
            created: self.created,
            pinned: self.pinned,
            width: self.width,
            height: self.height,
        }
    }

    /// A new, unpinned text record.
    pub fn new_text(id: String, text: String, hash: String, created: i64) -> (r: ClipItem)
        ensures
            r.id == id,
            r.kind == ClipKind::Text,
            r.text == text,
            r.image_path@ == Seq::<char>::empty(),
            r.hash == hash,
            r.created == created,
            !r.pinned,
            r.width == 0,
            r.height == 0,
    {
        ClipItem {
            id,
            kind: ClipKind::Text,
            text,
            image_path: String::new(),
            hash,
            created,
            pinned: false,
            width: 0,
            height: 0,
        }
    }

    /// A new, unpinned image record whose picture is stored at `image_path`.
    pub fn new_image(
        id: String,
        image_path: String,
        hash: String,
        created: i64,
        width: u32,
        height: u32,
    ) -> (r: ClipItem)
        ensures
            r.id == id,
            r.kind == ClipKind::Image,
            r.text@ == Seq::<char>::empty(),
            r.image_path == image_path,
            r.hash == hash,
            r.created == created,
            !r.pinned,
            r.width == width,
            r.height == height,
    {
        ClipItem {
            id,
            kind: ClipKind::Image,
            text: String::new(),
            image_path,
            hash,
            created,
            pinned: false,
            width,
            height,
        }
    }
}

/// The user's settings that the history logic reads. Window geometry is
/// kept by the program around the library.
#[derive(Debug)]
pub struct Settings {
    pub hotkey: String,
    pub edge_hide: bool,
    pub panel_pinned: bool,
}

impl Default for Settings {
    /// The settings of a first start: hotkey `alt+shift+v`, edge hiding on,
    /// panel not kept on top.
    fn default() -> (s: Settings)
        ensures
            s.hotkey@ == "alt+shift+v"@,
            s.edge_hide,
            !s.panel_pinned,
    {
        Settings { hotkey: String::from_str("alt+shift+v"), edge_hide: true, panel_pinned: false }
    }
}

/// Events the clipboard side reports to the history.
#[derive(Debug)]
pub enum ClipboardEvent {
    NewText { text: String, hash: String, created: i64 },
    NewImage { rgba: Vec<u8>, width: usize, height: usize, hash: String, created: i64 },
    ToggleWindow,
}

} // verus!
