//! What the clipboard watcher reports and writes, and how it tells new
//! clipboard content from content it has already reported or written.
use vstd::prelude::*;
use crate::store::{hash_bytes, sha256};
use crate::text::{hex_lower, is_blank, trim};

verus! {

/// Watcher to history: new clipboard content with its content hash.
#[derive(Debug)]
pub enum ClipEvent {
    Text { text: String, hash: String },
    Image { width: u32, height: u32, rgba: Vec<u8>, hash: String },
}

/// History to watcher: content to put on the clipboard.
#[derive(Debug)]
pub enum ClipCommand {
    SetText(String),
    SetImage { width: u32, height: u32, rgba: Vec<u8> },
}

/// The content hash of a text: SHA-256 of its UTF-8 bytes, in hex.
pub open spec fn text_hash(text: Seq<char>) -> Seq<char> {
    hex_lower(sha256(vstd::utf8::encode_utf8(text)))
}

/// The text hash the watcher keeps after looking at `text` when it last
/// kept `last`: the text's hash when it is reported as new, else `last`.
pub open spec fn last_text_after(last: Seq<char>, text: Seq<char>) -> Seq<char> {
    if trim(text).len() > 0 && text_hash(text) != last {
        text_hash(text)
    } else {
        last
    }
}

/// One step of the watcher, as far as one of its two hashes (text or
/// picture) goes: it looked at content with hash `h`, looked at blank text,
/// or wrote content with hash `h` itself.
pub enum Poll {
    Seen(Seq<char>),
    Blank,
    Wrote(Seq<char>),
}

/// A look at the clipboard's text, as a step.
pub open spec fn text_poll(text: Seq<char>) -> Poll {
    if trim(text).len() > 0 {
        Poll::Seen(text_hash(text))
    } else {
        Poll::Blank
    }
}

/// The hash kept after a step when `last` was kept before: a look at
/// non-blank content or a write keeps the content's hash (a look at content
/// with the kept hash keeps it unchanged), a blank look keeps `last`.
pub open spec fn hash_after(last: Seq<char>, p: Poll) -> Seq<char> {
    match p {
        Poll::Seen(h) => h,
        Poll::Blank => last,
        Poll::Wrote(h) => h,
    }
}

/// The hash kept after the steps `ps`, starting from `last`.
pub open spec fn hash_after_polls(last: Seq<char>, ps: Seq<Poll>) -> Seq<char>
    decreases ps.len(),
{
    if ps.len() == 0 {
        last
    } else {
        hash_after(hash_after_polls(last, ps.drop_last()), ps.last())
    }
}

/// Whether step `i` of `ps` reports new content: a look at content whose
/// hash differs from the hash kept before it.
pub open spec fn reported(last: Seq<char>, ps: Seq<Poll>, i: int) -> bool {
    ps[i] matches Poll::Seen(h) && h != hash_after_polls(last, ps.take(i))
}

/// What reading the clipboard's text gave.
#[derive(Debug)]
pub enum TextSeen {
    /// No text, or only white space: the picture is looked at instead.
    Blank,
    /// The same text as last time.
    Unchanged,
    /// New text, to be reported.
    New(ClipEvent),
}

/// What one look at the clipboard's text decides: the event to report, if
/// any, and whether to look at the picture too.
#[derive(Debug)]
pub struct TextPoll {
    pub report: Option<ClipEvent>,
    pub look_at_picture: bool,
}

/// The hashes of the text and the picture last seen on, or written to, the
/// clipboard.
#[derive(Debug)]
pub struct ClipWatcher {
    pub last_text_hash: String,
    pub last_image_hash: String,
}

impl ClipWatcher {
    /// A watcher that has seen nothing yet.
    pub fn new() -> (w: ClipWatcher)
        ensures
            w.last_text_hash@.len() == 0,
            w.last_image_hash@.len() == 0,
    {
        ClipWatcher { last_text_hash: String::new(), last_image_hash: String::new() }
    }

    /// Notes content the history itself puts on the clipboard, so that it
    /// is not reported back as new.
    pub fn wrote(&mut self, command: &ClipCommand)
        ensures
            match command {
                ClipCommand::SetText(t) => final(self).last_text_hash@ == hash_after(
                    old(self).last_text_hash@,
                    Poll::Wrote(text_hash(t@)),
                ),
                ClipCommand::SetImage { rgba, .. } => final(self).last_image_hash@ == hash_after(
                    old(self).last_image_hash@,
                    Poll::Wrote(hex_lower(sha256(rgba@))),
                ),
            },
            match command {
                ClipCommand::SetText(t) => final(self).last_text_hash@ == text_hash(t@)
                    && final(self).last_image_hash == old(self).last_image_hash,
                ClipCommand::SetImage { rgba, .. } => final(self).last_image_hash@ == hex_lower(
                    sha256(rgba@),
                ) && final(self).last_text_hash == old(self).last_text_hash,
            },
    {
        match command {
            ClipCommand::SetText(t) => {
                self.last_text_hash = hash_bytes(t.as_str().as_bytes());
            },
            ClipCommand::SetImage { rgba, .. } => {
                self.last_image_hash = hash_bytes(rgba.as_slice());
            },
        }
    }

    /// Looks at the clipboard's text: blank text is not handled, text with
    /// the last seen hash is unchanged, and other text is reported as new.
    pub fn observe_text(&mut self, text: String) -> (seen: TextSeen)
        ensures
            trim(text@).len() == 0 ==> seen is Blank && final(self).last_text_hash
                == old(self).last_text_hash,
            trim(text@).len() > 0 && text_hash(text@) == old(self).last_text_hash@ ==> seen is Unchanged
                && final(self).last_text_hash == old(self).last_text_hash,
            trim(text@).len() > 0 && text_hash(text@) != old(self).last_text_hash@ ==> {
                &&& seen matches TextSeen::New(ClipEvent::Text { text: t, hash: h })
                &&& t == text
                &&& h@ == text_hash(text@)
                &&& final(self).last_text_hash@ == h@
            },
            final(self).last_text_hash@ == last_text_after(old(self).last_text_hash@, text@),
            final(self).last_text_hash@ == hash_after(old(self).last_text_hash@, text_poll(text@)),
            (seen is New) <==> (text_poll(text@) matches Poll::Seen(h) && h != old(
                self,
            ).last_text_hash@),
            final(self).last_image_hash == old(self).last_image_hash,
    {
        if is_blank(text.as_str()) {
            return TextSeen::Blank;
        }
        let hash = hash_bytes(text.as_str().as_bytes());
        if hash != self.last_text_hash {
            self.last_text_hash = hash.clone();
            TextSeen::New(ClipEvent::Text { text, hash })
        } else {
            TextSeen::Unchanged
        }
    }

    /// Takes the clipboard's text in one poll (`None` when it could not be
    /// read): new text is reported, and the picture is looked at in this
    /// poll only when there was no readable, non-blank text.
    pub fn poll_text(&mut self, text: Option<String>) -> (r: TextPoll)
        ensures
            final(self).last_image_hash == old(self).last_image_hash,
            match text {
                None => {
                    &&& r.report is None
                    &&& r.look_at_picture
                    &&& final(self).last_text_hash == old(self).last_text_hash
                },
                Some(t) => {
                    &&& r.look_at_picture == (trim(t@).len() == 0)
                    &&& final(self).last_text_hash@ == hash_after(
                        old(self).last_text_hash@,
                        text_poll(t@),
                    )
                    &&& (r.report is Some <==> (text_poll(t@) matches Poll::Seen(h) && h != old(
                        self,
                    ).last_text_hash@))
                    &&& (r.report matches Some(e) ==> (e matches ClipEvent::Text { text: x, hash: h }
                        && x == t && h@ == text_hash(t@)))
                },
            },
    {
        match text {
            None => TextPoll { report: None, look_at_picture: true },
            Some(t) => match self.observe_text(t) {
                TextSeen::Blank => TextPoll { report: None, look_at_picture: true },
                TextSeen::Unchanged => TextPoll { report: None, look_at_picture: false },
                TextSeen::New(e) => TextPoll { report: Some(e), look_at_picture: false },
            },
        }
    }

    /// Looks at the clipboard's picture: one with the last seen hash is not
    /// reported again.
    pub fn observe_image(&mut self, width: u32, height: u32, rgba: Vec<u8>) -> (event: Option<ClipEvent>)
        ensures
            hex_lower(sha256(rgba@)) == old(self).last_image_hash@ ==> event is None
                && final(self).last_image_hash == old(self).last_image_hash,
            hex_lower(sha256(rgba@)) != old(self).last_image_hash@ ==> {
                &&& event matches Some(ClipEvent::Image { width: w, height: h, rgba: r, hash: x })
                &&& w == width && h == height && r@ == rgba@
                &&& x@ == hex_lower(sha256(rgba@))
                &&& final(self).last_image_hash@ == x@
            },
            final(self).last_image_hash@ == hex_lower(sha256(rgba@)),
            final(self).last_image_hash@ == hash_after(
                old(self).last_image_hash@,
                Poll::Seen(hex_lower(sha256(rgba@))),
            ),
            (event is Some) <==> hex_lower(sha256(rgba@)) != old(self).last_image_hash@,
            final(self).last_text_hash == old(self).last_text_hash,
    {
        let hash = hash_bytes(rgba.as_slice());
        if hash != self.last_image_hash {
            self.last_image_hash = hash.clone();
            Some(ClipEvent::Image { width, height, rgba, hash })
        } else {
            None
        }
    }
}

} // verus!
