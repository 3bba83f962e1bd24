//! The stored history: its pinned-first order, how it is cleaned when
//! loaded, content hashes, record ids, times, and where files live.
use vstd::prelude::*;
use chrono::TimeZone;
use sha2::Digest;
use crate::model::{ClipItem, ClipKind};
use crate::calendar::local_text;
use crate::text::{hex_lower, hex_string, signed_decimal, signed_decimal_string};

verus! {

/// The pinned records of `s`, in their order.
pub open spec fn pinned_part(s: Seq<ClipItem>) -> Seq<ClipItem>
    decreases s.len(),
{
    if s.len() == 0 {
        s
    } else if s.last().pinned {
        pinned_part(s.drop_last()).push(s.last())
    } else {
        pinned_part(s.drop_last())
    }
}

/// The records of `s` that are not pinned, in their order.
pub open spec fn unpinned_part(s: Seq<ClipItem>) -> Seq<ClipItem>
    decreases s.len(),
{
    if s.len() == 0 {
        s
    } else if !s.last().pinned {
        unpinned_part(s.drop_last()).push(s.last())
    } else {
        unpinned_part(s.drop_last())
    }
}

/// Every pinned record comes before every record that is not pinned.
pub open spec fn pinned_first(s: Seq<ClipItem>) -> bool {
    forall|i: int, j: int| 0 <= i < j < s.len() && #[trigger] s[j].pinned ==> #[trigger] s[i].pinned
}

/// The number of pinned records in `s`.
pub open spec fn pinned_count(s: Seq<ClipItem>) -> nat {
    pinned_part(s).len()
}

pub proof fn lemma_parts_members(s: Seq<ClipItem>)
    ensures
        forall|k: int| 0 <= k < pinned_part(s).len() ==> (#[trigger] pinned_part(s)[k]).pinned,
        forall|k: int| 0 <= k < unpinned_part(s).len() ==> !(#[trigger] unpinned_part(s)[k]).pinned,
        pinned_part(s).len() + unpinned_part(s).len() == s.len(),
        (pinned_part(s) + unpinned_part(s)).to_multiset() == s.to_multiset(),
    decreases s.len(),
{
    broadcast use vstd::multiset::group_multiset_axioms, vstd::seq_lib::group_to_multiset_ensures;

    if s.len() > 0 {
        let p = s.drop_last();
        lemma_parts_members(p);
        let x = s.last();
        assert(s == p.push(x));
        if x.pinned {
            assert(pinned_part(s) + unpinned_part(s) =~= (pinned_part(p) + unpinned_part(p)).insert(
                pinned_part(p).len() as int,
                x,
            ));
            vstd::seq_lib::lemma_seq_union_to_multiset_commutative(pinned_part(p), unpinned_part(p));
            (pinned_part(p) + unpinned_part(p)).insert_ensures(pinned_part(p).len() as int, x);
            lemma_insert_multiset(pinned_part(p) + unpinned_part(p), pinned_part(p).len() as int, x);
        } else {
            assert(pinned_part(s) + unpinned_part(s) =~= (pinned_part(p) + unpinned_part(p)).push(x));
        }
    }
}

/// Inserting into a sequence adds the element to its multiset.
pub proof fn lemma_insert_multiset<A>(s: Seq<A>, i: int, x: A)
    requires
        0 <= i <= s.len(),
    ensures
        s.insert(i, x).to_multiset() == s.to_multiset().insert(x),
{
    broadcast use vstd::multiset::group_multiset_axioms, vstd::seq_lib::group_to_multiset_ensures;

    let a = s.subrange(0, i);
    let b = s.subrange(i, s.len() as int);
    assert(s == a + b);
    assert(s.insert(i, x) == a.push(x) + b);
    vstd::seq_lib::lemma_multiset_commutative(a.push(x), b);
    vstd::seq_lib::lemma_multiset_commutative(a, b);
}

/// Orders the records so that pinned ones come first; within the pinned
/// and within the other records the order is kept (a stable sort by
/// "not pinned").
pub fn sort_pinned_first(items: &mut Vec<ClipItem>)
    ensures
        final(items)@ == pinned_part(old(items)@) + unpinned_part(old(items)@),
        pinned_first(final(items)@),
        final(items)@.to_multiset() == old(items)@.to_multiset(),
{
    let ghost orig = items@;
    let n = items.len();
    let mut placed: usize = 0;
    let mut i: usize = 0;
    while i < n
        invariant
            i <= n == orig.len(),
            placed == pinned_part(orig.take(i as int)).len(),
            items@ == pinned_part(orig.take(i as int)) + unpinned_part(orig.take(i as int))
                + orig.skip(i as int),
        decreases n - i,
    {
        proof {
            lemma_parts_members(orig.take(i as int));
            assert(orig.take(i as int + 1).drop_last() == orig.take(i as int));
            assert(orig.skip(i as int) == seq![orig[i as int]] + orig.skip(i as int + 1));
        }
        let ghost p = pinned_part(orig.take(i as int));
        let ghost u = unpinned_part(orig.take(i as int));
        assert(items@[i as int] == orig[i as int]);
        if items[i].pinned {
            let x = items.remove(i);
            items.insert(placed, x);
            placed = placed + 1;
            assert(items@ =~= p.push(x) + u + orig.skip(i as int + 1));
        } else {
            assert(items@ =~= p + u.push(orig[i as int]) + orig.skip(i as int + 1));
        }
        i = i + 1;
    }
    assert(orig.take(n as int) == orig);
    assert(items@ =~= pinned_part(orig) + unpinned_part(orig));
    proof {
        lemma_parts_members(orig);
        lemma_parts_pinned_first(orig);
    }
}

/// Pinned records followed by the others are in pinned-first order.
pub proof fn lemma_parts_pinned_first(s: Seq<ClipItem>)
    ensures
        pinned_first(pinned_part(s) + unpinned_part(s)),
{
    lemma_parts_members(s);
    let r = pinned_part(s) + unpinned_part(s);
    let np = pinned_part(s).len() as int;
    assert forall|i: int, j: int| 0 <= i < j < r.len() && #[trigger] r[j].pinned implies #[trigger] r[i].pinned by {
        if j >= np {
            assert(r[j] == unpinned_part(s)[j - np]);
        }
        assert(r[i] == pinned_part(s)[i]);
    }
}

/// In a pinned-first sequence the pinned part is its first records and the
/// rest is the other part.
pub proof fn lemma_pinned_first_split(s: Seq<ClipItem>)
    requires
        pinned_first(s),
    ensures
        pinned_part(s) + unpinned_part(s) == s,
        pinned_part(s) == s.take(pinned_count(s) as int),
        unpinned_part(s) == s.skip(pinned_count(s) as int),
        forall|k: int| 0 <= k < pinned_count(s) ==> (#[trigger] s[k]).pinned,
        forall|k: int| pinned_count(s) <= k < s.len() ==> !(#[trigger] s[k]).pinned,
    decreases s.len(),
{
    lemma_parts_members(s);
    if s.len() > 0 {
        let p = s.drop_last();
        assert(pinned_first(p));
        lemma_pinned_first_split(p);
        lemma_parts_members(p);
        if s.last().pinned {
            assert forall|k: int| 0 <= k < p.len() implies (#[trigger] p[k]).pinned by {
                assert(s[k] == p[k]);
            }
            assert(unpinned_part(p).len() == 0) by {
                if unpinned_part(p).len() > 0 {
                    assert(unpinned_part(p)[0] == p.skip(pinned_count(p) as int)[0]);
                }
            }
        }
        assert(pinned_part(s) + unpinned_part(s) =~= s);
    }
}

/// Law: sorting an already pinned-first history changes nothing, so the
/// sort is idempotent.
pub proof fn law_sort_pinned_first_idempotent(s: Seq<ClipItem>)
    ensures
        pinned_first(s) ==> pinned_part(s) + unpinned_part(s) == s,
        pinned_part(pinned_part(s) + unpinned_part(s)) + unpinned_part(pinned_part(s) + unpinned_part(s))
            == pinned_part(s) + unpinned_part(s),
{
    if pinned_first(s) {
        lemma_pinned_first_split(s);
    }
    lemma_parts_pinned_first(s);
    lemma_pinned_first_split(pinned_part(s) + unpinned_part(s));
}


/// Whether an earlier record of `s` than the one at `i` has its content hash.
pub open spec fn hash_seen_before(s: Seq<ClipItem>, i: int) -> bool {
    exists|j: int| 0 <= j < i && (#[trigger] s[j]).hash@ == s[i].hash@
}

/// Whether the record at `i` survives loading: it has a content hash, no
/// earlier record has the same hash, and an image record's picture exists.
pub open spec fn loadable(s: Seq<ClipItem>, image_present: Seq<bool>, i: int) -> bool {
    &&& s[i].hash@.len() > 0
    &&& !hash_seen_before(s, i)
    &&& !(s[i].kind == ClipKind::Image && !image_present[i])
}

/// The records among the first `n` of `s` that survive loading, in order.
pub open spec fn loadable_prefix(s: Seq<ClipItem>, image_present: Seq<bool>, n: int) -> Seq<ClipItem>
    decreases n,
{
    if n <= 0 {
        Seq::<ClipItem>::empty()
    } else if loadable(s, image_present, n - 1) {
        loadable_prefix(s, image_present, n - 1).push(s[n - 1])
    } else {
        loadable_prefix(s, image_present, n - 1)
    }
}

/// Whether some string in `seen` has the characters of `h`.
fn seen_contains(seen: &Vec<String>, h: &String) -> (b: bool)
    ensures
        b == exists|k: int| 0 <= k < seen@.len() && (#[trigger] seen@[k])@ == h@,
{
    let n = seen.len();
    let mut k: usize = 0;
    while k < n
        invariant
            k <= n == seen@.len(),
            forall|q: int| 0 <= q < k ==> (#[trigger] seen@[q])@ != h@,
        decreases n - k,
    {
        if seen[k] == *h {
            return true;
        }
        k = k + 1;
    }
    false
}

/// The records that survive loading a stored history, pinned ones first.
/// A record is dropped when its content hash is empty, when an earlier
/// record has the same hash (the earlier one counts even when it was itself
/// dropped for a missing picture), or when it is an image whose picture
/// file is missing (`image_present[i]` says whether the picture of
/// `items[i]` exists).
pub fn clean_loaded(items: Vec<ClipItem>, image_present: &[bool]) -> (r: Vec<ClipItem>)
    requires
        image_present@.len() == items@.len(),
    ensures
        r@ == pinned_part(loadable_prefix(items@, image_present@, items@.len() as int))
            + unpinned_part(loadable_prefix(items@, image_present@, items@.len() as int)),
        pinned_first(r@),
{
    let ghost s = items@;
    let n = items.len();
    let mut seen: Vec<String> = Vec::new();
    let mut kept: Vec<ClipItem> = Vec::new();
    let mut i: usize = 0;
    while i < n
        invariant
            i <= n == s.len() == items@.len() == image_present@.len(),
            s == items@,
            kept@ == loadable_prefix(s, image_present@, i as int),
            forall|h: Seq<char>|
                (exists|k: int| 0 <= k < seen@.len() && (#[trigger] seen@[k])@ == h) <==> (h.len()
                    > 0 && exists|j: int| 0 <= j < i && (#[trigger] s[j]).hash@ == h),
        decreases n - i,
    {
        let item = &items[i];
        let empty = item.hash.as_str().is_empty();
        if empty {
            proof {
                assert(!loadable(s, image_present@, i as int));
                assert forall|h: Seq<char>|
                    (exists|k: int| 0 <= k < seen@.len() && (#[trigger] seen@[k])@ == h) <==> (h.len()
                        > 0 && exists|j: int| 0 <= j < i + 1 && (#[trigger] s[j]).hash@ == h) by {
                    if h.len() > 0 && exists|j: int| 0 <= j < i + 1 && (#[trigger] s[j]).hash@ == h {
                        let j = choose|j: int| 0 <= j < i + 1 && (#[trigger] s[j]).hash@ == h;
                        assert(j < i);
                    }
                }
            }
        } else {
            let dup = seen_contains(&seen, &item.hash);
            proof {
                if dup {
                    let k = choose|k: int| 0 <= k < seen@.len() && (#[trigger] seen@[k])@ == s[i as int].hash@;
                    let h = s[i as int].hash@;
                    assert(exists|j: int| 0 <= j < i && (#[trigger] s[j]).hash@ == h);
                    assert(hash_seen_before(s, i as int));
                } else {
                    if hash_seen_before(s, i as int) {
                        let j = choose|j: int| 0 <= j < i && (#[trigger] s[j]).hash@ == s[i as int].hash@;
                        assert(exists|j: int| 0 <= j < i && (#[trigger] s[j]).hash@ == s[i as int].hash@);
                    }
                    assert(!hash_seen_before(s, i as int));
                }
            }
            if !dup {
                let ghost old_seen = seen@;
                seen.push(item.hash.clone());
                proof {
                    assert forall|h: Seq<char>|
                        (exists|k: int| 0 <= k < seen@.len() && (#[trigger] seen@[k])@ == h) <==> (
                        h.len() > 0 && exists|j: int| 0 <= j < i + 1 && (#[trigger] s[j]).hash@ == h) by {
                        if exists|k: int| 0 <= k < seen@.len() && (#[trigger] seen@[k])@ == h {
                            let k = choose|k: int| 0 <= k < seen@.len() && (#[trigger] seen@[k])@ == h;
                            if k < old_seen.len() {
                                assert(old_seen[k] == seen@[k]);
                            } else {
                                assert(s[i as int].hash@ == h);
                            }
                        }
                        if h.len() > 0 && exists|j: int| 0 <= j < i + 1 && (#[trigger] s[j]).hash@ == h {
                            let j = choose|j: int| 0 <= j < i + 1 && (#[trigger] s[j]).hash@ == h;
                            if j < i {
                                let k = choose|k: int| 0 <= k < old_seen.len() && (#[trigger] old_seen[k])@ == h;
                                assert(seen@[k] == old_seen[k]);
                            } else {
                                assert(seen@[old_seen.len() as int]@ == h);
                            }
                        }
                    }
                }
                let missing_picture = match item.kind {
                    ClipKind::Image => !image_present[i],
                    ClipKind::Text => false,
                };
                if !missing_picture {
                    kept.push(item.duplicate());
                }
            } else {
                proof {
                    assert forall|h: Seq<char>|
                        (exists|k: int| 0 <= k < seen@.len() && (#[trigger] seen@[k])@ == h) <==> (
                        h.len() > 0 && exists|j: int| 0 <= j < i + 1 && (#[trigger] s[j]).hash@ == h) by {
                        if h.len() > 0 && exists|j: int| 0 <= j < i + 1 && (#[trigger] s[j]).hash@ == h {
                            let j = choose|j: int| 0 <= j < i + 1 && (#[trigger] s[j]).hash@ == h;
                            if j == i {
                                assert(exists|j: int| 0 <= j < i && (#[trigger] s[j]).hash@ == h);
                            }
                        }
                    }
                }
            }
        }
        i = i + 1;
    }
    sort_pinned_first(&mut kept);
    kept
}

/// What SHA-256 gives for these bytes.
pub uninterp spec fn sha256(bytes: Seq<u8>) -> Seq<u8>;

/// `sha2::Sha256::digest`: the 32-byte SHA-256 digest of `bytes`.
#[verifier::external_body]
fn sha256_digest(bytes: &[u8]) -> (d: Vec<u8>)
    ensures
        d@ == sha256(bytes@),
        d@.len() == 32,
{
    sha2::Sha256::digest(bytes).to_vec()
}

/// The content hash of a clipboard record: SHA-256 in lower-case hex.
pub fn hash_bytes(bytes: &[u8]) -> (h: String)
    ensures
        h@ == hex_lower(sha256(bytes@)),
        h@.len() == 64,
{
    let d = sha256_digest(bytes);
    hex_string(d.as_slice())
}

/// The id given to a record created at `ts` with content hash `hash`: the
/// timestamp, a dash, and the first eight characters of the hash.
pub open spec fn id_text(ts: int, hash: Seq<char>) -> Seq<char> {
    let k = if hash.len() < 8 { hash.len() as int } else { 8 };
    signed_decimal(ts) + seq!['-'] + hash.take(k)
}

/// The id for a record created at `now` (UNIX seconds, read from the clock
/// by the caller) with content hash `hash`.
pub fn new_id(now: i64, hash: &str) -> (id: String)
    ensures
        id@ == id_text(now as int, hash@),
{
    let n = hash.unicode_len();
    let k = if n < 8 {
        n
    } else {
        8
    };
    let mut id = signed_decimal_string(now);
    id.append("-");
    id.append(hash.substring_char(0, k));
    proof {
        reveal_strlit("-");
    }
    assert(id@ =~= id_text(now as int, hash@));
    id
}

/// Whether chrono can represent the UNIX time `ts` (seconds): from the first
/// second of 1 January of year -262143 to the last second of 31 December
/// 262142, in UTC. Outside this range a timestamp has no date at all, in
/// any time zone.
pub open spec fn has_local_time(ts: int) -> bool {
    -8334601228800 <= ts <= 8210266876799
}

/// A strftime specifier letter that chrono formats for every date and time:
/// `%Y %m %d %H %M %S %y %e %j %a %A %b %B %p %I`, and `%%` for a percent
/// sign.
pub open spec fn plain_specifier(c: char) -> bool {
    ||| c == 'Y' || c == 'm' || c == 'd' || c == 'H' || c == 'M' || c == 'S'
    ||| c == 'y' || c == 'e' || c == 'j' || c == 'a' || c == 'A' || c == 'b'
    ||| c == 'B' || c == 'p' || c == 'I' || c == '%'
}

/// From position `i` on, every `%` of `f` is followed by a plain specifier
/// letter.
pub open spec fn plain_pattern_from(f: Seq<char>, i: nat) -> bool
    decreases f.len() - i,
{
    if i >= f.len() {
        true
    } else if f[i as int] == '%' {
        i + 1 < f.len() && plain_specifier(f[i + 1int]) && plain_pattern_from(f, i + 2)
    } else {
        plain_pattern_from(f, i + 1)
    }
}

/// A strftime pattern made of literal text and plain specifiers only, which
/// chrono always formats without error.
pub open spec fn plain_pattern(f: Seq<char>) -> bool {
    plain_pattern_from(f, 0)
}

/// The two patterns the history uses are plain.
pub proof fn lemma_history_patterns_plain()
    ensures
        plain_pattern("%Y-%m-%d"@),
        plain_pattern("%m-%d %H:%M"@),
{
    reveal_strlit("%Y-%m-%d");
    reveal_strlit("%m-%d %H:%M");
    reveal_with_fuel(plain_pattern_from, 12);
}

/// `chrono::Local.timestamp_opt(ts, 0).single()` formatted with
/// `DateTime::format(fmt)`. `timestamp_opt` returns `None` exactly when
/// `DateTime::from_timestamp(ts, 0)` does, that is when `ts` is outside
/// chrono's date range, and a single local time otherwise. That local
/// time is the UTC time shifted by the machine's offset, which chrono keeps
/// under one day either way (`FixedOffset`); which offset is the machine's
/// business, so the text is claimed only to be the pattern's text for some
/// such wall-clock time. A pattern chrono cannot read makes the formatting
/// panic, so only plain patterns are handed over.
#[verifier::external_body]
fn local_format(ts: i64, fmt: &str) -> (r: Option<String>)
    requires
        plain_pattern(fmt@),
    ensures
        r is None <==> !has_local_time(ts as int),
        r matches Some(t) ==> local_text(fmt@, ts as int, t@),
{
    match chrono::Local.timestamp_opt(ts, 0).single() {
        Some(dt) => Some(dt.format(fmt).to_string()),
        None => None,
    }
}

/// `ts` in local time, formatted with the strftime pattern `fmt`; `-` when
/// `ts` has no local time.
pub fn format_ts(ts: i64, fmt: &str) -> (s: String)
    requires
        plain_pattern(fmt@),
    ensures
        !has_local_time(ts as int) ==> s@ == "-"@,
        has_local_time(ts as int) ==> local_text(fmt@, ts as int, s@),
{
    shown_or(local_format(ts, fmt), "-")
}

/// What is shown for a formatted time: the formatted text, or
/// `placeholder` when the time had no local form.
pub fn shown_or(formatted: Option<String>, placeholder: &str) -> (s: String)
    ensures
        s@ == match formatted {
            Some(t) => t@,
            None => placeholder@,
        },
{
    match formatted {
        Some(t) => t,
        None => String::from_str(placeholder),
    }
}

/// The local calendar date of `ts` as `YYYY-MM-DD`; `未知日期` when `ts`
/// has no local time.
pub fn local_date_key(ts: i64) -> (s: String)
    ensures
        !has_local_time(ts as int) ==> s@ == "未知日期"@,
        has_local_time(ts as int) ==> local_text("%Y-%m-%d"@, ts as int, s@),
{
    proof {
        lemma_history_patterns_plain();
    }
    shown_or(local_format(ts, "%Y-%m-%d"), "未知日期")
}

/// The data directory, relative to the program's base directory.
pub fn data_dir() -> (p: String)
    ensures
        p@ == "data"@,
{
    String::from_str("data")
}

/// The picture directory, relative to the program's base directory.
pub fn images_dir() -> (p: String)
    ensures
        p@ == "data/images"@,
{
    String::from_str("data/images")
}

/// The daily archive directory, relative to the program's base directory.
pub fn archives_dir() -> (p: String)
    ensures
        p@ == "data/archives"@,
{
    String::from_str("data/archives")
}

/// The history file, relative to the program's base directory.
pub fn clips_file() -> (p: String)
    ensures
        p@ == "data/clips.json"@,
{
    String::from_str("data/clips.json")
}

/// The settings file, relative to the program's base directory.
pub fn settings_file() -> (p: String)
    ensures
        p@ == "data/settings.json"@,
{
    String::from_str("data/settings.json")
}

/// The marker file through which `--toggle` reaches a running instance,
/// relative to the program's base directory.
pub fn toggle_file() -> (p: String)
    ensures
        p@ == "data/.toggle"@,
{
    String::from_str("data/.toggle")
}

/// Where the picture of the record `id` is stored, relative to the
/// program's base directory.
pub fn image_file(id: &str) -> (p: String)
    ensures
        p@ == "data/images/"@ + id@ + ".png"@,
{
    let mut p = String::from_str("data/images/");
    p.append(id);
    p.append(".png");
    p
}

} // verus!
