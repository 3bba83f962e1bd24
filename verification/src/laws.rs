//! Properties that hold of the history across its operations.
use vstd::prelude::*;
use crate::app::{
    date_listed, filter_caption, lemma_index_of_id, visible_positions, DateFilter, hash_listed, id_listed, index_of_id, lemma_index_of_id_range, moved,
    panel_after_toggle, pin_toggled, sorted, without_ids,
};
use crate::archive::{is_json_name, name_listed, stale_names};
use crate::clipboard::{last_text_after, reported, text_hash, hash_after_polls, Poll};
use crate::dates::{
    date_count, grouped, lemma_positions_of_members, lemma_text_lt_irreflexive, positions_of, text_lt,
    DateGroup,
};
use crate::hotkey::{
    has_modifier, hotkey_of, key_count, meaning, means, no_modifiers, read_pieces, same_meanings,
    Modifiers, PieceMeaning,
};
use crate::model::ClipItem;
use crate::store::{
    lemma_parts_members, lemma_parts_pinned_first, lemma_pinned_first_split, loadable,
    loadable_prefix, pinned_count, pinned_first, pinned_part, unpinned_part,
};
use crate::text::{
    all_ascii, ascii_lower, ascii_lower_char, decimal, hex_digit, hex_lower, is_white,
    lemma_trim_piece, lemma_trim_same_places, skip_white, split, trim,
};

verus! {

broadcast use vstd::seq_lib::group_to_multiset_ensures;

/// No two records share a content hash.
pub open spec fn hashes_unique(s: Seq<ClipItem>) -> bool {
    forall|i: int, j: int| 0 <= i < j < s.len() ==> (#[trigger] s[i]).hash@ != (#[trigger] s[j]).hash@
}

/// Law: a new record goes right after the pinned ones, so a pinned-first
/// history stays pinned-first, whether or not the record is pinned.
pub proof fn law_insert_keeps_pinned_first(s: Seq<ClipItem>, item: ClipItem)
    requires
        pinned_first(s),
    ensures
        pinned_first(s.insert(pinned_count(s) as int, item)),
{
    lemma_pinned_first_split(s);
    lemma_parts_members(s);
    let pc = pinned_count(s) as int;
    let r = s.insert(pc, item);
    s.insert_ensures(pc, item);
    assert forall|i: int, j: int| 0 <= i < j < r.len() && #[trigger] r[j].pinned implies #[trigger] r[i].pinned by {
        if j > pc {
            assert(r[j] == s[j - 1]);
        }
        assert(r[i] == s[i]);
    }
}

/// Law: the history never holds two records with the same content: a
/// record whose hash is already there is refused.
pub proof fn law_insert_keeps_hashes_unique(s: Seq<ClipItem>, item: ClipItem, pos: int)
    requires
        hashes_unique(s),
        !hash_listed(s, item.hash@),
        0 <= pos <= s.len(),
    ensures
        hashes_unique(s.insert(pos, item)),
{
    let r = s.insert(pos, item);
    s.insert_ensures(pos, item);
    assert forall|i: int, j: int| 0 <= i < j < r.len() implies (#[trigger] r[i]).hash@ != (#[trigger] r[j]).hash@ by {
        if i < pos && j < pos {
            assert(r[i] == s[i] && r[j] == s[j]);
        } else if i < pos && j == pos {
            assert(r[i] == s[i]);
        } else if i < pos {
            assert(r[i] == s[i] && r[j] == s[j - 1]);
        } else if i == pos {
            assert(r[j] == s[j - 1]);
        } else {
            assert(r[i] == s[i - 1] && r[j] == s[j - 1]);
        }
    }
}

/// Law: flipping a pin always leaves the history pinned-first.
pub proof fn law_toggle_pin_pinned_first(s: Seq<ClipItem>, id: Seq<char>)
    ensures
        pinned_first(pin_toggled(s, id)),
{
    let i = index_of_id(s, id);
    if i < 0 {
        lemma_parts_pinned_first(s);
    } else {
        lemma_parts_pinned_first(s.update(i, ClipItem { pinned: !s[i].pinned, ..s[i] }));
    }
}

/// Law: dragging a record to another place neither loses nor adds records,
/// and leaves the history pinned-first.
pub proof fn law_move_keeps_records(s: Seq<ClipItem>, id: Seq<char>, target: Option<Seq<char>>)
    ensures
        moved(s, id, target).to_multiset() == s.to_multiset(),
        index_of_id(s, id) >= 0 ==> pinned_first(moved(s, id, target)),
        index_of_id(s, id) < 0 ==> moved(s, id, target) == s,
{
    broadcast use vstd::multiset::group_multiset_axioms;

    lemma_index_of_id_range(s, id);
    let from = index_of_id(s, id);
    if from >= 0 {
        let rest = s.remove(from);
        let to = match target {
            Some(t) => if index_of_id(rest, t) < 0 {
                rest.len() as int
            } else {
                index_of_id(rest, t)
            },
            None => rest.len() as int,
        };
        match target {
            Some(t) => lemma_index_of_id_range(rest, t),
            None => {},
        }
        let back = rest.insert(to, s[from]);
        vstd::seq_lib::to_multiset_remove(s, from);
        vstd::seq_lib::to_multiset_insert(rest, to, s[from]);
        assert(back.to_multiset() =~= s.to_multiset());
        lemma_parts_members(back);
        lemma_parts_pinned_first(back);
    }
}

/// Every record kept by a deletion is a record of the history whose id was
/// not listed.
pub proof fn lemma_without_ids_members(s: Seq<ClipItem>, ids: Seq<String>)
    ensures
        forall|k: int| 0 <= k < without_ids(s, ids).len() ==> s.contains(#[trigger] without_ids(s, ids)[k])
            && !id_listed(ids, without_ids(s, ids)[k].id@),
        forall|j: int| 0 <= j < s.len() && !id_listed(ids, s[j].id@) ==> without_ids(s, ids).contains(#[trigger] s[j]),
    decreases s.len(),
{
    if s.len() > 0 {
        let p = s.drop_last();
        lemma_without_ids_members(p, ids);
        assert forall|k: int| 0 <= k < without_ids(s, ids).len() implies s.contains(#[trigger] without_ids(s, ids)[k])
            && !id_listed(ids, without_ids(s, ids)[k].id@) by {
            if k < without_ids(p, ids).len() {
                assert(without_ids(s, ids)[k] == without_ids(p, ids)[k]);
                let q = choose|q: int| 0 <= q < p.len() && p[q] == without_ids(p, ids)[k];
                assert(s[q] == p[q]);
            } else {
                assert(s[s.len() - 1] == s.last());
            }
        }
        assert forall|j: int| 0 <= j < s.len() && !id_listed(ids, s[j].id@) implies without_ids(s, ids).contains(#[trigger] s[j]) by {
            if j < s.len() - 1 {
                assert(s[j] == p[j]);
                let q = choose|q: int| 0 <= q < without_ids(p, ids).len() && without_ids(p, ids)[q] == p[j];
                assert(without_ids(s, ids)[q] == without_ids(p, ids)[q]);
            } else {
                assert(without_ids(s, ids)[without_ids(p, ids).len() as int] == s[j]);
            }
        }
    }
}

/// Law: deleting records removes exactly those with a listed id and keeps
/// a pinned-first history pinned-first.
pub proof fn law_delete_removes_listed(s: Seq<ClipItem>, ids: Seq<String>)
    ensures
        forall|k: int| 0 <= k < without_ids(s, ids).len() ==> !id_listed(ids, (#[trigger] without_ids(s, ids)[k]).id@),
        forall|j: int| 0 <= j < s.len() && !id_listed(ids, s[j].id@) ==> without_ids(s, ids).contains(#[trigger] s[j]),
        forall|k: int| 0 <= k < without_ids(s, ids).len() ==> s.contains(#[trigger] without_ids(s, ids)[k]),
        pinned_first(s) ==> pinned_first(without_ids(s, ids)),
    decreases s.len(),
{
    lemma_without_ids_members(s, ids);
    if s.len() > 0 && pinned_first(s) {
        let p = s.drop_last();
        assert(pinned_first(p));
        law_delete_removes_listed(p, ids);
        let r = without_ids(s, ids);
        let rp = without_ids(p, ids);
        if !id_listed(ids, s.last().id@) {
            assert forall|i: int, j: int| 0 <= i < j < r.len() && #[trigger] r[j].pinned implies #[trigger] r[i].pinned by {
                if j < rp.len() {
                    assert(r[i] == rp[i] && r[j] == rp[j]);
                } else {
                    assert(r[i] == rp[i]);
                    let q = choose|q: int| 0 <= q < p.len() && p[q] == rp[i];
                    assert(s[q] == p[q]);
                    assert(s[s.len() - 1].pinned);
                }
            }
        }
    }
}

/// Reordering records keeps their content hashes distinct.
pub proof fn lemma_permutation_keeps_hashes_unique(a: Seq<ClipItem>, b: Seq<ClipItem>)
    requires
        a.to_multiset() == b.to_multiset(),
        hashes_unique(b),
    ensures
        hashes_unique(a),
{
    broadcast use vstd::multiset::group_multiset_axioms;

    assert forall|i: int, j: int| 0 <= i < j < a.len() implies (#[trigger] a[i]).hash@ != (#[trigger] a[j]).hash@ by {
        if a[i].hash@ == a[j].hash@ {
            assert(a.contains(a[i]));
            assert(a.to_multiset().count(a[i]) > 0);
            assert(b.to_multiset().count(a[i]) > 0);
            assert(b.contains(a[i]));
            let p = choose|p: int| 0 <= p < b.len() && b[p] == a[i];
            if a[i] == a[j] {
                let ar = a.remove(i);
                assert(ar[j - 1] == a[j]);
                assert(ar.contains(a[i]));
                assert(ar.to_multiset().count(a[i]) > 0);
                assert(a.to_multiset().count(a[i]) >= 2);
                let br = b.remove(p);
                assert(br.to_multiset().count(a[i]) > 0);
                assert(br.contains(a[i]));
                let q = choose|q: int| 0 <= q < br.len() && br[q] == a[i];
                if q < p {
                    assert(b[q] == br[q]);
                } else {
                    assert(b[q + 1] == br[q]);
                }
            } else {
                assert(a.contains(a[j]));
                assert(a.to_multiset().count(a[j]) > 0);
                assert(b.to_multiset().count(a[j]) > 0);
                assert(b.contains(a[j]));
                let q = choose|q: int| 0 <= q < b.len() && b[q] == a[j];
                assert(p != q);
            }
        }
    }
}

/// Law: a loaded history has a content hash on every record, no two
/// records with the same hash, and pinned records first.
pub proof fn law_loaded_history_clean(s: Seq<ClipItem>, present: Seq<bool>)
    requires
        present.len() == s.len(),
    ensures
        ({
            let r = sorted(loadable_prefix(s, present, s.len() as int));
            &&& hashes_unique(r)
            &&& forall|k: int| 0 <= k < r.len() ==> (#[trigger] r[k]).hash@.len() > 0
            &&& pinned_first(r)
        }),
{
    let kept = loadable_prefix(s, present, s.len() as int);
    lemma_loadable_prefix(s, present, s.len() as int);
    lemma_parts_members(kept);
    lemma_parts_pinned_first(kept);
    lemma_permutation_keeps_hashes_unique(sorted(kept), kept);
    let r = sorted(kept);
    assert forall|k: int| 0 <= k < r.len() implies (#[trigger] r[k]).hash@.len() > 0 by {
        assert(r.to_multiset().count(r[k]) > 0);
        assert(r.contains(r[k]));
        assert(kept.contains(r[k]));
    }
}

/// The records kept from the first `n` have distinct, non-empty hashes,
/// each the hash of the first record of the history that carries it.
pub proof fn lemma_loadable_prefix(s: Seq<ClipItem>, present: Seq<bool>, n: int)
    requires
        0 <= n <= s.len(),
        present.len() == s.len(),
    ensures
        hashes_unique(loadable_prefix(s, present, n)),
        forall|k: int|
            0 <= k < loadable_prefix(s, present, n).len() ==> exists|j: int|
                0 <= j < n && #[trigger] loadable_prefix(s, present, n)[k] == s[j] && loadable(
                    s,
                    present,
                    j,
                ),
    decreases n,
{
    if n > 0 {
        lemma_loadable_prefix(s, present, n - 1);
        let p = loadable_prefix(s, present, n - 1);
        let r = loadable_prefix(s, present, n);
        if loadable(s, present, n - 1) {
            assert forall|k: int| 0 <= k < r.len() implies exists|j: int|
                0 <= j < n && #[trigger] r[k] == s[j] && loadable(s, present, j) by {
                if k < p.len() {
                    assert(r[k] == p[k]);
                    let j = choose|j: int| 0 <= j < n - 1 && #[trigger] p[k] == s[j] && loadable(s, present, j);
                    assert(r[k] == s[j]);
                } else {
                    assert(r[k] == s[n - 1]);
                }
            }
            assert forall|i: int, j: int| 0 <= i < j < r.len() implies (#[trigger] r[i]).hash@ != (#[trigger] r[j]).hash@ by {
                if j < p.len() {
                    assert(r[i] == p[i] && r[j] == p[j]);
                } else {
                    assert(r[i] == p[i]);
                    let q = choose|q: int| 0 <= q < n - 1 && #[trigger] p[i] == s[q] && loadable(s, present, q);
                    assert(r[j] == s[n - 1]);
                    if r[i].hash@ == r[j].hash@ {
                        assert(s[q].hash@ == s[n - 1].hash@);
                        assert(crate::store::hash_seen_before(s, n - 1));
                    }
                }
            }
        } else {
            assert forall|k: int| 0 <= k < r.len() implies exists|j: int|
                0 <= j < n && #[trigger] r[k] == s[j] && loadable(s, present, j) by {
                let j = choose|j: int| 0 <= j < n - 1 && #[trigger] p[k] == s[j] && loadable(s, present, j);
            }
        }
    }
}

/// Law: toggling the selection of a record twice gives back the selection.
pub proof fn law_toggle_select_twice(sel: Set<Seq<char>>, id: Seq<char>)
    ensures
        ({
            let once = if sel.contains(id) { sel.remove(id) } else { sel.insert(id) };
            let twice = if once.contains(id) { once.remove(id) } else { once.insert(id) };
            twice == sel
        }),
{
    let once = if sel.contains(id) { sel.remove(id) } else { sel.insert(id) };
    let twice = if once.contains(id) { once.remove(id) } else { once.insert(id) };
    assert(twice =~= sel);
}

/// Law: a rebuild removes only `.json` files, and never one it wrote.
pub proof fn law_stale_archives(existing: Seq<String>, written: Seq<String>)
    ensures
        forall|k: int| 0 <= k < stale_names(existing, written).len() ==> is_json_name(
            (#[trigger] stale_names(existing, written)[k])@,
        ) && !name_listed(written, stale_names(existing, written)[k]@),
    decreases existing.len(),
{
    if existing.len() > 0 {
        law_stale_archives(existing.drop_last(), written);
        let p = stale_names(existing.drop_last(), written);
        assert forall|k: int| 0 <= k < stale_names(existing, written).len() implies is_json_name(
            (#[trigger] stale_names(existing, written)[k])@,
        ) && !name_listed(written, stale_names(existing, written)[k]@) by {
            if k < p.len() {
                assert(stale_names(existing, written)[k] == p[k]);
            }
        }
    }
}

/// Law: a content hash is two lower-case hexadecimal digits per byte.
pub proof fn law_hash_is_lower_hex(bytes: Seq<u8>)
    ensures
        hex_lower(bytes).len() == 2 * bytes.len(),
        forall|k: int| 0 <= k < hex_lower(bytes).len() ==> {
            let c = #[trigger] hex_lower(bytes)[k];
            ('0' <= c <= '9') || ('a' <= c <= 'f')
        },
    decreases bytes.len(),
{
    if bytes.len() > 0 {
        law_hash_is_lower_hex(bytes.drop_last());
        let b = bytes.last();
        let p = hex_lower(bytes.drop_last());
        assert forall|k: int| 0 <= k < hex_lower(bytes).len() implies {
            let c = #[trigger] hex_lower(bytes)[k];
            ('0' <= c <= '9') || ('a' <= c <= 'f')
        } by {
            if k < p.len() {
                assert(hex_lower(bytes)[k] == p[k]);
            } else {
                let d = if k == p.len() { (b / 16) as int } else { (b % 16) as int };
                assert(0 <= d < 16);
                assert(hex_lower(bytes)[k] == hex_digit(d));
            }
        }
    }
}

/// Law: an accepted hotkey always has at least one modifier.
pub proof fn law_hotkey_has_modifier(text: Seq<char>)
    ensures
        hotkey_of(text) matches Ok(h) ==> has_modifier(h.modifiers),
{
}

/// Law: grouping by date puts every record in exactly one group, the one
/// of its own date.
pub proof fn law_each_record_in_one_group(dates: Seq<Seq<char>>, groups: Seq<DateGroup>, i: int)
    requires
        grouped(dates, dates.len() as int, groups),
        dates.len() <= usize::MAX,
        0 <= i < dates.len(),
    ensures
        exists|k: int| 0 <= k < groups.len() && groups[k].date@ == dates[i] && (#[trigger] groups[k]).positions@.contains(i as usize),
        forall|k: int| 0 <= k < groups.len() && (#[trigger] groups[k]).positions@.contains(i as usize) ==> groups[k].date@ == dates[i],
{
    let n = dates.len() as int;
    assert(dates[i] == dates[i]);
    let k = choose|k: int| #![trigger groups[k]] 0 <= k < groups.len() && groups[k].date@ == dates[i];
    lemma_positions_of_members(dates, dates[i], n);
    assert(groups[k].positions@.contains(i as usize));
    assert forall|q: int| 0 <= q < groups.len() && (#[trigger] groups[q]).positions@.contains(i as usize) implies groups[q].date@ == dates[i] by {
        lemma_positions_of_members(dates, groups[q].date@, n);
        let w = choose|w: int| 0 <= w < groups[q].positions@.len() && groups[q].positions@[w] == i as usize;
        assert(groups[q].positions@[w] == crate::dates::positions_of(dates, groups[q].date@, n)[w]);
    }
}

/// Law: a history that is already clean (every record hashed, no hash
/// twice, pinned records first, every picture present) loads back
/// unchanged, so saving and loading gives back what was saved.
pub proof fn law_clean_history_loads_unchanged(s: Seq<ClipItem>, present: Seq<bool>)
    requires
        present.len() == s.len(),
        hashes_unique(s),
        forall|k: int| 0 <= k < s.len() ==> (#[trigger] s[k]).hash@.len() > 0,
        forall|k: int| 0 <= k < s.len() ==> #[trigger] present[k],
        pinned_first(s),
    ensures
        sorted(loadable_prefix(s, present, s.len() as int)) == s,
{
    lemma_all_loadable(s, present, s.len() as int);
    assert(s.take(s.len() as int) == s);
    lemma_pinned_first_split(s);
}

proof fn lemma_all_loadable(s: Seq<ClipItem>, present: Seq<bool>, n: int)
    requires
        0 <= n <= s.len(),
        present.len() == s.len(),
        hashes_unique(s),
        forall|k: int| 0 <= k < s.len() ==> (#[trigger] s[k]).hash@.len() > 0,
        forall|k: int| 0 <= k < s.len() ==> #[trigger] present[k],
    ensures
        loadable_prefix(s, present, n) == s.take(n),
    decreases n,
{
    if n > 0 {
        lemma_all_loadable(s, present, n - 1);
        if crate::store::hash_seen_before(s, n - 1) {
            let j = choose|j: int| 0 <= j < n - 1 && (#[trigger] s[j]).hash@ == s[n - 1].hash@;
        }
        assert(loadable(s, present, n - 1));
        assert(s.take(n) == s.take(n - 1).push(s[n - 1]));
    }
}

/// No two records share an id.
pub open spec fn ids_unique(s: Seq<ClipItem>) -> bool {
    forall|i: int, j: int| 0 <= i < j < s.len() ==> (#[trigger] s[i]).id@ != (#[trigger] s[j]).id@
}

/// Reordering records keeps their ids distinct.
pub proof fn lemma_permutation_keeps_ids_unique(a: Seq<ClipItem>, b: Seq<ClipItem>)
    requires
        a.to_multiset() == b.to_multiset(),
        ids_unique(b),
    ensures
        ids_unique(a),
{
    broadcast use vstd::multiset::group_multiset_axioms;

    assert forall|i: int, j: int| 0 <= i < j < a.len() implies (#[trigger] a[i]).id@ != (#[trigger] a[j]).id@ by {
        if a[i].id@ == a[j].id@ {
            assert(a.contains(a[i]));
            assert(a.to_multiset().count(a[i]) > 0);
            assert(b.to_multiset().count(a[i]) > 0);
            assert(b.contains(a[i]));
            let p = choose|p: int| 0 <= p < b.len() && b[p] == a[i];
            if a[i] == a[j] {
                let ar = a.remove(i);
                assert(ar[j - 1] == a[j]);
                assert(ar.contains(a[i]));
                assert(ar.to_multiset().count(a[i]) > 0);
                assert(a.to_multiset().count(a[i]) >= 2);
                let br = b.remove(p);
                assert(br.to_multiset().count(a[i]) > 0);
                assert(br.contains(a[i]));
                let q = choose|q: int| 0 <= q < br.len() && br[q] == a[i];
                if q < p {
                    assert(b[q] == br[q]);
                } else {
                    assert(b[q + 1] == br[q]);
                }
            } else {
                assert(a.contains(a[j]));
                assert(a.to_multiset().count(a[j]) > 0);
                assert(b.to_multiset().count(a[j]) > 0);
                assert(b.contains(a[j]));
                let q = choose|q: int| 0 <= q < b.len() && b[q] == a[j];
                assert(p != q);
            }
        }
    }
}

/// The record with the pin flipped.
pub open spec fn flipped(x: ClipItem) -> ClipItem {
    ClipItem { pinned: !x.pinned, ..x }
}

/// Flipping the pin of the record at `i` and sorting keeps the other
/// records, and the flipped record is then the one with that id.
proof fn lemma_pin_toggled_records(s: Seq<ClipItem>, id: Seq<char>)
    requires
        ids_unique(s),
        index_of_id(s, id) >= 0,
    ensures
        ({
            let i = index_of_id(s, id);
            let t = pin_toggled(s, id);
            &&& t.to_multiset() == s.to_multiset().remove(s[i]).insert(flipped(s[i]))
            &&& ids_unique(t)
            &&& index_of_id(t, id) >= 0
            &&& t[index_of_id(t, id)] == flipped(s[i])
        }),
{
    broadcast use vstd::multiset::group_multiset_axioms;

    lemma_index_of_id_range(s, id);
    let i = index_of_id(s, id);
    let u = s.update(i, flipped(s[i]));
    assert(flipped(s[i]) == ClipItem { pinned: !s[i].pinned, ..s[i] });
    vstd::seq_lib::to_multiset_update(s, i, flipped(s[i]));
    assert(ids_unique(u)) by {
        assert forall|a: int, b: int| 0 <= a < b < u.len() implies (#[trigger] u[a]).id@ != (#[trigger] u[b]).id@ by {
            assert(u[a].id@ == s[a].id@ && u[b].id@ == s[b].id@);
        }
    }
    let t = sorted(u);
    lemma_parts_members(u);
    lemma_permutation_keeps_ids_unique(t, u);
    assert(t.to_multiset().count(flipped(s[i])) > 0);
    assert(t.contains(flipped(s[i])));
    let j = choose|j: int| 0 <= j < t.len() && t[j] == flipped(s[i]);
    lemma_index_of_id_range(t, id);
    if index_of_id(t, id) < 0 {
        assert(t[j].id@ == id);
    }
    let k = index_of_id(t, id);
    if k != j {
        assert(t[k].id@ == t[j].id@);
    }
}

/// Law: flipping the pin of a record twice gives back the same records (in
/// pinned-first order), when no two records share an id.
pub proof fn law_toggle_pin_twice_keeps_records(s: Seq<ClipItem>, id: Seq<char>)
    requires
        ids_unique(s),
    ensures
        pin_toggled(pin_toggled(s, id), id).to_multiset() == s.to_multiset(),
{
    broadcast use vstd::multiset::group_multiset_axioms;

    lemma_index_of_id_range(s, id);
    if index_of_id(s, id) < 0 {
        lemma_parts_members(s);
        let t = sorted(s);
        lemma_permutation_keeps_ids_unique(t, s);
        lemma_index_of_id_range(t, id);
        if index_of_id(t, id) >= 0 {
            let k = index_of_id(t, id);
            assert(t.to_multiset().count(t[k]) > 0);
            assert(s.to_multiset().count(t[k]) > 0);
            assert(s.contains(t[k]));
        }
        lemma_parts_members(t);
    } else {
        let i = index_of_id(s, id);
        lemma_pin_toggled_records(s, id);
        let t = pin_toggled(s, id);
        lemma_pin_toggled_records(t, id);
        assert(flipped(flipped(s[i])) == s[i]);
        assert(s.to_multiset().count(s[i]) > 0) by {
            assert(s.contains(s[i]));
        }
        assert(pin_toggled(t, id).to_multiset() =~= s.to_multiset());
    }
}

/// How many of the keys equal `x`.
pub open spec fn occurrences(keys: Seq<Seq<char>>, x: Seq<char>) -> nat
    decreases keys.len(),
{
    if keys.len() == 0 {
        0
    } else {
        occurrences(keys.drop_last(), x) + if keys.last() == x {
            1nat
        } else {
            0nat
        }
    }
}

/// The number of the first `n` records dated with one of the keys, counted
/// key by key.
pub open spec fn counted(keys: Seq<Seq<char>>, dates: Seq<Seq<char>>, n: int) -> nat
    decreases keys.len(),
{
    if keys.len() == 0 {
        0
    } else {
        counted(keys.drop_last(), dates, n) + positions_of(dates, keys.last(), n).len()
    }
}

/// The sum of the counts in a list of dates with counts.
pub open spec fn count_sum(r: Seq<(String, usize)>) -> nat
    decreases r.len(),
{
    if r.len() == 0 {
        0
    } else {
        count_sum(r.drop_last()) + r.last().1 as nat
    }
}

proof fn lemma_counted_step(keys: Seq<Seq<char>>, dates: Seq<Seq<char>>, n: int)
    requires
        0 < n <= dates.len(),
    ensures
        counted(keys, dates, n) == counted(keys, dates, n - 1) + occurrences(keys, dates[n - 1]),
    decreases keys.len(),
{
    if keys.len() > 0 {
        lemma_counted_step(keys.drop_last(), dates, n);
    }
}

proof fn lemma_distinct_occurrences(keys: Seq<Seq<char>>, x: Seq<char>)
    requires
        forall|a: int, b: int| 0 <= a < b < keys.len() ==> #[trigger] keys[a] != #[trigger] keys[b],
    ensures
        occurrences(keys, x) == if keys.contains(x) {
            1nat
        } else {
            0nat
        },
    decreases keys.len(),
{
    if keys.len() > 0 {
        let p = keys.drop_last();
        lemma_distinct_occurrences(p, x);
        if keys.last() == x {
            if p.contains(x) {
                let a = choose|a: int| 0 <= a < p.len() && p[a] == x;
                assert(keys[a] == keys[keys.len() - 1]);
            }
        } else {
            if keys.contains(x) {
                let a = choose|a: int| 0 <= a < keys.len() && keys[a] == x;
                assert(p[a] == x);
            }
        }
    }
}

proof fn lemma_counted_all(keys: Seq<Seq<char>>, dates: Seq<Seq<char>>, n: int)
    requires
        0 <= n <= dates.len(),
        forall|a: int, b: int| 0 <= a < b < keys.len() ==> #[trigger] keys[a] != #[trigger] keys[b],
        forall|i: int| 0 <= i < dates.len() ==> keys.contains(#[trigger] dates[i]),
    ensures
        counted(keys, dates, n) == n,
    decreases n,
{
    if n > 0 {
        lemma_counted_all(keys, dates, n - 1);
        lemma_counted_step(keys, dates, n);
        lemma_distinct_occurrences(keys, dates[n - 1]);
    } else {
        lemma_counted_zero(keys, dates);
    }
}

proof fn lemma_counted_zero(keys: Seq<Seq<char>>, dates: Seq<Seq<char>>)
    ensures
        counted(keys, dates, 0) == 0,
    decreases keys.len(),
{
    if keys.len() > 0 {
        lemma_counted_zero(keys.drop_last(), dates);
    }
}

proof fn lemma_count_sum_counted(r: Seq<(String, usize)>, dates: Seq<Seq<char>>)
    requires
        forall|k: int| 0 <= k < r.len() ==> (#[trigger] r[k]).1 == date_count(dates, r[k].0@),
    ensures
        count_sum(r) == counted(r.map_values(|e: (String, usize)| e.0@), dates, dates.len() as int),
    decreases r.len(),
{
    let keys = r.map_values(|e: (String, usize)| e.0@);
    if r.len() > 0 {
        let p = r.drop_last();
        assert forall|k: int| 0 <= k < p.len() implies (#[trigger] p[k]).1 == date_count(dates, p[k].0@) by {
            assert(p[k] == r[k]);
        }
        lemma_count_sum_counted(p, dates);
        assert(keys.drop_last() =~= p.map_values(|e: (String, usize)| e.0@));
    }
}

/// Law: the per-date counts that the date filter offers add up to the
/// number of records: every record is counted once, under its own date.
pub proof fn law_date_counts_add_up(dates: Seq<Seq<char>>, r: Seq<(String, usize)>)
    requires
        forall|a: int, b: int| 0 <= a < b < r.len() ==> text_lt(#[trigger] r[b].0@, #[trigger] r[a].0@),
        forall|k: int| 0 <= k < r.len() ==> (#[trigger] r[k]).1 == date_count(dates, r[k].0@),
        forall|i: int| 0 <= i < dates.len() ==> #[trigger] date_listed(r, dates[i]),
    ensures
        count_sum(r) == dates.len(),
{
    let keys = r.map_values(|e: (String, usize)| e.0@);
    assert forall|a: int, b: int| 0 <= a < b < keys.len() implies #[trigger] keys[a] != #[trigger] keys[b] by {
        lemma_text_lt_irreflexive(r[a].0@);
        assert(text_lt(r[b].0@, r[a].0@));
    }
    assert forall|i: int| 0 <= i < dates.len() implies keys.contains(#[trigger] dates[i]) by {
        assert(date_listed(r, dates[i]));
        let k = choose|k: int| 0 <= k < r.len() && (#[trigger] r[k]).0@ == dates[i];
        assert(keys[k] == dates[i]);
    }
    lemma_count_sum_counted(r, dates);
    lemma_counted_all(keys, dates, dates.len() as int);
}

/// Law: once the watcher has looked at a non-blank text, whether it
/// reported it as new or found it unchanged, it keeps that text's hash, so
/// looking at the same text again finds it unchanged: each text is reported
/// once. Text the history writes to the clipboard is kept the same way, so
/// it is not reported back.
pub proof fn law_text_reported_once(last: Seq<char>, text: Seq<char>)
    requires
        trim(text).len() > 0,
    ensures
        last_text_after(last, text) == text_hash(text),
{
}

/// Law: the hotkey hides a shown panel and a second press shows it again;
/// on a hidden or collapsed panel a press always shows it.
pub proof fn law_toggle_panel_twice(edge_hide: bool)
    ensures
        ({
            let once = panel_after_toggle(false, false, edge_hide);
            &&& once != (false, false)
            &&& panel_after_toggle(once.0, once.1, edge_hide) == (false, false)
        }),
        forall|h: bool, c: bool| h || c ==> #[trigger] panel_after_toggle(h, c, edge_hide) == (false, false),
{
}

/// Deleting records keeps content hashes distinct.
proof fn lemma_without_ids_keeps_hashes_unique(s: Seq<ClipItem>, ids: Seq<String>)
    requires
        hashes_unique(s),
    ensures
        hashes_unique(without_ids(s, ids)),
    decreases s.len(),
{
    if s.len() > 0 {
        let p = s.drop_last();
        assert(hashes_unique(p)) by {
            assert forall|i: int, j: int| 0 <= i < j < p.len() implies (#[trigger] p[i]).hash@ != (#[trigger] p[j]).hash@ by {
                assert(p[i] == s[i] && p[j] == s[j]);
            }
        }
        lemma_without_ids_keeps_hashes_unique(p, ids);
        if !id_listed(ids, s.last().id@) {
            let rp = without_ids(p, ids);
            let r = without_ids(s, ids);
            lemma_without_ids_members(p, ids);
            assert forall|i: int, j: int| 0 <= i < j < r.len() implies (#[trigger] r[i]).hash@ != (#[trigger] r[j]).hash@ by {
                assert(r[i] == rp[i]);
                if j < rp.len() {
                    assert(r[j] == rp[j]);
                } else {
                    assert(r[j] == s.last());
                    assert(p.contains(rp[i]));
                    let q = choose|q: int| 0 <= q < p.len() && p[q] == rp[i];
                    assert(s[q] == p[q]);
                }
            }
        }
    }
}

/// Law: the history never holds two records with the same content hash.
/// Adding refuses a hash that is already there, and flipping a pin,
/// dragging a record and deleting records all keep the hashes distinct.
pub proof fn law_history_hashes_stay_unique(
    s: Seq<ClipItem>,
    item: ClipItem,
    id: Seq<char>,
    target: Option<Seq<char>>,
    ids: Seq<String>,
)
    requires
        hashes_unique(s),
    ensures
        !hash_listed(s, item.hash@) ==> hashes_unique(s.insert(pinned_count(s) as int, item)),
        hashes_unique(pin_toggled(s, id)),
        hashes_unique(moved(s, id, target)),
        hashes_unique(without_ids(s, ids)),
{
    lemma_parts_members(s);
    if !hash_listed(s, item.hash@) {
        law_insert_keeps_hashes_unique(s, item, pinned_count(s) as int);
    }
    lemma_index_of_id_range(s, id);
    let i = index_of_id(s, id);
    if i < 0 {
        lemma_permutation_keeps_hashes_unique(sorted(s), s);
    } else {
        let u = s.update(i, ClipItem { pinned: !s[i].pinned, ..s[i] });
        assert(hashes_unique(u)) by {
            assert forall|a: int, b: int| 0 <= a < b < u.len() implies (#[trigger] u[a]).hash@ != (#[trigger] u[b]).hash@ by {
                assert(u[a].hash == s[a].hash && u[b].hash == s[b].hash);
            }
        }
        lemma_parts_members(u);
        lemma_permutation_keeps_hashes_unique(sorted(u), u);
    }
    law_move_keeps_records(s, id, target);
    lemma_permutation_keeps_hashes_unique(moved(s, id, target), s);
    lemma_without_ids_keeps_hashes_unique(s, ids);
}

/// The name of a date filter as its label shows it.
pub open spec fn filter_name(filter: DateFilter) -> Seq<char> {
    match filter {
        DateFilter::All => "全部记录"@,
        DateFilter::Today => "今天"@,
        DateFilter::Day(d) => d@,
    }
}

/// Law: the number in the filter's label is the number of records the list
/// shows under that filter.
pub proof fn law_label_counts_shown_records(filter: DateFilter, dates: Seq<Seq<char>>, today: Seq<char>)
    ensures
        filter_caption(filter, dates, today) == filter_name(filter) + "（"@ + decimal(
            visible_positions(filter, dates, today).len(),
        ) + "）"@,
{
    match filter {
        DateFilter::All => {
            assert(visible_positions(filter, dates, today).len() == dates.len());
            assert("全部记录（"@ =~= "全部记录"@ + "（"@) by {
                reveal_strlit("全部记录（");
                reveal_strlit("全部记录");
                reveal_strlit("（");
            }
        },
        DateFilter::Today => {
            assert("今天（"@ =~= "今天"@ + "（"@) by {
                reveal_strlit("今天（");
                reveal_strlit("今天");
                reveal_strlit("（");
            }
        },
        DateFilter::Day(d) => {},
    }
}

/// Whether step `i` reports new content or writes content: the steps
/// whose hash the watcher then keeps as the latest.
pub open spec fn marks_hash(last: Seq<char>, ps: Seq<Poll>, i: int) -> bool {
    reported(last, ps, i) || ps[i] is Wrote
}

/// The hash of a step that looks at content or writes it.
pub open spec fn poll_hash(p: Poll) -> Seq<char> {
    match p {
        Poll::Seen(h) => h,
        Poll::Blank => Seq::<char>::empty(),
        Poll::Wrote(h) => h,
    }
}

/// After the latest report or write at `k` (or none, `k == -1`), the
/// watcher keeps that step's hash (or the starting one) up to step `n`.
proof fn lemma_kept_hash(last: Seq<char>, ps: Seq<Poll>, k: int, n: int)
    requires
        -1 <= k < n <= ps.len(),
        k >= 0 ==> marks_hash(last, ps, k),
        forall|m: int| k < m < n ==> !#[trigger] marks_hash(last, ps, m),
    ensures
        hash_after_polls(last, ps.take(n)) == if k >= 0 {
            poll_hash(ps[k])
        } else {
            last
        },
    decreases n,
{
    if n == 0 {
        assert(ps.take(0) =~= Seq::<Poll>::empty());
    } else {
        assert(ps.take(n).drop_last() == ps.take(n - 1));
        if n - 1 > k {
            lemma_kept_hash(last, ps, k, n - 1);
            assert(!marks_hash(last, ps, n - 1));
        }
    }
}

/// Law: the watcher reports each text or picture once: content it reports
/// always has a hash other than that of the latest content it reported or
/// wrote before (or of the hash it started with, when there is none),
/// whatever blank looks or looks at unchanged content come between.
pub proof fn law_reports_differ_from_latest(last: Seq<char>, ps: Seq<Poll>, k: int, j: int)
    requires
        -1 <= k < j < ps.len(),
        k >= 0 ==> marks_hash(last, ps, k),
        forall|m: int| k < m < j ==> !#[trigger] marks_hash(last, ps, m),
        reported(last, ps, j),
    ensures
        poll_hash(ps[j]) != if k >= 0 {
            poll_hash(ps[k])
        } else {
            last
        },
{
    lemma_kept_hash(last, ps, k, j);
}

/// The modifiers that some piece of `pieces` names.
pub open spec fn named_modifiers(pieces: Seq<Seq<char>>) -> Modifiers {
    Modifiers {
        control: means(pieces, PieceMeaning::Modifier(0)),
        alt: means(pieces, PieceMeaning::Modifier(1)),
        shift: means(pieces, PieceMeaning::Modifier(2)),
        super_key: means(pieces, PieceMeaning::Modifier(3)),
    }
}

proof fn lemma_means_push(q: Seq<Seq<char>>, x: Seq<char>, y: PieceMeaning)
    ensures
        means(q.push(x), y) <==> (means(q, y) || meaning(x) == y),
{
    let p = q.push(x);
    if means(p, y) {
        let j = choose|j: int| 0 <= j < p.len() && meaning(#[trigger] p[j]) == y;
        if j < q.len() {
            assert(q[j] == p[j]);
        }
    }
    if means(q, y) {
        let j = choose|j: int| 0 <= j < q.len() && meaning(#[trigger] q[j]) == y;
        assert(p[j] == q[j]);
    }
    if meaning(x) == y {
        assert(p[q.len() as int] == x);
    }
}

/// Reading pieces succeeds exactly when none is unknown and at most one
/// names a main key; it then gives the named modifiers and that key.
proof fn lemma_read_pieces_outcome(p: Seq<Seq<char>>)
    ensures
        read_pieces(p) is Ok <==> (!means(p, PieceMeaning::Unknown) && key_count(p) <= 1),
        match read_pieces(p) {
            Ok((m, ko)) => {
                &&& m == named_modifiers(p)
                &&& (ko is Some <==> key_count(p) == 1)
                &&& (ko matches Some(k) ==> means(p, PieceMeaning::Key(k)))
            },
            Err(_) => true,
        },
    decreases p.len(),
{
    if p.len() == 0 {
        assert(!means(p, PieceMeaning::Unknown));
        assert(named_modifiers(p) == no_modifiers());
    } else {
        let q = p.drop_last();
        let x = p.last();
        assert(p == q.push(x));
        lemma_read_pieces_outcome(q);
        lemma_means_push(q, x, PieceMeaning::Unknown);
        lemma_means_push(q, x, PieceMeaning::Modifier(0));
        lemma_means_push(q, x, PieceMeaning::Modifier(1));
        lemma_means_push(q, x, PieceMeaning::Modifier(2));
        lemma_means_push(q, x, PieceMeaning::Modifier(3));
        match read_pieces(q) {
            Ok((m, ko)) => {
                match ko {
                    Some(k) => lemma_means_push(q, x, PieceMeaning::Key(k)),
                    None => {},
                }
                match meaning(x) {
                    PieceMeaning::Key(c) => lemma_means_push(q, x, PieceMeaning::Key(c)),
                    _ => {},
                }
            },
            Err(_) => {},
        }
    }
}

proof fn lemma_key_count_one(p: Seq<Seq<char>>, a: int)
    requires
        0 <= a < p.len(),
        meaning(p[a]) is Key,
    ensures
        key_count(p) >= 1,
    decreases p.len(),
{
    if a < p.len() - 1 {
        assert(p.drop_last()[a] == p[a]);
        lemma_key_count_one(p.drop_last(), a);
    }
}

proof fn lemma_key_count_two(p: Seq<Seq<char>>, a: int, b: int)
    requires
        0 <= a < b < p.len(),
        meaning(p[a]) is Key,
        meaning(p[b]) is Key,
    ensures
        key_count(p) >= 2,
    decreases p.len(),
{
    let q = p.drop_last();
    assert(q[a] == p[a]);
    if b < p.len() - 1 {
        assert(q[b] == p[b]);
        lemma_key_count_two(q, a, b);
    } else {
        lemma_key_count_one(q, a);
    }
}

/// Law: a hotkey's pieces can come in any order, with white space around
/// them, with empty pieces between them, with a modifier repeated or named
/// by another of its aliases (ctrl/control, alt/option,
/// super/win/meta/cmd): as long as the pieces name the same modifiers and
/// the same single main key, a successful reading gives the same result.
pub proof fn law_hotkey_pieces_order_free(p: Seq<Seq<char>>, q: Seq<Seq<char>>)
    requires
        read_pieces(p) matches Ok((_, Some(_))),
        same_meanings(p, q),
        key_count(q) == 1,
    ensures
        read_pieces(q) == read_pieces(p),
{
    lemma_read_pieces_outcome(p);
    lemma_read_pieces_outcome(q);
    assert(!means(q, PieceMeaning::Unknown)) by {
        assert(PieceMeaning::Unknown != PieceMeaning::Nothing);
    }
    let k = read_pieces(p)->Ok_0.1->Some_0;
    let k2 = read_pieces(q)->Ok_0.1->Some_0;
    assert(means(q, PieceMeaning::Key(k))) by {
        assert(PieceMeaning::Key(k) != PieceMeaning::Nothing);
    }
    let a = choose|j: int| 0 <= j < q.len() && meaning(#[trigger] q[j]) == PieceMeaning::Key(k);
    let b = choose|j: int| 0 <= j < q.len() && meaning(#[trigger] q[j]) == PieceMeaning::Key(k2);
    if a < b {
        lemma_key_count_two(q, a, b);
    } else if b < a {
        lemma_key_count_two(q, b, a);
    }
    assert(named_modifiers(p) == named_modifiers(q)) by {
        assert(means(p, PieceMeaning::Modifier(0)) == means(q, PieceMeaning::Modifier(0)));
        assert(means(p, PieceMeaning::Modifier(1)) == means(q, PieceMeaning::Modifier(1)));
        assert(means(p, PieceMeaning::Modifier(2)) == means(q, PieceMeaning::Modifier(2)));
        assert(means(p, PieceMeaning::Modifier(3)) == means(q, PieceMeaning::Modifier(3)));
    }
}

/// Law: the same for whole hotkey strings (already trimmed and
/// lower-cased): reordering the `+`-separated pieces, adding white space
/// around a `+`, adding empty pieces, repeating a modifier or swapping a
/// modifier alias keeps an accepted hotkey the same, as long as the main
/// key is still named once.
pub proof fn law_hotkey_order_free(s: Seq<char>, t: Seq<char>)
    requires
        hotkey_of(s) is Ok,
        same_meanings(split(s, '+'), split(t, '+')),
        key_count(split(t, '+')) == 1,
    ensures
        hotkey_of(t) == hotkey_of(s),
{
    lemma_read_pieces_outcome(split(s, '+'));
    law_hotkey_pieces_order_free(split(s, '+'), split(t, '+'));
    if t.len() == 0 {
        let e = Seq::<char>::empty();
        assert(split(t, '+') == seq![e]);
        assert(trim(e).len() == 0);
        assert(split(t, '+').drop_last() =~= Seq::<Seq<char>>::empty());
        assert(key_count(split(t, '+')) == 0);
    }
}

/// Characters that lower-case alike are both white space or both not.
proof fn lemma_lower_keeps_white(x: char, y: char)
    requires
        ascii_lower_char(x) == ascii_lower_char(y),
    ensures
        is_white(x) == is_white(y),
{
    let ux = x as u32;
    let uy = y as u32;
    if 65 <= ux <= 90 {
        assert(ascii_lower_char(x) as u32 == ux + 32);
    }
    if 65 <= uy <= 90 {
        assert(ascii_lower_char(y) as u32 == uy + 32);
    }
    if !(65 <= ux <= 90) && !(65 <= uy <= 90) {
        assert(x == y);
    }
}

/// Law: hotkey strings that differ only in the case of ASCII letters are
/// read alike (`parse` reads an ASCII string as `hotkey_of` of its trimmed,
/// ASCII-lower-cased form): `ALT+Shift+V` is `alt+shift+v`.
pub proof fn law_hotkey_ignores_ascii_case(a: Seq<char>, b: Seq<char>)
    requires
        all_ascii(a),
        all_ascii(b),
        ascii_lower(a) == ascii_lower(b),
    ensures
        hotkey_of(ascii_lower(trim(a))) == hotkey_of(ascii_lower(trim(b))),
{
    assert(a.len() == ascii_lower(a).len());
    assert(b.len() == ascii_lower(b).len());
    assert forall|k: int| 0 <= k < a.len() implies is_white(#[trigger] a[k]) == is_white(b[k]) by {
        assert(ascii_lower(a)[k] == ascii_lower(b)[k]);
        assert(ascii_lower(a)[k] == ascii_lower_char(a[k]));
        assert(ascii_lower(b)[k] == ascii_lower_char(b[k]));
        lemma_lower_keeps_white(a[k], b[k]);
    }
    lemma_trim_same_places(a, b);
    lemma_trim_piece(a);
    lemma_trim_piece(b);
    let lo = skip_white(a, 0);
    assert forall|i: int| 0 <= i < trim(a).len() implies ascii_lower(trim(a))[i] == ascii_lower(
        trim(b),
    )[i] by {
        assert(trim(a)[i] == a[lo + i]);
        assert(trim(b)[i] == b[lo + i]);
        assert(ascii_lower(a)[lo + i] == ascii_lower(b)[lo + i]);
        assert(ascii_lower(a)[lo + i] == ascii_lower_char(a[lo + i]));
        assert(ascii_lower(b)[lo + i] == ascii_lower_char(b[lo + i]));
        assert(ascii_lower(trim(a))[i] == ascii_lower_char(trim(a)[i]));
        assert(ascii_lower(trim(b))[i] == ascii_lower_char(trim(b)[i]));
    }
    assert(ascii_lower(trim(a)) =~= ascii_lower(trim(b)));
}

/// Law: a rebuild removes exactly the directory's `.json` files that it did
/// not write, in directory order: the stale list is the directory listing
/// filtered by "ends in `.json` and was not written".
pub proof fn law_stale_archives_are_the_unwritten_json_files(existing: Seq<String>, written: Seq<String>)
    ensures
        stale_names(existing, written) == existing.filter(
            |x: String| is_json_name(x@) && !name_listed(written, x@),
        ),
    decreases existing.len(),
{
    reveal(Seq::filter);
    let pred = |x: String| is_json_name(x@) && !name_listed(written, x@);
    if existing.len() > 0 {
        law_stale_archives_are_the_unwritten_json_files(existing.drop_last(), written);
        assert(existing.filter(pred) == if pred(existing.last()) {
            existing.drop_last().filter(pred).push(existing.last())
        } else {
            existing.drop_last().filter(pred)
        });
    } else {
        assert(existing.filter(pred) == existing);
    }
}

/// Law: no stale archive is left behind: every file of the directory that
/// ends in `.json` and was not written is in the list of files to remove.
pub proof fn law_every_stale_archive_is_removed(existing: Seq<String>, written: Seq<String>, k: int)
    requires
        0 <= k < existing.len(),
        is_json_name(existing[k]@),
        !name_listed(written, existing[k]@),
    ensures
        stale_names(existing, written).contains(existing[k]),
    decreases existing.len(),
{
    let p = existing.drop_last();
    if k < existing.len() - 1 {
        assert(p[k] == existing[k]);
        law_every_stale_archive_is_removed(p, written, k);
        let q = choose|q: int| 0 <= q < stale_names(p, written).len() && stale_names(p, written)[q] == p[k];
        assert(stale_names(existing, written)[q] == stale_names(p, written)[q]);
    } else {
        assert(existing.last() == existing[k]);
        assert(stale_names(existing, written).last() == existing[k]);
    }
}

/// Law: deleting records keeps the others in their order: what remains is
/// the history filtered by "id not listed".
pub proof fn law_delete_keeps_order(s: Seq<ClipItem>, ids: Seq<String>)
    ensures
        without_ids(s, ids) == s.filter(|x: ClipItem| !id_listed(ids, x.id@)),
    decreases s.len(),
{
    reveal(Seq::filter);
    let pred = |x: ClipItem| !id_listed(ids, x.id@);
    if s.len() > 0 {
        law_delete_keeps_order(s.drop_last(), ids);
        assert(s.filter(pred) == if pred(s.last()) {
            s.drop_last().filter(pred).push(s.last())
        } else {
            s.drop_last().filter(pred)
        });
    } else {
        assert(s.filter(pred) == s);
    }
}

/// The pinned and the other records of a concatenation are those of its
/// two parts, in order.
proof fn lemma_parts_append(a: Seq<ClipItem>, b: Seq<ClipItem>)
    ensures
        pinned_part(a + b) == pinned_part(a) + pinned_part(b),
        unpinned_part(a + b) == unpinned_part(a) + unpinned_part(b),
    decreases b.len(),
{
    if b.len() == 0 {
        assert(a + b =~= a);
        assert(pinned_part(a) + pinned_part(b) =~= pinned_part(a));
        assert(unpinned_part(a) + unpinned_part(b) =~= unpinned_part(a));
    } else {
        lemma_parts_append(a, b.drop_last());
        assert((a + b).drop_last() =~= a + b.drop_last());
        assert((a + b).last() == b.last());
        assert(pinned_part(a) + pinned_part(b.drop_last()).push(b.last()) =~= (pinned_part(a)
            + pinned_part(b.drop_last())).push(b.last()));
        assert(unpinned_part(a) + unpinned_part(b.drop_last()).push(b.last()) =~= (unpinned_part(a)
            + unpinned_part(b.drop_last())).push(b.last()));
    }
}

/// Two neighbouring records that are both pinned, or both not, are still
/// neighbours once the records are put in pinned-first order.
proof fn lemma_sorted_keeps_neighbours(u: Seq<ClipItem>, k: int) -> (pos: int)
    requires
        0 <= k,
        k + 1 < u.len(),
        u[k].pinned == u[k + 1].pinned,
    ensures
        0 <= pos,
        pos + 1 < sorted(u).len(),
        sorted(u)[pos] == u[k],
        sorted(u)[pos + 1] == u[k + 1],
{
    let head = u.take(k);
    let pair = seq![u[k], u[k + 1]];
    let tail = u.skip(k + 2);
    assert(u =~= head + pair + tail);
    lemma_parts_append(head + pair, tail);
    lemma_parts_append(head, pair);
    lemma_parts_members(u);
    assert(pair.drop_last() =~= seq![u[k]]);
    assert(seq![u[k]].drop_last() =~= Seq::<ClipItem>::empty());
    assert(pair.last() == u[k + 1]);
    assert(seq![u[k]].last() == u[k]);
    reveal_with_fuel(pinned_part, 3);
    reveal_with_fuel(unpinned_part, 3);
    if u[k].pinned {
        assert(pinned_part(pair) =~= pair);
        let c = pinned_part(head).len() as int;
        assert(pinned_part(u) == pinned_part(head) + pair + pinned_part(tail));
        assert(sorted(u)[c] == pinned_part(u)[c]);
        assert(sorted(u)[c + 1] == pinned_part(u)[c + 1]);
        c
    } else {
        assert(unpinned_part(pair) =~= pair);
        let c = (pinned_part(u).len() + unpinned_part(head).len()) as int;
        assert(unpinned_part(u) == unpinned_part(head) + pair + unpinned_part(tail));
        assert(sorted(u)[c] == unpinned_part(u)[c - pinned_part(u).len()]);
        assert(sorted(u)[c + 1] == unpinned_part(u)[c + 1 - pinned_part(u).len()]);
        c
    }
}

/// Law: a record dropped in front of another one lands right before it,
/// whether it was dragged up or down, as long as the two are both pinned
/// or both not (otherwise the pinned-first order decides); this needs ids
/// to name one record each.
pub proof fn law_move_lands_before_target(s: Seq<ClipItem>, id: Seq<char>, t: Seq<char>)
    requires
        ids_unique(s),
        index_of_id(s, id) >= 0,
        index_of_id(s, t) >= 0,
        id != t,
        s[index_of_id(s, id)].pinned == s[index_of_id(s, t)].pinned,
    ensures
        ({
            let r = moved(s, id, Some(t));
            let i = index_of_id(r, id);
            &&& 0 <= i
            &&& i + 1 < r.len()
            &&& r[i + 1].id@ == t
        }),
{
    lemma_index_of_id_range(s, id);
    lemma_index_of_id_range(s, t);
    let from = index_of_id(s, id);
    let j = index_of_id(s, t);
    let x = s[from];
    let rest = s.remove(from);
    let jr = if j < from {
        j
    } else {
        j - 1
    };
    assert(rest[jr] == s[j]);
    lemma_index_of_id_range(rest, t);
    let k = index_of_id(rest, t);
    assert(k >= 0);
    let kk = if k < from {
        k
    } else {
        k + 1
    };
    assert(rest[k] == s[kk]);
    assert(kk == j);
    let u = rest.insert(k, x);
    assert(moved(s, id, Some(t)) == sorted(u));
    assert(u[k] == x);
    assert(u[k + 1] == rest[k]);
    let pos = lemma_sorted_keeps_neighbours(u, k);
    let r = sorted(u);
    law_move_keeps_records(s, id, Some(t));
    lemma_permutation_keeps_ids_unique(r, s);
    assert forall|q: int| 0 <= q < pos implies (#[trigger] r[q]).id@ != id by {
        if r[q].id@ == id {
            assert(r[q].id@ == r[pos].id@);
        }
    }
    lemma_index_of_id(r, id, pos);
}

/// Law: a record dropped below every other one lands last among the records
/// of its kind: no record after it is pinned when it is, or unpinned when
/// it is not.
pub proof fn law_move_to_end_lands_last_of_its_kind(s: Seq<ClipItem>, id: Seq<char>)
    requires
        ids_unique(s),
        index_of_id(s, id) >= 0,
    ensures
        ({
            let r = moved(s, id, None);
            let i = index_of_id(r, id);
            &&& 0 <= i < r.len()
            &&& forall|q: int| i < q < r.len() ==> (#[trigger] r[q]).pinned != r[i].pinned
        }),
{
    lemma_index_of_id_range(s, id);
    let from = index_of_id(s, id);
    let x = s[from];
    let rest = s.remove(from);
    let u = rest.insert(rest.len() as int, x);
    assert(u =~= rest + seq![x]);
    assert(moved(s, id, None) == sorted(u));
    lemma_parts_append(rest, seq![x]);
    assert(seq![x].drop_last() =~= Seq::<ClipItem>::empty());
    assert(seq![x].last() == x);
    let r = sorted(u);
    lemma_parts_members(u);
    lemma_parts_members(rest);
    let pos = if x.pinned {
        assert(pinned_part(seq![x]) =~= seq![x]);
        assert(unpinned_part(seq![x]) =~= Seq::<ClipItem>::empty());
        let c = pinned_part(rest).len() as int;
        assert(pinned_part(u) =~= pinned_part(rest).push(x));
        assert(r[c] == x);
        assert forall|q: int| c < q < r.len() implies (#[trigger] r[q]).pinned != x.pinned by {
            assert(r[q] == unpinned_part(u)[q - pinned_part(u).len()]);
        }
        c
    } else {
        assert(unpinned_part(seq![x]) =~= seq![x]);
        assert(pinned_part(seq![x]) =~= Seq::<ClipItem>::empty());
        assert(unpinned_part(u) =~= unpinned_part(rest).push(x));
        let c = r.len() - 1;
        assert(r[c] == unpinned_part(u)[unpinned_part(u).len() - 1]);
        c
    };
    law_move_keeps_records(s, id, None);
    lemma_permutation_keeps_ids_unique(r, s);
    assert forall|q: int| 0 <= q < pos implies (#[trigger] r[q]).id@ != id by {
        if r[q].id@ == id {
            assert(r[q].id@ == r[pos].id@);
        }
    }
    lemma_index_of_id(r, id, pos);
}

} // verus!
