//! The state of the history window and what each user action does to it.
//! Drawing, timers and window commands stay with the program around the
//! library; they hand plain values in and carry out the effects returned.
use vstd::prelude::*;
use crate::dates::{
    date_count, group_by_date, grouped, positions_of, positions_with_date, text_lt, texts,
};
use crate::hotkey::normalize;
use crate::model::{preview_of, ClipItem, ClipKind, Settings};
use crate::store::{
    format_ts, new_id, pinned_count, pinned_first, pinned_part, sort_pinned_first, unpinned_part,
};
use crate::text::{chars_of, decimal, decimal_string, lowercase, string_from_chars, trim};

verus! {

/// Position of the first record with id `id`, or -1.
pub open spec fn index_of_id(s: Seq<ClipItem>, id: Seq<char>) -> int
    decreases s.len(),
{
    if s.len() == 0 {
        -1
    } else if s[0].id@ == id {
        0
    } else {
        let r = index_of_id(s.drop_first(), id);
        if r < 0 {
            -1
        } else {
            r + 1
        }
    }
}

pub proof fn lemma_index_of_id(s: Seq<ClipItem>, id: Seq<char>, i: int)
    requires
        0 <= i <= s.len(),
        forall|k: int| 0 <= k < i ==> (#[trigger] s[k]).id@ != id,
    ensures
        i < s.len() && s[i].id@ == id ==> index_of_id(s, id) == i,
        i == s.len() ==> index_of_id(s, id) == -1,
    decreases i,
{
    if i > 0 {
        lemma_index_of_id(s.drop_first(), id, i - 1);
    }
}

pub proof fn lemma_index_of_id_range(s: Seq<ClipItem>, id: Seq<char>)
    ensures
        -1 <= index_of_id(s, id) < s.len(),
        index_of_id(s, id) >= 0 ==> s[index_of_id(s, id)].id@ == id,
        index_of_id(s, id) < 0 ==> forall|k: int| 0 <= k < s.len() ==> (#[trigger] s[k]).id@ != id,
    decreases s.len(),
{
    if s.len() > 0 {
        lemma_index_of_id_range(s.drop_first(), id);
        if s[0].id@ != id && index_of_id(s, id) < 0 {
            assert forall|k: int| 0 <= k < s.len() implies (#[trigger] s[k]).id@ != id by {
                if k > 0 {
                    assert(s[k] == s.drop_first()[k - 1]);
                }
            }
        }
    }
}

/// Position of the first record whose id is `id`.
pub fn find_id(items: &Vec<ClipItem>, id: &String) -> (r: Option<usize>)
    ensures
        match r {
            Some(i) => i as int == index_of_id(items@, id@),
            None => index_of_id(items@, id@) == -1,
        },
{
    let n = items.len();
    let mut i: usize = 0;
    while i < n
        invariant
            i <= n == items@.len(),
            forall|k: int| 0 <= k < i ==> (#[trigger] items@[k]).id@ != id@,
        decreases n - i,
    {
        if items[i].id == *id {
            proof {
                lemma_index_of_id(items@, id@, i as int);
            }
            return Some(i);
        }
        i = i + 1;
    }
    proof {
        lemma_index_of_id(items@, id@, n as int);
    }
    None
}

/// `s` in pinned-first order (what `sort_pinned_first` makes of it).
pub open spec fn sorted(s: Seq<ClipItem>) -> Seq<ClipItem> {
    pinned_part(s) + unpinned_part(s)
}

/// `s` with the pin of the first record with id `id` flipped, then sorted.
pub open spec fn pin_toggled(s: Seq<ClipItem>, id: Seq<char>) -> Seq<ClipItem> {
    let i = index_of_id(s, id);
    if i < 0 {
        sorted(s)
    } else {
        sorted(s.update(i, ClipItem { pinned: !s[i].pinned, ..s[i] }))
    }
}

/// `s` after the record with id `id` is dragged in front of the record with
/// id `target` (to the end when there is no target, or the target is not
/// found), then sorted.
pub open spec fn moved(s: Seq<ClipItem>, id: Seq<char>, target: Option<Seq<char>>) -> Seq<ClipItem> {
    let from = index_of_id(s, id);
    if from < 0 {
        s
    } else {
        let rest = s.remove(from);
        let to = match target {
            Some(t) => if index_of_id(rest, t) < 0 {
                rest.len() as int
            } else {
                index_of_id(rest, t)
            },
            None => rest.len() as int,
        };
        sorted(rest.insert(to, s[from]))
    }
}

/// Whether `id` is among the ids in `ids`.
pub open spec fn id_listed(ids: Seq<String>, id: Seq<char>) -> bool {
    exists|k: int| 0 <= k < ids.len() && (#[trigger] ids[k])@ == id
}

/// The records of `s` whose ids are not in `ids`, in order.
pub open spec fn without_ids(s: Seq<ClipItem>, ids: Seq<String>) -> Seq<ClipItem>
    decreases s.len(),
{
    if s.len() == 0 {
        s
    } else if id_listed(ids, s.last().id@) {
        without_ids(s.drop_last(), ids)
    } else {
        without_ids(s.drop_last(), ids).push(s.last())
    }
}

/// The picture files of the image records of `s` whose ids are in `ids`.
pub open spec fn removed_pictures(s: Seq<ClipItem>, ids: Seq<String>) -> Seq<String>
    decreases s.len(),
{
    if s.len() == 0 {
        Seq::<String>::empty()
    } else if id_listed(ids, s.last().id@) && s.last().kind == ClipKind::Image {
        removed_pictures(s.drop_last(), ids).push(s.last().image_path)
    } else {
        removed_pictures(s.drop_last(), ids)
    }
}

/// The ids in `sel` as a set of character sequences.
pub open spec fn id_set(sel: Seq<String>) -> Set<Seq<char>> {
    Set::new(|x: Seq<char>| id_listed(sel, x))
}

/// No id is listed twice (the selection is a set).
pub open spec fn ids_distinct(sel: Seq<String>) -> bool {
    forall|a: int, b: int| 0 <= a < b < sel.len() ==> (#[trigger] sel[a])@ != (#[trigger] sel[b])@
}

/// Appending an id that is not listed keeps the ids distinct.
pub proof fn lemma_push_distinct(sel: Seq<String>, x: String)
    requires
        ids_distinct(sel),
        !id_listed(sel, x@),
    ensures
        ids_distinct(sel.push(x)),
{
    let t = sel.push(x);
    assert forall|a: int, b: int| 0 <= a < b < t.len() implies (#[trigger] t[a])@ != (#[trigger] t[b])@ by {
        assert(t[a] == sel[a]);
        if b < sel.len() {
            assert(t[b] == sel[b]);
        } else {
            assert(t[b] == x);
        }
    }
}

/// Which records the list shows.
#[derive(Debug)]
pub enum DateFilter {
    /// Every record.
    All,
    /// The records of today's date.
    Today,
    /// The records of the given date.
    Day(String),
}

/// The record being dragged.
#[derive(Debug)]
pub struct DragState {
    pub id: String,
}

/// Where a drag ended.
#[derive(Debug)]
pub enum DropPoint {
    /// No pointer position was known: the drag is dropped with no change.
    NoPointer,
    /// Outside the window: the dragged record is deleted.
    OutsideWindow,
    /// Inside the window, in front of the record with this id (or at the
    /// end when `None`).
    Before(Option<String>),
}

/// What the user asked for.
#[derive(Debug)]
pub enum Action {
    Copy(String),
    TogglePin(String),
    ToggleSelect(String),
    SelectAllVisible,
    ClearSelection,
    DeleteSelected,
    SetFilter(DateFilter),
    OpenSettings,
    TogglePanelPin,
    DragStart(String),
    DragStop(DropPoint),
}

/// Work that an action leaves to the program around the library.
#[derive(Debug)]
pub enum Effect {
    /// Put this text on the system clipboard.
    CopyText(String),
    /// Put the picture stored in this file on the system clipboard.
    CopyImage(String),
    /// Delete this picture file.
    DeleteImage(String),
    /// Drop the cached preview of the record with this id.
    ForgetPreview(String),
    /// Keep the window above others (`true`) or not.
    SetOnTop(bool),
}

/// The state of the history window.
#[derive(Debug)]
pub struct App {
    pub items: Vec<ClipItem>,
    pub settings: Settings,
    /// Ids of the selected records.
    pub selected: Vec<String>,
    /// Id of the record last copied, while its "copied" mark shows.
    pub copied: Option<String>,
    pub filter: DateFilter,
    pub show_settings: bool,
    pub draft_hotkey: String,
    pub draft_edge_hide: bool,
    pub settings_error: Option<String>,
    pub hotkey_error: Option<String>,
    pub hotkey_id: Option<u32>,
    pub drag: Option<DragState>,
    pub collapsed: bool,
    pub hidden: bool,
    /// Whether there are changes not yet saved.
    pub dirty: bool,
}

/// The optional id as characters.
pub open spec fn opt_text(t: Option<String>) -> Option<Seq<char>> {
    match t {
        Some(x) => Some(x@),
        None => None,
    }
}

/// The effects that deleting records leaves to the caller: remove their
/// picture files, then drop the cached previews of the deleted ids.
pub open spec fn deletion_effects(pictures: Seq<String>, ids: Seq<String>) -> Seq<Effect> {
    pictures.map_values(|p: String| Effect::DeleteImage(p)) + ids.map_values(
        |i: String| Effect::ForgetPreview(i),
    )
}

/// The settings and the settings dialog are the same in both.
pub open spec fn same_settings(a: App, b: App) -> bool {
    &&& a.settings == b.settings
    &&& a.show_settings == b.show_settings
    &&& a.draft_hotkey == b.draft_hotkey
    &&& a.draft_edge_hide == b.draft_edge_hide
    &&& a.settings_error == b.settings_error
    &&& a.hotkey_error == b.hotkey_error
    &&& a.hotkey_id == b.hotkey_id
}

/// The filter and the window's shown/hidden state are the same in both.
pub open spec fn same_view(a: App, b: App) -> bool {
    &&& a.filter == b.filter
    &&& a.collapsed == b.collapsed
    &&& a.hidden == b.hidden
}

/// The selection, the copied mark and the drag are the same in both.
pub open spec fn same_marks(a: App, b: App) -> bool {
    &&& a.selected@ == b.selected@
    &&& a.copied == b.copied
    &&& a.drag == b.drag
}

impl App {
    /// Flips the pin of the record with id `id`, then restores the
    /// pinned-first order.
    pub fn toggle_pin(&mut self, id: &String)
        ensures
            final(self).items@ == pin_toggled(old(self).items@, id@),
            pinned_first(final(self).items@),
            final(self).dirty,
            same_settings(*final(self), *old(self)),
            same_view(*final(self), *old(self)),
            same_marks(*final(self), *old(self)),
    {
        proof {
            lemma_index_of_id_range(self.items@, id@);
        }
        match find_id(&self.items, id) {
            Some(i) => {
                let ghost s = self.items@;
                let mut it = self.items.remove(i);
                it.pinned = !it.pinned;
                self.items.insert(i, it);
                assert(self.items@ =~= s.update(i as int, ClipItem { pinned: !s[i as int].pinned, ..s[i as int] }));
            },
            None => {},
        }
        sort_pinned_first(&mut self.items);
        self.dirty = true;
    }

    /// Moves the record with id `id` in front of the record with id
    /// `target` (to the end when `target` is `None` or not found), then
    /// restores the pinned-first order. Nothing happens when no record has
    /// id `id`.
    pub fn reorder(&mut self, id: &String, target: &Option<String>)
        ensures
            final(self).items@ == moved(old(self).items@, id@, opt_text(*target)),
            final(self).dirty == (old(self).dirty || index_of_id(old(self).items@, id@) >= 0),
            same_settings(*final(self), *old(self)),
            same_view(*final(self), *old(self)),
            same_marks(*final(self), *old(self)),
    {
        proof {
            lemma_index_of_id_range(self.items@, id@);
        }
        let from = match find_id(&self.items, id) {
            Some(i) => i,
            None => {
                return;
            },
        };
        let ghost s = self.items@;
        let item = self.items.remove(from);
        let ghost rest = self.items@;
        let to = match target {
            Some(t) => match find_id(&self.items, t) {
                Some(k) => k,
                None => self.items.len(),
            },
            None => self.items.len(),
        };
        proof {
            match target {
                Some(t) => lemma_index_of_id_range(rest, t@),
                None => {},
            }
        }
        let to = if to < self.items.len() {
            to
        } else {
            self.items.len()
        };
        self.items.insert(to, item);
        sort_pinned_first(&mut self.items);
        self.dirty = true;
    }

    /// Deletes the records whose ids are in `ids`, drops those ids from the
    /// selection, and returns the picture files to delete and the previews
    /// to forget. Nothing happens when `ids` is empty.
    pub fn delete_ids(&mut self, ids: &Vec<String>) -> (effects: Vec<Effect>)
        ensures
            ids@.len() == 0 ==> effects@.len() == 0 && final(self).items@ == old(self).items@
                && final(self).selected@ == old(self).selected@ && final(self).dirty == old(self).dirty,
            ids@.len() > 0 ==> {
                &&& final(self).items@ == without_ids(old(self).items@, ids@)
                &&& effects@ == deletion_effects(removed_pictures(old(self).items@, ids@), ids@)
                &&& id_set(final(self).selected@) == id_set(old(self).selected@).difference(
                    id_set(ids@),
                )
                &&& final(self).dirty
            },
            ids_distinct(old(self).selected@) ==> ids_distinct(final(self).selected@),
            same_settings(*final(self), *old(self)),
            same_view(*final(self), *old(self)),
            final(self).copied == old(self).copied,
            final(self).drag == old(self).drag,
    {
        let mut effects: Vec<Effect> = Vec::new();
        if ids.len() == 0 {
            return effects;
        }
        let ghost s = self.items@;
        let ghost s0 = *self;
        let mut kept: Vec<ClipItem> = Vec::new();
        let n = self.items.len();
        let mut i: usize = 0;
        while i < n
            invariant
                i <= n == s.len(),
                self.items@ == s,
                kept@ == without_ids(s.take(i as int), ids@),
                effects@ == removed_pictures(s.take(i as int), ids@).map_values(
                    |p: String| Effect::DeleteImage(p),
                ),
            decreases n - i,
        {
            proof {
                assert(s.take(i as int + 1).drop_last() == s.take(i as int));
            }
            let listed = id_in(ids, &self.items[i].id);
            if listed {
                if self.items[i].kind == ClipKind::Image {
                    effects.push(Effect::DeleteImage(self.items[i].image_path.clone()));
                }
            } else {
                kept.push(self.items[i].duplicate());
            }
            i = i + 1;
            assert(effects@ =~= removed_pictures(s.take(i as int), ids@).map_values(
                |p: String| Effect::DeleteImage(p),
            ));
        }
        assert(s.take(n as int) == s);
        self.items = kept;
        let ghost pictures = effects@;
        let ghost sel0 = self.selected@;
        let m = ids.len();
        let mut j: usize = 0;
        while j < m
            invariant
                j <= m == ids@.len(),
                effects@ == pictures + ids@.take(j as int).map_values(|x: String| Effect::ForgetPreview(x)),
                id_set(self.selected@) == id_set(sel0).difference(id_set(ids@.take(j as int))),
                ids_distinct(sel0) ==> ids_distinct(self.selected@),
                self.items@ == without_ids(s, ids@),
                same_settings(*self, s0),
                same_view(*self, s0),
                self.copied == s0.copied,
                self.drag == s0.drag,
            decreases m - j,
        {
            let ghost before = self.selected@;
            self.remove_from_selection(&ids[j]);
            effects.push(Effect::ForgetPreview(ids[j].clone()));
            proof {
                assert(ids@.take(j as int + 1) == ids@.take(j as int).push(ids@[j as int]));
                assert(effects@ =~= pictures + ids@.take(j as int + 1).map_values(
                    |x: String| Effect::ForgetPreview(x),
                ));
                assert(id_set(self.selected@) =~= id_set(sel0).difference(id_set(ids@.take(j as int + 1)))) by {
                    assert forall|x: Seq<char>| id_set(ids@.take(j as int + 1)).contains(x) <==> (id_set(ids@.take(j as int)).contains(x) || x == ids@[j as int]@) by {
                        if id_listed(ids@.take(j as int + 1), x) {
                            let k = choose|k: int| 0 <= k < ids@.take(j as int + 1).len() && (#[trigger] ids@.take(j as int + 1)[k])@ == x;
                            if k < j {
                                assert(ids@.take(j as int)[k] == ids@.take(j as int + 1)[k]);
                            }
                        }
                        if id_listed(ids@.take(j as int), x) {
                            let k = choose|k: int| 0 <= k < ids@.take(j as int).len() && (#[trigger] ids@.take(j as int)[k])@ == x;
                            assert(ids@.take(j as int + 1)[k] == ids@.take(j as int)[k]);
                        }
                        if x == ids@[j as int]@ {
                            assert(ids@.take(j as int + 1)[j as int] == ids@[j as int]);
                        }
                    }
                }
            }
            j = j + 1;
        }
        assert(ids@.take(m as int) == ids@);
        assert(effects@ =~= deletion_effects(removed_pictures(s, ids@), ids@));
        self.dirty = true;
        effects
    }

    /// Takes `id` out of the selection.
    pub fn remove_from_selection(&mut self, id: &String)
        ensures
            id_set(final(self).selected@) == id_set(old(self).selected@).remove(id@),
            ids_distinct(old(self).selected@) ==> ids_distinct(final(self).selected@),
            final(self).items@ == old(self).items@,
            final(self).dirty == old(self).dirty,
            final(self).copied == old(self).copied,
            final(self).drag == old(self).drag,
            same_settings(*final(self), *old(self)),
            same_view(*final(self), *old(self)),
    {
        let ghost sel = self.selected@;
        let mut kept: Vec<String> = Vec::new();
        let n = self.selected.len();
        let mut i: usize = 0;
        while i < n
            invariant
                i <= n == sel.len(),
                self.selected@ == sel,
                forall|x: Seq<char>| id_listed(kept@, x) <==> (x != id@ && id_listed(sel.take(i as int), x)),
                ids_distinct(sel) ==> ids_distinct(kept@),
            decreases n - i,
        {
            let ghost before = kept@;
            assert(forall|x: Seq<char>| #[trigger] id_listed(before, x) <==> (x != id@ && id_listed(sel.take(i as int), x)));
            let keep = self.selected[i] != *id;
            if keep {
                kept.push(self.selected[i].clone());
            }
            proof {
                if keep {
                    assert(kept@ == before.push(sel[i as int]));
                    if ids_distinct(sel) {
                        if id_listed(before, sel[i as int]@) {
                            let q = choose|q: int| 0 <= q < sel.take(i as int).len() && (#[trigger] sel.take(i as int)[q])@ == sel[i as int]@;
                            assert(sel[q] == sel.take(i as int)[q]);
                        }
                        lemma_push_distinct(before, sel[i as int]);
                    }
                } else {
                    assert(kept@ == before);
                }
                assert forall|x: Seq<char>| id_listed(kept@, x) <==> (x != id@ && id_listed(sel.take(i as int + 1), x)) by {
                    if id_listed(kept@, x) {
                        let k = choose|k: int| 0 <= k < kept@.len() && (#[trigger] kept@[k])@ == x;
                        if k < before.len() {
                            assert(kept@[k] == before[k]);
                            assert(id_listed(before, x));
                            let q = choose|q: int| 0 <= q < sel.take(i as int).len() && (#[trigger] sel.take(i as int)[q])@ == x;
                            assert(sel.take(i as int + 1)[q] == sel.take(i as int)[q]);
                        } else {
                            assert(sel.take(i as int + 1)[i as int] == sel[i as int]);
                        }
                    }
                    if x != id@ && id_listed(sel.take(i as int + 1), x) {
                        let q = choose|q: int| 0 <= q < sel.take(i as int + 1).len() && (#[trigger] sel.take(i as int + 1)[q])@ == x;
                        if q < i {
                            assert(sel.take(i as int)[q] == sel.take(i as int + 1)[q]);
                            assert(id_listed(sel.take(i as int), x));
                            assert(id_listed(before, x));
                            let k = choose|k: int| 0 <= k < before.len() && (#[trigger] before[k])@ == x;
                            assert(kept@[k] == before[k]);
                        } else {
                            assert(sel.take(i as int + 1)[q] == sel[i as int]);
                            assert(kept@[before.len() as int]@ == x);
                        }
                    }
                }
            }
            i = i + 1;
        }
        assert(sel.take(n as int) == sel);
        self.selected = kept;
        assert(id_set(self.selected@) =~= id_set(sel).remove(id@));
    }

    /// Adds `id` to the selection (once).
    pub fn add_to_selection(&mut self, id: &String)
        ensures
            id_set(final(self).selected@) == id_set(old(self).selected@).insert(id@),
            ids_distinct(old(self).selected@) ==> ids_distinct(final(self).selected@),
            final(self).items@ == old(self).items@,
            final(self).dirty == old(self).dirty,
            final(self).copied == old(self).copied,
            final(self).drag == old(self).drag,
            same_settings(*final(self), *old(self)),
            same_view(*final(self), *old(self)),
    {
        let ghost sel = self.selected@;
        if !id_in(&self.selected, id) {
            self.selected.push(id.clone());
            proof {
                if ids_distinct(sel) {
                    lemma_push_distinct(sel, *id);
                }
            }
            assert forall|x: Seq<char>| id_listed(self.selected@, x) <==> (id_listed(sel, x) || x == id@) by {
                if id_listed(self.selected@, x) {
                    let k = choose|k: int| 0 <= k < self.selected@.len() && (#[trigger] self.selected@[k])@ == x;
                    if k < sel.len() {
                        assert(self.selected@[k] == sel[k]);
                    }
                }
                if id_listed(sel, x) {
                    let k = choose|k: int| 0 <= k < sel.len() && (#[trigger] sel[k])@ == x;
                    assert(self.selected@[k] == sel[k]);
                }
                if x == id@ {
                    assert(self.selected@[sel.len() as int]@ == x);
                }
            }
        }
        assert(id_set(self.selected@) =~= id_set(sel).insert(id@));
    }

    /// Selects the record `id` when it is not selected, and unselects it
    /// when it is.
    pub fn toggle_select(&mut self, id: &String)
        ensures
            id_set(final(self).selected@) == if id_set(old(self).selected@).contains(id@) {
                id_set(old(self).selected@).remove(id@)
            } else {
                id_set(old(self).selected@).insert(id@)
            },
            ids_distinct(old(self).selected@) ==> ids_distinct(final(self).selected@),
            final(self).items@ == old(self).items@,
            final(self).dirty == old(self).dirty,
            final(self).copied == old(self).copied,
            final(self).drag == old(self).drag,
            same_settings(*final(self), *old(self)),
            same_view(*final(self), *old(self)),
    {
        if id_in(&self.selected, id) {
            self.remove_from_selection(id);
        } else {
            self.add_to_selection(id);
        }
    }
}

/// Whether some string in `ids` has the characters of `id`.
pub fn id_in(ids: &Vec<String>, id: &String) -> (b: bool)
    ensures
        b == id_listed(ids@, id@),
{
    let n = ids.len();
    let mut k: usize = 0;
    while k < n
        invariant
            k <= n == ids@.len(),
            forall|q: int| 0 <= q < k ==> (#[trigger] ids@[q])@ != id@,
        decreases n - k,
    {
        if ids[k] == *id {
            return true;
        }
        k = k + 1;
    }
    false
}

/// What copying the record with id `id` asks of the clipboard.
pub open spec fn copy_effects(s: Seq<ClipItem>, id: Seq<char>) -> Seq<Effect> {
    let i = index_of_id(s, id);
    if i < 0 {
        Seq::<Effect>::empty()
    } else {
        match s[i].kind {
            ClipKind::Text => seq![Effect::CopyText(s[i].text)],
            ClipKind::Image => seq![Effect::CopyImage(s[i].image_path)],
        }
    }
}

/// The positions the list shows under `filter`, given each record's local
/// date and today's date.
pub open spec fn visible_positions(
    filter: DateFilter,
    dates: Seq<Seq<char>>,
    today: Seq<char>,
) -> Seq<usize> {
    match filter {
        DateFilter::All => Seq::new(dates.len(), |i: int| i as usize),
        DateFilter::Today => positions_of(dates, today, dates.len() as int),
        DateFilter::Day(d) => positions_of(dates, d@, dates.len() as int),
    }
}

/// The ids of the records at the given positions, as a set.
pub open spec fn ids_at(s: Seq<ClipItem>, positions: Seq<usize>) -> Set<Seq<char>> {
    Set::new(|x: Seq<char>| exists|k: int| 0 <= k < positions.len() && s[#[trigger] positions[k] as int].id@ == x)
}

/// Whether some record of `s` has content hash `h`.
pub open spec fn hash_listed(s: Seq<ClipItem>, h: Seq<char>) -> bool {
    exists|k: int| 0 <= k < s.len() && (#[trigger] s[k]).hash@ == h
}

/// The label of the date filter: its name and how many records it shows.
pub open spec fn filter_caption(filter: DateFilter, dates: Seq<Seq<char>>, today: Seq<char>) -> Seq<char> {
    match filter {
        DateFilter::All => "全部记录（"@ + decimal(dates.len()) + "）"@,
        DateFilter::Today => "今天（"@ + decimal(date_count(dates, today)) + "）"@,
        DateFilter::Day(d) => d@ + "（"@ + decimal(date_count(dates, d@)) + "）"@,
    }
}

/// The message shown when the configured hotkey could not be registered.
pub open spec fn startup_hotkey_message(err: Seq<char>) -> Seq<char> {
    err + "（可在设置中更换，或使用 ClipRail --toggle）"@
}

/// Whether `d` is among the dates of the list.
pub open spec fn date_listed(r: Seq<(String, usize)>, d: Seq<char>) -> bool {
    exists|k: int| 0 <= k < r.len() && (#[trigger] r[k]).0@ == d
}

/// The number of pinned records.
pub fn count_pinned(items: &Vec<ClipItem>) -> (c: usize)
    ensures
        c == pinned_count(items@),
{
    let ghost s = items@;
    let n = items.len();
    let mut c: usize = 0;
    let mut i: usize = 0;
    while i < n
        invariant
            i <= n == s.len(),
            s == items@,
            c == pinned_count(s.take(i as int)),
            c <= i,
        decreases n - i,
    {
        assert(s.take(i as int + 1).drop_last() == s.take(i as int));
        if items[i].pinned {
            c = c + 1;
        }
        i = i + 1;
    }
    assert(s.take(n as int) == s);
    c
}

/// Whether some record has content hash `h`.
pub fn has_hash(items: &Vec<ClipItem>, h: &String) -> (b: bool)
    ensures
        b == hash_listed(items@, h@),
{
    let n = items.len();
    let mut k: usize = 0;
    while k < n
        invariant
            k <= n == items@.len(),
            forall|q: int| 0 <= q < k ==> (#[trigger] items@[q]).hash@ != h@,
        decreases n - k,
    {
        if items[k].hash == *h {
            return true;
        }
        k = k + 1;
    }
    false
}

impl App {
    /// The state at start-up: `items` as loaded, nothing selected, every
    /// record shown, and the outcome of registering the configured hotkey
    /// (its id, or why it failed).
    pub fn new(settings: Settings, items: Vec<ClipItem>, registration: Result<u32, String>) -> (a: App)
        ensures
            a.items@ == items@,
            a.settings == settings,
            a.selected@.len() == 0,
            a.copied is None,
            a.filter == DateFilter::All,
            !a.show_settings,
            a.draft_hotkey == settings.hotkey,
            a.draft_edge_hide == settings.edge_hide,
            a.settings_error is None,
            match registration {
                Ok(id) => a.hotkey_id == Some(id) && a.hotkey_error is None,
                Err(e) => a.hotkey_id is None && (a.hotkey_error matches Some(m) && m@
                    == startup_hotkey_message(e@)),
            },
            a.drag is None,
            !a.collapsed,
            !a.hidden,
            !a.dirty,
    {
        let (hotkey_id, hotkey_error) = match registration {
            Ok(id) => (Some(id), None),
            Err(e) => {
                let mut m = e;
                m.append("（可在设置中更换，或使用 ClipRail --toggle）");
                (None, Some(m))
            },
        };
        App {
            draft_hotkey: settings.hotkey.clone(),
            draft_edge_hide: settings.edge_hide,
            items,
            settings,
            selected: Vec::new(),
            copied: None,
            filter: DateFilter::All,
            show_settings: false,
            settings_error: None,
            hotkey_error,
            hotkey_id,
            drag: None,
            collapsed: false,
            hidden: false,
            dirty: false,
        }
    }

    /// Adds a new record right after the pinned ones, unless a record with
    /// the same content hash is already there. Returns whether it was added.
    pub fn insert_clip(&mut self, item: ClipItem) -> (added: bool)
        ensures
            added == !hash_listed(old(self).items@, item.hash@),
            added ==> final(self).items@ == old(self).items@.insert(pinned_count(old(self).items@) as int, item)
                && final(self).dirty,
            !added ==> final(self).items@ == old(self).items@ && final(self).dirty == old(self).dirty,
            same_settings(*final(self), *old(self)),
            same_view(*final(self), *old(self)),
            same_marks(*final(self), *old(self)),
    {
        if has_hash(&self.items, &item.hash) {
            return false;
        }
        let position = count_pinned(&self.items);
        proof {
            crate::store::lemma_parts_members(self.items@);
        }
        self.items.insert(position, item);
        self.dirty = true;
        true
    }

    /// Adds a text record for newly copied `text` with content hash `hash`,
    /// stamped with the time `now` (UNIX seconds, read from the clock by the
    /// caller), unless a record with the same hash is already there. Returns
    /// whether it was added.
    pub fn add_text_clip(&mut self, text: String, hash: String, now: i64) -> (added: bool)
        ensures
            added == !hash_listed(old(self).items@, hash@),
            added ==> exists|it: ClipItem|
                {
                    &&& final(self).items@ == old(self).items@.insert(
                        pinned_count(old(self).items@) as int,
                        it,
                    )
                    &&& it.kind == ClipKind::Text
                    &&& it.text == text
                    &&& it.hash == hash
                    &&& it.image_path@.len() == 0
                    &&& !it.pinned
                    &&& it.width == 0 && it.height == 0
                    &&& it.id@ == crate::store::id_text(now as int, hash@)
                    &&& it.created == now
                },
            added ==> final(self).dirty,
            !added ==> final(self).items@ == old(self).items@ && final(self).dirty == old(self).dirty,
            same_settings(*final(self), *old(self)),
            same_view(*final(self), *old(self)),
            same_marks(*final(self), *old(self)),
    {
        if has_hash(&self.items, &hash) {
            return false;
        }
        let id = new_id(now, hash.as_str());
        let item = ClipItem::new_text(id, text, hash, now);
        self.insert_clip(item)
    }

    /// The id for a new picture record with content hash `hash`, made at
    /// the time `now`; `None` when a record with that hash is already there,
    /// in which case the picture is not saved at all.
    pub fn new_image_id(&self, hash: &String, now: i64) -> (r: Option<String>)
        ensures
            r is None <==> hash_listed(self.items@, hash@),
            r matches Some(id) ==> id@ == crate::store::id_text(now as int, hash@),
    {
        if has_hash(&self.items, hash) {
            None
        } else {
            Some(new_id(now, hash.as_str()))
        }
    }

    /// Adds a picture record with id `id` whose picture was saved at
    /// `image_path`, stamped with the time `now`, unless a record with the
    /// same content hash is already there. Returns whether it was added.
    pub fn add_image_clip(
        &mut self,
        id: String,
        image_path: String,
        hash: String,
        width: u32,
        height: u32,
        now: i64,
    ) -> (added: bool)
        ensures
            added == !hash_listed(old(self).items@, hash@),
            added ==> exists|it: ClipItem|
                {
                    &&& final(self).items@ == old(self).items@.insert(
                        pinned_count(old(self).items@) as int,
                        it,
                    )
                    &&& it.id == id
                    &&& it.kind == ClipKind::Image
                    &&& it.image_path == image_path
                    &&& it.hash == hash
                    &&& it.text@.len() == 0
                    &&& !it.pinned
                    &&& it.width == width && it.height == height
                    &&& it.created == now
                },
            added ==> final(self).dirty,
            !added ==> final(self).items@ == old(self).items@ && final(self).dirty == old(self).dirty,
            same_settings(*final(self), *old(self)),
            same_view(*final(self), *old(self)),
            same_marks(*final(self), *old(self)),
    {
        let item = ClipItem::new_image(id, image_path, hash, now, width, height);
        self.insert_clip(item)
    }

    /// Marks the record with id `id` as copied and asks for its content to
    /// be put on the clipboard. Nothing happens when no record has that id.
    pub fn copy_to_clipboard(&mut self, id: &String) -> (effects: Vec<Effect>)
        ensures
            effects@ == copy_effects(old(self).items@, id@),
            index_of_id(old(self).items@, id@) >= 0 ==> (final(self).copied matches Some(c) && c@ == id@),
            index_of_id(old(self).items@, id@) < 0 ==> final(self).copied == old(self).copied,
            final(self).items@ == old(self).items@,
            final(self).selected@ == old(self).selected@,
            final(self).drag == old(self).drag,
            final(self).dirty == old(self).dirty,
            same_settings(*final(self), *old(self)),
            same_view(*final(self), *old(self)),
    {
        let mut effects: Vec<Effect> = Vec::new();
        proof {
            lemma_index_of_id_range(self.items@, id@);
        }
        match find_id(&self.items, id) {
            None => {},
            Some(i) => {
                let e = match self.items[i].kind {
                    ClipKind::Text => Effect::CopyText(self.items[i].text.clone()),
                    ClipKind::Image => Effect::CopyImage(self.items[i].image_path.clone()),
                };
                effects.push(e);
                self.copied = Some(self.items[i].id.clone());
                assert(effects@ =~= copy_effects(self.items@, id@));
            },
        }
        effects
    }

    /// Selects every record at the given positions.
    pub fn select_positions(&mut self, positions: &Vec<usize>)
        requires
            forall|k: int| 0 <= k < positions@.len() ==> (#[trigger] positions@[k]) < old(self).items@.len(),
        ensures
            id_set(final(self).selected@) == id_set(old(self).selected@).union(ids_at(old(self).items@, positions@)),
            ids_distinct(old(self).selected@) ==> ids_distinct(final(self).selected@),
            final(self).items@ == old(self).items@,
            final(self).dirty == old(self).dirty,
            final(self).copied == old(self).copied,
            final(self).drag == old(self).drag,
            same_settings(*final(self), *old(self)),
            same_view(*final(self), *old(self)),
    {
        let ghost s0 = *self;
        let n = positions.len();
        let mut k: usize = 0;
        while k < n
            invariant
                k <= n == positions@.len(),
                forall|q: int| 0 <= q < positions@.len() ==> (#[trigger] positions@[q]) < s0.items@.len(),
                id_set(self.selected@) == id_set(s0.selected@).union(ids_at(s0.items@, positions@.take(k as int))),
                ids_distinct(s0.selected@) ==> ids_distinct(self.selected@),
                self.items@ == s0.items@,
                self.dirty == s0.dirty,
                self.copied == s0.copied,
                self.drag == s0.drag,
                same_settings(*self, s0),
                same_view(*self, s0),
            decreases n - k,
        {
            let p = positions[k];
            let id = self.items[p].id.clone();
            self.add_to_selection(&id);
            proof {
                let t0 = positions@.take(k as int);
                let t1 = positions@.take(k as int + 1);
                assert forall|x: Seq<char>| ids_at(s0.items@, t1).contains(x) <==> (ids_at(s0.items@, t0).contains(x) || x == id@) by {
                    if ids_at(s0.items@, t1).contains(x) {
                        let q = choose|q: int| 0 <= q < t1.len() && s0.items@[#[trigger] t1[q] as int].id@ == x;
                        if q < k {
                            assert(t0[q] == t1[q]);
                        }
                    }
                    if ids_at(s0.items@, t0).contains(x) {
                        let q = choose|q: int| 0 <= q < t0.len() && s0.items@[#[trigger] t0[q] as int].id@ == x;
                        assert(t1[q] == t0[q]);
                    }
                    if x == id@ {
                        assert(t1[k as int] == p);
                    }
                }
                assert(id_set(self.selected@) =~= id_set(s0.selected@).union(ids_at(s0.items@, t1)));
            }
            k = k + 1;
        }
        assert(positions@.take(n as int) == positions@);
    }

    /// Empties the selection.
    pub fn clear_selection(&mut self)
        ensures
            final(self).selected@.len() == 0,
            final(self).items@ == old(self).items@,
            final(self).dirty == old(self).dirty,
            final(self).copied == old(self).copied,
            final(self).drag == old(self).drag,
            same_settings(*final(self), *old(self)),
            same_view(*final(self), *old(self)),
    {
        self.selected = Vec::new();
    }

    /// The positions of the records the list shows. `dates[i]` is the local
    /// date of record `i` and `today` is today's date.
    pub fn visible_indices(&self, dates: &[String], today: &str) -> (r: Vec<usize>)
        requires
            dates@.len() == self.items@.len(),
        ensures
            r@ == visible_positions(self.filter, texts(dates@), today@),
    {
        match &self.filter {
            DateFilter::All => {
                let n = dates.len();
                let mut r: Vec<usize> = Vec::new();
                let mut i: usize = 0;
                while i < n
                    invariant
                        i <= n == dates@.len(),
                        r@ == Seq::new(i as nat, |k: int| k as usize),
                    decreases n - i,
                {
                    r.push(i);
                    i = i + 1;
                    assert(r@ =~= Seq::new(i as nat, |k: int| k as usize));
                }
                r
            },
            DateFilter::Today => positions_with_date(dates, today),
            DateFilter::Day(d) => positions_with_date(dates, d.as_str()),
        }
    }

    /// How many records carry the date `date`.
    pub fn count_for_date(&self, dates: &[String], date: &str) -> (c: usize)
        requires
            dates@.len() == self.items@.len(),
        ensures
            c == date_count(texts(dates@), date@),
    {
        let r = positions_with_date(dates, date);
        let n = dates.len();
        proof {
            crate::dates::lemma_positions_of_members(texts(dates@), date@, n as int);
        }
        r.len()
    }

    /// The label of the current date filter, such as `今天（3）`.
    pub fn filter_label(&self, dates: &[String], today: &str) -> (l: String)
        requires
            dates@.len() == self.items@.len(),
        ensures
            l@ == filter_caption(self.filter, texts(dates@), today@),
    {
        match &self.filter {
            DateFilter::All => {
                let mut l = String::from_str("全部记录（");
                l.append(decimal_string(self.items.len() as u64).as_str());
                l.append("）");
                l
            },
            DateFilter::Today => {
                let c = self.count_for_date(dates, today);
                let mut l = String::from_str("今天（");
                l.append(decimal_string(c as u64).as_str());
                l.append("）");
                l
            },
            DateFilter::Day(d) => {
                let c = self.count_for_date(dates, d.as_str());
                let mut l = d.clone();
                l.append("（");
                l.append(decimal_string(c as u64).as_str());
                l.append("）");
                l
            },
        }
    }

    /// Every date that has records, latest first, with how many records it
    /// has.
    pub fn date_options(&self, dates: &[String]) -> (r: Vec<(String, usize)>)
        requires
            dates@.len() == self.items@.len(),
        ensures
            forall|a: int, b: int| 0 <= a < b < r@.len() ==> text_lt(#[trigger] r@[b].0@, #[trigger] r@[a].0@),
            forall|k: int| 0 <= k < r@.len() ==> (#[trigger] r@[k]).1 == date_count(texts(dates@), r@[k].0@)
                && r@[k].1 > 0,
            forall|i: int| 0 <= i < dates@.len() ==> #[trigger] date_listed(r@, texts(dates@)[i]),
    {
        let groups = group_by_date(dates);
        let ghost g = groups@;
        let ghost dd = texts(dates@);
        let m = groups.len();
        let mut r: Vec<(String, usize)> = Vec::new();
        let mut k: usize = 0;
        while k < m
            invariant
                k <= m == g.len(),
                groups@ == g,
                grouped(dd, dd.len() as int, g),
                dd == texts(dates@),
                r@.len() == k,
                forall|q: int| 0 <= q < k ==> (#[trigger] r@[q]).0@ == g[m - 1 - q].date@ && r@[q].1
                    == g[m - 1 - q].positions@.len(),
            decreases m - k,
        {
            let src = &groups[m - 1 - k];
            r.push((src.date.clone(), src.positions.len()));
            k = k + 1;
        }
        proof {
            assert forall|a: int, b: int| 0 <= a < b < r@.len() implies text_lt(#[trigger] r@[b].0@, #[trigger] r@[a].0@) by {
                assert(text_lt(g[m - 1 - b].date@, g[m - 1 - a].date@));
            }
            assert forall|i: int| 0 <= i < dd.len() implies #[trigger] date_listed(r@, dd[i]) by {
                let q = choose|q: int| #![trigger g[q]] 0 <= q < g.len() && g[q].date@ == dd[i];
                let w = m - 1 - q;
                assert(r@[w].0@ == g[m - 1 - w].date@);
                assert(0 <= w < r@.len() && r@[w].0@ == dd[i]);
            }
        }
        r
    }
}

/// What the window should do.
#[derive(Clone, Copy, Debug, PartialEq, Eq, Structural)]
pub enum PanelCommand {
    /// Nothing changes.
    Nothing,
    /// Restore the panel at its place and size, show and focus it.
    Show,
    /// Shrink the panel to a thin strip at the nearest screen edge.
    CollapseToEdge,
    /// Hide the window.
    Hide,
}

/// Whether the panel is hidden and whether it is collapsed after a toggle
/// from the given state, with edge hiding on or off.
pub open spec fn panel_after_toggle(hidden: bool, collapsed: bool, edge_hide: bool) -> (bool, bool) {
    if hidden || collapsed {
        (false, false)
    } else if edge_hide {
        (false, true)
    } else {
        (true, false)
    }
}

/// What the auto-hide check decided.
#[derive(Clone, Copy, Debug, PartialEq, Eq, Structural)]
pub struct AutoHide {
    /// The panel is in use: restart the inactivity timer.
    pub keep_alive: bool,
    pub command: PanelCommand,
}

/// What a global hotkey event leads to.
#[derive(Clone, Copy, Debug, PartialEq, Eq, Structural)]
pub enum HotkeyPress {
    /// The event belongs to another hotkey.
    Ignored,
    /// Too soon after the previous one (press and release both report):
    /// restart the timer only.
    Debounced,
    /// Show or hide the panel, and restart the timer.
    Toggle,
}

/// Milliseconds within which a second global hotkey event is ignored.
pub const HOTKEY_DEBOUNCE_MS: u64 = 250;
/// Milliseconds within which a second in-window hotkey press is ignored.
pub const LOCAL_HOTKEY_DEBOUNCE_MS: u64 = 200;
/// Milliseconds the panel stays after it was shown before it may hide.
pub const SHOW_GRACE_MS: u64 = 400;
/// Milliseconds of inactivity after which the panel hides.
pub const HIDE_DELAY_MS: u64 = 650;
/// Milliseconds the "copied" mark stays.
pub const COPIED_MS: u64 = 1000;
/// Milliseconds between two saves of pending changes.
pub const PERSIST_INTERVAL_MS: u64 = 700;

/// Milliseconds between two looks for the `--toggle` marker file.
pub const TOGGLE_CHECK_MS: u64 = 250;

/// Whether it is time to look for the `--toggle` marker file again.
pub fn toggle_check_due(ms_since_check: u64) -> (b: bool)
    ensures
        b == (ms_since_check >= TOGGLE_CHECK_MS),
{
    ms_since_check >= TOGGLE_CHECK_MS
}

/// Whether an in-window press of the hotkey shows or hides the panel.
pub fn local_hotkey_fires(pressed: bool, ms_since_last: u64) -> (b: bool)
    ensures
        b == (pressed && ms_since_last > LOCAL_HOTKEY_DEBOUNCE_MS),
{
    pressed && ms_since_last > LOCAL_HOTKEY_DEBOUNCE_MS
}

impl App {
    /// Shows the records of another date filter.
    pub fn set_filter(&mut self, filter: DateFilter)
        ensures
            final(self).filter == filter,
            final(self).items@ == old(self).items@,
            final(self).dirty == old(self).dirty,
            same_marks(*final(self), *old(self)),
            same_settings(*final(self), *old(self)),
            final(self).collapsed == old(self).collapsed,
            final(self).hidden == old(self).hidden,
    {
        self.filter = filter;
    }

    /// Opens the settings dialog with the current settings as the draft.
    pub fn open_settings(&mut self)
        ensures
            final(self).show_settings,
            final(self).draft_hotkey == old(self).settings.hotkey,
            final(self).draft_edge_hide == old(self).settings.edge_hide,
            final(self).settings_error is None,
            final(self).settings == old(self).settings,
            final(self).hotkey_error == old(self).hotkey_error,
            final(self).hotkey_id == old(self).hotkey_id,
            final(self).items@ == old(self).items@,
            final(self).dirty == old(self).dirty,
            same_marks(*final(self), *old(self)),
            same_view(*final(self), *old(self)),
    {
        self.show_settings = true;
        self.draft_hotkey = self.settings.hotkey.clone();
        self.draft_edge_hide = self.settings.edge_hide;
        self.settings_error = None;
    }

    /// Closes the settings dialog without saving.
    pub fn close_settings(&mut self)
        ensures
            !final(self).show_settings,
            final(self).settings_error is None,
            final(self).settings == old(self).settings,
            final(self).draft_hotkey == old(self).draft_hotkey,
            final(self).draft_edge_hide == old(self).draft_edge_hide,
            final(self).hotkey_error == old(self).hotkey_error,
            final(self).hotkey_id == old(self).hotkey_id,
            final(self).items@ == old(self).items@,
            final(self).dirty == old(self).dirty,
            same_marks(*final(self), *old(self)),
            same_view(*final(self), *old(self)),
    {
        self.show_settings = false;
        self.settings_error = None;
    }

    /// The drafted hotkey as it would be saved: trimmed and lower-cased.
    pub fn settings_draft(&self) -> (d: String)
        ensures
            d@ == lowercase(trim(self.draft_hotkey@)),
    {
        normalize(self.draft_hotkey.as_str())
    }

    /// Takes the outcome of registering the drafted hotkey `draft`: on
    /// success the draft becomes the settings and the dialog closes, and
    /// `true` says that the settings are to be saved; on failure the dialog
    /// shows why.
    pub fn save_settings_draft(&mut self, draft: String, registration: Result<u32, String>) -> (saved: bool)
        ensures
            saved == registration is Ok,
            match registration {
                Ok(id) => {
                    &&& final(self).hotkey_id == Some(id)
                    &&& final(self).hotkey_error is None
                    &&& final(self).settings.hotkey == draft
                    &&& final(self).settings.edge_hide == old(self).draft_edge_hide
                    &&& final(self).settings.panel_pinned == old(self).settings.panel_pinned
                    &&& final(self).settings_error is None
                    &&& !final(self).show_settings
                },
                Err(e) => {
                    &&& final(self).settings_error == Some(e)
                    &&& final(self).settings == old(self).settings
                    &&& final(self).show_settings == old(self).show_settings
                    &&& final(self).hotkey_id == old(self).hotkey_id
                    &&& final(self).hotkey_error == old(self).hotkey_error
                },
            },
            final(self).draft_hotkey == old(self).draft_hotkey,
            final(self).draft_edge_hide == old(self).draft_edge_hide,
            final(self).items@ == old(self).items@,
            final(self).dirty == old(self).dirty,
            same_marks(*final(self), *old(self)),
            same_view(*final(self), *old(self)),
    {
        match registration {
            Ok(id) => {
                self.hotkey_id = Some(id);
                self.hotkey_error = None;
                self.settings.hotkey = draft;
                self.settings.edge_hide = self.draft_edge_hide;
                self.settings_error = None;
                self.show_settings = false;
                true
            },
            Err(e) => {
                self.settings_error = Some(e);
                false
            },
        }
    }

    /// Switches between keeping the panel on top and letting it hide.
    pub fn toggle_panel_pin(&mut self) -> (effects: Vec<Effect>)
        ensures
            final(self).settings.panel_pinned == !old(self).settings.panel_pinned,
            final(self).settings.hotkey == old(self).settings.hotkey,
            final(self).settings.edge_hide == old(self).settings.edge_hide,
            effects@ == seq![Effect::SetOnTop(final(self).settings.panel_pinned)],
            final(self).dirty,
            final(self).items@ == old(self).items@,
            same_marks(*final(self), *old(self)),
            same_view(*final(self), *old(self)),
            final(self).show_settings == old(self).show_settings,
    {
        self.settings.panel_pinned = !self.settings.panel_pinned;
        self.dirty = true;
        let mut effects: Vec<Effect> = Vec::new();
        effects.push(Effect::SetOnTop(self.settings.panel_pinned));
        effects
    }

    /// Ends a drag: outside the window the dragged record is deleted, inside
    /// it is moved; with no pointer position nothing changes. The drag is
    /// over in every case.
    pub fn drag_stop(&mut self, point: DropPoint) -> (effects: Vec<Effect>)
        ensures
            final(self).drag is None,
            match old(self).drag {
                None => effects@.len() == 0 && final(self).items@ == old(self).items@
                    && final(self).selected@ == old(self).selected@,
                Some(d) => match point {
                    DropPoint::NoPointer => effects@.len() == 0 && final(self).items@ == old(
                        self,
                    ).items@ && final(self).selected@ == old(self).selected@,
                    DropPoint::OutsideWindow => {
                        &&& final(self).items@ == without_ids(old(self).items@, seq![d.id])
                        &&& effects@ == deletion_effects(
                            removed_pictures(old(self).items@, seq![d.id]),
                            seq![d.id],
                        )
                        &&& id_set(final(self).selected@) == id_set(old(self).selected@).remove(d.id@)
                    },
                    DropPoint::Before(t) => {
                        &&& final(self).items@ == moved(old(self).items@, d.id@, opt_text(t))
                        &&& effects@.len() == 0
                        &&& final(self).selected@ == old(self).selected@
                    },
                },
            },
            final(self).dirty == match old(self).drag {
                None => old(self).dirty,
                Some(d) => match point {
                    DropPoint::NoPointer => old(self).dirty,
                    DropPoint::OutsideWindow => true,
                    DropPoint::Before(t) => old(self).dirty || index_of_id(old(self).items@, d.id@) >= 0,
                },
            },
            ids_distinct(old(self).selected@) ==> ids_distinct(final(self).selected@),
            same_settings(*final(self), *old(self)),
            same_view(*final(self), *old(self)),
            final(self).copied == old(self).copied,
    {
        let mut effects: Vec<Effect> = Vec::new();
        let taken = self.drag.take();
        match taken {
            None => {},
            Some(d) => match point {
                DropPoint::NoPointer => {},
                DropPoint::OutsideWindow => {
                    let mut ids: Vec<String> = Vec::new();
                    ids.push(d.id);
                    let ghost sel = self.selected@;
                    effects = self.delete_ids(&ids);
                    assert(ids@ == seq![d.id]);
                    proof {
                        assert forall|x: Seq<char>| id_set(ids@).contains(x) <==> x == d.id@ by {
                            if id_set(ids@).contains(x) {
                                let k = choose|k: int| 0 <= k < ids@.len() && (#[trigger] ids@[k])@ == x;
                            }
                            if x == d.id@ {
                                assert(ids@[0]@ == x);
                            }
                        }
                        assert(id_set(sel).difference(id_set(ids@)) =~= id_set(sel).remove(d.id@));
                    }
                },
                DropPoint::Before(t) => {
                    self.reorder(&d.id, &t);
                },
            },
        }
        effects
    }

    /// Shows the panel if it is hidden or collapsed.
    pub fn show_panel(&mut self) -> (c: PanelCommand)
        ensures
            !final(self).hidden && !final(self).collapsed,
            c == if old(self).hidden || old(self).collapsed {
                PanelCommand::Show
            } else {
                PanelCommand::Nothing
            },
            final(self).items@ == old(self).items@,
            same_marks(*final(self), *old(self)),
            same_settings(*final(self), *old(self)),
            final(self).filter == old(self).filter,
            final(self).dirty == old(self).dirty,
    {
        if !self.hidden && !self.collapsed {
            return PanelCommand::Nothing;
        }
        self.hidden = false;
        self.collapsed = false;
        PanelCommand::Show
    }

    /// Hides the panel: to a strip at the screen edge when edge hiding is
    /// on, else entirely. Nothing happens when it is already hidden or
    /// collapsed.
    pub fn hide_panel(&mut self) -> (c: PanelCommand)
        ensures
            old(self).hidden || old(self).collapsed ==> c == PanelCommand::Nothing
                && final(self).hidden == old(self).hidden && final(self).collapsed == old(self).collapsed,
            !old(self).hidden && !old(self).collapsed && old(self).settings.edge_hide ==> c
                == PanelCommand::CollapseToEdge && final(self).collapsed && !final(self).hidden,
            !old(self).hidden && !old(self).collapsed && !old(self).settings.edge_hide ==> c
                == PanelCommand::Hide && final(self).hidden && !final(self).collapsed,
            final(self).items@ == old(self).items@,
            same_marks(*final(self), *old(self)),
            same_settings(*final(self), *old(self)),
            final(self).filter == old(self).filter,
            final(self).dirty == old(self).dirty,
    {
        if self.hidden || self.collapsed {
            return PanelCommand::Nothing;
        }
        if self.settings.edge_hide {
            self.collapsed = true;
            PanelCommand::CollapseToEdge
        } else {
            self.hidden = true;
            PanelCommand::Hide
        }
    }

    /// Shows the panel when it is hidden or collapsed, else hides it.
    pub fn toggle_panel(&mut self) -> (c: PanelCommand)
        ensures
            (final(self).hidden, final(self).collapsed) == panel_after_toggle(
                old(self).hidden,
                old(self).collapsed,
                old(self).settings.edge_hide,
            ),
            old(self).hidden || old(self).collapsed ==> c == PanelCommand::Show && !final(self).hidden
                && !final(self).collapsed,
            !old(self).hidden && !old(self).collapsed && old(self).settings.edge_hide ==> c
                == PanelCommand::CollapseToEdge && final(self).collapsed && !final(self).hidden,
            !old(self).hidden && !old(self).collapsed && !old(self).settings.edge_hide ==> c
                == PanelCommand::Hide && final(self).hidden && !final(self).collapsed,
            final(self).items@ == old(self).items@,
            same_marks(*final(self), *old(self)),
            same_settings(*final(self), *old(self)),
            final(self).filter == old(self).filter,
            final(self).dirty == old(self).dirty,
    {
        if self.hidden || self.collapsed {
            self.show_panel()
        } else {
            self.hide_panel()
        }
    }

    /// Decides whether the panel hides itself. `pointer_inside` tells
    /// whether the pointer is over the window; `busy_elsewhere` whether a
    /// resize, a popup, a pressed button or text entry is under way (a drag
    /// or the settings dialog count as busy too); the two durations are the
    /// milliseconds since the panel was last shown and last in use.
    pub fn update_autohide(
        &mut self,
        pointer_inside: bool,
        busy_elsewhere: bool,
        ms_since_shown: u64,
        ms_since_active: u64,
    ) -> (r: AutoHide)
        ensures
            ({
                let busy = busy_elsewhere || old(self).drag is Some || old(self).show_settings;
                if old(self).hidden {
                    r == AutoHide { keep_alive: false, command: PanelCommand::Nothing }
                        && final(self).hidden == old(self).hidden
                        && final(self).collapsed == old(self).collapsed
                } else if pointer_inside || busy {
                    &&& r.keep_alive
                    &&& if old(self).collapsed && pointer_inside {
                        r.command == PanelCommand::Show && !final(self).collapsed && !final(self).hidden
                    } else {
                        r.command == PanelCommand::Nothing && final(self).collapsed == old(self).collapsed
                            && final(self).hidden == old(self).hidden
                    }
                } else if old(self).settings.panel_pinned || old(self).collapsed || ms_since_shown
                    < SHOW_GRACE_MS || ms_since_active <= HIDE_DELAY_MS {
                    r == AutoHide { keep_alive: false, command: PanelCommand::Nothing }
                        && final(self).hidden == old(self).hidden
                        && final(self).collapsed == old(self).collapsed
                } else if old(self).settings.edge_hide {
                    r == AutoHide { keep_alive: false, command: PanelCommand::CollapseToEdge }
                        && final(self).collapsed && !final(self).hidden
                } else {
                    r == AutoHide { keep_alive: false, command: PanelCommand::Hide }
                        && final(self).hidden && !final(self).collapsed
                }
            }),
            final(self).items@ == old(self).items@,
            same_marks(*final(self), *old(self)),
            same_settings(*final(self), *old(self)),
            final(self).filter == old(self).filter,
            final(self).dirty == old(self).dirty,
    {
        if self.hidden {
            return AutoHide { keep_alive: false, command: PanelCommand::Nothing };
        }
        let busy = busy_elsewhere || self.drag.is_some() || self.show_settings;
        if pointer_inside || busy {
            let command = if self.collapsed && pointer_inside {
                self.show_panel()
            } else {
                PanelCommand::Nothing
            };
            return AutoHide { keep_alive: true, command };
        }
        if self.settings.panel_pinned || self.collapsed {
            return AutoHide { keep_alive: false, command: PanelCommand::Nothing };
        }
        if ms_since_shown < SHOW_GRACE_MS {
            return AutoHide { keep_alive: false, command: PanelCommand::Nothing };
        }
        if ms_since_active > HIDE_DELAY_MS {
            let command = self.hide_panel();
            return AutoHide { keep_alive: false, command };
        }
        AutoHide { keep_alive: false, command: PanelCommand::Nothing }
    }

    /// What a global hotkey event with id `event_id` does, given the
    /// milliseconds since the previous one.
    pub fn global_hotkey_press(&self, event_id: u32, ms_since_last: u64) -> (p: HotkeyPress)
        ensures
            p == if self.hotkey_id matches Some(id) && event_id != id {
                HotkeyPress::Ignored
            } else if ms_since_last > HOTKEY_DEBOUNCE_MS {
                HotkeyPress::Toggle
            } else {
                HotkeyPress::Debounced
            },
    {
        match self.hotkey_id {
            Some(id) => {
                if event_id != id {
                    return HotkeyPress::Ignored;
                }
            },
            None => {},
        }
        if ms_since_last > HOTKEY_DEBOUNCE_MS {
            HotkeyPress::Toggle
        } else {
            HotkeyPress::Debounced
        }
    }

    /// Clears the "copied" mark once it has shown long enough.
    pub fn expire_copied(&mut self, ms_since_copied: u64)
        ensures
            final(self).copied == if ms_since_copied > COPIED_MS {
                None
            } else {
                old(self).copied
            },
            final(self).items@ == old(self).items@,
            final(self).selected@ == old(self).selected@,
            final(self).drag == old(self).drag,
            same_settings(*final(self), *old(self)),
            same_view(*final(self), *old(self)),
            final(self).dirty == old(self).dirty,
    {
        if self.copied.is_some() && ms_since_copied > COPIED_MS {
            self.copied = None;
        }
    }

    /// Escape: the drag is cancelled with nothing deleted or moved, and the
    /// settings dialog closes.
    pub fn cancel(&mut self)
        ensures
            final(self).drag is None,
            !final(self).show_settings,
            old(self).show_settings ==> final(self).settings_error is None,
            !old(self).show_settings ==> final(self).settings_error == old(self).settings_error,
            final(self).settings == old(self).settings,
            final(self).items@ == old(self).items@,
            final(self).selected@ == old(self).selected@,
            final(self).dirty == old(self).dirty,
            same_view(*final(self), *old(self)),
    {
        self.drag = None;
        if self.show_settings {
            self.close_settings();
        }
    }

    /// Whether pending changes are to be saved now: there are some, and the
    /// save is forced or the last one was long enough ago.
    pub fn needs_save(&self, force: bool, ms_since_save: u64) -> (b: bool)
        ensures
            b == (self.dirty && (force || ms_since_save >= PERSIST_INTERVAL_MS)),
    {
        self.dirty && (force || ms_since_save >= PERSIST_INTERVAL_MS)
    }

    /// Records that everything has been saved.
    pub fn mark_saved(&mut self)
        ensures
            !final(self).dirty,
            final(self).items@ == old(self).items@,
            same_marks(*final(self), *old(self)),
            same_settings(*final(self), *old(self)),
            same_view(*final(self), *old(self)),
    {
        self.dirty = false;
    }

    /// Carries out a user action. `dates[i]` is the local date of record
    /// `i` and `today` today's date; they decide which records "select all
    /// visible" selects.
    pub fn apply(&mut self, action: Action, dates: &[String], today: &str) -> (effects: Vec<Effect>)
        requires
            dates@.len() == old(self).items@.len(),
        ensures
            ids_distinct(old(self).selected@) ==> ids_distinct(final(self).selected@),
            match action {
                Action::Copy(id) => {
                    &&& effects@ == copy_effects(old(self).items@, id@)
                    &&& index_of_id(old(self).items@, id@) >= 0 ==> (final(self).copied matches Some(
                        c,
                    ) && c@ == id@)
                    &&& index_of_id(old(self).items@, id@) < 0 ==> final(self).copied == old(
                        self,
                    ).copied
                    &&& final(self).items@ == old(self).items@
                    &&& final(self).selected@ == old(self).selected@
                    &&& final(self).drag == old(self).drag
                    &&& final(self).dirty == old(self).dirty
                    &&& same_settings(*final(self), *old(self))
                    &&& same_view(*final(self), *old(self))
                },
                Action::TogglePin(id) => {
                    &&& final(self).items@ == pin_toggled(old(self).items@, id@)
                    &&& pinned_first(final(self).items@)
                    &&& final(self).dirty
                    &&& effects@.len() == 0
                    &&& same_settings(*final(self), *old(self))
                    &&& same_view(*final(self), *old(self))
                    &&& same_marks(*final(self), *old(self))
                },
                Action::ToggleSelect(id) => {
                    &&& id_set(final(self).selected@) == (if id_set(old(self).selected@).contains(
                        id@,
                    ) {
                        id_set(old(self).selected@).remove(id@)
                    } else {
                        id_set(old(self).selected@).insert(id@)
                    })
                    &&& effects@.len() == 0
                    &&& final(self).items@ == old(self).items@
                    &&& final(self).dirty == old(self).dirty
                    &&& final(self).copied == old(self).copied
                    &&& final(self).drag == old(self).drag
                    &&& same_settings(*final(self), *old(self))
                    &&& same_view(*final(self), *old(self))
                },
                Action::SelectAllVisible => {
                    &&& id_set(final(self).selected@) == id_set(old(self).selected@).union(
                        ids_at(
                            old(self).items@,
                            visible_positions(old(self).filter, texts(dates@), today@),
                        ),
                    )
                    &&& effects@.len() == 0
                    &&& final(self).items@ == old(self).items@
                    &&& final(self).dirty == old(self).dirty
                    &&& final(self).copied == old(self).copied
                    &&& final(self).drag == old(self).drag
                    &&& same_settings(*final(self), *old(self))
                    &&& same_view(*final(self), *old(self))
                },
                Action::ClearSelection => {
                    &&& final(self).selected@.len() == 0
                    &&& effects@.len() == 0
                    &&& final(self).items@ == old(self).items@
                    &&& final(self).dirty == old(self).dirty
                    &&& final(self).copied == old(self).copied
                    &&& final(self).drag == old(self).drag
                    &&& same_settings(*final(self), *old(self))
                    &&& same_view(*final(self), *old(self))
                },
                Action::DeleteSelected => {
                    &&& if old(self).selected@.len() > 0 {
                        &&& final(self).items@ == without_ids(old(self).items@, old(self).selected@)
                        &&& effects@ == deletion_effects(
                            removed_pictures(old(self).items@, old(self).selected@),
                            old(self).selected@,
                        )
                        &&& id_set(final(self).selected@) == Set::<Seq<char>>::empty()
                        &&& final(self).dirty
                    } else {
                        &&& effects@.len() == 0
                        &&& final(self).items@ == old(self).items@
                        &&& final(self).selected@ == old(self).selected@
                        &&& final(self).dirty == old(self).dirty
                    }
                    &&& final(self).copied == old(self).copied
                    &&& final(self).drag == old(self).drag
                    &&& same_settings(*final(self), *old(self))
                    &&& same_view(*final(self), *old(self))
                },
                Action::SetFilter(f) => {
                    &&& final(self).filter == f
                    &&& effects@.len() == 0
                    &&& final(self).items@ == old(self).items@
                    &&& final(self).dirty == old(self).dirty
                    &&& final(self).collapsed == old(self).collapsed
                    &&& final(self).hidden == old(self).hidden
                    &&& same_marks(*final(self), *old(self))
                    &&& same_settings(*final(self), *old(self))
                },
                Action::OpenSettings => {
                    &&& final(self).show_settings
                    &&& final(self).draft_hotkey == old(self).settings.hotkey
                    &&& final(self).draft_edge_hide == old(self).settings.edge_hide
                    &&& final(self).settings_error is None
                    &&& final(self).settings == old(self).settings
                    &&& final(self).hotkey_error == old(self).hotkey_error
                    &&& final(self).hotkey_id == old(self).hotkey_id
                    &&& effects@.len() == 0
                    &&& final(self).items@ == old(self).items@
                    &&& final(self).dirty == old(self).dirty
                    &&& same_marks(*final(self), *old(self))
                    &&& same_view(*final(self), *old(self))
                },
                Action::TogglePanelPin => {
                    &&& final(self).settings.panel_pinned == !old(self).settings.panel_pinned
                    &&& final(self).settings.hotkey == old(self).settings.hotkey
                    &&& final(self).settings.edge_hide == old(self).settings.edge_hide
                    &&& effects@ == seq![Effect::SetOnTop(final(self).settings.panel_pinned)]
                    &&& final(self).dirty
                    &&& final(self).items@ == old(self).items@
                    &&& final(self).show_settings == old(self).show_settings
                    &&& same_marks(*final(self), *old(self))
                    &&& same_view(*final(self), *old(self))
                },
                Action::DragStart(id) => {
                    &&& final(self).drag == Some(DragState { id })
                    &&& effects@.len() == 0
                    &&& final(self).items@ == old(self).items@
                    &&& final(self).selected@ == old(self).selected@
                    &&& final(self).copied == old(self).copied
                    &&& final(self).dirty == old(self).dirty
                    &&& same_settings(*final(self), *old(self))
                    &&& same_view(*final(self), *old(self))
                },
                Action::DragStop(point) => {
                    &&& final(self).drag is None
                    &&& match old(self).drag {
                        None => effects@.len() == 0 && final(self).items@ == old(self).items@
                            && final(self).selected@ == old(self).selected@ && final(self).dirty
                            == old(self).dirty,
                        Some(d) => match point {
                            DropPoint::NoPointer => effects@.len() == 0 && final(self).items@ == old(
                                self,
                            ).items@ && final(self).selected@ == old(self).selected@
                                && final(self).dirty == old(self).dirty,
                            DropPoint::OutsideWindow => {
                                &&& final(self).items@ == without_ids(old(self).items@, seq![d.id])
                                &&& effects@ == deletion_effects(
                                    removed_pictures(old(self).items@, seq![d.id]),
                                    seq![d.id],
                                )
                                &&& id_set(final(self).selected@) == id_set(
                                    old(self).selected@,
                                ).remove(d.id@)
                                &&& final(self).dirty
                            },
                            DropPoint::Before(t) => {
                                &&& final(self).items@ == moved(old(self).items@, d.id@, opt_text(t))
                                &&& effects@.len() == 0
                                &&& final(self).selected@ == old(self).selected@
                                &&& final(self).dirty == (old(self).dirty || index_of_id(
                                    old(self).items@,
                                    d.id@,
                                ) >= 0)
                            },
                        },
                    }
                    &&& final(self).copied == old(self).copied
                    &&& same_settings(*final(self), *old(self))
                    &&& same_view(*final(self), *old(self))
                },
            },
    {
        match action {
            Action::Copy(id) => self.copy_to_clipboard(&id),
            Action::TogglePin(id) => {
                self.toggle_pin(&id);
                Vec::new()
            },
            Action::ToggleSelect(id) => {
                self.toggle_select(&id);
                Vec::new()
            },
            Action::SelectAllVisible => {
                let visible = self.visible_indices(dates, today);
                let n = dates.len();
                proof {
                    crate::dates::lemma_positions_of_members(
                        texts(dates@),
                        today@,
                        n as int,
                    );
                    match &self.filter {
                        DateFilter::Day(d) => crate::dates::lemma_positions_of_members(
                            texts(dates@),
                            d@,
                            n as int,
                        ),
                        _ => {},
                    }
                }
                self.select_positions(&visible);
                Vec::new()
            },
            Action::ClearSelection => {
                self.clear_selection();
                Vec::new()
            },
            Action::DeleteSelected => {
                let ids = self.selected.clone();
                let ghost sel = self.selected@;
                let effects = self.delete_ids(&ids);
                proof {
                    if sel.len() > 0 {
                        assert(id_set(sel).difference(id_set(sel)) =~= Set::<Seq<char>>::empty());
                    }
                }
                effects
            },
            Action::SetFilter(f) => {
                self.set_filter(f);
                Vec::new()
            },
            Action::OpenSettings => {
                self.open_settings();
                Vec::new()
            },
            Action::TogglePanelPin => self.toggle_panel_pin(),
            Action::DragStart(id) => {
                self.drag = Some(DragState { id });
                Vec::new()
            },
            Action::DragStop(point) => self.drag_stop(point),
        }
    }
}

/// Which bulk buttons the tool bar offers.
#[derive(Clone, Copy, Debug, PartialEq, Eq, Structural)]
pub enum BulkControls {
    /// "Delete n" and "cancel", while records are selected.
    DeleteOrCancel,
    /// "Select all", while nothing is selected and some records show.
    SelectAll,
    /// No bulk button.
    Nothing,
}

/// The bulk buttons for `selected_count` selected records when
/// `visible_count` records show.
pub fn bulk_controls(selected_count: usize, visible_count: usize) -> (c: BulkControls)
    ensures
        c == if selected_count > 0 {
            BulkControls::DeleteOrCancel
        } else if visible_count > 0 {
            BulkControls::SelectAll
        } else {
            BulkControls::Nothing
        },
{
    if selected_count > 0 {
        BulkControls::DeleteOrCancel
    } else if visible_count > 0 {
        BulkControls::SelectAll
    } else {
        BulkControls::Nothing
    }
}

/// The label of the button that deletes `count` selected records.
pub fn delete_button_label(count: usize) -> (l: String)
    ensures
        l@ == "删除 "@ + decimal(count as nat),
{
    let mut l = String::from_str("删除 ");
    l.append(decimal_string(count as u64).as_str());
    l
}

/// The heading shown above a row of the list.
#[derive(Clone, Copy, Debug, PartialEq, Eq, Structural)]
pub enum Heading {
    /// Above the first row, when it is pinned.
    Pinned,
    /// Above the first record that is not pinned, after pinned ones.
    Recent,
}

/// The heading above the row at position `pos` of the shown list, for a
/// record that is pinned or not; `recent_shown` says whether the "recent"
/// heading was already shown above an earlier row.
pub fn section_heading(pinned: bool, pos: usize, recent_shown: bool) -> (h: Option<Heading>)
    ensures
        h == if !pinned && !recent_shown && pos > 0 {
            Some(Heading::Recent)
        } else if pinned && pos == 0 {
            Some(Heading::Pinned)
        } else {
            None
        },
{
    if !pinned && !recent_shown && pos > 0 {
        Some(Heading::Recent)
    } else if pinned && pos == 0 {
        Some(Heading::Pinned)
    } else {
        None
    }
}

/// The title and hint shown in place of an empty list: nothing recorded
/// yet, or nothing on the chosen date.
pub fn empty_list_message(no_records: bool) -> (m: (&'static str, &'static str))
    ensures
        no_records ==> m.0@ == "还没有记录"@ && m.1@ == "复制任意文本或图片，ClipRail 会自动保存到这里"@,
        !no_records ==> m.0@ == "该日期没有记录"@ && m.1@ == "切换到“全部记录”查看其他内容"@,
{
    if no_records {
        ("还没有记录", "复制任意文本或图片，ClipRail 会自动保存到这里")
    } else {
        ("该日期没有记录", "切换到“全部记录”查看其他内容")
    }
}

/// Characters of a text shown beside the pointer while it is dragged.
pub const DRAG_LABEL_CHARS: usize = 18;

/// `t` with each line break shown as a space.
pub open spec fn one_line(t: Seq<char>) -> Seq<char> {
    t.map_values(|c: char| if c == '\n' { ' ' } else { c })
}

/// The label beside the pointer while the record with id `id` is dragged.
pub open spec fn drag_caption(s: Seq<ClipItem>, id: Seq<char>, outside: bool) -> Seq<char> {
    let i = index_of_id(s, id);
    if outside {
        "松开删除该记录"@
    } else if i < 0 {
        "移动记录"@
    } else if s[i].kind == ClipKind::Image {
        "移动图片记录"@
    } else {
        let p = preview_of(s[i].text@);
        let k = if p.len() < DRAG_LABEL_CHARS { p.len() as int } else { DRAG_LABEL_CHARS as int };
        "移动："@ + one_line(p.take(k))
    }
}

impl App {
    /// The label beside the pointer during a drag: a warning when the
    /// pointer is outside the window (`outside`), else what is moved.
    /// `None` when nothing is dragged.
    pub fn drag_label(&self, outside: bool) -> (l: Option<String>)
        ensures
            match self.drag {
                None => l is None,
                Some(d) => l matches Some(t) && t@ == drag_caption(self.items@, d.id@, outside),
            },
    {
        let d = match &self.drag {
            None => {
                return None;
            },
            Some(d) => d,
        };
        if outside {
            return Some(String::from_str("松开删除该记录"));
        }
        proof {
            lemma_index_of_id_range(self.items@, d.id@);
        }
        match find_id(&self.items, &d.id) {
            None => Some(String::from_str("移动记录")),
            Some(i) => {
                let item = &self.items[i];
                match item.kind {
                    ClipKind::Image => Some(String::from_str("移动图片记录")),
                    ClipKind::Text => {
                        let p = chars_of(item.preview().as_str());
                        let k = if p.len() < DRAG_LABEL_CHARS {
                            p.len()
                        } else {
                            DRAG_LABEL_CHARS
                        };
                        let mut v: Vec<char> = Vec::new();
                        let mut j: usize = 0;
                        while j < k
                            invariant
                                j <= k <= p@.len(),
                                v@ == one_line(p@.take(j as int)),
                            decreases k - j,
                        {
                            let c = p[j];
                            v.push(if c == '\n' { ' ' } else { c });
                            j = j + 1;
                            assert(v@ =~= one_line(p@.take(j as int)));
                        }
                        let mut t = String::from_str("移动：");
                        t.append(string_from_chars(v.as_slice()).as_str());
                        Some(t)
                    },
                }
            },
        }
    }
}

/// The local date of the time `now` (UNIX seconds, read from the clock by
/// the caller) as `YYYY-MM-DD`: today's date, when `now` is the current time.
pub fn today_string(now: i64) -> (s: String)
    ensures
        !crate::store::has_local_time(now as int) ==> s@ == "-"@,
        crate::store::has_local_time(now as int) ==> crate::calendar::local_text(
            "%Y-%m-%d"@,
            now as int,
            s@,
        ),
{
    proof {
        crate::store::lemma_history_patterns_plain();
    }
    format_ts(now, "%Y-%m-%d")
}

/// Picture previews loaded per frame at most.
pub const PREVIEWS_PER_FRAME: usize = 2;
/// Cached previews above which those off screen are dropped.
pub const PREVIEW_CACHE_LIMIT: usize = 60;

/// Whether the record at `i` needs its preview loaded: it is an image
/// without a cached preview, and on screen (or nothing is known to be on
/// screen yet).
pub open spec fn preview_wanted(s: Seq<ClipItem>, cached: Seq<bool>, on_screen: Seq<String>, i: int) -> bool {
    &&& s[i].kind == ClipKind::Image
    &&& !cached[i]
    &&& (on_screen.len() == 0 || id_listed(on_screen, s[i].id@))
}

/// The positions below `n` whose previews are wanted, in order.
pub open spec fn wanted_previews(s: Seq<ClipItem>, cached: Seq<bool>, on_screen: Seq<String>, n: int) -> Seq<usize>
    decreases n,
{
    if n <= 0 {
        Seq::<usize>::empty()
    } else if preview_wanted(s, cached, on_screen, n - 1) {
        wanted_previews(s, cached, on_screen, n - 1).push((n - 1) as usize)
    } else {
        wanted_previews(s, cached, on_screen, n - 1)
    }
}

/// Whether the preview cache is to be cut down to the records on screen.
pub fn should_prune_previews(cached_count: usize, on_screen_count: usize) -> (b: bool)
    ensures
        b == (cached_count > PREVIEW_CACHE_LIMIT && on_screen_count > 0),
{
    cached_count > PREVIEW_CACHE_LIMIT && on_screen_count > 0
}

impl App {
    /// The first records (at most two per frame) whose picture previews are
    /// to be loaded. `cached[i]` says whether record `i` already has one;
    /// `on_screen` holds the ids of the records on screen.
    pub fn previews_to_load(&self, cached: &[bool], on_screen: &Vec<String>) -> (r: Vec<usize>)
        requires
            cached@.len() == self.items@.len(),
        ensures
            ({
                let all = wanted_previews(self.items@, cached@, on_screen@, self.items@.len() as int);
                r@ == all.take(if all.len() < PREVIEWS_PER_FRAME { all.len() as int } else { PREVIEWS_PER_FRAME as int })
            }),
    {
        let ghost s = self.items@;
        let n = self.items.len();
        let mut r: Vec<usize> = Vec::new();
        let mut i: usize = 0;
        while i < n && r.len() < PREVIEWS_PER_FRAME
            invariant
                i <= n == s.len() == cached@.len(),
                s == self.items@,
                r@ == wanted_previews(s, cached@, on_screen@, i as int),
                r@.len() <= PREVIEWS_PER_FRAME,
            decreases n - i,
        {
            let wanted = match self.items[i].kind {
                ClipKind::Image => !cached[i] && (on_screen.len() == 0 || id_in(on_screen, &self.items[i].id)),
                ClipKind::Text => false,
            };
            if wanted {
                r.push(i);
            }
            i = i + 1;
        }
        proof {
            lemma_wanted_prefix(s, cached@, on_screen@, i as int, n as int);
            let all = wanted_previews(s, cached@, on_screen@, n as int);
            if r@.len() < PREVIEWS_PER_FRAME {
                assert(i == n);
                assert(all.take(all.len() as int) == all);
            } else {
                assert(all.take(PREVIEWS_PER_FRAME as int) =~= r@);
            }
        }
        r
    }
}

/// The wanted positions below `i` start the wanted positions below `n`.
pub proof fn lemma_wanted_prefix(s: Seq<ClipItem>, cached: Seq<bool>, on_screen: Seq<String>, i: int, n: int)
    requires
        0 <= i <= n <= s.len(),
    ensures
        wanted_previews(s, cached, on_screen, i).len() <= wanted_previews(s, cached, on_screen, n).len(),
        wanted_previews(s, cached, on_screen, n).take(wanted_previews(s, cached, on_screen, i).len() as int)
            == wanted_previews(s, cached, on_screen, i),
    decreases n - i,
{
    if i < n {
        lemma_wanted_prefix(s, cached, on_screen, i, n - 1);
        let a = wanted_previews(s, cached, on_screen, i);
        let b = wanted_previews(s, cached, on_screen, n - 1);
        let c = wanted_previews(s, cached, on_screen, n);
        assert(c.take(a.len() as int) =~= b.take(a.len() as int));
    } else {
        let a = wanted_previews(s, cached, on_screen, i);
        assert(a.take(a.len() as int) =~= a);
    }
}

} // verus!
