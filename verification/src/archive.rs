//! Daily archives `data/archives/YYYY-MM-DD.json`: which files a rebuild
//! writes and which stale ones it removes.
use vstd::prelude::*;
use crate::text::same_text;

verus! {

/// The archive file of a date.
pub fn archive_file_name(date: &str) -> (name: String)
    ensures
        name@ == date@ + ".json"@,
{
    let mut name = String::from_str(date);
    name.append(".json");
    name
}

/// Whether a file name ends in `.json`.
pub open spec fn is_json_name(name: Seq<char>) -> bool {
    name.len() >= 5 && name.skip(name.len() - 5) == ".json"@
}

pub fn ends_with_json(name: &str) -> (b: bool)
    ensures
        b == is_json_name(name@),
{
    let n = name.unicode_len();
    if n < 5 {
        return false;
    }
    same_text(name.substring_char(n - 5, n), ".json")
}

/// Whether some name in `names` equals `x`.
pub open spec fn name_listed(names: Seq<String>, x: Seq<char>) -> bool {
    exists|k: int| 0 <= k < names.len() && (#[trigger] names[k])@ == x
}

/// The files of the archive directory to remove after a rebuild: those
/// ending in `.json` that the rebuild did not write, in directory order.
pub open spec fn stale_names(existing: Seq<String>, written: Seq<String>) -> Seq<String>
    decreases existing.len(),
{
    if existing.len() == 0 {
        existing
    } else if is_json_name(existing.last()@) && !name_listed(written, existing.last()@) {
        stale_names(existing.drop_last(), written).push(existing.last())
    } else {
        stale_names(existing.drop_last(), written)
    }
}

/// The archive files to remove after a rebuild that wrote `written`.
pub fn stale_archives(existing: &Vec<String>, written: &Vec<String>) -> (r: Vec<String>)
    ensures
        r@ == stale_names(existing@, written@),
{
    let n = existing.len();
    let mut r: Vec<String> = Vec::new();
    let mut i: usize = 0;
    while i < n
        invariant
            i <= n == existing@.len(),
            r@ == stale_names(existing@.take(i as int), written@),
        decreases n - i,
    {
        assert(existing@.take(i as int + 1).drop_last() == existing@.take(i as int));
        let name = &existing[i];
        if ends_with_json(name.as_str()) && !listed(written, name) {
            r.push(name.clone());
        }
        i = i + 1;
    }
    assert(existing@.take(n as int) == existing@);
    r
}

fn listed(names: &Vec<String>, x: &String) -> (b: bool)
    ensures
        b == name_listed(names@, x@),
{
    let n = names.len();
    let mut k: usize = 0;
    while k < n
        invariant
            k <= n == names@.len(),
            forall|q: int| 0 <= q < k ==> (#[trigger] names@[q])@ != x@,
        decreases n - k,
    {
        if names[k] == *x {
            return true;
        }
        k = k + 1;
    }
    false
}

} // verus!
