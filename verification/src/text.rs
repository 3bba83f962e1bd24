//! Character-level helpers: whitespace trimming, splitting, decimal and
//! hexadecimal formatting, and conversions between strings and characters.
use vstd::prelude::*;

verus! {

broadcast use vstd::string::group_string_axioms;

/// Whether `c` has the Unicode `White_Space` property, the set that
/// `char::is_whitespace` and `str::trim` go by.
pub open spec fn is_white(c: char) -> bool {
    let u = c as u32;
    ||| 0x09 <= u <= 0x0d
    ||| u == 0x20
    ||| u == 0x85
    ||| u == 0xa0
    ||| u == 0x1680
    ||| 0x2000 <= u <= 0x200a
    ||| u == 0x2028
    ||| u == 0x2029
    ||| u == 0x202f
    ||| u == 0x205f
    ||| u == 0x3000
}

pub fn char_is_white(c: char) -> (b: bool)
    ensures
        b == is_white(c),
{
    let u = c as u32;
    (0x09 <= u && u <= 0x0d) || u == 0x20 || u == 0x85 || u == 0xa0 || u == 0x1680 || (0x2000 <= u
        && u <= 0x200a) || u == 0x2028 || u == 0x2029 || u == 0x202f || u == 0x205f || u == 0x3000
}

/// First index at or after `i` that does not hold white space.
pub open spec fn skip_white(s: Seq<char>, i: int) -> int
    decreases s.len() - i,
{
    if 0 <= i < s.len() && is_white(s[i]) {
        skip_white(s, i + 1)
    } else {
        i
    }
}

/// End of `s.subrange(lo, j)` once white space at its end is dropped.
pub open spec fn back_white(s: Seq<char>, lo: int, j: int) -> int
    decreases j - lo,
{
    if lo < j && j <= s.len() && is_white(s[j - 1]) {
        back_white(s, lo, j - 1)
    } else {
        j
    }
}

/// `s` with leading and trailing white space removed, as `str::trim` does.
pub open spec fn trim(s: Seq<char>) -> Seq<char> {
    let lo = skip_white(s, 0);
    s.subrange(lo, back_white(s, lo, s.len() as int))
}

pub proof fn lemma_skip_white_bounds(s: Seq<char>, i: int)
    requires
        0 <= i <= s.len(),
    ensures
        i <= skip_white(s, i) <= s.len(),
        forall|k: int| i <= k < skip_white(s, i) ==> is_white(#[trigger] s[k]),
        skip_white(s, i) < s.len() ==> !is_white(s[skip_white(s, i)]),
    decreases s.len() - i,
{
    if i < s.len() && is_white(s[i]) {
        lemma_skip_white_bounds(s, i + 1);
    }
}

pub proof fn lemma_back_white_bounds(s: Seq<char>, lo: int, j: int)
    requires
        0 <= lo <= j <= s.len(),
    ensures
        lo <= back_white(s, lo, j) <= j,
        forall|k: int| back_white(s, lo, j) <= k < j ==> is_white(#[trigger] s[k]),
        lo < back_white(s, lo, j) ==> !is_white(s[back_white(s, lo, j) - 1]),
    decreases j - lo,
{
    if lo < j && is_white(s[j - 1]) {
        lemma_back_white_bounds(s, lo, j - 1);
    }
}

/// Trimmed text is a piece of the text.
pub proof fn lemma_trim_piece(s: Seq<char>)
    ensures
        0 <= skip_white(s, 0) <= back_white(s, skip_white(s, 0), s.len() as int) <= s.len(),
        trim(s) == s.subrange(skip_white(s, 0), back_white(s, skip_white(s, 0), s.len() as int)),
{
    lemma_skip_white_bounds(s, 0);
    lemma_back_white_bounds(s, skip_white(s, 0), s.len() as int);
}

/// Two texts with white space at the same places are trimmed at the same
/// places.
pub proof fn lemma_trim_same_places(a: Seq<char>, b: Seq<char>)
    requires
        a.len() == b.len(),
        forall|k: int| 0 <= k < a.len() ==> is_white(#[trigger] a[k]) == is_white(b[k]),
    ensures
        skip_white(a, 0) == skip_white(b, 0),
        back_white(a, skip_white(a, 0), a.len() as int) == back_white(b, skip_white(b, 0), b.len() as int),
{
    lemma_skip_white_same(a, b, 0);
    lemma_skip_white_bounds(a, 0);
    lemma_back_white_same(a, b, skip_white(a, 0), a.len() as int);
}

proof fn lemma_skip_white_same(a: Seq<char>, b: Seq<char>, i: int)
    requires
        a.len() == b.len(),
        0 <= i <= a.len(),
        forall|k: int| 0 <= k < a.len() ==> is_white(#[trigger] a[k]) == is_white(b[k]),
    ensures
        skip_white(a, i) == skip_white(b, i),
    decreases a.len() - i,
{
    if i < a.len() {
        assert(is_white(a[i]) == is_white(b[i]));
        lemma_skip_white_same(a, b, i + 1);
    }
}

proof fn lemma_back_white_same(a: Seq<char>, b: Seq<char>, lo: int, j: int)
    requires
        a.len() == b.len(),
        0 <= lo <= j <= a.len(),
        forall|k: int| 0 <= k < a.len() ==> is_white(#[trigger] a[k]) == is_white(b[k]),
    ensures
        back_white(a, lo, j) == back_white(b, lo, j),
    decreases j - lo,
{
    if lo < j {
        assert(is_white(a[j - 1]) == is_white(b[j - 1]));
        lemma_back_white_same(a, b, lo, j - 1);
    }
}

/// Bounds `(lo, hi)` such that `s@.subrange(lo, hi)` is `trim(s@)`.
pub fn trim_bounds(s: &[char]) -> (r: (usize, usize))
    ensures
        r.0 <= r.1 <= s@.len(),
        r.0 == skip_white(s@, 0),
        r.1 == back_white(s@, r.0 as int, s@.len() as int),
        s@.subrange(r.0 as int, r.1 as int) == trim(s@),
{
    let n = s.len();
    let mut i: usize = 0;
    while i < n && char_is_white(s[i])
        invariant
            i <= n == s@.len(),
            skip_white(s@, 0) == skip_white(s@, i as int),
        decreases n - i,
    {
        i = i + 1;
    }
    let mut j: usize = n;
    while j > i && char_is_white(s[j - 1])
        invariant
            i <= j <= n == s@.len(),
            back_white(s@, i as int, n as int) == back_white(s@, i as int, j as int),
        decreases j,
    {
        j = j - 1;
    }
    (i, j)
}

/// `trim(s@)` as a vector.
pub fn trim_chars(s: &[char]) -> (v: Vec<char>)
    ensures
        v@ == trim(s@),
{
    let (lo, hi) = trim_bounds(s);
    let mut v: Vec<char> = Vec::new();
    let mut k = lo;
    while k < hi
        invariant
            lo <= k <= hi <= s@.len(),
            v@ == s@.subrange(lo as int, k as int),
        decreases hi - k,
    {
        v.push(s[k]);
        k = k + 1;
    }
    v
}

/// `trim(s@)` as a string slice of `s`.
pub fn trim_str(s: &str) -> (t: &str)
    ensures
        t@ == trim(s@),
{
    let v = chars_of(s);
    let (lo, hi) = trim_bounds(v.as_slice());
    s.substring_char(lo, hi)
}

/// Whether `s` holds nothing but white space (`s.trim().is_empty()`).
pub fn is_blank(s: &str) -> (b: bool)
    ensures
        b == (trim(s@).len() == 0),
{
    let mut all = true;
    for c in it: s.chars()
        invariant
            it.seq() == s@,
            all == (forall|k: int| 0 <= k < it.index() ==> is_white(#[trigger] s@[k])),
    {
        if !char_is_white(c) {
            all = false;
        }
    }
    proof {
        lemma_skip_white_bounds(s@, 0);
        let lo = skip_white(s@, 0);
        lemma_back_white_bounds(s@, lo, s@.len() as int);
        if !all {
            let k = choose|k: int| 0 <= k < s@.len() && !is_white(#[trigger] s@[k]);
            assert(lo <= k);
            assert(k < back_white(s@, lo, s@.len() as int));
        }
    }
    all
}

/// The characters of `s`, in order.
pub fn chars_of(s: &str) -> (v: Vec<char>)
    ensures
        v@ == s@,
{
    let mut v: Vec<char> = Vec::new();
    for c in it: s.chars()
        invariant
            it.seq() == s@,
            v@ == it.seq().take(it.index() as int),
    {
        v.push(c);
    }
    v
}

/// Whether the two character slices are equal.
pub fn same_chars(x: &[char], y: &[char]) -> (r: bool)
    ensures
        r == (x@ == y@),
{
    if x.len() != y.len() {
        return false;
    }
    let n = x.len();
    let mut i: usize = 0;
    while i < n
        invariant
            i <= n == x@.len() == y@.len(),
            forall|k: int| 0 <= k < i ==> x@[k] == y@[k],
        decreases n - i,
    {
        if x[i] != y[i] {
            return false;
        }
        i = i + 1;
    }
    assert(x@ == y@);
    true
}

/// Whether the two strings hold the same characters.
pub fn same_text(a: &str, b: &str) -> (r: bool)
    ensures
        r == (a@ == b@),
{
    let x = chars_of(a);
    let y = chars_of(b);
    if x.len() != y.len() {
        return false;
    }
    let n = x.len();
    let mut i: usize = 0;
    while i < n
        invariant
            i <= n == x@.len() == y@.len(),
            x@ == a@,
            y@ == b@,
            forall|k: int| 0 <= k < i ==> x@[k] == y@[k],
        decreases n - i,
    {
        if x[i] != y[i] {
            return false;
        }
        i = i + 1;
    }
    assert(x@ == y@);
    true
}

/// Collects characters into a `String` (`FromIterator<char> for String`).
#[verifier::external_body]
pub(crate) fn string_from_chars(v: &[char]) -> (s: String)
    ensures
        s@ == v@,
{
    v.iter().collect()
}

/// What `str::to_lowercase` returns for a string holding these characters.
pub uninterp spec fn lowercase(s: Seq<char>) -> Seq<char>;

/// Whether every character of `s` is ASCII.
pub open spec fn all_ascii(s: Seq<char>) -> bool {
    forall|i: int| 0 <= i < s.len() ==> (#[trigger] s[i]) as u32 <= 127
}

/// An ASCII upper-case letter made lower-case; any other character as it is.
pub open spec fn ascii_lower_char(c: char) -> char {
    if 65 <= c as u32 <= 90 {
        ((c as u32) + 32) as char
    } else {
        c
    }
}

/// `s` with its ASCII upper-case letters made lower-case.
pub open spec fn ascii_lower(s: Seq<char>) -> Seq<char> {
    s.map_values(|c: char| ascii_lower_char(c))
}

/// `str::to_lowercase`: the result is a function of the characters alone.
/// On ASCII text the Unicode lower-case mapping is the ASCII one (an
/// upper-case letter `A`–`Z` becomes `a`–`z`, every other ASCII character
/// maps to itself), which the documentation of `str::to_ascii_lowercase`
/// points to as the ASCII part of `to_lowercase`.
#[verifier::external_body]
pub(crate) fn to_lowercase(s: &str) -> (r: String)
    ensures
        r@ == lowercase(s@),
        all_ascii(s@) ==> r@ == ascii_lower(s@),
{
    s.to_lowercase()
}

/// Whether the characters in `v` spell out the string `lit`.
pub fn chars_eq_str(v: &[char], lit: &str) -> (b: bool)
    ensures
        b == (v@ == lit@),
{
    let n = lit.unicode_len();
    if v.len() != n {
        return false;
    }
    let mut i: usize = 0;
    while i < n
        invariant
            i <= n == v@.len() == lit@.len(),
            forall|k: int| 0 <= k < i ==> v@[k] == lit@[k],
        decreases n - i,
    {
        if v[i] != lit.get_char(i) {
            return false;
        }
        i = i + 1;
    }
    assert(v@ == lit@);
    true
}

/// Splits `s` at every occurrence of `sep`, as `str::split` with a
/// character separator does: `k` separators give `k + 1` pieces.
pub open spec fn split(s: Seq<char>, sep: char) -> Seq<Seq<char>>
    decreases s.len(),
{
    if s.len() == 0 {
        seq![Seq::<char>::empty()]
    } else {
        let prev = split(s.drop_last(), sep);
        if s.last() == sep {
            prev.push(Seq::<char>::empty())
        } else {
            prev.update(prev.len() - 1, prev.last().push(s.last()))
        }
    }
}

pub proof fn lemma_split_nonempty(s: Seq<char>, sep: char)
    ensures
        split(s, sep).len() >= 1,
    decreases s.len(),
{
    if s.len() > 0 {
        lemma_split_nonempty(s.drop_last(), sep);
    }
}

/// The character sequences held by a list of character vectors.
pub open spec fn views(v: Seq<Vec<char>>) -> Seq<Seq<char>> {
    v.map_values(|x: Vec<char>| x@)
}

/// The pieces of `s` between occurrences of `sep`.
pub fn split_chars(s: &[char], sep: char) -> (parts: Vec<Vec<char>>)
    ensures
        views(parts@) == split(s@, sep),
{
    let mut done: Vec<Vec<char>> = Vec::new();
    let mut cur: Vec<char> = Vec::new();
    let n = s.len();
    let mut i: usize = 0;
    while i < n
        invariant
            i <= n == s@.len(),
            views(done@).push(cur@) == split(s@.take(i as int), sep),
        decreases n - i,
    {
        proof {
            lemma_split_nonempty(s@.take(i as int), sep);
            assert(s@.take(i as int + 1).drop_last() == s@.take(i as int));
        }
        let c = s[i];
        if c == sep {
            let ghost before = views(done@);
            let piece = cur;
            done.push(piece);
            cur = Vec::new();
            assert(views(done@) =~= before.push(piece@));
        } else {
            cur.push(c);
        }
        i = i + 1;
        assert(views(done@).push(cur@) =~= split(s@.take(i as int), sep));
    }
    assert(s@.take(n as int) == s@);
    let ghost before = views(done@);
    let last = cur;
    done.push(last);
    assert(views(done@) =~= before.push(last@));
    done
}

pub open spec fn digit_char(d: int) -> char {
    (48 + d) as char
}

/// Decimal digits of `n`, most significant first, as `{}` prints them.
pub open spec fn decimal(n: nat) -> Seq<char>
    decreases n,
{
    if n < 10 {
        seq![digit_char(n as int)]
    } else {
        decimal(n / 10).push(digit_char((n % 10) as int))
    }
}

/// Decimal form of a signed integer, as `{}` prints it.
pub open spec fn signed_decimal(i: int) -> Seq<char> {
    if i < 0 {
        seq!['-'] + decimal((-i) as nat)
    } else {
        decimal(i as nat)
    }
}

/// Appends the decimal digits of `n` to `out`.
pub fn push_decimal(n: u64, out: &mut Vec<char>)
    ensures
        final(out)@ == old(out)@ + decimal(n as nat),
    decreases n,
{
    if n >= 10 {
        push_decimal(n / 10, out);
    }
    let d = (n % 10) as u8;
    let c = (48u8 + d) as char;
    proof {
        assert(c == digit_char((n % 10) as int));
    }
    out.push(c);
    assert(final(out)@ =~= old(out)@ + decimal(n as nat));
}

/// `n` printed in decimal.
pub fn decimal_string(n: u64) -> (s: String)
    ensures
        s@ == decimal(n as nat),
{
    let mut v: Vec<char> = Vec::new();
    push_decimal(n, &mut v);
    assert(v@ =~= decimal(n as nat));
    string_from_chars(v.as_slice())
}

/// `i` printed in decimal, with a leading `-` when negative.
pub fn signed_decimal_string(i: i64) -> (s: String)
    ensures
        s@ == signed_decimal(i as int),
{
    let mut v: Vec<char> = Vec::new();
    if i < 0 {
        v.push('-');
        let m: u64 = (0i128 - (i as i128)) as u64;
        push_decimal(m, &mut v);
    } else {
        push_decimal(i as u64, &mut v);
    }
    assert(v@ =~= signed_decimal(i as int));
    string_from_chars(v.as_slice())
}

/// The lower-case hexadecimal digit for `d < 16`.
pub open spec fn hex_digit(d: int) -> char {
    if d < 10 {
        (48 + d) as char
    } else {
        (87 + d) as char
    }
}

/// Each byte as two lower-case hexadecimal digits, high nibble first.
pub open spec fn hex_lower(bytes: Seq<u8>) -> Seq<char>
    decreases bytes.len(),
{
    if bytes.len() == 0 {
        Seq::<char>::empty()
    } else {
        let b = bytes.last();
        hex_lower(bytes.drop_last()).push(hex_digit((b / 16) as int)).push(
            hex_digit((b % 16) as int),
        )
    }
}

fn hex_digit_char(d: u8) -> (c: char)
    requires
        d < 16,
    ensures
        c == hex_digit(d as int),
{
    let code: u8 = if d < 10 {
        48 + d
    } else {
        87 + d
    };
    code as char
}

/// `bytes` in lower-case hexadecimal, two digits per byte.
pub fn hex_string(bytes: &[u8]) -> (s: String)
    ensures
        s@ == hex_lower(bytes@),
        s@.len() == 2 * bytes@.len(),
{
    let mut v: Vec<char> = Vec::new();
    let n = bytes.len();
    let mut i: usize = 0;
    while i < n
        invariant
            i <= n == bytes@.len(),
            v@ == hex_lower(bytes@.take(i as int)),
            v@.len() == 2 * i,
        decreases n - i,
    {
        let b = bytes[i];
        v.push(hex_digit_char(b / 16));
        v.push(hex_digit_char(b % 16));
        assert(bytes@.take(i as int + 1).drop_last() == bytes@.take(i as int));
        i = i + 1;
    }
    assert(bytes@.take(n as int) == bytes@);
    string_from_chars(v.as_slice())
}

} // verus!
