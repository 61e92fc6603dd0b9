use vstd::prelude::*;

use vstd::utf8::{encode_scalar, encode_utf8};

verus! {

/// Appends one character to a `String` (`String::push`).
/// Claimed: the string's characters afterwards are the old ones followed by `c`.
#[verifier::external_body]
fn push_char(s: &mut String, c: char)
    ensures
        final(s)@ == old(s)@.push(c),
{
    s.push(c);
}

/// The characters of `s`, in order.
pub fn to_chars(s: &str) -> (r: Vec<char>)
    ensures
        r@ == s@,
{
    let mut r: Vec<char> = Vec::new();
    for c in it: s.chars()
        invariant
            r@ == it.seq().take(it.index() as int),
            it.seq() == s@,
    {
        r.push(c);
    }
    r
}

/// A `String` holding exactly the characters of `cs`.
pub fn from_chars(cs: &[char]) -> (r: String)
    ensures
        r@ == cs@,
{
    let mut r = String::new();
    let n = cs.len();
    for i in 0..n
        invariant
            n == cs@.len(),
            r@ == cs@.take(i as int),
    {
        push_char(&mut r, cs[i]);
        assert(cs@.take(i + 1) =~= cs@.take(i as int).push(cs@[i as int]));
    }
    assert(cs@.take(n as int) =~= cs@);
    r
}

// ---------------------------------------------------------------------------
// Searching
// ---------------------------------------------------------------------------

/// `pat` occurs in `s` starting at position `i`.
pub open spec fn matches_at(s: Seq<char>, pat: Seq<char>, i: int) -> bool {
    &&& 0 <= i
    &&& i + pat.len() <= s.len()
    &&& forall|k: int| 0 <= k < pat.len() ==> #[trigger] s[i + k] == pat[k]
}

/// The first position `j >= i` at which `pat` occurs in `s`, if any
/// (what `s[i..].find(pat)` finds, counted from the start of `s`).
pub open spec fn find_from(s: Seq<char>, pat: Seq<char>, i: int) -> Option<int>
    decreases s.len() - i,
{
    if i < 0 || i + pat.len() > s.len() {
        None
    } else if matches_at(s, pat, i) {
        Some(i)
    } else {
        find_from(s, pat, i + 1)
    }
}

/// `pat` occurs somewhere in `s`.
pub open spec fn contains(s: Seq<char>, pat: Seq<char>) -> bool {
    find_from(s, pat, 0) is Some
}

/// `find_from` gives the first occurrence at or after `i`, and `None` only when there is none.
pub proof fn lemma_find_from(s: Seq<char>, pat: Seq<char>, i: int)
    requires
        0 <= i,
    ensures
        match find_from(s, pat, i) {
            Some(j) => {
                &&& i <= j
                &&& j + pat.len() <= s.len()
                &&& matches_at(s, pat, j)
                &&& forall|k: int| i <= k < j ==> !matches_at(s, pat, k)
            },
            None => forall|k: int| i <= k ==> !matches_at(s, pat, k),
        },
    decreases s.len() - i,
{
    if i + pat.len() > s.len() {
    } else if matches_at(s, pat, i) {
    } else {
        lemma_find_from(s, pat, i + 1);
    }
}

/// Whether `pat` occurs in `s` at `i` (`i <= s.len()`).
pub fn matches_at_exec(s: &[char], pat: &[char], i: usize) -> (r: bool)
    requires
        i <= s@.len(),
    ensures
        r == matches_at(s@, pat@, i as int),
{
    if pat.len() > s.len() - i {
        return false;
    }
    let m = pat.len();
    let n = s.len();
    let mut k: usize = 0;
    while k < m
        invariant
            m == pat@.len(),
            n == s@.len(),
            i + m <= s@.len(),
            k <= m,
            forall|j: int| 0 <= j < k ==> #[trigger] s@[i + j] == pat@[j],
        decreases m - k,
    {
        if s[i + k] != pat[k] {
            return false;
        }
        k = k + 1;
    }
    true
}

/// The first occurrence of `pat` in `s` at or after `from`.
pub fn find_from_exec(s: &[char], pat: &[char], from: usize) -> (r: Option<usize>)
    requires
        from <= s@.len(),
    ensures
        r matches Some(j) ==> find_from(s@, pat@, from as int) == Some(j as int),
        r is None ==> find_from(s@, pat@, from as int) is None,
{
    if pat.len() > s.len() - from {
        return None;
    }
    let last = s.len() - pat.len();
    let mut i = from;
    while i <= last
        invariant
            from <= i,
            last + pat@.len() == s@.len(),
            i <= last + 1,
            find_from(s@, pat@, from as int) == find_from(s@, pat@, i as int),
        decreases last + 1 - i,
    {
        if matches_at_exec(s, pat, i) {
            return Some(i);
        }
        if i == last {
            assert(find_from(s@, pat@, i + 1) is None);
            return None;
        }
        i = i + 1;
    }
    None
}

// ---------------------------------------------------------------------------
// Replacing
// ---------------------------------------------------------------------------

/// `s[i..]` with every occurrence of the non-empty `from` replaced by `to`, scanning left to
/// right and never letting two replaced occurrences overlap (`str::replace` for a non-empty
/// pattern; an empty `from` leaves `s[i..]` as it is, which `str::replace` does not).
pub open spec fn replace_from(s: Seq<char>, from: Seq<char>, to: Seq<char>, i: int) -> Seq<char>
    recommends
        from.len() > 0,
    decreases s.len() - i,
{
    if i < 0 || i >= s.len() {
        Seq::empty()
    } else if from.len() > 0 && matches_at(s, from, i) {
        to + replace_from(s, from, to, i + from.len())
    } else {
        seq![s[i]] + replace_from(s, from, to, i + 1)
    }
}

/// `s` with every occurrence of the non-empty `from` replaced by `to` (`str::replace` for a
/// non-empty pattern).
pub open spec fn replace(s: Seq<char>, from: Seq<char>, to: Seq<char>) -> Seq<char>
    recommends
        from.len() > 0,
{
    replace_from(s, from, to, 0)
}

/// Replaces every occurrence of the non-empty `from` in `s` by `to`.
pub fn replace_exec(s: &[char], from: &[char], to: &[char]) -> (r: Vec<char>)
    requires
        from@.len() > 0,
    ensures
        r@ == replace(s@, from@, to@),
{
    let mut out: Vec<char> = Vec::new();
    let n = s.len();
    let mut i: usize = 0;
    while i < n
        invariant
            n == s@.len(),
            i <= n,
            from@.len() > 0,
            out@ + replace_from(s@, from@, to@, i as int) == replace(s@, from@, to@),
        decreases n - i,
    {
        let ghost before = out@;
        if matches_at_exec(s, from, i) {
            let m = to.len();
            let mut k: usize = 0;
            while k < m
                invariant
                    m == to@.len(),
                    k <= m,
                    out@ == before + to@.take(k as int),
                decreases m - k,
            {
                out.push(to[k]);
                assert(to@.take(k + 1) =~= to@.take(k as int).push(to@[k as int]));
                k = k + 1;
            }
            assert(to@.take(m as int) =~= to@);
            assert(before + (to@ + replace_from(s@, from@, to@, i + from@.len())) =~= out@
                + replace_from(s@, from@, to@, i + from@.len()));
            i = i + from.len();
        } else {
            out.push(s[i]);
            assert(before + (seq![s@[i as int]] + replace_from(s@, from@, to@, i + 1)) =~= out@
                + replace_from(s@, from@, to@, i + 1));
            i = i + 1;
        }
    }
    assert(out@ + replace_from(s@, from@, to@, i as int) =~= out@);
    out
}

// ---------------------------------------------------------------------------
// Whitespace
// ---------------------------------------------------------------------------

/// Unicode `White_Space` characters, the ones `char::is_whitespace` accepts.
pub open spec fn is_whitespace(c: char) -> bool {
    ||| ('\u{9}' <= c && c <= '\u{d}')
    ||| c == ' '
    ||| c == '\u{85}'
    ||| c == '\u{a0}'
    ||| c == '\u{1680}'
    ||| ('\u{2000}' <= c && c <= '\u{200a}')
    ||| c == '\u{2028}'
    ||| c == '\u{2029}'
    ||| c == '\u{202f}'
    ||| c == '\u{205f}'
    ||| c == '\u{3000}'
}

/// Whether `c` is a Unicode whitespace character.
pub fn is_whitespace_exec(c: char) -> (r: bool)
    ensures
        r == is_whitespace(c),
{
    ('\u{9}' <= c && c <= '\u{d}') || c == ' ' || c == '\u{85}' || c == '\u{a0}' || c
        == '\u{1680}' || ('\u{2000}' <= c && c <= '\u{200a}') || c == '\u{2028}' || c
        == '\u{2029}' || c == '\u{202f}' || c == '\u{205f}' || c == '\u{3000}'
}

/// `s` without its leading whitespace (`str::trim_start`).
pub open spec fn trim_start(s: Seq<char>) -> Seq<char>
    decreases s.len(),
{
    if s.len() > 0 && is_whitespace(s[0]) {
        trim_start(s.drop_first())
    } else {
        s
    }
}

/// `s` without its trailing whitespace (`str::trim_end`).
pub open spec fn trim_end(s: Seq<char>) -> Seq<char>
    decreases s.len(),
{
    if s.len() > 0 && is_whitespace(s.last()) {
        trim_end(s.drop_last())
    } else {
        s
    }
}

/// `s` without leading and trailing whitespace (`str::trim`).
pub open spec fn trim(s: Seq<char>) -> Seq<char> {
    trim_end(trim_start(s))
}

/// The number of whitespace characters `s` starts with.
pub fn leading_whitespace(s: &[char], from: usize) -> (a: usize)
    requires
        from <= s@.len(),
    ensures
        from <= a <= s@.len(),
        trim_start(s@.subrange(from as int, s@.len() as int)) == s@.subrange(a as int, s@.len() as int),
{
    let n = s.len();
    let mut a = from;
    while a < n && is_whitespace_exec(s[a])
        invariant
            n == s@.len(),
            from <= a <= n,
            trim_start(s@.subrange(from as int, n as int)) == trim_start(s@.subrange(a as int, n as int)),
        decreases n - a,
    {
        assert(s@.subrange(a as int, n as int).drop_first() =~= s@.subrange(a + 1, n as int));
        a = a + 1;
    }
    a
}

/// The bounds of `s[from..to]` once trailing whitespace is removed.
pub fn trailing_whitespace_end(s: &[char], from: usize, to: usize) -> (b: usize)
    requires
        from <= to <= s@.len(),
    ensures
        from <= b <= to,
        trim_end(s@.subrange(from as int, to as int)) == s@.subrange(from as int, b as int),
{
    let mut b = to;
    while b > from && is_whitespace_exec(s[b - 1])
        invariant
            from <= b <= to <= s@.len(),
            trim_end(s@.subrange(from as int, to as int)) == trim_end(s@.subrange(from as int, b as int)),
        decreases b,
    {
        assert(s@.subrange(from as int, b as int).drop_last() =~= s@.subrange(from as int, b - 1));
        b = b - 1;
    }
    b
}

/// The bounds `(a, b)` such that `s[a..b]` is `s[from..to]` trimmed.
pub fn trim_bounds(s: &[char], from: usize, to: usize) -> (r: (usize, usize))
    requires
        from <= to <= s@.len(),
    ensures
        from <= r.0 <= r.1 <= to,
        trim(s@.subrange(from as int, to as int)) == s@.subrange(r.0 as int, r.1 as int),
{
    let n = s.len();
    let ghost whole = s@.subrange(from as int, to as int);
    let mut a = from;
    while a < to && is_whitespace_exec(s[a])
        invariant
            n == s@.len(),
            from <= a <= to <= n,
            trim_start(whole) == trim_start(s@.subrange(a as int, to as int)),
        decreases to - a,
    {
        assert(s@.subrange(a as int, to as int).drop_first() =~= s@.subrange(a + 1, to as int));
        a = a + 1;
    }
    assert(trim_start(s@.subrange(a as int, to as int)) == s@.subrange(a as int, to as int));
    let b = trailing_whitespace_end(s, a, to);
    (a, b)
}

/// A copy of `s[from..to]`.
pub fn copy_range(s: &[char], from: usize, to: usize) -> (r: Vec<char>)
    requires
        from <= to <= s@.len(),
    ensures
        r@ == s@.subrange(from as int, to as int),
{
    let mut r: Vec<char> = Vec::new();
    let mut i = from;
    while i < to
        invariant
            from <= i <= to <= s@.len(),
            r@ == s@.subrange(from as int, i as int),
        decreases to - i,
    {
        r.push(s[i]);
        assert(s@.subrange(from as int, i + 1) =~= s@.subrange(from as int, i as int).push(s@[i as int]));
        i = i + 1;
    }
    r
}

/// A copy of `s` trimmed.
pub fn trim_exec(s: &[char]) -> (r: Vec<char>)
    ensures
        r@ == trim(s@),
{
    let (a, b) = trim_bounds(s, 0, s.len());
    assert(s@.subrange(0, s@.len() as int) =~= s@);
    copy_range(s, a, b)
}

// ---------------------------------------------------------------------------
// Markup and spacing
// ---------------------------------------------------------------------------

/// Reading `s` left to right: the text kept so far and whether a tag is open.
/// `<` opens a tag and is dropped, `>` closes it and becomes a space,
/// any other character is kept only outside a tag.
pub open spec fn strip_tags_state(s: Seq<char>) -> (Seq<char>, bool)
    decreases s.len(),
{
    if s.len() == 0 {
        (Seq::empty(), false)
    } else {
        let (out, in_tag) = strip_tags_state(s.drop_last());
        let c = s.last();
        if c == '<' {
            (out, true)
        } else if c == '>' {
            (out.push(' '), false)
        } else if in_tag {
            (out, true)
        } else {
            (out.push(c), false)
        }
    }
}

/// `s` with its markup tags removed, each `>` leaving a space.
pub open spec fn strip_tags(s: Seq<char>) -> Seq<char> {
    strip_tags_state(s).0
}

/// Removes markup tags from `s`, each closing `>` becoming a space.
pub fn strip_tags_exec(s: &[char]) -> (r: Vec<char>)
    ensures
        r@ == strip_tags(s@),
{
    let mut out: Vec<char> = Vec::new();
    let mut in_tag = false;
    let n = s.len();
    for i in 0..n
        invariant
            n == s@.len(),
            (out@, in_tag) == strip_tags_state(s@.take(i as int)),
    {
        assert(s@.take(i + 1).drop_last() =~= s@.take(i as int));
        let c = s[i];
        if c == '<' {
            in_tag = true;
        } else if c == '>' {
            in_tag = false;
            out.push(' ');
        } else if !in_tag {
            out.push(c);
        }
    }
    assert(s@.take(n as int) =~= s@);
    out
}

/// Reading `s` left to right: the words seen so far joined by single spaces, and whether
/// whitespace has followed the last word.
pub open spec fn collapse_state(s: Seq<char>) -> (Seq<char>, bool)
    decreases s.len(),
{
    if s.len() == 0 {
        (Seq::empty(), false)
    } else {
        let (out, gap) = collapse_state(s.drop_last());
        let c = s.last();
        if is_whitespace(c) {
            (out, out.len() > 0)
        } else if gap {
            (out.push(' ').push(c), false)
        } else {
            (out.push(c), false)
        }
    }
}

/// The whitespace-separated words of `s` joined by single spaces
/// (`s.split_whitespace().collect::<Vec<_>>().join(" ")`).
pub open spec fn collapse_whitespace(s: Seq<char>) -> Seq<char> {
    collapse_state(s).0
}

/// Joins the whitespace-separated words of `s` with single spaces.
pub fn collapse_whitespace_exec(s: &[char]) -> (r: Vec<char>)
    ensures
        r@ == collapse_whitespace(s@),
{
    let mut out: Vec<char> = Vec::new();
    let mut gap = false;
    let n = s.len();
    for i in 0..n
        invariant
            n == s@.len(),
            (out@, gap) == collapse_state(s@.take(i as int)),
    {
        assert(s@.take(i + 1).drop_last() =~= s@.take(i as int));
        let c = s[i];
        if is_whitespace_exec(c) {
            gap = out.len() > 0;
        } else {
            if gap {
                out.push(' ');
            }
            out.push(c);
            gap = false;
        }
    }
    assert(s@.take(n as int) =~= s@);
    out
}

// ---------------------------------------------------------------------------
// Joining and conversions
// ---------------------------------------------------------------------------

/// The items of `items` separated by `sep` (`[T]::join`).
pub open spec fn join(items: Seq<Seq<char>>, sep: Seq<char>) -> Seq<char>
    decreases items.len(),
{
    if items.len() == 0 {
        Seq::empty()
    } else if items.len() == 1 {
        items[0]
    } else {
        join(items.drop_last(), sep) + sep + items.last()
    }
}

/// The views of a list of character vectors.
pub open spec fn views(items: Seq<Vec<char>>) -> Seq<Seq<char>> {
    items.map_values(|v: Vec<char>| v@)
}

/// Appends the characters of `more` to `out`.
pub fn append_chars(out: &mut Vec<char>, more: &[char])
    ensures
        final(out)@ == old(out)@ + more@,
{
    let ghost start = out@;
    let m = more.len();
    for k in 0..m
        invariant
            m == more@.len(),
            out@ == start + more@.take(k as int),
    {
        out.push(more[k]);
        assert(more@.take(k + 1) =~= more@.take(k as int).push(more@[k as int]));
    }
    assert(more@.take(m as int) =~= more@);
}

/// The items separated by `sep`.
pub fn join_exec(items: &Vec<Vec<char>>, sep: &[char]) -> (r: Vec<char>)
    ensures
        r@ == join(views(items@), sep@),
{
    let mut out: Vec<char> = Vec::new();
    let n = items.len();
    for i in 0..n
        invariant
            n == items@.len(),
            out@ == join(views(items@.take(i as int)), sep@),
    {
        assert(views(items@.take(i + 1)).drop_last() =~= views(items@.take(i as int)));
        if i > 0 {
            append_chars(&mut out, sep);
        } else {
            assert(views(items@.take(i as int)) =~= Seq::<Seq<char>>::empty());
        }
        append_chars(&mut out, items[i].as_slice());
        assert(out@ =~= join(views(items@.take(i + 1)), sep@));
    }
    assert(items@.take(n as int) =~= items@);
    out
}

/// Equality of two character sequences.
pub fn chars_eq(a: &[char], b: &[char]) -> (r: bool)
    ensures
        r == (a@ == b@),
{
    if a.len() != b.len() {
        return false;
    }
    let n = a.len();
    for i in 0..n
        invariant
            n == a@.len(),
            n == b@.len(),
            forall|k: int| 0 <= k < i ==> a@[k] == b@[k],
    {
        if a[i] != b[i] {
            return false;
        }
    }
    assert(a@ =~= b@);
    true
}

/// `s` with `from` replaced by `to` throughout, for string constants.
pub fn replace_literal(s: &[char], from: &str, to: &str) -> (r: Vec<char>)
    requires
        from@.len() > 0,
    ensures
        r@ == replace(s@, from@, to@),
{
    let f = to_chars(from);
    let t = to_chars(to);
    replace_exec(s, f.as_slice(), t.as_slice())
}

/// What `str::to_lowercase` returns for a string with the characters `s`: the full Unicode
/// lowercase mapping, which depends on `s` alone.
pub uninterp spec fn lowercase(s: Seq<char>) -> Seq<char>;

/// `str::to_lowercase`: the result's characters are `lowercase` of the argument's.
#[verifier::external_body]
pub(crate) fn to_lowercase(s: &str) -> (r: String)
    ensures
        r@ == lowercase(s@),
{
    s.to_lowercase()
}

/// The first occurrence of the constant `pat` in `s` at or after `from`.
pub fn find_literal(s: &[char], pat: &str, from: usize) -> (r: Option<usize>)
    requires
        from <= s@.len(),
    ensures
        r matches Some(j) ==> {
            &&& find_from(s@, pat@, from as int) == Some(j as int)
            &&& from <= j
            &&& j + pat@.len() <= s@.len()
        },
        r is None ==> find_from(s@, pat@, from as int) is None,
{
    let p = to_chars(pat);
    let r = find_from_exec(s, p.as_slice(), from);
    proof {
        lemma_find_from(s@, pat@, from as int);
    }
    r
}

/// The views of a list of strings.
pub open spec fn string_views(items: Seq<String>) -> Seq<Seq<char>> {
    items.map_values(|s: String| s@)
}

/// Strings holding the given character vectors.
pub fn to_strings(items: &Vec<Vec<char>>) -> (r: Vec<String>)
    ensures
        string_views(r@) == views(items@),
{
    let mut r: Vec<String> = Vec::new();
    let n = items.len();
    for i in 0..n
        invariant
            n == items@.len(),
            string_views(r@) == views(items@.take(i as int)),
    {
        let ghost before = r@;
        let s = from_chars(items[i].as_slice());
        r.push(s);
        assert(r@ == before.push(s));
        assert(string_views(before).len() == i);
        assert(r@.len() == i + 1);
        assert forall|k: int| 0 <= k < i + 1 implies #[trigger] string_views(r@)[k] == views(
            items@.take(i + 1),
        )[k] by {
            if k < i {
                assert(string_views(before)[k] == views(items@.take(i as int))[k]);
            }
        }
        assert(string_views(r@) =~= views(items@.take(i + 1)));
    }
    assert(items@.take(n as int) =~= items@);
    r
}

/// Whether `x` is one of `items`.
pub fn contains_chars(items: &Vec<Vec<char>>, x: &[char]) -> (r: bool)
    ensures
        r == views(items@).contains(x@),
{
    let n = items.len();
    for i in 0..n
        invariant
            n == items@.len(),
            forall|k: int| 0 <= k < i ==> items@[k]@ != x@,
    {
        if chars_eq(items[i].as_slice(), x) {
            assert(views(items@)[i as int] == x@);
            return true;
        }
    }
    assert(!views(items@).contains(x@));
    false
}

/// The characters of each of the given strings.
pub open spec fn str_views(items: Seq<&str>) -> Seq<Seq<char>> {
    items.map_values(|s: &str| s@)
}

// ---------------------------------------------------------------------------
// Laws
// ---------------------------------------------------------------------------

/// Replacing an absent text changes nothing.
pub proof fn lemma_replace_absent(s: Seq<char>, from: Seq<char>, to: Seq<char>)
    requires
        forall|k: int| !matches_at(s, from, k),
    ensures
        replace(s, from, to) == s,
{
    lemma_replace_from_absent(s, from, to, 0);
    assert(s.subrange(0, s.len() as int) =~= s);
}

/// Replacing an absent text in `s[i..]` leaves `s[i..]`.
proof fn lemma_replace_from_absent(s: Seq<char>, from: Seq<char>, to: Seq<char>, i: int)
    requires
        forall|k: int| !matches_at(s, from, k),
        0 <= i <= s.len(),
    ensures
        replace_from(s, from, to, i) == s.subrange(i, s.len() as int),
    decreases s.len() - i,
{
    if i < s.len() {
        lemma_replace_from_absent(s, from, to, i + 1);
        assert(seq![s[i]] + s.subrange(i + 1, s.len() as int) =~= s.subrange(i, s.len() as int));
    } else {
        assert(s.subrange(i, s.len() as int) =~= Seq::<char>::empty());
    }
}

/// Text whose only whitespace is single spaces between non-whitespace characters.
pub open spec fn single_spaced(s: Seq<char>) -> bool {
    &&& (s.len() > 0 ==> !is_whitespace(s[0]))
    &&& forall|i: int|
        0 <= i < s.len() && is_whitespace(#[trigger] s[i]) ==> {
            &&& s[i] == ' '
            &&& i + 1 < s.len()
            &&& !is_whitespace(s[i + 1])
        }
}

/// The state of the whitespace collapse keeps its text single spaced.
proof fn lemma_collapse_state(s: Seq<char>)
    ensures
        single_spaced(collapse_state(s).0),
        collapse_state(s).1 ==> collapse_state(s).0.len() > 0,
    decreases s.len(),
{
    if s.len() > 0 {
        lemma_collapse_state(s.drop_last());
        let (out, gap) = collapse_state(s.drop_last());
        let c = s.last();
        if !is_whitespace(c) {
            if gap {
                let r = out.push(' ').push(c);
                assert forall|i: int| 0 <= i < r.len() && is_whitespace(#[trigger] r[i]) implies {
                    &&& r[i] == ' '
                    &&& i + 1 < r.len()
                    &&& !is_whitespace(r[i + 1])
                } by {
                    if i < out.len() {
                        assert(r[i] == out[i]);
                        assert(r[i + 1] == out[i + 1] || i + 1 == out.len());
                    }
                }
            } else {
                let r = out.push(c);
                assert forall|i: int| 0 <= i < r.len() && is_whitespace(#[trigger] r[i]) implies {
                    &&& r[i] == ' '
                    &&& i + 1 < r.len()
                    &&& !is_whitespace(r[i + 1])
                } by {
                    if i < out.len() {
                        assert(r[i] == out[i]);
                    }
                }
            }
        }
    }
}

/// Collapsing whitespace leaves no whitespace but single spaces between words: none at
/// either end and never two in a row.
pub proof fn lemma_collapse_single_spaced(s: Seq<char>)
    ensures
        single_spaced(collapse_whitespace(s)),
{
    lemma_collapse_state(s);
}

/// Trimming the start leaves a suffix that starts with non-whitespace.
pub proof fn lemma_trim_start(s: Seq<char>)
    ensures
        trim_start(s).len() > 0 ==> !is_whitespace(trim_start(s)[0]),
        trim_start(s).len() <= s.len(),
        trim_start(s) =~= s.subrange(s.len() - trim_start(s).len(), s.len() as int),
    decreases s.len(),
{
    if s.len() > 0 && is_whitespace(s[0]) {
        lemma_trim_start(s.drop_first());
    }
}

/// Trimming the end leaves a prefix that ends with non-whitespace.
proof fn lemma_trim_end(s: Seq<char>)
    ensures
        trim_end(s).len() > 0 ==> !is_whitespace(trim_end(s).last()),
        trim_end(s) =~= s.take(trim_end(s).len() as int),
        trim_end(s).len() <= s.len(),
    decreases s.len(),
{
    if s.len() > 0 && is_whitespace(s.last()) {
        lemma_trim_end(s.drop_last());
    }
}

/// Trimmed text starts and ends with a non-whitespace character (or is empty), and trimming
/// it again changes nothing.
pub proof fn lemma_trim_trimmed(s: Seq<char>)
    ensures
        trim(s).len() > 0 ==> !is_whitespace(trim(s)[0]) && !is_whitespace(trim(s).last()),
        trim(trim(s)) == trim(s),
{
    let t = trim_start(s);
    lemma_trim_start(s);
    lemma_trim_end(t);
    let r = trim_end(t);
    if r.len() > 0 {
        assert(r[0] == t[0]);
    }
    // r starts with a non-whitespace character, so trimming its start is the identity.
    assert(trim_start(r) == r);
    lemma_trim_end(r);
    if r.len() > 0 {
        assert(trim_end(r) == r);
    }
}

// ---------------------------------------------------------------------------
// Byte offsets
// ---------------------------------------------------------------------------

/// The byte offset in the UTF-8 encoding of `s` at which its character `c` starts.
pub open spec fn byte_offset(s: Seq<char>, c: int) -> int {
    encode_utf8(s.take(c)).len() as int
}

/// The UTF-8 encoding of two texts one after the other is their encodings one after the other.
pub proof fn lemma_encode_utf8_concat(a: Seq<char>, b: Seq<char>)
    ensures
        encode_utf8(a + b) == encode_utf8(a) + encode_utf8(b),
    decreases a.len(),
{
    if a.len() == 0 {
        assert(a + b =~= b);
        assert(encode_utf8(a) + encode_utf8(b) =~= encode_utf8(b));
    } else {
        lemma_encode_utf8_concat(a.drop_first(), b);
        assert((a + b).drop_first() =~= a.drop_first() + b);
        assert((a + b)[0] == a[0]);
        assert(encode_utf8(a) + encode_utf8(b) =~= encode_scalar(a[0] as u32) + (encode_utf8(
            a.drop_first(),
        ) + encode_utf8(b)));
    }
}

/// Each character takes one to four bytes: the offset of the next character.
pub proof fn lemma_byte_offset_step(s: Seq<char>, c: int)
    requires
        0 <= c < s.len(),
    ensures
        byte_offset(s, c + 1) == byte_offset(s, c) + encode_scalar(s[c] as u32).len(),
        1 <= encode_scalar(s[c] as u32).len() <= 4,
{
    assert(s.take(c + 1) =~= s.take(c) + seq![s[c]]);
    lemma_encode_utf8_concat(s.take(c), seq![s[c]]);
    assert(seq![s[c]].drop_first() =~= Seq::<char>::empty());
    assert(encode_utf8(seq![s[c]]) =~= encode_scalar(s[c] as u32) + encode_utf8(Seq::<char>::empty()));
}

/// The bytes of `s` between the offsets of characters `i` and `j` encode `s[i..j]`.
pub proof fn lemma_encode_subrange(s: Seq<char>, i: int, j: int)
    requires
        0 <= i <= j <= s.len(),
    ensures
        byte_offset(s, i) <= byte_offset(s, j) <= encode_utf8(s).len(),
        encode_utf8(s).subrange(byte_offset(s, i), byte_offset(s, j)) == encode_utf8(
            s.subrange(i, j),
        ),
{
    assert(s.take(j) =~= s.take(i) + s.subrange(i, j));
    lemma_encode_utf8_concat(s.take(i), s.subrange(i, j));
    assert(s =~= s.take(j) + s.skip(j));
    lemma_encode_utf8_concat(s.take(j), s.skip(j));
    let e = encode_utf8(s);
    assert(e.subrange(byte_offset(s, i), byte_offset(s, j)) =~= encode_utf8(s.subrange(i, j)));
}

/// Byte offsets grow strictly with character positions.
pub proof fn lemma_byte_offset_monotonic(s: Seq<char>, i: int, j: int)
    requires
        0 <= i < j <= s.len(),
    ensures
        byte_offset(s, i) < byte_offset(s, j),
    decreases j - i,
{
    lemma_byte_offset_step(s, j - 1);
    if i < j - 1 {
        lemma_byte_offset_monotonic(s, i, j - 1);
    }
}

/// The number of bytes the UTF-8 encoding of `c` takes.
pub fn utf8_width(c: char) -> (r: usize)
    ensures
        r == encode_scalar(c as u32).len(),
{
    proof {
        vstd::utf8::char_is_scalar(c);
    }
    let v = c as u32;
    if v < 0x80 {
        1
    } else if v < 0x800 {
        2
    } else if v < 0x10000 {
        3
    } else {
        4
    }
}

/// The byte offset of character `to` of `s`, counting on from character `from` at byte offset
/// `from_byte`; `total` is the length of the encoding of `s`.
pub fn byte_offset_from(s: &[char], from: usize, from_byte: usize, to: usize, total: usize) -> (r: usize)
    requires
        from <= to <= s@.len(),
        from_byte == byte_offset(s@, from as int),
        total == byte_offset(s@, s@.len() as int),
    ensures
        r == byte_offset(s@, to as int),
{
    let mut i = from;
    let mut b = from_byte;
    while i < to
        invariant
            from <= i <= to <= s@.len(),
            b == byte_offset(s@, i as int),
            total == byte_offset(s@, s@.len() as int),
        decreases to - i,
    {
        proof {
            lemma_byte_offset_step(s@, i as int);
            if i + 1 < s@.len() {
                lemma_byte_offset_monotonic(s@, i + 1, s@.len() as int);
            }
        }
        b = b + utf8_width(s[i]);
        i = i + 1;
    }
    b
}

/// The character position of `s` that starts at byte offset `byte`, which must be one.
pub fn char_position(s: &[char], byte: usize, total: usize) -> (r: usize)
    requires
        exists|c: int| 0 <= c <= s@.len() && byte_offset(s@, c) == byte,
        total == byte_offset(s@, s@.len() as int),
    ensures
        r <= s@.len(),
        byte_offset(s@, r as int) == byte,
        forall|c: int| 0 <= c <= s@.len() && byte_offset(s@, c) == byte ==> c == r,
{
    let ghost target = choose|c: int| 0 <= c <= s@.len() && byte_offset(s@, c) == byte;
    let mut i: usize = 0;
    let mut b: usize = 0;
    assert(s@.take(0) =~= Seq::<char>::empty());
    while b < byte
        invariant
            0 <= target <= s@.len(),
            byte_offset(s@, target) == byte,
            i <= target,
            b == byte_offset(s@, i as int),
            total == byte_offset(s@, s@.len() as int),
        decreases target - i,
    {
        proof {
            if i == target {
                assert(false);
            }
            lemma_byte_offset_step(s@, i as int);
            if i + 1 < target {
                lemma_byte_offset_monotonic(s@, i + 1, target);
            }
            if i + 1 > target {
                assert(false);
            }
        }
        b = b + utf8_width(s[i]);
        i = i + 1;
    }
    proof {
        if i < target {
            lemma_byte_offset_monotonic(s@, i as int, target);
        }
        assert forall|c: int| 0 <= c <= s@.len() && byte_offset(s@, c) == byte implies c == i by {
            if c < i {
                lemma_byte_offset_monotonic(s@, c, i as int);
            } else if c > i {
                lemma_byte_offset_monotonic(s@, i as int, c);
            }
        }
    }
    i
}

/// Replacing by a text no longer than the one replaced never lengthens the text.
pub proof fn lemma_replace_not_longer(s: Seq<char>, from: Seq<char>, to: Seq<char>)
    requires
        to.len() <= from.len(),
    ensures
        replace(s, from, to).len() <= s.len(),
{
    lemma_replace_from_not_longer(s, from, to, 0);
}

/// `replace_from` gives at most as many characters as `s[i..]` has.
proof fn lemma_replace_from_not_longer(s: Seq<char>, from: Seq<char>, to: Seq<char>, i: int)
    requires
        to.len() <= from.len(),
        0 <= i,
    ensures
        replace_from(s, from, to, i).len() <= if i <= s.len() { s.len() - i } else { 0 },
    decreases s.len() - i,
{
    if i < s.len() {
        if from.len() > 0 && matches_at(s, from, i) {
            lemma_replace_from_not_longer(s, from, to, i + from.len());
        } else {
            lemma_replace_from_not_longer(s, from, to, i + 1);
        }
    }
}

/// Every character takes at least one byte of UTF-8.
proof fn lemma_encode_not_shorter(x: Seq<char>)
    ensures
        encode_utf8(x).len() >= x.len(),
    decreases x.len(),
{
    if x.len() > 0 {
        lemma_encode_not_shorter(x.drop_first());
    }
}

/// ASCII text takes one byte per character.
pub proof fn lemma_encode_ascii(x: Seq<char>)
    requires
        vstd::utf8::is_ascii_chars(x),
    ensures
        encode_utf8(x).len() == x.len(),
    decreases x.len(),
{
    if x.len() > 0 {
        assert(x[0] <= '\u{7f}');
        assert(vstd::utf8::is_ascii_chars(x.drop_first())) by {
            assert forall|k: int| 0 <= k < x.drop_first().len() implies '\0' <= #[trigger] x.drop_first()[k]
                <= '\u{7f}' by {
                assert(x.drop_first()[k] == x[k + 1]);
            }
        }
        lemma_encode_ascii(x.drop_first());
    }
}

/// Replacing with ASCII text no longer than the pattern never lengthens the UTF-8 encoding.
pub proof fn lemma_replace_fewer_bytes(s: Seq<char>, from: Seq<char>, to: Seq<char>)
    requires
        to.len() <= from.len(),
        vstd::utf8::is_ascii_chars(to),
    ensures
        encode_utf8(replace(s, from, to)).len() <= encode_utf8(s).len(),
{
    assert(s.skip(0) =~= s);
    lemma_replace_from_fewer_bytes(s, from, to, 0);
}

/// `replace_from` takes at most as many bytes as `s[i..]`.
proof fn lemma_replace_from_fewer_bytes(s: Seq<char>, from: Seq<char>, to: Seq<char>, i: int)
    requires
        to.len() <= from.len(),
        vstd::utf8::is_ascii_chars(to),
        0 <= i <= s.len(),
    ensures
        encode_utf8(replace_from(s, from, to, i)).len() <= encode_utf8(s.skip(i)).len(),
    decreases s.len() - i,
{
    if i < s.len() {
        if from.len() > 0 && matches_at(s, from, i) {
            let j = i + from.len();
            lemma_replace_from_fewer_bytes(s, from, to, j);
            lemma_encode_utf8_concat(to, replace_from(s, from, to, j));
            lemma_encode_ascii(to);
            assert(s.skip(i) =~= s.subrange(i, j) + s.skip(j));
            lemma_encode_utf8_concat(s.subrange(i, j), s.skip(j));
            lemma_encode_not_shorter(s.subrange(i, j));
        } else {
            lemma_replace_from_fewer_bytes(s, from, to, i + 1);
            lemma_encode_utf8_concat(seq![s[i]], replace_from(s, from, to, i + 1));
            assert(s.skip(i) =~= seq![s[i]] + s.skip(i + 1));
            lemma_encode_utf8_concat(seq![s[i]], s.skip(i + 1));
        }
    } else {
        assert(replace_from(s, from, to, i) =~= Seq::<char>::empty());
        assert(s.skip(i) =~= Seq::<char>::empty());
    }
}

/// Text whose first and last characters are not whitespace is its own trimming.
pub proof fn lemma_trim_of_trimmed_ends(s: Seq<char>)
    requires
        s.len() > 0 ==> !is_whitespace(s[0]) && !is_whitespace(s.last()),
    ensures
        trim(s) == s,
{
    assert(trim_start(s) == s);
    assert(trim_end(s) == s);
}

/// Trimming keeps a piece of the text: `trim(s)` is `s[a..b]` for some `a <= b`.
pub proof fn lemma_trim_is_subrange(s: Seq<char>)
    ensures
        exists|a: int, b: int| 0 <= a <= b <= s.len() && trim(s) == s.subrange(a, b),
{
    lemma_trim_start(s);
    let t = trim_start(s);
    let a = s.len() - t.len();
    lemma_trim_end(t);
    let b = a + trim_end(t).len();
    assert(trim(s) =~= s.subrange(a, b));
}

/// No occurrence of `p` starts in `s[lo..hi)` when that piece holds none and `s[hi]` is no
/// character of `p` after its first.
pub proof fn lemma_no_match_up_to(s: Seq<char>, p: Seq<char>, lo: int, hi: int)
    requires
        0 <= lo <= hi < s.len(),
        !contains(s.subrange(lo, hi), p),
        forall|m: int| 1 <= m < p.len() ==> p[m] != s[hi],
    ensures
        forall|j: int| lo <= j < hi ==> !matches_at(s, p, j),
{
    assert forall|j: int| lo <= j < hi implies !matches_at(s, p, j) by {
        if matches_at(s, p, j) {
            if j + p.len() <= hi {
                let t = s.subrange(lo, hi);
                assert forall|q: int| 0 <= q < p.len() implies #[trigger] t[j - lo + q] == p[q] by {
                    assert(s[j + q] == p[q]);
                }
                assert(matches_at(t, p, j - lo));
                lemma_found_if_matches(t, p, j - lo);
            } else {
                assert(s[j + (hi - j)] == p[hi - j]);
            }
        }
    }
}

/// Searching from `a` finds what searching from `b` finds when nothing matches in between.
pub proof fn lemma_find_across_gap(s: Seq<char>, p: Seq<char>, a: int, b: int)
    requires
        0 <= a <= b,
        forall|j: int| a <= j < b ==> !matches_at(s, p, j),
    ensures
        find_from(s, p, a) == find_from(s, p, b),
{
    lemma_find_from(s, p, a);
    lemma_find_from(s, p, b);
    if let Some(x) = find_from(s, p, a) {
        assert(x >= b);
        if let Some(y) = find_from(s, p, b) {
            if x < y {
                assert(!matches_at(s, p, x));
            } else if y < x {
                assert(!matches_at(s, p, y));
            }
        } else {
            assert(!matches_at(s, p, x));
        }
    } else {
        if let Some(y) = find_from(s, p, b) {
            assert(!matches_at(s, p, y));
        }
    }
}

/// Searching from `a` finds `b` when `p` occurs at `b` and nowhere in between.
pub proof fn lemma_find_at(s: Seq<char>, p: Seq<char>, a: int, b: int)
    requires
        0 <= a <= b,
        forall|j: int| a <= j < b ==> !matches_at(s, p, j),
        matches_at(s, p, b),
    ensures
        find_from(s, p, a) == Some(b),
{
    lemma_find_across_gap(s, p, a, b);
}

/// Text without `<` or `>` has no tags to strip.
pub proof fn lemma_strip_tags_plain(s: Seq<char>)
    requires
        forall|i: int| 0 <= i < s.len() ==> #[trigger] s[i] != '<' && s[i] != '>',
    ensures
        strip_tags_state(s) == (s, false),
        strip_tags(s) == s,
    decreases s.len(),
{
    if s.len() > 0 {
        let init = s.drop_last();
        assert forall|i: int| 0 <= i < init.len() implies #[trigger] init[i] != '<' && init[i] != '>' by {
            assert(init[i] == s[i]);
        }
        lemma_strip_tags_plain(init);
        assert(s[s.len() - 1] != '<' && s[s.len() - 1] != '>');
        assert(init.push(s.last()) =~= s);
    }
}

/// A text that occurs at some position is found.
pub proof fn lemma_found_if_matches(s: Seq<char>, pat: Seq<char>, p: int)
    requires
        matches_at(s, pat, p),
    ensures
        contains(s, pat),
{
    lemma_find_from(s, pat, 0);
}

} // verus!
