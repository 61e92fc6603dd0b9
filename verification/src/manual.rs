//! Listings of manual pages from a git tree: which files are pages, and their order.
use vstd::prelude::*;

use crate::json::{json_tree_entries, tree_entries, tree_entry_view, TreeEntry};
use crate::text::{chars_eq, copy_range, matches_at, matches_at_exec, string_views, to_chars, to_strings, views};

verus! {

// ---------------------------------------------------------------------------
// Ordering text
// ---------------------------------------------------------------------------

/// `a` comes no later than `b` in lexicographic order of code points, the order of `String`.
pub open spec fn lex_le(a: Seq<char>, b: Seq<char>) -> bool
    decreases a.len(),
{
    if a.len() == 0 {
        true
    } else if b.len() == 0 {
        false
    } else if a[0] != b[0] {
        a[0] < b[0]
    } else {
        lex_le(a.drop_first(), b.drop_first())
    }
}

/// Of two texts, one comes no later than the other.
pub proof fn lemma_lex_total(a: Seq<char>, b: Seq<char>)
    ensures
        lex_le(a, b) || lex_le(b, a),
    decreases a.len(),
{
    if a.len() > 0 && b.len() > 0 && a[0] == b[0] {
        lemma_lex_total(a.drop_first(), b.drop_first());
    }
}

/// The order is transitive.
pub proof fn lemma_lex_transitive(a: Seq<char>, b: Seq<char>, c: Seq<char>)
    requires
        lex_le(a, b),
        lex_le(b, c),
    ensures
        lex_le(a, c),
    decreases a.len(),
{
    if a.len() > 0 && b.len() > 0 && c.len() > 0 && a[0] == b[0] && b[0] == c[0] {
        lemma_lex_transitive(a.drop_first(), b.drop_first(), c.drop_first());
    }
}

/// Texts that each come no later than the other are equal.
pub proof fn lemma_lex_antisymmetric(a: Seq<char>, b: Seq<char>)
    requires
        lex_le(a, b),
        lex_le(b, a),
    ensures
        a == b,
    decreases a.len(),
{
    if a.len() > 0 {
        lemma_lex_antisymmetric(a.drop_first(), b.drop_first());
        assert(a =~= seq![a[0]] + a.drop_first());
        assert(b =~= seq![b[0]] + b.drop_first());
    } else {
        assert(b.len() == 0);
        assert(a =~= b);
    }
}

/// Whether `a` comes no later than `b`.
pub fn lex_le_exec(a: &[char], b: &[char]) -> (r: bool)
    ensures
        r == lex_le(a@, b@),
{
    let n = a.len();
    let m = b.len();
    let mut i: usize = 0;
    assert(a@.skip(0) =~= a@);
    assert(b@.skip(0) =~= b@);
    while i < n && i < m && a[i] == b[i]
        invariant
            n == a@.len(),
            m == b@.len(),
            i <= n,
            i <= m,
            lex_le(a@, b@) == lex_le(a@.skip(i as int), b@.skip(i as int)),
        decreases n - i,
    {
        assert(a@.skip(i as int).drop_first() =~= a@.skip(i + 1));
        assert(b@.skip(i as int).drop_first() =~= b@.skip(i + 1));
        i = i + 1;
    }
    if i == n {
        true
    } else if i == m {
        false
    } else {
        a[i] < b[i]
    }
}

/// A list in lexicographic order.
pub open spec fn sorted(s: Seq<Seq<char>>) -> bool {
    forall|i: int, j: int| 0 <= i < j < s.len() ==> lex_le(s[i], s[j])
}

/// Puts `x` into the sorted list `v` where it belongs, after the entries that come no later.
fn insert_sorted(v: &mut Vec<Vec<char>>, x: Vec<char>)
    requires
        sorted(views(old(v)@)),
    ensures
        sorted(views(final(v)@)),
        views(final(v)@).to_multiset() == views(old(v)@).to_multiset().insert(x@),
{
    let n = v.len();
    let mut j: usize = 0;
    while j < n && lex_le_exec(v[j].as_slice(), x.as_slice())
        invariant
            n == v@.len(),
            j <= n,
            forall|k: int| 0 <= k < j ==> lex_le(#[trigger] v@[k]@, x@),
        decreases n - j,
    {
        j = j + 1;
    }
    let ghost before = views(v@);
    let ghost xv = x@;
    v.insert(j, x);
    let ghost after = views(v@);
    assert(after =~= before.insert(j as int, xv));
    assert forall|a: int, b: int| 0 <= a < b < after.len() implies lex_le(after[a], after[b]) by {
        if b < j {
        } else if b == j {
            assert(lex_le(before[a], xv));
        } else if a < j {
            assert(lex_le(before[a], xv));
            lemma_lex_total(before[j as int], xv);
            assert(lex_le(xv, before[j as int]));
            if b - 1 > j {
                lemma_lex_transitive(xv, before[j as int], before[b - 1]);
            }
            lemma_lex_transitive(before[a], xv, before[b - 1]);
        } else if a == j {
            lemma_lex_total(before[j as int], xv);
            if b - 1 > j {
                lemma_lex_transitive(xv, before[j as int], before[b - 1]);
            }
        } else {
        }
    }
    proof {
        broadcast use vstd::seq_lib::group_to_multiset_ensures;
        assert(after.remove(j as int) =~= before);
        assert(after.to_multiset().remove(xv) == before.to_multiset());
        assert(after.to_multiset().contains(xv)) by {
            assert(after[j as int] == xv);
            assert(after.contains(xv));
        }
        assert(after.to_multiset() =~= before.to_multiset().insert(xv));
    }
}

// ---------------------------------------------------------------------------
// Manual pages
// ---------------------------------------------------------------------------

/// The manual page a tree entry stands for: a `blob` under `prefix` whose path ends in `.md`,
/// named by its path below `prefix` without the `.md`.
pub open spec fn manual_page(entry: (Option<Seq<char>>, Option<Seq<char>>), prefix: Seq<char>) -> Option<
    Seq<char>,
> {
    match entry {
        (Some(path), Some(kind)) => {
            if kind == "blob"@ && matches_at(path, prefix, 0) && path.len() >= 3 && matches_at(
                path,
                ".md"@,
                path.len() - 3,
            ) {
                let rest = path.subrange(prefix.len() as int, path.len() as int);
                if rest.len() >= 3 && matches_at(rest, ".md"@, rest.len() - 3) {
                    Some(rest.take(rest.len() - 3))
                } else {
                    Some(rest)
                }
            } else {
                None
            }
        },
        _ => None,
    }
}

/// The manual pages under `prefix` among `entries`, in tree order.
pub open spec fn manual_candidates(
    entries: Seq<(Option<Seq<char>>, Option<Seq<char>>)>,
    prefix: Seq<char>,
) -> Seq<
    Seq<char>,
>
    decreases entries.len(),
{
    if entries.len() == 0 {
        Seq::empty()
    } else {
        let earlier = manual_candidates(entries.drop_last(), prefix);
        match manual_page(entries.last(), prefix) {
            Some(p) => earlier.push(p),
            None => earlier,
        }
    }
}

/// The manual page that `entry` stands for, if any.
fn manual_page_exec(entry: &TreeEntry, prefix: &[char]) -> (r: Option<Vec<char>>)
    ensures
        r matches Some(v) ==> manual_page(tree_entry_view(*entry), prefix@) == Some(v@),
        r is None ==> manual_page(tree_entry_view(*entry), prefix@) is None,
{
    let (path, kind) = match (&entry.path, &entry.kind) {
        (Some(p), Some(k)) => (p, k),
        _ => return None,
    };
    let path = to_chars(path.as_str());
    let kind = to_chars(kind.as_str());
    let blob = to_chars("blob");
    let suffix = to_chars(".md");
    proof {
        reveal_strlit(".md");
    }
    let n = path.len();
    if !chars_eq(kind.as_slice(), blob.as_slice()) || !matches_at_exec(path.as_slice(), prefix, 0)
        || n < 3 || !matches_at_exec(path.as_slice(), suffix.as_slice(), n - 3) {
        return None;
    }
    let rest = copy_range(path.as_slice(), prefix.len(), n);
    let m = rest.len();
    if m >= 3 && matches_at_exec(rest.as_slice(), suffix.as_slice(), m - 3) {
        let page = copy_range(rest.as_slice(), 0, m - 3);
        assert(page@ =~= rest@.take(m - 3));
        Some(page)
    } else {
        Some(rest)
    }
}

/// Why the manual's pages could not be listed.
pub enum ManualListFailure {
    /// The listing is not JSON.
    InvalidJson(serde_json::Error),
    /// The listing has no `tree` array.
    MissingTree,
}

/// The message for a listing without a `tree` array.
pub fn missing_tree_message() -> (r: String)
    ensures
        r@ == "GitHub API response missing 'tree' array"@,
{
    "GitHub API response missing 'tree' array".to_owned()
}

/// The manual pages under `prefix` named in the git tree listing `body`, in lexicographic
/// order.
pub fn manual_pages(body: &str, prefix: &str) -> (r: Result<Vec<String>, ManualListFailure>)
    ensures
        match json_tree_entries(body@, "tree"@, "path"@, "type"@) {
            None => r matches Err(ManualListFailure::InvalidJson(_)),
            Some(None) => r matches Err(ManualListFailure::MissingTree),
            Some(Some(entries)) => (r matches Ok(pages) && sorted(string_views(pages@))
                && string_views(pages@).to_multiset() == manual_candidates(
                entries,
                prefix@,
            ).to_multiset()),
        },
{
    let entries = match tree_entries(body, "tree", "path", "type") {
        Ok(Some(entries)) => entries,
        Ok(None) => return Err(ManualListFailure::MissingTree),
        Err(e) => return Err(ManualListFailure::InvalidJson(e)),
    };
    let prefix_chars = to_chars(prefix);
    let ghost entry_views = entries@.map_values(|e: TreeEntry| tree_entry_view(e));
    let mut pages: Vec<Vec<char>> = Vec::new();
    let n = entries.len();
    proof {
        assert(views(pages@) =~= Seq::<Seq<char>>::empty());
        assert(entry_views.take(0) =~= Seq::empty());
        assert(manual_candidates(entry_views.take(0), prefix@) =~= views(pages@));
    }
    for i in 0..n
        invariant
            n == entries@.len(),
            entry_views == entries@.map_values(|e: TreeEntry| tree_entry_view(e)),
            sorted(views(pages@)),
            views(pages@).to_multiset() == manual_candidates(
                entry_views.take(i as int),
                prefix@,
            ).to_multiset(),
            prefix_chars@ == prefix@,
    {
        assert(entry_views.take(i + 1).drop_last() =~= entry_views.take(i as int));
        assert(entry_views.take(i + 1).last() == tree_entry_view(entries@[i as int]));
        match manual_page_exec(&entries[i], prefix_chars.as_slice()) {
            Some(page) => insert_sorted(&mut pages, page),
            None => {},
        }
        proof {
            broadcast use vstd::seq_lib::group_to_multiset_ensures;
        }
    }
    assert(entry_views.take(n as int) =~= entry_views);
    Ok(to_strings(&pages))
}

/// Every text comes no later than itself.
proof fn lemma_lex_reflexive(a: Seq<char>)
    ensures
        lex_le(a, a),
{
    lemma_lex_total(a, a);
}

/// A sorted list has one arrangement only: two lists in lexicographic order with the same
/// entries are the same list. So the manual listing's contract fixes its result.
pub proof fn law_sorted_unique(a: Seq<Seq<char>>, b: Seq<Seq<char>>)
    requires
        sorted(a),
        sorted(b),
        a.to_multiset() == b.to_multiset(),
    ensures
        a == b,
    decreases a.len(),
{
    broadcast use vstd::seq_lib::group_to_multiset_ensures;

    assert(a.len() == a.to_multiset().len());
    assert(b.len() == b.to_multiset().len());
    if a.len() == 0 {
        assert(a =~= b);
    } else {
        assert(b.contains(b[0]));
        assert(a.to_multiset().count(b[0]) > 0);
        assert(a.contains(b[0]));
        let k = choose|k: int| 0 <= k < a.len() && a[k] == b[0];
        lemma_lex_reflexive(a[0]);
        assert(lex_le(a[0], b[0]));
        assert(a.contains(a[0]));
        assert(b.to_multiset().count(a[0]) > 0);
        assert(b.contains(a[0]));
        let l = choose|l: int| 0 <= l < b.len() && b[l] == a[0];
        lemma_lex_reflexive(b[0]);
        assert(lex_le(b[0], a[0]));
        lemma_lex_antisymmetric(a[0], b[0]);
        assert(a.remove(0) =~= a.drop_first());
        assert(b.remove(0) =~= b.drop_first());
        assert(a.drop_first().to_multiset() == b.drop_first().to_multiset());
        law_sorted_unique(a.drop_first(), b.drop_first());
        assert(a =~= seq![a[0]] + a.drop_first());
        assert(b =~= seq![b[0]] + b.drop_first());
    }
}

/// Each candidate page stands for an entry of the tree.
proof fn lemma_candidates_from_entries(
    entries: Seq<(Option<Seq<char>>, Option<Seq<char>>)>,
    prefix: Seq<char>,
)
    ensures
        forall|i: int|
            0 <= i < manual_candidates(entries, prefix).len() ==> exists|k: int|
                0 <= k < entries.len() && manual_page(entries[k], prefix) == Some(
                    #[trigger] manual_candidates(entries, prefix)[i],
                ),
    decreases entries.len(),
{
    if entries.len() > 0 {
        let earlier = entries.drop_last();
        lemma_candidates_from_entries(earlier, prefix);
        let c = manual_candidates(entries, prefix);
        assert forall|i: int| 0 <= i < c.len() implies exists|k: int|
            0 <= k < entries.len() && manual_page(entries[k], prefix) == Some(#[trigger] c[i]) by {
            if i < manual_candidates(earlier, prefix).len() {
                let k = choose|k: int|
                    0 <= k < earlier.len() && manual_page(earlier[k], prefix) == Some(
                        manual_candidates(earlier, prefix)[i],
                    );
                assert(entries[k] == earlier[k]);
            } else {
                assert(manual_page(entries[entries.len() - 1], prefix) == Some(c[i]));
            }
        }
    }
}

/// Every page a listing gives stands for a Markdown file of the tree: for each page there is
/// an entry whose manual page it is.
pub proof fn law_listed_pages_from_tree(
    entries: Seq<(Option<Seq<char>>, Option<Seq<char>>)>,
    prefix: Seq<char>,
    pages: Seq<Seq<char>>,
)
    requires
        pages.to_multiset() == manual_candidates(entries, prefix).to_multiset(),
    ensures
        forall|i: int|
            0 <= i < pages.len() ==> exists|k: int|
                0 <= k < entries.len() && manual_page(entries[k], prefix) == Some(#[trigger] pages[i]),
{
    broadcast use vstd::seq_lib::group_to_multiset_ensures;

    lemma_candidates_from_entries(entries, prefix);
    let c = manual_candidates(entries, prefix);
    assert forall|i: int| 0 <= i < pages.len() implies exists|k: int|
        0 <= k < entries.len() && manual_page(entries[k], prefix) == Some(#[trigger] pages[i]) by {
        assert(pages.contains(pages[i]));
        assert(c.to_multiset().count(pages[i]) > 0);
        assert(c.contains(pages[i]));
        let j = choose|j: int| 0 <= j < c.len() && c[j] == pages[i];
        assert(exists|k: int| 0 <= k < entries.len() && manual_page(entries[k], prefix) == Some(c[j]));
    }
}


/// Every Markdown blob under `prefix` stands for a page, however deep it lies: the entry of a
/// `blob` at `prefix + page + ".md"` is the manual page `page`.
pub proof fn law_manual_page_complete(prefix: Seq<char>, page: Seq<char>)
    ensures
        manual_page((Some(prefix + page + ".md"@), Some("blob"@)), prefix) == Some(page),
{
    reveal_strlit(".md");
    let path = prefix + page + ".md"@;
    let n = path.len() as int;
    assert forall|k: int| 0 <= k < prefix.len() implies #[trigger] path[0 + k] == prefix[k] by {}
    assert(matches_at(path, prefix, 0));
    assert forall|k: int| 0 <= k < 3 implies #[trigger] path[(n - 3) + k] == ".md"@[k] by {}
    assert(matches_at(path, ".md"@, n - 3));
    let rest = path.subrange(prefix.len() as int, n);
    assert(rest =~= page + ".md"@);
    let m = rest.len() as int;
    assert forall|k: int| 0 <= k < 3 implies #[trigger] rest[(m - 3) + k] == ".md"@[k] by {}
    assert(matches_at(rest, ".md"@, m - 3));
    assert(rest.take(m - 3) =~= page);
}

/// A listing holds every Markdown blob under `prefix`: when the tree has a `blob` entry at
/// `prefix + page + ".md"`, `page` is among the listed pages.
pub proof fn law_listing_complete(
    entries: Seq<(Option<Seq<char>>, Option<Seq<char>>)>,
    prefix: Seq<char>,
    page: Seq<char>,
    e: int,
)
    requires
        0 <= e < entries.len(),
        entries[e] == (Some(prefix + page + ".md"@), Some("blob"@)),
    ensures
        manual_candidates(entries, prefix).contains(page),
    decreases entries.len(),
{
    law_manual_page_complete(prefix, page);
    let earlier = manual_candidates(entries.drop_last(), prefix);
    if e == entries.len() - 1 {
        assert(manual_candidates(entries, prefix) == earlier.push(page));
        assert(earlier.push(page)[earlier.len() as int] == page);
    } else {
        assert(entries.drop_last()[e] == entries[e]);
        law_listing_complete(entries.drop_last(), prefix, page, e);
        let j = choose|j: int| 0 <= j < earlier.len() && earlier[j] == page;
        match manual_page(entries.last(), prefix) {
            Some(q) => assert(earlier.push(q)[j] == page),
            None => {},
        }
    }
}

} // verus!
