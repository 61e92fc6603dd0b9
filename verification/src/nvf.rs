//! nvf (a Neovim flake): its options search expression and the pages of its manual.
use vstd::prelude::*;

use crate::json::json_tree_entries;
use crate::manual::{
    law_listed_pages_from_tree, manual_candidates, manual_page, manual_pages, sorted, ManualListFailure,
};
use crate::text::{matches_at, string_views};

verus! {

/// One nvf option, as the evaluation lists it.
pub struct NvfOption {
    pub name: String,
    pub description: String,
    pub option_type: String,
    pub default: String,
}

/// The start of the expression, up to the query.
pub const NVF_EXPRESSION_HEAD: &'static str = "\nlet\n  flake = builtins.getFlake \"github:NotAShelf/nvf\";\n  pkgs = import <nixpkgs> {};\n  eval = flake.lib.neovimConfiguration { inherit pkgs; modules = []; };\n  optionsList = pkgs.lib.optionAttrSetToDocList eval.options;\n  query = \"";

/// The end of the expression, after the query: the first 20 nvf options whose name contains
/// it, with their description, type and default.
pub const NVF_EXPRESSION_TAIL: &'static str = "\";\n  results = builtins.filter (opt: pkgs.lib.hasInfix query opt.name) optionsList;\nin\n  builtins.map (opt: {\n    name = opt.name;\n    description = if opt ? description then opt.description else \"\";\n    type = if opt ? type then opt.type else \"\";\n    default = if opt ? default then (if builtins.isAttrs opt.default && opt.default ? text then opt.default.text else builtins.toJSON opt.default) else \"\";\n  }) (pkgs.lib.take 20 results)\n";

/// The Nix expression that lists the nvf options whose name contains `query`, placed in a
/// Nix string literal as it is.
pub open spec fn nvf_expression(query: Seq<char>) -> Seq<char> {
    NVF_EXPRESSION_HEAD@ + query + NVF_EXPRESSION_TAIL@
}

/// The Nix expression that lists the nvf options matching `query`.
pub fn nvf_options_expression(query: &str) -> (r: String)
    ensures
        r@ == nvf_expression(query@),
{
    let mut e = NVF_EXPRESSION_HEAD.to_owned();
    e.append(query);
    e.append(NVF_EXPRESSION_TAIL);
    e
}

/// The address of the git tree listing of the nvf repository.
pub open spec fn tree_listing_url() -> Seq<char> {
    "https://api.github.com/repos/NotAShelf/nvf/git/trees/main?recursive=1"@
}

/// The address of the git tree listing of the nvf repository.
pub fn nvf_tree_url() -> (r: String)
    ensures
        r@ == tree_listing_url(),
{
    "https://api.github.com/repos/NotAShelf/nvf/git/trees/main?recursive=1".to_owned()
}

/// The address of the raw manual page `path` (without its `.md`).
pub open spec fn manual_page_url(path: Seq<char>) -> Seq<char> {
    "https://raw.githubusercontent.com/NotAShelf/nvf/main/docs/manual/"@ + path + ".md"@
}

/// The address the manual page `path` is read from.
pub fn nvf_manual_url(path: &str) -> (r: String)
    ensures
        r@ == manual_page_url(path@),
{
    let mut url = "https://raw.githubusercontent.com/NotAShelf/nvf/main/docs/manual/".to_owned();
    url.append(path);
    url.append(".md");
    url
}

/// The directory of the nvf repository that holds its manual.
pub open spec fn nvf_manual_dir() -> Seq<char> {
    "docs/manual/"@
}

/// The nvf manual pages named in the git tree listing `body`, in lexicographic order.
pub fn nvf_manual_pages(body: &str) -> (r: Result<Vec<String>, ManualListFailure>)
    ensures
        match json_tree_entries(body@, "tree"@, "path"@, "type"@) {
            None => r matches Err(ManualListFailure::InvalidJson(_)),
            Some(None) => r matches Err(ManualListFailure::MissingTree),
            Some(Some(entries)) => (r matches Ok(pages) && sorted(string_views(pages@))
                && string_views(pages@).to_multiset() == manual_candidates(
                entries,
                nvf_manual_dir(),
            ).to_multiset()),
        },
{
    manual_pages(body, "docs/manual/")
}


/// Every page listed from the tree `entries` is read from the raw address of a Markdown blob
/// of that tree: the tree has a `blob` entry `docs/manual/PAGE.md`, and the page's address is
/// the raw file of that path on the `main` branch.
pub proof fn law_nvf_page_read_from_tree(
    entries: Seq<(Option<Seq<char>>, Option<Seq<char>>)>,
    pages: Seq<Seq<char>>,
    k: int,
)
    requires
        pages.to_multiset() == manual_candidates(entries, nvf_manual_dir()).to_multiset(),
        0 <= k < pages.len(),
    ensures
        exists|e: int|
            0 <= e < entries.len() && #[trigger] entries[e] == (
                Some(nvf_manual_dir() + pages[k] + ".md"@),
                Some("blob"@),
            ),
        manual_page_url(pages[k]) == "https://raw.githubusercontent.com/NotAShelf/nvf/main/"@
            + nvf_manual_dir() + pages[k] + ".md"@,
{
    reveal_strlit("docs/manual/");
    reveal_strlit(".md");
    reveal_strlit("https://raw.githubusercontent.com/NotAShelf/nvf/main/docs/manual/");
    reveal_strlit("https://raw.githubusercontent.com/NotAShelf/nvf/main/");
    let dir = nvf_manual_dir();
    let page = pages[k];
    law_listed_pages_from_tree(entries, dir, pages);
    let e = choose|e: int| 0 <= e < entries.len() && manual_page(entries[e], dir) == Some(page);
    let path = entries[e].0->Some_0;
    let rest = path.subrange(dir.len() as int, path.len() as int);
    assert(rest.len() >= 3) by {
        if rest.len() < 3 {
            let n = path.len();
            assert(path[n - 3 + 0] == ".md"@[0]);
            assert(path[n - 3 + 1] == ".md"@[1]);
            if n - 2 < 12 {
                assert(path[0 + (n - 2)] == dir[n - 2]);
            }
            assert(path[0 + (n - 3)] == dir[n - 3]);
        }
    }
    assert forall|j: int| 0 <= j < 3 implies #[trigger] rest[rest.len() - 3 + j] == ".md"@[j] by {
        assert(path[path.len() - 3 + j] == ".md"@[j]);
    }
    assert(matches_at(rest, ".md"@, rest.len() - 3));
    assert(page == rest.take(rest.len() - 3));
    assert(entries[e].1 == Some("blob"@));
    assert forall|j: int| 0 <= j < dir.len() implies #[trigger] path[j] == dir[j] by {
        assert(path[0 + j] == dir[j]);
    }
    let whole = dir + page + ".md"@;
    assert forall|i: int| 0 <= i < path.len() implies #[trigger] path[i] == whole[i] by {
        if i < dir.len() {
        } else if i < dir.len() + page.len() {
            assert(page[i - dir.len()] == rest[i - dir.len()]);
        } else {
            assert(rest[rest.len() - 3 + (i - dir.len() - page.len())] == ".md"@[i - dir.len()
                - page.len()]);
        }
    }
    assert(path =~= whole);
    assert(entries[e] == (Some(dir + page + ".md"@), Some("blob"@)));
    assert(manual_page_url(page) =~= "https://raw.githubusercontent.com/NotAShelf/nvf/main/"@ + dir
        + page + ".md"@);
}

} // verus!
