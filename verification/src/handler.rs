//! The server's catalogue of tools and how a call is routed to one.
use vstd::prelude::*;

use crate::text::{chars_eq, to_chars};

verus! {

/// The tools the server offers.
#[derive(PartialEq, Eq, Structural, Debug, Clone, Copy)]
pub enum ToolKind {
    Evaluate,
    Log,
    PackagesSearch,
    PackagesWhyDepends,
    FlakesShow,
    FlakesMetadata,
    ConfigCheck,
    ConfigShow,
    NixManualList,
    NixManualRead,
    NixhubPackageVersions,
    WikiSearch,
    WikiGetPage,
    NixosChannels,
    NixpkgsOptionsSearch,
    HomeManagerOptionsSearch,
    NvfOptionsSearch,
    NvfManualList,
    NvfManualRead,
    ManixSearch,
}

/// The name under which a tool is called.
pub open spec fn tool_name(k: ToolKind) -> Seq<char> {
    match k {
        ToolKind::Evaluate => "nix_evaluate"@,
        ToolKind::Log => "nix_log"@,
        ToolKind::PackagesSearch => "nix_packages_search"@,
        ToolKind::PackagesWhyDepends => "nix_packages_why_depends"@,
        ToolKind::FlakesShow => "nix_flakes_show"@,
        ToolKind::FlakesMetadata => "nix_flakes_metadata"@,
        ToolKind::ConfigCheck => "nix_config_check"@,
        ToolKind::ConfigShow => "nix_config_show"@,
        ToolKind::NixManualList => "nix_manual_list"@,
        ToolKind::NixManualRead => "nix_manual_read"@,
        ToolKind::NixhubPackageVersions => "nixhub_package_versions"@,
        ToolKind::WikiSearch => "nixos_wiki_search"@,
        ToolKind::WikiGetPage => "nixos_wiki_read_page"@,
        ToolKind::NixosChannels => "nixos_channels"@,
        ToolKind::NixpkgsOptionsSearch => "nixpkgs_options_search"@,
        ToolKind::HomeManagerOptionsSearch => "home_manager_options_search"@,
        ToolKind::NvfOptionsSearch => "nvf_options_search"@,
        ToolKind::NvfManualList => "nvf_manual_list"@,
        ToolKind::NvfManualRead => "nvf_manual_read"@,
        ToolKind::ManixSearch => "manix_search"@,
    }
}

/// Every tool, in the order the server lists them.
pub open spec fn all_tools() -> Seq<ToolKind> {
    seq![
        ToolKind::Evaluate,
        ToolKind::Log,
        ToolKind::PackagesSearch,
        ToolKind::PackagesWhyDepends,
        ToolKind::FlakesShow,
        ToolKind::FlakesMetadata,
        ToolKind::ConfigCheck,
        ToolKind::ConfigShow,
        ToolKind::NixManualList,
        ToolKind::NixManualRead,
        ToolKind::NixhubPackageVersions,
        ToolKind::WikiSearch,
        ToolKind::WikiGetPage,
        ToolKind::NixosChannels,
        ToolKind::NixpkgsOptionsSearch,
        ToolKind::HomeManagerOptionsSearch,
        ToolKind::NvfOptionsSearch,
        ToolKind::NvfManualList,
        ToolKind::NvfManualRead,
        ToolKind::ManixSearch,
    ]
}

/// The first tool of `tools` called `name`, if any.
pub open spec fn tool_named_in(tools: Seq<ToolKind>, name: Seq<char>) -> Option<ToolKind>
    decreases tools.len(),
{
    if tools.len() == 0 {
        None
    } else if tool_name(tools[0]) == name {
        Some(tools[0])
    } else {
        tool_named_in(tools.drop_first(), name)
    }
}

/// The tool called `name`, if any.
pub open spec fn tool_named(name: Seq<char>) -> Option<ToolKind> {
    tool_named_in(all_tools(), name)
}

impl ToolKind {
    /// The name under which this tool is called.
    pub fn name(&self) -> (r: &'static str)
        ensures
            r@ == tool_name(*self),
    {
        match self {
            ToolKind::Evaluate => "nix_evaluate",
            ToolKind::Log => "nix_log",
            ToolKind::PackagesSearch => "nix_packages_search",
            ToolKind::PackagesWhyDepends => "nix_packages_why_depends",
            ToolKind::FlakesShow => "nix_flakes_show",
            ToolKind::FlakesMetadata => "nix_flakes_metadata",
            ToolKind::ConfigCheck => "nix_config_check",
            ToolKind::ConfigShow => "nix_config_show",
            ToolKind::NixManualList => "nix_manual_list",
            ToolKind::NixManualRead => "nix_manual_read",
            ToolKind::NixhubPackageVersions => "nixhub_package_versions",
            ToolKind::WikiSearch => "nixos_wiki_search",
            ToolKind::WikiGetPage => "nixos_wiki_read_page",
            ToolKind::NixosChannels => "nixos_channels",
            ToolKind::NixpkgsOptionsSearch => "nixpkgs_options_search",
            ToolKind::HomeManagerOptionsSearch => "home_manager_options_search",
            ToolKind::NvfOptionsSearch => "nvf_options_search",
            ToolKind::NvfManualList => "nvf_manual_list",
            ToolKind::NvfManualRead => "nvf_manual_read",
            ToolKind::ManixSearch => "manix_search",
        }
    }
}

/// The handler of the server's requests.
pub struct RimeServerHandler;

impl RimeServerHandler {
    /// The tools the server lists.
    pub fn tools(&self) -> (r: Vec<ToolKind>)
        ensures
            r@ == all_tools(),
    {
        let r = vec![
            ToolKind::Evaluate,
            ToolKind::Log,
            ToolKind::PackagesSearch,
            ToolKind::PackagesWhyDepends,
            ToolKind::FlakesShow,
            ToolKind::FlakesMetadata,
            ToolKind::ConfigCheck,
            ToolKind::ConfigShow,
            ToolKind::NixManualList,
            ToolKind::NixManualRead,
            ToolKind::NixhubPackageVersions,
            ToolKind::WikiSearch,
            ToolKind::WikiGetPage,
            ToolKind::NixosChannels,
            ToolKind::NixpkgsOptionsSearch,
            ToolKind::HomeManagerOptionsSearch,
            ToolKind::NvfOptionsSearch,
            ToolKind::NvfManualList,
            ToolKind::NvfManualRead,
            ToolKind::ManixSearch,
        ];
        assert(r@ =~= all_tools());
        r
    }

    /// The tool a call to `name` goes to, if the server has one of that name.
    pub fn tool_for(&self, name: &str) -> (r: Option<ToolKind>)
        ensures
            r == tool_named(name@),
    {
        let tools = self.tools();
        let wanted = to_chars(name);
        let n = tools.len();
        assert(tools@.skip(0) =~= tools@);
        for i in 0..n
            invariant
                n == tools@.len(),
                tools@ == all_tools(),
                wanted@ == name@,
                tool_named(name@) == tool_named_in(tools@.skip(i as int), name@),
        {
            let candidate = tools[i];
            let candidate_name = to_chars(candidate.name());
            assert(tools@.skip(i as int).drop_first() =~= tools@.skip(i + 1));
            if chars_eq(candidate_name.as_slice(), wanted.as_slice()) {
                return Some(candidate);
            }
        }
        None
    }
}

/// The length and three characters that tell the tool names apart.
spec fn name_signature(name: Seq<char>) -> (int, char, char, char) {
    (name.len() as int, name[2], name[4], if name.len() > 11 { name[11] } else { ' ' })
}

/// The signature of each tool's name.
spec fn signature_of(k: ToolKind) -> (int, char, char, char) {
    match k {
        ToolKind::Evaluate => (12, 'x', 'e', 'e'),
        ToolKind::Log => (7, 'x', 'l', ' '),
        ToolKind::PackagesSearch => (19, 'x', 'p', 's'),
        ToolKind::PackagesWhyDepends => (24, 'x', 'p', 's'),
        ToolKind::FlakesShow => (15, 'x', 'f', 's'),
        ToolKind::FlakesMetadata => (19, 'x', 'f', 'm'),
        ToolKind::ConfigCheck => (16, 'x', 'c', 'c'),
        ToolKind::ConfigShow => (15, 'x', 'c', 's'),
        ToolKind::NixManualList => (15, 'x', 'm', 'l'),
        ToolKind::NixManualRead => (15, 'x', 'm', 'r'),
        ToolKind::NixhubPackageVersions => (23, 'x', 'u', 'a'),
        ToolKind::WikiSearch => (17, 'x', 's', 's'),
        ToolKind::WikiGetPage => (20, 'x', 's', 'r'),
        ToolKind::NixosChannels => (14, 'x', 's', 'e'),
        ToolKind::NixpkgsOptionsSearch => (22, 'x', 'k', 'i'),
        ToolKind::HomeManagerOptionsSearch => (27, 'm', '_', 'r'),
        ToolKind::NvfOptionsSearch => (18, 'f', 'o', '_'),
        ToolKind::NvfManualList => (15, 'f', 'm', 'l'),
        ToolKind::NvfManualRead => (15, 'f', 'm', 'r'),
        ToolKind::ManixSearch => (12, 'n', 'x', 'h'),
    }
}

/// Each tool's name has the signature `signature_of` lists.
proof fn lemma_signature(k: ToolKind)
    ensures
        name_signature(tool_name(k)) == signature_of(k),
{
    match k {
        ToolKind::Evaluate => reveal_strlit("nix_evaluate"),
        ToolKind::Log => reveal_strlit("nix_log"),
        ToolKind::PackagesSearch => reveal_strlit("nix_packages_search"),
        ToolKind::PackagesWhyDepends => reveal_strlit("nix_packages_why_depends"),
        ToolKind::FlakesShow => reveal_strlit("nix_flakes_show"),
        ToolKind::FlakesMetadata => reveal_strlit("nix_flakes_metadata"),
        ToolKind::ConfigCheck => reveal_strlit("nix_config_check"),
        ToolKind::ConfigShow => reveal_strlit("nix_config_show"),
        ToolKind::NixManualList => reveal_strlit("nix_manual_list"),
        ToolKind::NixManualRead => reveal_strlit("nix_manual_read"),
        ToolKind::NixhubPackageVersions => reveal_strlit("nixhub_package_versions"),
        ToolKind::WikiSearch => reveal_strlit("nixos_wiki_search"),
        ToolKind::WikiGetPage => reveal_strlit("nixos_wiki_read_page"),
        ToolKind::NixosChannels => reveal_strlit("nixos_channels"),
        ToolKind::NixpkgsOptionsSearch => reveal_strlit("nixpkgs_options_search"),
        ToolKind::HomeManagerOptionsSearch => reveal_strlit("home_manager_options_search"),
        ToolKind::NvfOptionsSearch => reveal_strlit("nvf_options_search"),
        ToolKind::NvfManualList => reveal_strlit("nvf_manual_list"),
        ToolKind::NvfManualRead => reveal_strlit("nvf_manual_read"),
        ToolKind::ManixSearch => reveal_strlit("manix_search"),
    }
}

/// Different tools have different names.
proof fn lemma_names_distinct(a: ToolKind, b: ToolKind)
    requires
        a != b,
    ensures
        tool_name(a) != tool_name(b),
{
    lemma_signature(a);
    lemma_signature(b);
}

/// A tool is found by name when no earlier tool in the list is the same tool.
proof fn lemma_tool_named_in(tools: Seq<ToolKind>, k: ToolKind, i: int)
    requires
        0 <= i < tools.len(),
        tools[i] == k,
        forall|j: int| 0 <= j < i ==> tools[j] != k,
    ensures
        tool_named_in(tools, tool_name(k)) == Some(k),
    decreases i,
{
    if i > 0 {
        lemma_names_distinct(tools[0], k);
        lemma_tool_named_in(tools.drop_first(), k, i - 1);
    }
}

/// Every tool is found again under its own name: a call to the name a tool is listed under
/// goes to that tool and no other.
pub proof fn law_tool_names_route(k: ToolKind)
    ensures
        tool_named(tool_name(k)) == Some(k),
{
    let tools = all_tools();
    let i: int = match k {
        ToolKind::Evaluate => 0,
        ToolKind::Log => 1,
        ToolKind::PackagesSearch => 2,
        ToolKind::PackagesWhyDepends => 3,
        ToolKind::FlakesShow => 4,
        ToolKind::FlakesMetadata => 5,
        ToolKind::ConfigCheck => 6,
        ToolKind::ConfigShow => 7,
        ToolKind::NixManualList => 8,
        ToolKind::NixManualRead => 9,
        ToolKind::NixhubPackageVersions => 10,
        ToolKind::WikiSearch => 11,
        ToolKind::WikiGetPage => 12,
        ToolKind::NixosChannels => 13,
        ToolKind::NixpkgsOptionsSearch => 14,
        ToolKind::HomeManagerOptionsSearch => 15,
        ToolKind::NvfOptionsSearch => 16,
        ToolKind::NvfManualList => 17,
        ToolKind::NvfManualRead => 18,
        ToolKind::ManixSearch => 19,
    };
    lemma_tool_named_in(tools, k, i);
}

} // verus!
