//! The NixOS options search: the Nix expression that lists matching options.
use vstd::prelude::*;

verus! {

/// One NixOS option, as the evaluation lists it.
pub struct NixosOption {
    pub name: String,
    pub description: String,
    pub option_type: String,
    pub default: String,
}

/// The start of the expression, up to the nixpkgs revision.
pub const NIXOS_EXPRESSION_HEAD: &'static str = "\nlet\n  nixpkgs = builtins.getFlake \"github:NixOS/nixpkgs/";

/// The middle of the expression, from the revision up to the query.
pub const NIXOS_EXPRESSION_MIDDLE: &'static str = "\";\n  pkgs = import nixpkgs {};\n  eval = import \"${nixpkgs}/nixos/lib/eval-config.nix\" {\n    inherit pkgs;\n    modules = [];\n  };\n  optionsList = pkgs.lib.optionAttrSetToDocList eval.options;\n  query = \"";

/// The end of the expression, after the query: the first 20 options whose name contains
/// it, with their description, type and default.
pub const NIXOS_EXPRESSION_TAIL: &'static str = "\";\n  results = builtins.filter (opt: pkgs.lib.hasInfix query opt.name) optionsList;\nin\n  builtins.map (opt: {\n    name = opt.name;\n    description = if opt ? description then (if builtins.isAttrs opt.description && opt.description ? text then opt.description.text else if builtins.isString opt.description then opt.description else \"\") else \"\";\n    type = if opt ? type then (if builtins.isString opt.type then opt.type else if builtins.isAttrs opt.type && opt.type ? description then opt.type.description else \"\") else \"\";\n    default = if opt ? default then (if builtins.isAttrs opt.default && opt.default ? text then opt.default.text else builtins.toJSON opt.default) else \"\";\n  }) (pkgs.lib.take 20 results)\n";

/// The Nix expression that lists the options of nixpkgs at `ref_name` whose name contains
/// `query`; both are placed in Nix string literals as they are.
pub open spec fn nixos_expression(query: Seq<char>, ref_name: Seq<char>) -> Seq<char> {
    NIXOS_EXPRESSION_HEAD@ + ref_name + NIXOS_EXPRESSION_MIDDLE@ + query + NIXOS_EXPRESSION_TAIL@
}

/// The Nix expression that lists the NixOS options matching `query` at `ref_name`.
pub fn nixos_options_expression(query: &str, ref_name: &str) -> (r: String)
    ensures
        r@ == nixos_expression(query@, ref_name@),
{
    let mut e = NIXOS_EXPRESSION_HEAD.to_owned();
    e.append(ref_name);
    e.append(NIXOS_EXPRESSION_MIDDLE);
    e.append(query);
    e.append(NIXOS_EXPRESSION_TAIL);
    e
}

} // verus!
