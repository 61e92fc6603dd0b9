use rime::command::{
    eval_expression_args, eval_output_text, finish_command, nix_command, CommandFailure,
    CommandOutput, OutputFormat,
};
use rime::handler::{RimeServerHandler, ToolKind};
use rime::nixos::nixos_options_expression;
use rime::manual::{missing_tree_message, ManualListFailure};
use rime::nvf::{nvf_manual_pages, nvf_manual_url, nvf_options_expression, nvf_tree_url};
use rime::tools::{
    body_preview, encode_title_for_path, ConfigCheckTool, ConfigShowTool, EvaluateTool,
    FlakesMetadataTool, FlakesShowTool, LogTool, ManixSearchTool, PackagesSearchTool,
    NixManualListTool, NixManualReadTool, NixhubPackageVersionsTool, NixosChannelsTool,
    PackagesWhyDepends, WikiGetPageTool, WikiPageFailure, WikiSearchTool,
};

const PREFIX: [&str; 2] = ["--extra-experimental-features", "nix-command flakes"];

fn with_prefix(rest: &[&str]) -> Vec<String> {
    PREFIX.iter().chain(rest.iter()).map(|s| s.to_string()).collect()
}

fn output(success: bool, stdout: &[u8], stderr: &[u8]) -> CommandOutput {
    CommandOutput {
        success,
        status: "exit status: 1".to_string(),
        stdout: stdout.to_vec(),
        stderr: stderr.to_vec(),
    }
}

#[test]
fn evaluate_tool_command() {
    let c = EvaluateTool { expression: "nixpkgs#lib.version".to_string() }.command();
    assert_eq!(c.args, with_prefix(&["eval", "--json", "nixpkgs#lib.version"]));
    assert_eq!(c.label, "nix eval");
    assert_eq!(c.format, OutputFormat::Json);
}

#[test]
fn other_nix_tool_commands() {
    let c = LogTool { installable: "nixpkgs#hello".to_string() }.command();
    assert_eq!(c.args, with_prefix(&["log", "nixpkgs#hello"]));
    assert_eq!((c.label.as_str(), c.format), ("nix log", OutputFormat::Text));
    let c = PackagesSearchTool { installable: "nixpkgs".to_string(), regex: "^cargo".to_string() }.command();
    assert_eq!(c.args, with_prefix(&["search", "--json", "nixpkgs", "^cargo"]));
    assert_eq!((c.label.as_str(), c.format), ("nix search failed", OutputFormat::Json));
    let c = PackagesWhyDepends { package: "nixpkgs#git".to_string(), dependency: "glibc".to_string() }.command();
    assert_eq!(c.args, with_prefix(&["why-depends", "--all", "nixpkgs#git", "glibc"]));
    assert_eq!((c.label.as_str(), c.format), ("nix why-depends failed", OutputFormat::Text));
    let c = FlakesShowTool { flake: "github:o/r".to_string() }.command();
    assert_eq!(c.args, with_prefix(&["flake", "show", "--json", "github:o/r"]));
    assert_eq!((c.label.as_str(), c.format), ("nix flake show", OutputFormat::Json));
    let c = FlakesMetadataTool { flake: "github:o/r".to_string() }.command();
    assert_eq!(c.args, with_prefix(&["flake", "metadata", "--json", "github:o/r"]));
    assert_eq!((c.label.as_str(), c.format), ("nix flake metadata", OutputFormat::Json));
    let c = ConfigCheckTool {}.command();
    assert_eq!(c.args, with_prefix(&["config", "check"]));
    assert_eq!((c.label.as_str(), c.format), ("nix config check", OutputFormat::Text));
    let c = ConfigShowTool {}.command();
    assert_eq!(c.args, with_prefix(&["config", "show"]));
    assert_eq!((c.label.as_str(), c.format), ("nix config show", OutputFormat::Text));
    let c = ManixSearchTool { query: "programs.git".to_string() }.command();
    assert_eq!(c.args, with_prefix(&["run", "nixpkgs#manix", "--", "programs.git"]));
    assert_eq!((c.label.as_str(), c.format), ("manix failed", OutputFormat::Text));
}

#[test]
fn finish_command_text_output() {
    let c = nix_command(vec![], "nix config show", OutputFormat::Text);
    assert_eq!(finish_command(&c, output(true, b"hi\n", b"")).ok(), Some("hi\n".to_string()));
}

#[test]
fn log_tool_gives_the_build_log_as_text() {
    let c = LogTool { installable: "nixpkgs#hello".to_string() }.command();
    let log = b"building '/nix/store/x-hello.drv'...\nunpacking sources\n";
    assert_eq!(finish_command(&c, output(true, log, b"")).ok(), Some(String::from_utf8(log.to_vec()).unwrap()));
}

#[test]
fn finish_command_pretty_prints_json() {
    let c = nix_command(vec![], "nix eval", OutputFormat::Json);
    assert_eq!(finish_command(&c, output(true, b"{\"a\":[1,2]}", b"")).ok(), Some("{\n  \"a\": [\n    1,\n    2\n  ]\n}".to_string()));
}

#[test]
fn finish_command_reports_failure() {
    let c = nix_command(vec![], "nix eval", OutputFormat::Json);
    match finish_command(&c, output(false, b"", b"boom\xff")) {
        Err(CommandFailure::Failed { message }) => assert_eq!(message, "nix eval (status: exit status: 1): boom\u{fffd}"),
        _ => panic!("expected a failure"),
    }
}

#[test]
fn finish_command_rejects_bad_output() {
    let c = nix_command(vec![], "nix eval", OutputFormat::Json);
    assert!(matches!(finish_command(&c, output(true, b"\xff", b"")), Err(CommandFailure::InvalidUtf8(_))));
    assert!(matches!(finish_command(&c, output(true, b"not json", b"")), Err(CommandFailure::InvalidJson(_))));
}

#[test]
fn eval_expression_arguments() {
    assert_eq!(
        eval_expression_args("1 + 1".to_string()),
        with_prefix(&["eval", "--json", "--impure", "--expr", "1 + 1"])
    );
}

#[test]
fn eval_output_text_reports_failure() {
    match eval_output_text("nixos", output(false, b"", b"error: oops")) {
        Err(CommandFailure::Failed { message }) => assert_eq!(message, "nix eval for nixos options failed: error: oops"),
        _ => panic!("expected a failure"),
    }
    assert_eq!(eval_output_text("nvf", output(true, b"[]", b"")).ok(), Some("[]".to_string()));
}

#[test]
fn nixos_expression_places_query_and_revision() {
    let e = nixos_options_expression("git", "nixos-24.05");
    assert!(e.starts_with("\nlet\n  nixpkgs = builtins.getFlake \"github:NixOS/nixpkgs/nixos-24.05\";\n"));
    assert!(e.contains("  query = \"git\";\n"));
    assert!(e.ends_with("  }) (pkgs.lib.take 20 results)\n"));
}

#[test]
fn nvf_expression_places_query() {
    let e = nvf_options_expression("vim.lsp");
    assert!(e.starts_with("\nlet\n  flake = builtins.getFlake \"github:NotAShelf/nvf\";\n"));
    assert!(e.contains("  query = \"vim.lsp\";\n"));
    assert!(e.contains("description = if opt ? description then opt.description else \"\";"));
}

#[test]
fn nvf_manual_addresses() {
    assert_eq!(nvf_manual_url("configuring/languages"), "https://raw.githubusercontent.com/NotAShelf/nvf/main/docs/manual/configuring/languages.md");
    assert_eq!(nvf_tree_url(), "https://api.github.com/repos/NotAShelf/nvf/git/trees/main?recursive=1");
}

#[test]
fn nvf_manual_pages_filters_and_sorts() {
    let body = r#"{"tree":[{"path":"docs/manual/b.md","type":"blob"},{"path":"docs/manual/a/c.md","type":"blob"},{"path":"docs/manual/x.txt","type":"blob"},{"path":"docs/manual/d.md","type":"tree"},{"path":"README.md","type":"blob"},{"type":"blob"},{"path":"docs/manual/B.md","type":"blob"}]}"#;
    assert_eq!(
        nvf_manual_pages(body).ok(),
        Some(vec!["B".to_string(), "a/c".to_string(), "b".to_string()])
    );
}

#[test]
fn nvf_manual_pages_errors() {
    assert!(matches!(nvf_manual_pages("{\"sha\":\"x\"}"), Err(ManualListFailure::MissingTree)));
    assert!(matches!(nvf_manual_pages("{\"tree\":3}"), Err(ManualListFailure::MissingTree)));
    assert!(matches!(nvf_manual_pages("oops"), Err(ManualListFailure::InvalidJson(_))));
    assert_eq!(missing_tree_message(), "GitHub API response missing 'tree' array");
}

#[test]
fn encode_title_for_path_encodes() {
    assert_eq!(encode_title_for_path("Home Manager"), "Home_Manager");
    assert_eq!(encode_title_for_path("C++ (lang)/ü~.-"), "C%2B%2B_%28lang%29%2F%C3%BC~.-");
    assert_eq!(encode_title_for_path(""), "");
}

#[test]
fn wiki_page_url() {
    let t = WikiGetPageTool { title: "Nix flakes".to_string() };
    assert_eq!(t.page_url(), "https://wiki.nixos.org/w/rest.php/v1/page/Nix_flakes");
}

#[test]
fn wiki_page_text_reads_source() {
    let t = WikiGetPageTool { title: "Docker".to_string() };
    assert_eq!(t.page_text("{\"title\":\"Docker\",\"source\":\"== Docker ==\"}").ok(), Some("== Docker ==".to_string()));
    match t.page_text("{\"title\":\"x\"}") {
        Err(WikiPageFailure::MissingSource { message }) => assert_eq!(
            message,
            "wiki returned JSON without 'source' field for title 'Docker'. Response: {\n  \"title\": \"x\"\n}"
        ),
        _ => panic!("expected a missing source"),
    }
    assert!(matches!(t.page_text("{\"source\":1}"), Err(WikiPageFailure::MissingSource { .. })));
    assert!(matches!(t.page_text("<html>"), Err(WikiPageFailure::InvalidJson(_))));
}

#[test]
fn body_preview_cuts_at_500_bytes() {
    assert_eq!(body_preview("short"), Some("short".to_string()));
    let even = "é".repeat(300);
    assert_eq!(body_preview(&even), Some("é".repeat(250)));
    let odd = format!("a{}", "é".repeat(300));
    assert_eq!(body_preview(&odd), None);
}

#[test]
fn wiki_search_request() {
    let t = WikiSearchTool { query: "flakes".to_string() };
    assert_eq!(t.api_url(), "https://wiki.nixos.org/w/api.php");
    let params = t.query_params();
    let expected: Vec<(String, String)> = [("action", "query"), ("list", "search"), ("srsearch", "flakes"), ("format", "json")]
        .iter()
        .map(|(a, b)| (a.to_string(), b.to_string()))
        .collect();
    assert_eq!(params, expected);
}

#[test]
fn handler_routes_tool_names() {
    let h = RimeServerHandler;
    assert_eq!(h.tool_for("nix_evaluate"), Some(ToolKind::Evaluate));
    assert_eq!(h.tool_for("nixos_wiki_read_page"), Some(ToolKind::WikiGetPage));
    assert_eq!(h.tool_for("evaluate"), None);
    assert_eq!(h.tool_for(""), None);
}

#[test]
fn handler_lists_every_tool_once() {
    let h = RimeServerHandler;
    let tools = h.tools();
    assert_eq!(tools.len(), 20);
    for k in tools {
        assert_eq!(h.tool_for(k.name()), Some(k));
    }
}

#[test]
fn handler_lists_the_documented_tools() {
    let h = RimeServerHandler;
    let names: Vec<&str> = h.tools().iter().map(|k| k.name()).collect();
    for name in [
        "nix_evaluate", "nix_log", "nix_packages_search", "nix_packages_why_depends",
        "nix_flakes_show", "nix_flakes_metadata", "nix_config_check", "nix_config_show",
        "nix_manual_list", "nix_manual_read", "nixhub_package_versions", "nixos_wiki_search",
        "nixos_wiki_read_page", "nixos_channels", "home_manager_options_search",
        "nvf_options_search", "nvf_manual_list", "nvf_manual_read", "manix_search",
    ] {
        assert!(names.contains(&name), "{name} is missing");
    }
    assert_eq!(h.tool_for("nixos_channels"), Some(ToolKind::NixosChannels));
}

#[test]
fn nix_manual_tools() {
    let list = NixManualListTool {};
    assert_eq!(list.tree_url(), "https://api.github.com/repos/NixOS/nix/git/trees/master?recursive=1");
    let body = r#"{"tree":[{"path":"doc/manual/source/language/index.md","type":"blob"},{"path":"doc/manual/source/command-ref/nix-build.md","type":"blob"},{"path":"doc/manual/source/SUMMARY.md.in","type":"blob"},{"path":"doc/manual/book.toml","type":"blob"}]}"#;
    assert_eq!(
        list.pages(body).ok(),
        Some(vec!["command-ref/nix-build".to_string(), "language/index".to_string()])
    );
    let read = NixManualReadTool { path: "language/index".to_string() };
    assert_eq!(read.url(), "https://raw.githubusercontent.com/NixOS/nix/master/doc/manual/source/language/index.md");
}

#[test]
fn nixhub_and_channels_addresses() {
    let t = NixhubPackageVersionsTool { package: "nodejs_20".to_string() };
    assert_eq!(t.url(), "https://www.nixhub.io/packages/nodejs_20?_data=routes%2F_nixhub.packages.%24pkg._index");
    let t = NixhubPackageVersionsTool { package: "a b/c".to_string() };
    assert!(t.url().starts_with("https://www.nixhub.io/packages/a%20b%2Fc?"));
    assert_eq!(NixosChannelsTool {}.url(), "https://prometheus.nixos.org/api/v1/query?query=channel_revision");
}

#[test]
fn encode_title_for_path_keeps_unreserved_titles() {
    let title = "Nix_package-manager.v2~AZaz09";
    assert_eq!(encode_title_for_path(title), title);
}

#[test]
fn encode_title_for_path_escapes_with_uppercase_hex() {
    let seg = encode_title_for_path("a b/é?");
    assert_eq!(seg, "a_b%2F%C3%A9%3F");
    let chars: Vec<char> = seg.chars().collect();
    for (i, c) in chars.iter().enumerate() {
        if *c == '%' {
            assert!(chars[i + 1].is_ascii_digit() || ('A'..='F').contains(&chars[i + 1]));
            assert!(chars[i + 2].is_ascii_digit() || ('A'..='F').contains(&chars[i + 2]));
        }
    }
}

#[test]
fn nvf_listed_page_is_read_from_its_blob() {
    let body = "{\"tree\":[{\"path\":\"docs/manual/tips/faq.md\",\"type\":\"blob\"}]}";
    let pages = nvf_manual_pages(body).ok().unwrap();
    assert_eq!(pages, vec!["tips/faq".to_string()]);
    assert_eq!(
        nvf_manual_url(&pages[0]),
        "https://raw.githubusercontent.com/NotAShelf/nvf/main/docs/manual/tips/faq.md"
    );
}
