use rime::home_manager::{
    clean_html_text, decode_html_entities, extract_dd_block, extract_declared_by,
    extract_default_value, extract_description, extract_description_before_type,
    extract_first_paragraph, extract_links, extract_section_html, extract_section_value,
    extract_type_info, home_manager_query, parse_home_manager_options,
    search_home_manager_options, truncate_text, HomeManagerOption, HomeManagerSearchError,
    HOME_MANAGER_DESCRIPTION_LIMIT, HOME_MANAGER_RESULTS_LIMIT,
};

const GIT: &str = "<dt><span class=\"term\"><a id=\"opt-programs.git.enable\"></a><a class=\"term\" href=\"options.xhtml#opt-programs.git.enable\"><code class=\"option\">programs.git.enable</code></a></span></dt><dd><p>Whether to enable Git.</p><p><span class=\"emphasis\"><em>Type:</em></span> boolean</p><p><span class=\"emphasis\"><em>Default:</em></span> <code class=\"literal\">false</code></p><p><span class=\"emphasis\"><em>Example:</em></span> <code class=\"literal\">true</code></p><p><span class=\"emphasis\"><em>Declared by:</em></span></p><table border=\"0\" summary=\"Simple list\" class=\"simplelist\"><tr><td><code class=\"filename\"><a class=\"filename\" href=\"https://github.com/nix-community/home-manager/blob/master/modules/programs/git.nix\" target=\"_top\">&lt;home-manager/modules/programs/git.nix&gt;</a></code></td></tr></table></dd>";

const ALIAS_DD: &str = "<p>Git aliases to define.</p><p><em>Type:</em> attribute set of string</p><p><em>Default:</em> <code>{ }</code></p><p><em>Example:</em> <code>{ co = &quot;checkout&quot;; }</code></p><p><em>Declared by:</em></p><a href=\"https://example.org/git.nix\">x</a><a href='https://example.org/git.nix'>y</a><a href=\"https://example.org/other.nix?a=1&amp;b=2\">z</a>";

const NAMED: &str = "<dt><a id=\"opt-accounts.email.accounts._name_.address\"></a></dt><dd>The email address of this account. Type: string</dd>";

const GIT_DECLARATION: &str =
    "https://github.com/nix-community/home-manager/blob/master/modules/programs/git.nix";

fn page() -> String {
    let alias = format!("<dt><a id=\"opt-programs.git.aliases\"></a></dt><dd>{}</dd>", ALIAS_DD);
    format!("{}{}{}{}", GIT, alias, NAMED, GIT)
}

fn fields(o: &HomeManagerOption) -> (&str, &str, &str, &str, &str) {
    (
        o.name.as_str(),
        o.description.as_str(),
        o.type_info.as_str(),
        o.default_value.as_str(),
        o.declared_by.as_str(),
    )
}

#[test]
fn decode_html_entities_decodes_each_entity() {
    assert_eq!(decode_html_entities("a&nbsp;b &lt;c&gt; &quot;d&quot; &#39;e&#x27; f&amp;g"), "a b <c> \"d\" 'e' f&g");
}

#[test]
fn decode_html_entities_decodes_ampersand_after_the_others() {
    assert_eq!(decode_html_entities("&amp;lt; &#39;x&#x27; &quot;q&quot;"), "&lt; 'x' \"q\"");
}

#[test]
fn decode_html_entities_keeps_text_without_entities() {
    assert_eq!(decode_html_entities("plain text & more"), "plain text & more");
    assert_eq!(decode_html_entities(""), "");
    assert_eq!(decode_html_entities("no entities; just text &lt"), "no entities; just text &lt");
    assert_eq!(decode_html_entities("x lt; gt; quot;"), "x lt; gt; quot;");
}

#[test]
fn clean_html_text_strips_tags_and_spaces() {
    assert_eq!(clean_html_text("<p>Hello&nbsp;  <b>world</b>&amp;   friends</p>"), "Hello world & friends");
    assert_eq!(clean_html_text("a > b"), "a b");
    assert_eq!(clean_html_text("  \t\n "), "");
    assert_eq!(clean_html_text("<unterminated tag"), "");
}

#[test]
fn clean_html_text_collapses_unicode_whitespace() {
    assert_eq!(clean_html_text("one\u{a0}\u{2003}two\u{3000}"), "one two");
}

#[test]
fn truncate_text_keeps_short_text() {
    assert_eq!(truncate_text("abc", 3), "abc");
    assert_eq!(truncate_text("", 0), "");
}

#[test]
fn truncate_text_cuts_long_text() {
    assert_eq!(truncate_text("abcdef", 3), "abc...");
    assert_eq!(truncate_text("ab", 0), "...");
    assert_eq!(truncate_text("héllo wörld", 5), "héllo...");
}

#[test]
fn extract_first_paragraph_reads_the_first_paragraph() {
    assert_eq!(extract_first_paragraph("<p class=\"x\">First <b>one</b></p><p>second</p>"), Some("First one".to_string()));
}

#[test]
fn extract_first_paragraph_skips_missing_or_empty() {
    assert_eq!(extract_first_paragraph("<p class=\"x\">  </p><p>second</p>"), None);
    assert_eq!(extract_first_paragraph("no paragraph"), None);
    assert_eq!(extract_first_paragraph("<p>unclosed"), None);
}

#[test]
fn extract_description_before_type_takes_the_text_before_type() {
    assert_eq!(extract_description_before_type("  Some text  Type: str"), Some("Some text".to_string()));
    assert_eq!(extract_description_before_type("Type: str"), None);
    assert_eq!(extract_description_before_type("nothing"), None);
}

#[test]
fn extract_description_falls_back() {
    assert_eq!(extract_description(ALIAS_DD), "Git aliases to define.");
    assert_eq!(extract_description("Plain description. Type: int"), "Plain description.");
    assert_eq!(extract_description("<p></p>Only text here"), "Only text here");
}

#[test]
fn extract_sections_of_a_block() {
    assert_eq!(extract_type_info(ALIAS_DD), "attribute set of string");
    assert_eq!(extract_default_value(ALIAS_DD), "{ }");
    assert_eq!(extract_default_value("<p>Type: int</p>"), "");
}

#[test]
fn extract_section_html_stops_at_a_marker() {
    assert_eq!(
        extract_section_html("a Label: b <i>c</i> Stop: d", "Label:", &["Stop:"]),
        Some(" b <i>c</i> ".to_string())
    );
    assert_eq!(extract_section_html("a b", "Label:", &["Stop:"]), None);
}

#[test]
fn extract_section_value_trims() {
    assert_eq!(extract_section_value("<p>Label:   value here  Other: z</p>", "Label:", &["Other:"]), "value here");
    assert_eq!(extract_section_value("<p>Label:   </p>", "Label:", &["Other:"]), "");
}

#[test]
fn extract_links_dedupes_and_decodes() {
    assert_eq!(
        extract_links(ALIAS_DD),
        vec!["https://example.org/git.nix".to_string(), "https://example.org/other.nix?a=1&b=2".to_string()]
    );
}

#[test]
fn extract_links_skips_unquoted_and_empty() {
    assert_eq!(extract_links("href=x href=\"\" href='a' href=\"unclosed"), vec!["a".to_string()]);
    assert_eq!(extract_links("href="), Vec::<String>::new());
}

#[test]
fn extract_declared_by_joins_links() {
    assert_eq!(
        extract_declared_by(ALIAS_DD),
        "https://example.org/git.nix, https://example.org/other.nix?a=1&b=2"
    );
    assert_eq!(extract_declared_by("<p>Type: int</p>"), "");
}

#[test]
fn extract_dd_block_finds_the_next_block() {
    assert_eq!(extract_dd_block("xx<dd class=\"a\">inner</dd>yy", 0), Some(("inner".to_string(), 26)));
    assert_eq!(extract_dd_block("xx<dd class=\"a\">inner</dd>yy", 3), None);
    assert_eq!(extract_dd_block("<dd>open", 0), None);
}

#[test]
fn extract_dd_block_counts_bytes() {
    assert_eq!(extract_dd_block("é<dd>x</dd>", 0), Some(("x".to_string(), 12)));
    assert_eq!(extract_dd_block("é<dd>x</dd>", 2), Some(("x".to_string(), 12)));
    assert_eq!(extract_dd_block("é<dd>ü</dd><dd>y</dd>", 13), Some(("y".to_string(), 23)));
}

#[test]
fn parse_home_manager_options_matches_names() {
    let found = parse_home_manager_options(&page(), "git", 20);
    assert_eq!(found.len(), 2);
    assert_eq!(
        fields(&found[0]),
        ("programs.git.enable", "Whether to enable Git.", "boolean", "false", GIT_DECLARATION)
    );
    assert_eq!(
        fields(&found[1]),
        (
            "programs.git.aliases",
            "Git aliases to define.",
            "attribute set of string",
            "{ }",
            "https://example.org/git.nix, https://example.org/other.nix?a=1&b=2"
        )
    );
}

#[test]
fn parse_home_manager_options_respects_the_limit() {
    let found = parse_home_manager_options(&page(), "GIT", 1);
    assert_eq!(found.len(), 1);
    assert_eq!(found[0].name, "programs.git.enable");
    let found = parse_home_manager_options(&page(), "git", 0);
    assert_eq!(found.len(), 1);
}

#[test]
fn parse_home_manager_options_restores_name_placeholders() {
    let found = parse_home_manager_options(&page(), "<NAME>", 20);
    assert_eq!(found.len(), 1);
    assert_eq!(
        fields(&found[0]),
        ("accounts.email.accounts.<name>.address", "The email address of this account.", "string", "", "")
    );
}

#[test]
fn parse_home_manager_options_without_match() {
    assert!(parse_home_manager_options(&page(), "zzz", 20).is_empty());
    assert!(parse_home_manager_options("", "git", 20).is_empty());
}

#[test]
fn parse_home_manager_options_without_block() {
    let found = parse_home_manager_options("<a id=\"opt-lonely\"></a>", "lonely", 20);
    assert_eq!(found.len(), 1);
    assert_eq!(fields(&found[0]), ("lonely", "", "", "", ""));
}

#[test]
fn parse_home_manager_options_shortens_descriptions() {
    let html = format!("<dt><a id=\"opt-x.long\"></a></dt><dd><p>{}</p></dd>", "word ".repeat(60));
    let found = parse_home_manager_options(&html, "long", 5);
    assert_eq!(found[0].description.chars().count(), HOME_MANAGER_DESCRIPTION_LIMIT + 3);
    assert!(found[0].description.ends_with("d word ..."));
}

#[test]
fn home_manager_query_trims() {
    assert_eq!(home_manager_query("  git \n"), Ok("git".to_string()));
    assert_eq!(home_manager_query(" \t "), Err(HomeManagerSearchError::EmptyQuery));
    assert_eq!(HomeManagerSearchError::EmptyQuery.message(), "query must not be empty");
}

#[test]
fn search_home_manager_options_uses_trimmed_query() {
    let found = search_home_manager_options(&page(), "  aliases ").unwrap();
    assert_eq!(found.len(), 1);
    assert_eq!(found[0].name, "programs.git.aliases");
    assert!(matches!(search_home_manager_options(&page(), "   "), Err(HomeManagerSearchError::EmptyQuery)));
}

#[test]
fn search_home_manager_options_stops_at_the_results_limit() {
    let mut html = String::new();
    for i in 0..30 {
        html.push_str(&format!("<a id=\"opt-opt{}\"></a><dd>d</dd>", i));
    }
    let found = search_home_manager_options(&html, "opt").unwrap();
    assert_eq!(found.len(), HOME_MANAGER_RESULTS_LIMIT);
    assert_eq!(found[19].name, "opt19");
}

#[test]
fn decode_html_entities_is_not_longer_in_bytes() {
    let input = "é&amp;ü&nbsp;&#x27;";
    let decoded = decode_html_entities(input);
    assert_eq!(decoded, "é&ü '");
    assert_eq!(decoded.len(), 7);
    assert!(decoded.len() <= input.len());
}

#[test]
fn parse_home_manager_options_reads_fields_after_the_name() {
    let html = "<a id=\"opt-first\"></a><a id=\"opt-second\"></a><dd>  Shared text. Type: int </dd><a id=\"opt-third\"></a><dd><p>Third.</p></dd>";
    let found = parse_home_manager_options(html, "", 20);
    assert_eq!(found.len(), 2);
    assert_eq!(fields(&found[0]), ("first", "Shared text.", "int", "", ""));
    assert_eq!(fields(&found[1]), ("third", "Third.", "", "", ""));
}

fn option_block(name: &str, term: &str, body: &str) -> String {
    format!("<dt id=\"opt-{}\">{}</dt><dd>{}</dd>", name, term, body)
}

#[test]
fn parse_home_manager_options_over_a_page_of_blocks() {
    let page = [
        option_block("a.x", "t1", "<p>Alpha.</p><p><em>Type:</em> int</p>"),
        option_block("b._name_.y", "t2", "<p>Beta.</p>"),
        option_block("a.x", "t3", "<p>Dup.</p>"),
        option_block("c.Z", "", "Gamma. Type: bool"),
    ]
    .concat();
    let found = parse_home_manager_options(&page, "", 2);
    assert_eq!(found.len(), 2);
    assert_eq!(fields(&found[0]), ("a.x", "Alpha.", "int", "", ""));
    assert_eq!(fields(&found[1]), ("b.<name>.y", "Beta.", "", "", ""));
    let found = parse_home_manager_options(&page, "", 20);
    assert_eq!(found.len(), 3);
    assert_eq!(fields(&found[2]), ("c.Z", "Gamma.", "bool", "", ""));
    let found = parse_home_manager_options(&page, "z", 20);
    assert_eq!(found.len(), 1);
    assert_eq!(found[0].name, "c.Z");
}
