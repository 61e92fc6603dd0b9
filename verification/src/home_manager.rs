//! Reading the options of the Home Manager manual page: markup cleanup, section extraction
//! and the scan over option anchors.
use vstd::prelude::*;

use crate::text::{
    collapse_whitespace, collapse_whitespace_exec, copy_range, find_from, find_literal, from_chars,
    lemma_find_from, replace, replace_literal, str_views, strip_tags, strip_tags_exec, to_chars,
    trim, trim_bounds, trim_start, leading_whitespace, find_from_exec, views, string_views, join,
    join_exec, contains_chars, to_strings, contains, lowercase, trim_exec, to_lowercase, matches_at,
    lemma_replace_absent, lemma_collapse_single_spaced, single_spaced, lemma_trim_trimmed,
    byte_offset, byte_offset_from, char_position, lemma_replace_not_longer, lemma_trim_of_trimmed_ends,
    lemma_trim_is_subrange, lemma_found_if_matches, lemma_trim_start, lemma_replace_fewer_bytes,
    lemma_no_match_up_to, lemma_find_across_gap, lemma_find_at, lemma_encode_ascii, lemma_encode_subrange,
    lemma_byte_offset_monotonic, lemma_strip_tags_plain,
};
use vstd::utf8::encode_utf8;

verus! {

/// Most options one search returns.
pub const HOME_MANAGER_RESULTS_LIMIT: usize = 20;

/// Most characters kept of an option's description.
pub const HOME_MANAGER_DESCRIPTION_LIMIT: usize = 200;

// ---------------------------------------------------------------------------
// Entities and text
// ---------------------------------------------------------------------------

/// `s` with the HTML entities `&nbsp; &lt; &gt; &amp; &quot; &#39; &#x27;` decoded, one after
/// the other in that order.
pub open spec fn decode_entities(s: Seq<char>) -> Seq<char> {
    let s1 = replace(s, "&nbsp;"@, " "@);
    let s2 = replace(s1, "&lt;"@, "<"@);
    let s3 = replace(s2, "&gt;"@, ">"@);
    let s4 = replace(s3, "&amp;"@, "&"@);
    let s5 = replace(s4, "&quot;"@, "\""@);
    let s6 = replace(s5, "&#39;"@, "'"@);
    replace(s6, "&#x27;"@, "'"@)
}

/// The readable text of a piece of markup: tags dropped, entities decoded, words joined by
/// single spaces.
pub open spec fn clean_text(s: Seq<char>) -> Seq<char> {
    collapse_whitespace(decode_entities(strip_tags(s)))
}

/// At most `max` characters of `s`, followed by `...` when something was cut off.
pub open spec fn truncated(s: Seq<char>, max: nat) -> Seq<char> {
    if s.len() <= max {
        s
    } else {
        s.take(max as int) + "..."@
    }
}

/// Decodes the entities of `s`.
pub(crate) fn decode_chars(s: &[char]) -> (r: Vec<char>)
    ensures
        r@ == decode_entities(s@),
{
    proof {
        reveal_strlit("&nbsp;");
        reveal_strlit("&lt;");
        reveal_strlit("&gt;");
        reveal_strlit("&amp;");
        reveal_strlit("&quot;");
        reveal_strlit("&#39;");
        reveal_strlit("&#x27;");
    }
    let s1 = replace_literal(s, "&nbsp;", " ");
    let s2 = replace_literal(s1.as_slice(), "&lt;", "<");
    let s3 = replace_literal(s2.as_slice(), "&gt;", ">");
    let s4 = replace_literal(s3.as_slice(), "&amp;", "&");
    let s5 = replace_literal(s4.as_slice(), "&quot;", "\"");
    let s6 = replace_literal(s5.as_slice(), "&#39;", "'");
    replace_literal(s6.as_slice(), "&#x27;", "'")
}

/// The readable text of the markup `s`.
pub(crate) fn clean_chars(s: &[char]) -> (r: Vec<char>)
    ensures
        r@ == clean_text(s@),
{
    let stripped = strip_tags_exec(s);
    let decoded = decode_chars(stripped.as_slice());
    collapse_whitespace_exec(decoded.as_slice())
}

/// Decodes the HTML entities that the Home Manager page uses.
pub fn decode_html_entities(input: &str) -> (r: String)
    ensures
        r@ == decode_entities(input@),
{
    let cs = to_chars(input);
    let out = decode_chars(cs.as_slice());
    from_chars(out.as_slice())
}

/// The text of a piece of markup, on one line.
pub fn clean_html_text(input: &str) -> (r: String)
    ensures
        r@ == clean_text(input@),
{
    let cs = to_chars(input);
    let out = clean_chars(cs.as_slice());
    from_chars(out.as_slice())
}

/// The first `max_chars` characters of `input`, with `...` appended when it is longer.
pub fn truncate_text(input: &str, max_chars: usize) -> (r: String)
    ensures
        r@ == truncated(input@, max_chars as nat),
{
    let cs = to_chars(input);
    if cs.len() <= max_chars {
        return from_chars(cs.as_slice());
    }
    let mut out = copy_range(cs.as_slice(), 0, max_chars);
    out.push('.');
    out.push('.');
    out.push('.');
    proof {
        reveal_strlit("...");
        assert(out@ =~= input@.take(max_chars as int) + "..."@);
    }
    from_chars(out.as_slice())
}

// ---------------------------------------------------------------------------
// Sections of an option's `<dd>` block
// ---------------------------------------------------------------------------

/// The text of the first `<p ...>...</p>` element of `dd`, unless it is missing or empty.
pub open spec fn first_paragraph(dd: Seq<char>) -> Option<Seq<char>> {
    match find_from(dd, "<p"@, 0) {
        None => None,
        Some(p_start) => match find_from(dd, ">"@, p_start) {
            None => None,
            Some(tag_end) => match find_from(dd, "</p>"@, tag_end + 1) {
                None => None,
                Some(p_end) => {
                    let text = clean_text(dd.subrange(tag_end + 1, p_end));
                    if text.len() == 0 {
                        None
                    } else {
                        Some(text)
                    }
                },
            },
        },
    }
}

/// The trimmed text before the first `Type:` in `text`, unless there is no `Type:` or
/// nothing but whitespace before it.
pub open spec fn description_before_type(text: Seq<char>) -> Option<Seq<char>> {
    match find_from(text, "Type:"@, 0) {
        None => None,
        Some(i) => {
            let d = trim(text.subrange(0, i));
            if d.len() == 0 {
                None
            } else {
                Some(d)
            }
        },
    }
}

/// An option's description: its first paragraph; else the text before `Type:`; else the
/// whole text of the block.
pub open spec fn description(dd: Seq<char>) -> Seq<char> {
    match first_paragraph(dd) {
        Some(text) => text,
        None => {
            let text = clean_text(dd);
            match description_before_type(text) {
                Some(d) => d,
                None => text,
            }
        },
    }
}

/// The first position in `s` where one of `markers` occurs, or `s.len()` when none does.
pub open spec fn stop_index(s: Seq<char>, markers: Seq<Seq<char>>) -> int
    decreases markers.len(),
{
    if markers.len() == 0 {
        s.len() as int
    } else {
        let end = stop_index(s, markers.drop_last());
        match find_from(s, markers.last(), 0) {
            Some(i) => if i < end {
                i
            } else {
                end
            },
            None => end,
        }
    }
}

/// The markup after the first `label` in `input`, up to the first stop marker.
pub open spec fn section_html(input: Seq<char>, label: Seq<char>, markers: Seq<Seq<char>>) -> Option<
    Seq<char>,
> {
    match find_from(input, label, 0) {
        None => None,
        Some(i) => {
            let rest = input.subrange(i + label.len(), input.len() as int);
            Some(rest.take(stop_index(rest, markers)))
        },
    }
}

/// The trimmed text after the first `label` in the text of `dd`, up to the first stop
/// marker; empty when `label` does not occur.
pub open spec fn section_value(dd: Seq<char>, label: Seq<char>, markers: Seq<Seq<char>>) -> Seq<char> {
    let text = clean_text(dd);
    match find_from(text, label, 0) {
        None => Seq::empty(),
        Some(i) => {
            let rest = trim_start(text.subrange(i + label.len(), text.len() as int));
            trim(rest.take(stop_index(rest, markers)))
        },
    }
}

/// The labels that end the `Type:` section.
pub open spec fn type_stops() -> Seq<Seq<char>> {
    seq![
        "Default:"@,
        "Example:"@,
        "Declared by:"@,
        "Defined by:"@,
        "Related packages:"@,
        "Related options:"@,
    ]
}

/// The labels that end the `Default:` section.
pub open spec fn default_stops() -> Seq<Seq<char>> {
    seq![
        "Example:"@,
        "Declared by:"@,
        "Defined by:"@,
        "Related packages:"@,
        "Related options:"@,
        "Type:"@,
    ]
}

/// The labels that end the `Declared by:` section.
pub open spec fn declared_by_stops() -> Seq<Seq<char>> {
    seq![
        "Defined by:"@,
        "Related packages:"@,
        "Related options:"@,
        "Example:"@,
        "Default:"@,
        "Type:"@,
    ]
}

/// The first position in `s` where one of `markers` occurs, or `s.len()`.
pub(crate) fn stop_index_exec(s: &[char], markers: &[&str]) -> (r: usize)
    ensures
        r == stop_index(s@, str_views(markers@)),
        r <= s@.len(),
{
    let mut end = s.len();
    let n = markers.len();
    for k in 0..n
        invariant
            n == markers@.len(),
            end == stop_index(s@, str_views(markers@.take(k as int))),
            end <= s@.len(),
    {
        assert(str_views(markers@.take(k + 1)).drop_last() =~= str_views(markers@.take(k as int)));
        assert(str_views(markers@.take(k + 1)).last() == markers@[k as int]@);
        let m = to_chars(markers[k]);
        match find_from_exec(s, m.as_slice(), 0) {
            Some(i) => {
                proof {
                    lemma_find_from(s@, m@, 0);
                }
                if i < end {
                    end = i;
                }
            },
            None => {},
        }
    }
    assert(markers@.take(n as int) =~= markers@);
    end
}

/// The text of the first non-empty paragraph of `dd`.
pub(crate) fn first_paragraph_chars(dd: &[char]) -> (r: Option<Vec<char>>)
    ensures
        r matches Some(v) ==> first_paragraph(dd@) == Some(v@),
        r is None ==> first_paragraph(dd@) is None,
{
    let p_start = match find_literal(dd, "<p", 0) {
        Some(i) => i,
        None => return None,
    };
    let tag_end = match find_literal(dd, ">", p_start) {
        Some(i) => i,
        None => return None,
    };
    proof {
        reveal_strlit(">");
    }
    let n = dd.len();
    assert(tag_end + 1 <= n);
    let content_start = tag_end + 1;
    let p_end = match find_literal(dd, "</p>", content_start) {
        Some(i) => i,
        None => return None,
    };
    let content = copy_range(dd, content_start, p_end);
    let text = clean_chars(content.as_slice());
    if text.len() == 0 {
        None
    } else {
        Some(text)
    }
}

/// The text of the first paragraph of an option's block, if it has a non-empty one.
pub fn extract_first_paragraph(dd_block: &str) -> (r: Option<String>)
    ensures
        r matches Some(s) ==> first_paragraph(dd_block@) == Some(s@),
        r is None ==> first_paragraph(dd_block@) is None,
{
    let dd = to_chars(dd_block);
    match first_paragraph_chars(dd.as_slice()) {
        Some(v) => Some(from_chars(v.as_slice())),
        None => None,
    }
}

/// The trimmed text before `Type:` in `text`.
pub(crate) fn description_before_type_chars(text: &[char]) -> (r: Option<Vec<char>>)
    ensures
        r matches Some(v) ==> description_before_type(text@) == Some(v@),
        r is None ==> description_before_type(text@) is None,
{
    let type_idx = match find_literal(text, "Type:", 0) {
        Some(i) => i,
        None => return None,
    };
    let (a, b) = trim_bounds(text, 0, type_idx);
    if a == b {
        None
    } else {
        Some(copy_range(text, a, b))
    }
}

/// The trimmed text before `Type:`, if there is some.
pub fn extract_description_before_type(text: &str) -> (r: Option<String>)
    ensures
        r matches Some(s) ==> description_before_type(text@) == Some(s@),
        r is None ==> description_before_type(text@) is None,
{
    let cs = to_chars(text);
    match description_before_type_chars(cs.as_slice()) {
        Some(v) => Some(from_chars(v.as_slice())),
        None => None,
    }
}

/// The description in the block `dd`.
pub(crate) fn description_chars(dd: &[char]) -> (r: Vec<char>)
    ensures
        r@ == description(dd@),
{
    if let Some(text) = first_paragraph_chars(dd) {
        return text;
    }
    let text = clean_chars(dd);
    if let Some(desc) = description_before_type_chars(text.as_slice()) {
        return desc;
    }
    text
}

/// The description of an option from its `<dd>` block.
pub fn extract_description(dd_block: &str) -> (r: String)
    ensures
        r@ == description(dd_block@),
{
    let dd = to_chars(dd_block);
    let d = description_chars(dd.as_slice());
    from_chars(d.as_slice())
}

/// The markup after `label` in `input`, up to the first stop marker.
pub(crate) fn section_html_chars(input: &[char], label: &[char], stop_markers: &[&str]) -> (r: Option<
    Vec<char>,
>)
    ensures
        r matches Some(v) ==> section_html(input@, label@, str_views(stop_markers@)) == Some(v@),
        r is None ==> section_html(input@, label@, str_views(stop_markers@)) is None,
{
    let label_idx = match find_from_exec(input, label, 0) {
        Some(i) => i,
        None => return None,
    };
    proof {
        lemma_find_from(input@, label@, 0);
    }
    let n = input.len();
    assert(label_idx + label.len() <= n);
    let rest = copy_range(input, label_idx + label.len(), input.len());
    let end = stop_index_exec(rest.as_slice(), stop_markers);
    let section = copy_range(rest.as_slice(), 0, end);
    assert(section@ =~= rest@.take(end as int));
    Some(section)
}

/// The markup between `label` and the first of `stop_markers` after it.
pub fn extract_section_html(input: &str, label: &str, stop_markers: &[&str]) -> (r: Option<String>)
    ensures
        r matches Some(s) ==> section_html(input@, label@, str_views(stop_markers@)) == Some(s@),
        r is None ==> section_html(input@, label@, str_views(stop_markers@)) is None,
{
    let cs = to_chars(input);
    let l = to_chars(label);
    match section_html_chars(cs.as_slice(), l.as_slice(), stop_markers) {
        Some(v) => Some(from_chars(v.as_slice())),
        None => None,
    }
}

/// The trimmed text of the section `label` of the block `dd`.
pub(crate) fn section_value_chars(dd: &[char], label: &[char], stop_markers: &[&str]) -> (r: Vec<
    char,
>)
    ensures
        r@ == section_value(dd@, label@, str_views(stop_markers@)),
{
    let text = clean_chars(dd);
    let section_idx = match find_from_exec(text.as_slice(), label, 0) {
        Some(i) => i,
        None => return Vec::new(),
    };
    proof {
        lemma_find_from(text@, label@, 0);
    }
    let n = text.len();
    assert(section_idx + label.len() <= n);
    let start = leading_whitespace(text.as_slice(), section_idx + label.len());
    let rest = copy_range(text.as_slice(), start, text.len());
    let end = stop_index_exec(rest.as_slice(), stop_markers);
    let (a, b) = trim_bounds(rest.as_slice(), 0, end);
    assert(rest@.subrange(0, end as int) =~= rest@.take(end as int));
    copy_range(rest.as_slice(), a, b)
}

/// The trimmed text of the section that starts with `label`, empty when there is none.
pub fn extract_section_value(dd_block: &str, label: &str, stop_markers: &[&str]) -> (r: String)
    ensures
        r@ == section_value(dd_block@, label@, str_views(stop_markers@)),
{
    let dd = to_chars(dd_block);
    let l = to_chars(label);
    let v = section_value_chars(dd.as_slice(), l.as_slice(), stop_markers);
    from_chars(v.as_slice())
}

/// The `Type:` section of an option's block.
pub open spec fn type_info(dd: Seq<char>) -> Seq<char> {
    section_value(dd, "Type:"@, type_stops())
}

/// The `Default:` section of an option's block.
pub open spec fn default_value(dd: Seq<char>) -> Seq<char> {
    section_value(dd, "Default:"@, default_stops())
}

/// The type of an option, from its `<dd>` block.
pub fn extract_type_info(dd_block: &str) -> (r: String)
    ensures
        r@ == type_info(dd_block@),
{
    let markers: [&str; 6] = [
        "Default:",
        "Example:",
        "Declared by:",
        "Defined by:",
        "Related packages:",
        "Related options:",
    ];
    assert(str_views(markers@) =~= type_stops());
    extract_section_value(dd_block, "Type:", markers.as_slice())
}

/// The default value of an option, from its `<dd>` block.
pub fn extract_default_value(dd_block: &str) -> (r: String)
    ensures
        r@ == default_value(dd_block@),
{
    let markers: [&str; 6] = [
        "Example:",
        "Declared by:",
        "Defined by:",
        "Related packages:",
        "Related options:",
        "Type:",
    ];
    assert(str_views(markers@) =~= default_stops());
    extract_section_value(dd_block, "Default:", markers.as_slice())
}

// ---------------------------------------------------------------------------
// Links
// ---------------------------------------------------------------------------

/// The links of `section` from position `cursor` on, after the ones already in `found`:
/// each `href=` followed by a quote `"` or `'` gives the text up to the next such quote,
/// entities decoded; empty and repeated links are left out. A quote that is never closed
/// ends the scan; an `href=` not followed by a quote is passed over.
pub open spec fn links_from(section: Seq<char>, cursor: int, found: Seq<Seq<char>>) -> Seq<Seq<char>>
    decreases section.len() - cursor,
{
    if cursor < 0 {
        found
    } else {
        match find_from(section, "href="@, cursor) {
            None => found,
            Some(h) => {
                let start = h + "href="@.len();
                if start >= section.len() {
                    found
                } else if section[start] != '"' && section[start] != '\'' {
                    proof {
                        lemma_find_from(section, "href="@, cursor);
                    }
                    links_from(section, start + 1, found)
                } else {
                    match find_from(section, seq![section[start]], start + 1) {
                        None => found,
                        Some(end) => {
                            proof {
                                lemma_find_from(section, "href="@, cursor);
                                lemma_find_from(section, seq![section[start]], start + 1);
                            }
                            let url = decode_entities(section.subrange(start + 1, end));
                            let found2 = if url.len() > 0 && !found.contains(url) {
                                found.push(url)
                            } else {
                                found
                            };
                            links_from(section, end + 1, found2)
                        },
                    }
                }
            },
        }
    }
}

/// The distinct, non-empty link targets of `section`, in order of first appearance.
pub open spec fn links(section: Seq<char>) -> Seq<Seq<char>> {
    links_from(section, 0, Seq::empty())
}

/// The distinct link targets of `section`.
pub(crate) fn links_chars(section: &[char]) -> (r: Vec<Vec<char>>)
    ensures
        views(r@) == links(section@),
{
    let mut found: Vec<Vec<char>> = Vec::new();
    let n = section.len();
    let mut cursor: usize = 0;
    assert(views(found@) =~= Seq::<Seq<char>>::empty());
    while cursor <= n
        invariant
            n == section@.len(),
            links_from(section@, cursor as int, views(found@)) == links(section@),
        decreases n + 1 - cursor,
    {
        proof {
            reveal_strlit("href=");
        }
        let href = match find_literal(section, "href=", cursor) {
            Some(h) => h,
            None => return found,
        };
        let start = href + 5;
        if start >= n {
            return found;
        }
        let quote = section[start];
        if quote != '"' && quote != '\'' {
            cursor = start + 1;
            continue;
        }
        let q = vec![quote];
        assert(q@ =~= seq![section@[start as int]]);
        let end = match find_from_exec(section, q.as_slice(), start + 1) {
            Some(e) => e,
            None => return found,
        };
        proof {
            lemma_find_from(section@, q@, start + 1);
        }
        let raw = copy_range(section, start + 1, end);
        let url = decode_chars(raw.as_slice());
        if url.len() > 0 && !contains_chars(&found, url.as_slice()) {
            let ghost before = found@;
            found.push(url);
            assert(views(found@) =~= views(before).push(url@));
        }
        cursor = end + 1;
    }
    found
}

/// The distinct link targets of a piece of markup.
pub fn extract_links(section: &str) -> (r: Vec<String>)
    ensures
        string_views(r@) == links(section@),
{
    let cs = to_chars(section);
    let found = links_chars(cs.as_slice());
    to_strings(&found)
}

/// The `Declared by:` links of an option's block, separated by `, `.
pub open spec fn declared_by(dd: Seq<char>) -> Seq<char> {
    match section_html(dd, "Declared by:"@, declared_by_stops()) {
        None => Seq::empty(),
        Some(section) => join(links(section), ", "@),
    }
}

/// The `Declared by:` links of the block `dd`, separated by `, `.
pub(crate) fn declared_by_chars(dd: &[char]) -> (r: Vec<char>)
    ensures
        r@ == declared_by(dd@),
{
    let markers: [&str; 6] = [
        "Defined by:",
        "Related packages:",
        "Related options:",
        "Example:",
        "Default:",
        "Type:",
    ];
    assert(str_views(markers@) =~= declared_by_stops());
    let label = to_chars("Declared by:");
    let section = match section_html_chars(dd, label.as_slice(), markers.as_slice()) {
        Some(s) => s,
        None => return Vec::new(),
    };
    let found = links_chars(section.as_slice());
    let sep = to_chars(", ");
    join_exec(&found, sep.as_slice())
}

/// Where an option is declared: the links of its `Declared by:` section.
pub fn extract_declared_by(dd_block: &str) -> (r: String)
    ensures
        r@ == declared_by(dd_block@),
{
    let dd = to_chars(dd_block);
    let v = declared_by_chars(dd.as_slice());
    from_chars(v.as_slice())
}

// ---------------------------------------------------------------------------
// Blocks
// ---------------------------------------------------------------------------

/// The content of the first `<dd ...>...</dd>` element at or after `cursor`, and the
/// position just past its `</dd>`.
pub open spec fn dd_block_at(html: Seq<char>, cursor: int) -> Option<(Seq<char>, int)> {
    match find_from(html, "<dd"@, cursor) {
        None => None,
        Some(dd_start) => match find_from(html, ">"@, dd_start) {
            None => None,
            Some(tag_end) => match find_from(html, "</dd>"@, tag_end + 1) {
                None => None,
                Some(dd_end) => Some((html.subrange(tag_end + 1, dd_end), dd_end + "</dd>"@.len())),
            },
        },
    }
}

/// The content bounds and the next position of the first `<dd>` element at or after `cursor`.
pub(crate) fn dd_block_bounds(html: &[char], cursor: usize) -> (r: Option<(usize, usize, usize)>)
    requires
        cursor <= html@.len(),
    ensures
        r matches Some((a, b, next)) ==> {
            &&& a <= b <= html@.len()
            &&& cursor < next <= html@.len()
            &&& dd_block_at(html@, cursor as int) == Some((html@.subrange(a as int, b as int), next as int))
        },
        r is None ==> dd_block_at(html@, cursor as int) is None,
{
    let dd_start = match find_literal(html, "<dd", cursor) {
        Some(i) => i,
        None => return None,
    };
    let tag_end = match find_literal(html, ">", dd_start) {
        Some(i) => i,
        None => return None,
    };
    proof {
        reveal_strlit(">");
        reveal_strlit("</dd>");
    }
    let n = html.len();
    assert(tag_end + 1 <= n);
    let content_start = tag_end + 1;
    let dd_end = match find_literal(html, "</dd>", content_start) {
        Some(i) => i,
        None => return None,
    };
    Some((content_start, dd_end, dd_end + 5))
}

/// The content of the first `<dd>` element at or after the byte offset `cursor`, and the
/// byte offset just past its `</dd>`. `cursor` must start a character of `html`.
pub fn extract_dd_block(html: &str, cursor: usize) -> (r: Option<(String, usize)>)
    requires
        exists|c: int| 0 <= c <= html@.len() && byte_offset(html@, c) == cursor,
    ensures
        forall|c: int|
            0 <= c <= html@.len() && #[trigger] byte_offset(html@, c) == cursor ==> match dd_block_at(
                html@,
                c,
            ) {
                Some((block, next)) => (r matches Some((b, n)) && b@ == block && n == byte_offset(
                    html@,
                    next,
                )),
                None => r is None,
            },
{
    let cs = to_chars(html);
    let total = html.as_bytes().len();
    assert(cs@.take(cs@.len() as int) =~= cs@);
    let start = char_position(cs.as_slice(), cursor, total);
    match dd_block_bounds(cs.as_slice(), start) {
        Some((a, b, next)) => {
            let block = copy_range(cs.as_slice(), a, b);
            let next_byte = byte_offset_from(cs.as_slice(), start, cursor, next, total);
            Some((from_chars(block.as_slice()), next_byte))
        },
        None => None,
    }
}

// ---------------------------------------------------------------------------
// Options
// ---------------------------------------------------------------------------

/// One option of the Home Manager manual.
pub struct HomeManagerOption {
    pub name: String,
    pub description: String,
    pub type_info: String,
    pub default_value: String,
    pub declared_by: String,
}

/// The text of an option's fields.
pub struct OptionText {
    pub name: Seq<char>,
    pub description: Seq<char>,
    pub type_info: Seq<char>,
    pub default_value: Seq<char>,
    pub declared_by: Seq<char>,
}

impl View for HomeManagerOption {
    type V = OptionText;

    open spec fn view(&self) -> OptionText {
        OptionText {
            name: self.name@,
            description: self.description@,
            type_info: self.type_info@,
            default_value: self.default_value@,
            declared_by: self.declared_by@,
        }
    }
}

/// The texts of a list of options.
pub open spec fn option_views(options: Seq<HomeManagerOption>) -> Seq<OptionText> {
    options.map_values(|o: HomeManagerOption| o@)
}

/// The names of a list of options.
pub open spec fn option_names(options: Seq<OptionText>) -> Seq<Seq<char>> {
    options.map_values(|o: OptionText| o.name)
}

/// A description as listed: empty stays empty, anything else is trimmed and cut to
/// `HOME_MANAGER_DESCRIPTION_LIMIT` characters.
pub open spec fn short_description(d: Seq<char>) -> Seq<char> {
    if d.len() == 0 {
        d
    } else {
        truncated(trim(d), HOME_MANAGER_DESCRIPTION_LIMIT as nat)
    }
}

/// The option called `name` whose `<dd>` block is `block`; all fields but the name are empty
/// when there is no block.
pub open spec fn option_entry(name: Seq<char>, block: Option<Seq<char>>) -> OptionText {
    match block {
        Some(b) => OptionText {
            name,
            description: short_description(description(b)),
            type_info: trim(type_info(b)),
            default_value: trim(default_value(b)),
            declared_by: trim(declared_by(b)),
        },
        None => OptionText {
            name,
            description: Seq::empty(),
            type_info: Seq::empty(),
            default_value: Seq::empty(),
            declared_by: Seq::empty(),
        },
    }
}

/// `dd_block_at` ends past `cursor` and within `html`.
pub proof fn lemma_dd_block_at(html: Seq<char>, cursor: int)
    requires
        0 <= cursor,
    ensures
        dd_block_at(html, cursor) matches Some((_, next)) ==> cursor < next <= html.len(),
{
    reveal_strlit("</dd>");
    lemma_find_from(html, "<dd"@, cursor);
    if let Some(dd_start) = find_from(html, "<dd"@, cursor) {
        lemma_find_from(html, ">"@, dd_start);
        if let Some(tag_end) = find_from(html, ">"@, dd_start) {
            lemma_find_from(html, "</dd>"@, tag_end + 1);
        }
    }
}

/// The options of the manual page `html` from position `cursor` on, after those in `found`.
/// Each anchor `id="opt-NAME"` names an option (`_name_` in NAME standing for `<name>`); it
/// is taken when its lowercase name contains `query` and no option taken before has that
/// name, with the fields read from the next `<dd>` block, and the scan goes on after that
/// block. The scan stops once `limit` options are taken (checked after each one).
pub open spec fn scan_options(
    html: Seq<char>,
    query: Seq<char>,
    limit: nat,
    cursor: int,
    found: Seq<OptionText>,
) -> Seq<OptionText>
    decreases html.len() - cursor,
{
    if cursor < 0 {
        found
    } else {
        match find_from(html, "id=\"opt-"@, cursor) {
            None => found,
            Some(anchor) => {
                let name_start = anchor + "id=\"opt-"@.len();
                match find_from(html, "\""@, name_start) {
                    None => found,
                    Some(name_end) => {
                        proof {
                            reveal_strlit("\"");
                            reveal_strlit("id=\"opt-");
                            lemma_find_from(html, "id=\"opt-"@, cursor);
                            lemma_find_from(html, "\""@, name_start);
                            lemma_dd_block_at(html, name_end);
                        }
                        let name = replace(html.subrange(name_start, name_end), "_name_"@, "<name>"@);
                        if !contains(lowercase(name), query) || option_names(found).contains(name) {
                            scan_options(html, query, limit, name_end, found)
                        } else {
                            let block = dd_block_at(html, name_end);
                            let entry = option_entry(
                                name,
                                match block {
                                    Some((b, _)) => Some(b),
                                    None => None,
                                },
                            );
                            let found2 = found.push(entry);
                            if found2.len() >= limit {
                                found2
                            } else {
                                match block {
                                    Some((_, next)) => scan_options(html, query, limit, next, found2),
                                    None => scan_options(html, query, limit, name_end, found2),
                                }
                            }
                        }
                    },
                }
            },
        }
    }
}

/// The options of `html` whose lowercase name contains the lowercase `query`, at most
/// `limit` of them (one when `limit` is 0), in page order, without repeated names.
pub open spec fn options_in(html: Seq<char>, query: Seq<char>, limit: nat) -> Seq<OptionText> {
    scan_options(html, lowercase(query), limit, 0, Seq::empty())
}

/// A copy of `s` without leading and trailing whitespace.
fn trimmed_string(s: &str) -> (r: String)
    ensures
        r@ == trim(s@),
{
    let cs = to_chars(s);
    let t = trim_exec(cs.as_slice());
    from_chars(t.as_slice())
}

/// The option called `name` with the fields of the `<dd>` block `block`.
fn option_from_block(name: String, block: &str) -> (r: HomeManagerOption)
    ensures
        r@ == option_entry(name@, Some(block@)),
{
    let description = extract_description(block);
    let description = if description.as_str().is_empty() {
        description
    } else {
        let t = trimmed_string(description.as_str());
        truncate_text(t.as_str(), HOME_MANAGER_DESCRIPTION_LIMIT)
    };
    let type_info = extract_type_info(block);
    let default_value = extract_default_value(block);
    let declared_by = extract_declared_by(block);
    HomeManagerOption {
        name,
        description,
        type_info: trimmed_string(type_info.as_str()),
        default_value: trimmed_string(default_value.as_str()),
        declared_by: trimmed_string(declared_by.as_str()),
    }
}

/// The option called `name` that has no block.
fn empty_option(name: String) -> (r: HomeManagerOption)
    ensures
        r@ == option_entry(name@, None),
{
    HomeManagerOption {
        name,
        description: String::new(),
        type_info: String::new(),
        default_value: String::new(),
        declared_by: String::new(),
    }
}

/// The options of the manual page `html` whose lowercase name contains the lowercase
/// `query`, in page order, without repeated names, stopping once `limit` have been taken.
pub fn parse_home_manager_options(html: &str, query: &str, limit: usize) -> (r: Vec<
    HomeManagerOption,
>)
    ensures
        option_views(r@) == options_in(html@, query@, limit as nat),
{
    let cs = to_chars(html);
    let n = cs.len();
    let query_lower_string = to_lowercase(query);
    let query_lower = to_chars(query_lower_string.as_str());
    let ghost q = lowercase(query@);
    let mut results: Vec<HomeManagerOption> = Vec::new();
    let mut names: Vec<Vec<char>> = Vec::new();
    let mut cursor: usize = 0;
    assert(option_views(results@) =~= Seq::<OptionText>::empty());
    assert(views(names@) =~= option_names(option_views(results@)));
    loop
        invariant
            n == cs@.len(),
            cs@ == html@,
            query_lower@ == q,
            q == lowercase(query@),
            cursor <= n,
            views(names@) == option_names(option_views(results@)),
            scan_options(cs@, q, limit as nat, cursor as int, option_views(results@)) == options_in(
                html@,
                query@,
                limit as nat,
            ),
        decreases n - cursor,
    {
        proof {
            reveal_strlit("\"");
            reveal_strlit("id=\"opt-");
        }
        let ghost found = option_views(results@);
        let anchor = match find_literal(cs.as_slice(), "id=\"opt-", cursor) {
            Some(a) => a,
            None => return results,
        };
        let name_start = anchor + 8;
        let name_end = match find_literal(cs.as_slice(), "\"", name_start) {
            Some(e) => e,
            None => return results,
        };
        proof {
            lemma_dd_block_at(cs@, name_end as int);
        }
        let raw = copy_range(cs.as_slice(), name_start, name_end);
        proof {
            reveal_strlit("_name_");
        }
        let name = replace_literal(raw.as_slice(), "_name_", "<name>");
        let name_string = from_chars(name.as_slice());
        let lower_string = to_lowercase(name_string.as_str());
        let lower = to_chars(lower_string.as_str());
        let hit = find_from_exec(lower.as_slice(), query_lower.as_slice(), 0);
        if hit.is_none() || contains_chars(&names, name.as_slice()) {
            cursor = name_end;
            continue;
        }
        let (entry, next) = match dd_block_bounds(cs.as_slice(), name_end) {
            Some((a, b, next)) => {
                let block_chars = copy_range(cs.as_slice(), a, b);
                let block = from_chars(block_chars.as_slice());
                (option_from_block(name_string, block.as_str()), next)
            },
            None => (empty_option(name_string), name_end),
        };
        let ghost before_names = names@;
        results.push(entry);
        names.push(name);
        assert(option_views(results@) =~= found.push(entry@));
        assert(views(names@) =~= views(before_names).push(name@));
        assert(option_names(option_views(results@)) =~= option_names(found).push(name@));
        if results.len() >= limit {
            return results;
        }
        cursor = next;
    }
}

/// Why a Home Manager option search was refused.
#[derive(PartialEq, Eq, Structural, Debug, Clone, Copy)]
pub enum HomeManagerSearchError {
    /// The query is empty once trimmed.
    EmptyQuery,
}

impl HomeManagerSearchError {
    /// The message reported for this error.
    pub fn message(&self) -> (r: String)
        ensures
            r@ == "query must not be empty"@,
    {
        "query must not be empty".to_owned()
    }
}

/// The query a search runs with: `query` trimmed, refused when nothing is left.
pub fn home_manager_query(query: &str) -> (r: Result<String, HomeManagerSearchError>)
    ensures
        match r {
            Ok(q) => q@ == trim(query@) && trim(query@).len() > 0,
            Err(e) => e == HomeManagerSearchError::EmptyQuery && trim(query@).len() == 0,
        },
{
    let q = trimmed_string(query);
    if q.as_str().is_empty() {
        Err(HomeManagerSearchError::EmptyQuery)
    } else {
        Ok(q)
    }
}

/// Searches the Home Manager manual page `page` for the options matching `query`
/// (trimmed, case-insensitive), at most `HOME_MANAGER_RESULTS_LIMIT` of them.
pub fn search_home_manager_options(page: &str, query: &str) -> (r: Result<
    Vec<HomeManagerOption>,
    HomeManagerSearchError,
>)
    ensures
        match r {
            Ok(options) => {
                &&& trim(query@).len() > 0
                &&& option_views(options@) == options_in(
                    page@,
                    trim(query@),
                    HOME_MANAGER_RESULTS_LIMIT as nat,
                )
            },
            Err(e) => e == HomeManagerSearchError::EmptyQuery && trim(query@).len() == 0,
        },
{
    let q = home_manager_query(query)?;
    Ok(parse_home_manager_options(page, q.as_str(), HOME_MANAGER_RESULTS_LIMIT))
}

// ---------------------------------------------------------------------------
// Laws
// ---------------------------------------------------------------------------

/// An entity starting with `&` does not occur in text without `&`.
proof fn lemma_no_amp_no_match(s: Seq<char>, entity: Seq<char>)
    requires
        forall|i: int| 0 <= i < s.len() ==> s[i] != '&',
        entity.len() > 0,
        entity[0] == '&',
    ensures
        forall|k: int| !matches_at(s, entity, k),
{
    assert forall|k: int| !matches_at(s, entity, k) by {
        if matches_at(s, entity, k) {
            assert(s[k + 0] == entity[0]);
        }
    }
}

/// Text without `&` holds no entity: decoding leaves it as it is.
pub proof fn law_decode_without_ampersand(s: Seq<char>)
    requires
        forall|i: int| 0 <= i < s.len() ==> s[i] != '&',
    ensures
        decode_entities(s) == s,
{
    reveal_strlit("&nbsp;");
    reveal_strlit("&lt;");
    reveal_strlit("&gt;");
    reveal_strlit("&amp;");
    reveal_strlit("&quot;");
    reveal_strlit("&#39;");
    reveal_strlit("&#x27;");
    lemma_no_amp_no_match(s, "&nbsp;"@);
    lemma_replace_absent(s, "&nbsp;"@, " "@);
    lemma_no_amp_no_match(s, "&lt;"@);
    lemma_replace_absent(s, "&lt;"@, "<"@);
    lemma_no_amp_no_match(s, "&gt;"@);
    lemma_replace_absent(s, "&gt;"@, ">"@);
    lemma_no_amp_no_match(s, "&amp;"@);
    lemma_replace_absent(s, "&amp;"@, "&"@);
    lemma_no_amp_no_match(s, "&quot;"@);
    lemma_replace_absent(s, "&quot;"@, "\""@);
    lemma_no_amp_no_match(s, "&#39;"@);
    lemma_replace_absent(s, "&#39;"@, "'"@);
    lemma_no_amp_no_match(s, "&#x27;"@);
    lemma_replace_absent(s, "&#x27;"@, "'"@);
}

/// The cleaned text of any markup is on one line: no whitespace but single spaces between
/// words, none at either end.
pub proof fn law_clean_text_single_spaced(s: Seq<char>)
    ensures
        single_spaced(clean_text(s)),
{
    lemma_collapse_single_spaced(decode_entities(strip_tags(s)));
}

/// Truncation keeps text of at most `max` characters as it is; longer text becomes its
/// first `max` characters followed by `...`, so never more than `max + 3` characters.
pub proof fn law_truncated(s: Seq<char>, max: nat)
    ensures
        truncated(s, max).len() <= max + 3,
        s.len() <= max ==> truncated(s, max) == s,
        s.len() > max ==> truncated(s, max).take(max as int) == s.take(max as int),
{
    reveal_strlit("...");
    if s.len() > max {
        assert(truncated(s, max).take(max as int) =~= s.take(max as int));
    }
}

/// A list with no empty and no repeated entries.
pub open spec fn distinct_non_empty(items: Seq<Seq<char>>) -> bool {
    &&& forall|i: int| 0 <= i < items.len() ==> #[trigger] items[i].len() > 0
    &&& forall|i: int, j: int| 0 <= i < j < items.len() ==> items[i] != items[j]
}

/// The link scan keeps its list free of empty and repeated entries.
proof fn lemma_links_from(section: Seq<char>, cursor: int, found: Seq<Seq<char>>)
    requires
        distinct_non_empty(found),
    ensures
        distinct_non_empty(links_from(section, cursor, found)),
    decreases section.len() - cursor,
{
    if cursor >= 0 {
        lemma_find_from(section, "href="@, cursor);
        if let Some(h) = find_from(section, "href="@, cursor) {
            let start = h + "href="@.len();
            if start < section.len() {
                if section[start] != '"' && section[start] != '\'' {
                    lemma_links_from(section, start + 1, found);
                } else {
                    lemma_find_from(section, seq![section[start]], start + 1);
                    if let Some(end) = find_from(section, seq![section[start]], start + 1) {
                        let url = decode_entities(section.subrange(start + 1, end));
                        if url.len() > 0 && !found.contains(url) {
                            let found2 = found.push(url);
                            assert forall|i: int, j: int| 0 <= i < j < found2.len() implies found2[i]
                                != found2[j] by {
                                if j == found.len() {
                                    assert(found.contains(found[i]));
                                }
                            }
                            lemma_links_from(section, end + 1, found2);
                        } else {
                            lemma_links_from(section, end + 1, found);
                        }
                    }
                }
            }
        }
    }
}

/// The links of a section are non-empty and never repeat.
pub proof fn law_links_distinct(section: Seq<char>)
    ensures
        distinct_non_empty(links(section)),
{
    lemma_links_from(section, 0, Seq::empty());
}

/// What every option of a search result satisfies: its lowercase name contains `query`, its
/// description has at most `HOME_MANAGER_DESCRIPTION_LIMIT + 3` characters, and no two
/// options share a name.
pub open spec fn well_formed_result(options: Seq<OptionText>, query: Seq<char>) -> bool {
    &&& forall|i: int|
        0 <= i < options.len() ==> contains(lowercase(#[trigger] options[i].name), query)
    &&& forall|i: int|
        0 <= i < options.len() ==> #[trigger] options[i].description.len()
            <= HOME_MANAGER_DESCRIPTION_LIMIT + 3
    &&& forall|i: int, j: int| 0 <= i < j < options.len() ==> options[i].name != options[j].name
}

/// An option entry keeps its name and bounds its description.
proof fn lemma_entry_description(name: Seq<char>, block: Option<Seq<char>>)
    ensures
        option_entry(name, block).description.len() <= HOME_MANAGER_DESCRIPTION_LIMIT + 3,
        option_entry(name, block).name == name,
{
    if let Some(b) = block {
        let d = description(b);
        if d.len() > 0 {
            law_truncated(trim(d), HOME_MANAGER_DESCRIPTION_LIMIT as nat);
        }
    }
}

/// The option scan keeps `well_formed_result` and its bound on the number of options.
proof fn lemma_scan_options(
    html: Seq<char>,
    query: Seq<char>,
    limit: nat,
    cursor: int,
    found: Seq<OptionText>,
)
    requires
        well_formed_result(found, query),
        found.len() < limit || found.len() == 0,
    ensures
        well_formed_result(scan_options(html, query, limit, cursor, found), query),
        scan_options(html, query, limit, cursor, found).len() <= limit
            || scan_options(html, query, limit, cursor, found).len() <= 1,
    decreases html.len() - cursor,
{
    reveal_strlit("\"");
    reveal_strlit("id=\"opt-");
    if cursor >= 0 {
        lemma_find_from(html, "id=\"opt-"@, cursor);
        if let Some(anchor) = find_from(html, "id=\"opt-"@, cursor) {
            let name_start = anchor + "id=\"opt-"@.len();
            lemma_find_from(html, "\""@, name_start);
            if let Some(name_end) = find_from(html, "\""@, name_start) {
                lemma_dd_block_at(html, name_end);
                let name = replace(html.subrange(name_start, name_end), "_name_"@, "<name>"@);
                if !contains(lowercase(name), query) || option_names(found).contains(name) {
                    lemma_scan_options(html, query, limit, name_end, found);
                } else {
                    let block = dd_block_at(html, name_end);
                    let entry = option_entry(
                        name,
                        match block {
                            Some((b, _)) => Some(b),
                            None => None,
                        },
                    );
                    lemma_entry_description(
                        name,
                        match block {
                            Some((b, _)) => Some(b),
                            None => None,
                        },
                    );
                    let found2 = found.push(entry);
                    assert forall|i: int, j: int| 0 <= i < j < found2.len() implies found2[i].name
                        != found2[j].name by {
                        if j == found.len() {
                            assert(option_names(found)[i] == found[i].name);
                        }
                    }
                    assert(well_formed_result(found2, query));
                    if found2.len() < limit {
                        match block {
                            Some((_, next)) => lemma_scan_options(html, query, limit, next, found2),
                            None => lemma_scan_options(html, query, limit, name_end, found2),
                        }
                    }
                }
            }
        }
    }
}

/// A search returns at most `limit` options (one when `limit` is 0), each named so that its
/// lowercase name contains the lowercase query, each description at most
/// `HOME_MANAGER_DESCRIPTION_LIMIT + 3` characters long, and no name twice.
pub proof fn law_options_in(html: Seq<char>, query: Seq<char>, limit: nat)
    ensures
        options_in(html, query, limit).len() <= limit || options_in(html, query, limit).len() <= 1,
        well_formed_result(options_in(html, query, limit), lowercase(query)),
{
    lemma_scan_options(html, lowercase(query), limit, 0, Seq::empty());
}

/// What a `<dd>` block found at character `c` is, counted in the UTF-8 bytes of `html` (the
/// offsets `extract_dd_block` takes and gives): the bytes of `</dd>` end at the next offset,
/// the block's bytes come just before them, the block holds no `</dd>`, and the bytes of a
/// `<dd` stand between the cursor and the block.
pub proof fn law_dd_block_bytes(html: Seq<char>, c: int)
    requires
        0 <= c <= html.len(),
    ensures
        dd_block_at(html, c) matches Some((block, next)) ==> {
            let bytes = encode_utf8(html);
            let cursor = byte_offset(html, c);
            let n = byte_offset(html, next);
            let b = encode_utf8(block);
            &&& cursor < n <= bytes.len()
            &&& bytes.subrange(n - 5, n) == encode_utf8("</dd>"@)
            &&& bytes.subrange(n - 5 - b.len(), n - 5) == b
            &&& !contains(block, "</dd>"@)
            &&& exists|d: int|
                #![trigger bytes.subrange(d, d + 3)]
                cursor <= d && d + 3 <= n - 5 - b.len() && bytes.subrange(d, d + 3) == encode_utf8(
                    "<dd"@,
                )
        },
{
    reveal_strlit("</dd>");
    reveal_strlit("<dd");
    law_dd_block(html, c);
    if let Some((block, next)) = dd_block_at(html, c) {
        let bytes = encode_utf8(html);
        let (start, d) = choose|start: int, d: int|
            #![trigger html.subrange(start, next - 5), matches_at(html, "<dd"@, d)]
            c <= d && d + 3 < start <= next - 5 && block == html.subrange(start, next - 5)
                && matches_at(html, "<dd"@, d);
        assert("</dd>"@ =~= seq!['<', '/', 'd', 'd', '>']);
        assert("<dd"@ =~= seq!['<', 'd', 'd']);
        assert(vstd::utf8::is_ascii_chars("</dd>"@)) by {
            assert forall|i: int| 0 <= i < 5 implies '\0' <= #[trigger] "</dd>"@[i] <= '\u{7f}' by {
                assert(i == 0 || i == 1 || i == 2 || i == 3 || i == 4);
            }
        }
        assert(vstd::utf8::is_ascii_chars("<dd"@)) by {
            assert forall|i: int| 0 <= i < 3 implies '\0' <= #[trigger] "<dd"@[i] <= '\u{7f}' by {
                assert(i == 0 || i == 1 || i == 2);
            }
        }
        lemma_encode_ascii("</dd>"@);
        lemma_encode_ascii("<dd"@);
        assert forall|k: int| 0 <= k < 5 implies #[trigger] html.subrange(next - 5, next)[k]
            == "</dd>"@[k] by {
            assert(html[(next - 5) + k] == "</dd>"@[k]);
        }
        assert(html.subrange(next - 5, next) =~= "</dd>"@);
        assert forall|k: int| 0 <= k < 3 implies #[trigger] html.subrange(d, d + 3)[k] == "<dd"@[k] by {
            assert(html[d + k] == "<dd"@[k]);
        }
        assert(html.subrange(d, d + 3) =~= "<dd"@);
        lemma_encode_subrange(html, next - 5, next);
        lemma_encode_subrange(html, start, next - 5);
        lemma_encode_subrange(html, d, d + 3);
        lemma_encode_subrange(html, next, html.len() as int);
        if c < d {
            lemma_byte_offset_monotonic(html, c, d);
        }
        lemma_byte_offset_monotonic(html, d + 3, start);
        lemma_byte_offset_monotonic(html, c, next);
        let bd = byte_offset(html, d);
        assert(bytes.subrange(bd, bd + 3) == encode_utf8("<dd"@));
    }
}

/// The content of the first `<dd>` block after position `at` of `html`, if there is one.
pub open spec fn block_after(html: Seq<char>, at: int) -> Option<Seq<char>> {
    match dd_block_at(html, at) {
        Some((b, _)) => Some(b),
        None => None,
    }
}

/// The option that an anchor `id="opt-NAME"` at position `p` of `html` stands for: NAME runs
/// up to the next `"`, `_name_` in it stands for `<name>`, and the other fields come from the
/// first `<dd>` block after NAME. `None` where no anchor starts at `p` or no `"` ends it.
pub open spec fn option_at_anchor(html: Seq<char>, p: int) -> Option<OptionText> {
    if matches_at(html, "id=\"opt-"@, p) {
        let start = p + "id=\"opt-"@.len();
        match find_from(html, "\""@, start) {
            Some(end) => Some(
                option_entry(
                    replace(html.subrange(start, end), "_name_"@, "<name>"@),
                    block_after(html, end),
                ),
            ),
            None => None,
        }
    } else {
        None
    }
}

/// `anchors` are positions of `html`, in increasing order, whose anchors stand for `options`
/// one for one.
pub open spec fn anchored_in_order(
    html: Seq<char>,
    options: Seq<OptionText>,
    anchors: Seq<int>,
) -> bool {
    &&& anchors.len() == options.len()
    &&& forall|k: int|
        0 <= k < anchors.len() ==> option_at_anchor(html, #[trigger] anchors[k]) == Some(
            options[k],
        )
    &&& forall|i: int, j: int| 0 <= i < j < anchors.len() ==> anchors[i] < anchors[j]
}

/// The option scan only adds options that anchors after `cursor` stand for, in page order.
proof fn lemma_scan_anchors(
    html: Seq<char>,
    query: Seq<char>,
    limit: nat,
    cursor: int,
    found: Seq<OptionText>,
    anchors: Seq<int>,
) -> (r: Seq<int>)
    requires
        0 <= cursor,
        anchored_in_order(html, found, anchors),
        forall|k: int| 0 <= k < anchors.len() ==> #[trigger] anchors[k] < cursor,
    ensures
        anchored_in_order(html, scan_options(html, query, limit, cursor, found), r),
    decreases html.len() - cursor,
{
    reveal_strlit("\"");
    reveal_strlit("id=\"opt-");
    lemma_find_from(html, "id=\"opt-"@, cursor);
    match find_from(html, "id=\"opt-"@, cursor) {
        None => anchors,
        Some(anchor) => {
            let name_start = anchor + "id=\"opt-"@.len();
            lemma_find_from(html, "\""@, name_start);
            match find_from(html, "\""@, name_start) {
                None => anchors,
                Some(name_end) => {
                    lemma_dd_block_at(html, name_end);
                    let name = replace(html.subrange(name_start, name_end), "_name_"@, "<name>"@);
                    if !contains(lowercase(name), query) || option_names(found).contains(name) {
                        lemma_scan_anchors(html, query, limit, name_end, found, anchors)
                    } else {
                        let block = dd_block_at(html, name_end);
                        let entry = option_entry(name, block_after(html, name_end));
                        let found2 = found.push(entry);
                        let anchors2 = anchors.push(anchor);
                        assert(option_at_anchor(html, anchor) == Some(entry));
                        assert(anchored_in_order(html, found2, anchors2)) by {
                            assert forall|k: int| 0 <= k < anchors2.len() implies option_at_anchor(
                                html,
                                #[trigger] anchors2[k],
                            ) == Some(found2[k]) by {
                                if k < anchors.len() {
                                    assert(anchors2[k] == anchors[k]);
                                }
                            }
                            assert forall|i: int, j: int| 0 <= i < j < anchors2.len() implies anchors2[i]
                                < anchors2[j] by {
                                if j == anchors.len() {
                                    assert(anchors[i] < cursor);
                                }
                            }
                        }
                        if found2.len() >= limit {
                            anchors2
                        } else {
                            match block {
                                Some((_, next)) => lemma_scan_anchors(
                                    html,
                                    query,
                                    limit,
                                    next,
                                    found2,
                                    anchors2,
                                ),
                                None => lemma_scan_anchors(
                                    html,
                                    query,
                                    limit,
                                    name_end,
                                    found2,
                                    anchors2,
                                ),
                            }
                        }
                    }
                },
            }
        },
    }
}

/// Every option of a search result stands for an anchor `id="opt-NAME"` of the page: its name
/// is NAME (up to the next `"`) with `_name_` read as `<name>`, and its other fields come
/// from the first `<dd>` block after NAME. The anchors of the options come in page order.
pub proof fn law_options_from_anchors(html: Seq<char>, query: Seq<char>, limit: nat)
    ensures
        exists|anchors: Seq<int>| anchored_in_order(html, options_in(html, query, limit), anchors),
{
    let anchors = lemma_scan_anchors(html, lowercase(query), limit, 0, Seq::empty(), Seq::empty());
    assert(anchored_in_order(html, options_in(html, query, limit), anchors));
}

/// Every option of a search result has its fields as shown: trimmed, and a description cut
/// at `HOME_MANAGER_DESCRIPTION_LIMIT` characters ends in `...`.
pub proof fn law_result_fields_shown(html: Seq<char>, query: Seq<char>, limit: nat)
    ensures
        forall|i: int|
            0 <= i < options_in(html, query, limit).len() ==> option_fields_shown(
                #[trigger] options_in(html, query, limit)[i],
            ),
{
    law_options_from_anchors(html, query, limit);
    let r = options_in(html, query, limit);
    let anchors = choose|a: Seq<int>| anchored_in_order(html, r, a);
    assert forall|i: int| 0 <= i < r.len() implies option_fields_shown(#[trigger] r[i]) by {
        let p = anchors[i];
        assert(option_at_anchor(html, p) == Some(r[i]));
        let start = p + "id=\"opt-"@.len();
        let end = find_from(html, "\""@, start)->Some_0;
        law_option_entry_fields(
            replace(html.subrange(start, end), "_name_"@, "<name>"@),
            block_after(html, end),
        );
    }
}

/// A Home Manager search never returns more than `HOME_MANAGER_RESULTS_LIMIT` options.
pub proof fn law_search_limit(page: Seq<char>, query: Seq<char>)
    ensures
        options_in(page, trim(query), HOME_MANAGER_RESULTS_LIMIT as nat).len()
            <= HOME_MANAGER_RESULTS_LIMIT,
{
    law_options_in(page, trim(query), HOME_MANAGER_RESULTS_LIMIT as nat);
}

/// A section's value is already trimmed: it neither starts nor ends with whitespace, so
/// trimming it again changes nothing.
pub proof fn law_section_value_trimmed(dd: Seq<char>, label: Seq<char>, markers: Seq<Seq<char>>)
    ensures
        trim(section_value(dd, label, markers)) == section_value(dd, label, markers),
{
    let text = clean_text(dd);
    if let Some(i) = find_from(text, label, 0) {
        let rest = trim_start(text.subrange(i + label.len(), text.len() as int));
        lemma_trim_trimmed(rest.take(stop_index(rest, markers)));
    } else {
        assert(trim(Seq::<char>::empty()) == Seq::<char>::empty());
    }
}

/// Decoding entities never makes text longer, in characters or in UTF-8 bytes: each entity
/// becomes one ASCII character.
pub proof fn law_decode_not_longer(s: Seq<char>)
    ensures
        decode_entities(s).len() <= s.len(),
        encode_utf8(decode_entities(s)).len() <= encode_utf8(s).len(),
{
    reveal_strlit("&nbsp;");
    reveal_strlit("&lt;");
    reveal_strlit("&gt;");
    reveal_strlit("&amp;");
    reveal_strlit("&quot;");
    reveal_strlit("&#39;");
    reveal_strlit("&#x27;");
    reveal_strlit(" ");
    reveal_strlit("<");
    reveal_strlit(">");
    reveal_strlit("&");
    reveal_strlit("\"");
    reveal_strlit("'");
    let s1 = replace(s, "&nbsp;"@, " "@);
    let s2 = replace(s1, "&lt;"@, "<"@);
    let s3 = replace(s2, "&gt;"@, ">"@);
    let s4 = replace(s3, "&amp;"@, "&"@);
    let s5 = replace(s4, "&quot;"@, "\""@);
    let s6 = replace(s5, "&#39;"@, "'"@);
    lemma_replace_not_longer(s, "&nbsp;"@, " "@);
    lemma_replace_not_longer(s1, "&lt;"@, "<"@);
    lemma_replace_not_longer(s2, "&gt;"@, ">"@);
    lemma_replace_not_longer(s3, "&amp;"@, "&"@);
    lemma_replace_not_longer(s4, "&quot;"@, "\""@);
    lemma_replace_not_longer(s5, "&#39;"@, "'"@);
    lemma_replace_not_longer(s6, "&#x27;"@, "'"@);
    assert(vstd::utf8::is_ascii_chars(" "@));
    assert(vstd::utf8::is_ascii_chars("<"@));
    assert(vstd::utf8::is_ascii_chars(">"@));
    assert(vstd::utf8::is_ascii_chars("&"@));
    assert(vstd::utf8::is_ascii_chars("\""@));
    assert(vstd::utf8::is_ascii_chars("'"@));
    lemma_replace_fewer_bytes(s, "&nbsp;"@, " "@);
    lemma_replace_fewer_bytes(s1, "&lt;"@, "<"@);
    lemma_replace_fewer_bytes(s2, "&gt;"@, ">"@);
    lemma_replace_fewer_bytes(s3, "&amp;"@, "&"@);
    lemma_replace_fewer_bytes(s4, "&quot;"@, "\""@);
    lemma_replace_fewer_bytes(s5, "&#39;"@, "'"@);
    lemma_replace_fewer_bytes(s6, "&#x27;"@, "'"@);
}

/// The fields of a listed option are as shown: type, default and declarations are trimmed;
/// the description is trimmed too, and one longer than `HOME_MANAGER_DESCRIPTION_LIMIT`
/// characters was cut and ends in `...`.
pub open spec fn option_fields_shown(o: OptionText) -> bool {
    &&& trim(o.description) == o.description
    &&& trim(o.type_info) == o.type_info
    &&& trim(o.default_value) == o.default_value
    &&& trim(o.declared_by) == o.declared_by
    &&& o.description.len() > HOME_MANAGER_DESCRIPTION_LIMIT ==> o.description.skip(
        o.description.len() - 3,
    ) == "..."@
}

/// Every option entry has its fields as shown.
pub proof fn law_option_entry_fields(name: Seq<char>, block: Option<Seq<char>>)
    ensures
        option_fields_shown(option_entry(name, block)),
{
    reveal_strlit("...");
    if let Some(b) = block {
        lemma_trim_trimmed(type_info(b));
        lemma_trim_trimmed(default_value(b));
        lemma_trim_trimmed(declared_by(b));
        let d = description(b);
        if d.len() > 0 {
            let td = trim(d);
            lemma_trim_trimmed(d);
            if td.len() > HOME_MANAGER_DESCRIPTION_LIMIT {
                let cut = td.take(HOME_MANAGER_DESCRIPTION_LIMIT as int) + "..."@;
                assert(cut[0] == td[0]);
                assert(cut.last() == '.');
                lemma_trim_of_trimmed_ends(cut);
                assert(cut.skip(cut.len() - 3) =~= "..."@);
            }
        } else {
            assert(trim(d) =~= d) by {
                lemma_trim_of_trimmed_ends(d);
            }
        }
    } else {
        lemma_trim_of_trimmed_ends(Seq::<char>::empty());
    }
}

/// What a `<dd>` block found at `cursor` is: the text just before a `</dd>` that ends at the
/// next position, holding no `</dd>` itself, and preceded by a `<dd` at or after `cursor`.
pub proof fn law_dd_block(html: Seq<char>, cursor: int)
    requires
        0 <= cursor,
    ensures
        dd_block_at(html, cursor) matches Some((block, next)) ==> {
            &&& cursor < next <= html.len()
            &&& matches_at(html, "</dd>"@, next - 5)
            &&& exists|start: int, d: int|
                #![trigger html.subrange(start, next - 5), matches_at(html, "<dd"@, d)]
                cursor <= d && d + 3 < start <= next - 5 && block == html.subrange(start, next - 5)
                    && matches_at(html, "<dd"@, d)
            &&& !contains(block, "</dd>"@)
        },
{
    reveal_strlit("</dd>");
    reveal_strlit("<dd");
    reveal_strlit(">");
    lemma_dd_block_at(html, cursor);
    lemma_find_from(html, "<dd"@, cursor);
    if let Some(dd_start) = find_from(html, "<dd"@, cursor) {
        lemma_find_from(html, ">"@, dd_start);
        if let Some(tag_end) = find_from(html, ">"@, dd_start) {
            lemma_find_from(html, "</dd>"@, tag_end + 1);
            if let Some(dd_end) = find_from(html, "</dd>"@, tag_end + 1) {
                let block = html.subrange(tag_end + 1, dd_end);
                let start = tag_end + 1;
                assert(matches_at(html, "<dd"@, dd_start));
                assert(tag_end >= dd_start + 3) by {
                    if tag_end < dd_start + 3 {
                        assert(html[dd_start + (tag_end - dd_start)] == "<dd"@[tag_end - dd_start]);
                        assert(html[tag_end + 0] == ">"@[0]);
                    }
                }
                assert(cursor <= dd_start < start);
                assert(dd_block_at(html, cursor) == Some((block, dd_end + 5)));
                assert(block == html.subrange(start, dd_end + 5 - 5));
                assert(matches_at(html, "</dd>"@, dd_end + 5 - 5));
                lemma_find_from(block, "</dd>"@, 0);
                if let Some(k) = find_from(block, "</dd>"@, 0) {
                    assert forall|j: int| 0 <= j < 5 implies #[trigger] html[start + k + j]
                        == "</dd>"@[j] by {
                        assert(block[k + j] == "</dd>"@[j]);
                    }
                    assert(matches_at(html, "</dd>"@, start + k));
                    assert(false);
                }
            }
        }
    }
}

/// `link` is the text between the quotes that follow the `href=` at position `h` of
/// `section`, entities decoded.
pub open spec fn link_at(section: Seq<char>, link: Seq<char>, h: int) -> bool {
    &&& matches_at(section, "href="@, h)
    &&& h + 5 < section.len()
    &&& (section[h + 5] == '"' || section[h + 5] == '\'')
    &&& match find_from(section, seq![section[h + 5]], h + 6) {
        Some(end) => link == decode_entities(section.subrange(h + 6, end)),
        None => false,
    }
}

/// Each of `list` is the decoded text of a quoted `href` of `section`.
pub open spec fn all_from_hrefs(section: Seq<char>, list: Seq<Seq<char>>) -> bool {
    forall|i: int| 0 <= i < list.len() ==> #[trigger] from_some_href(section, list[i])
}

/// `link` is the decoded text of some quoted `href` of `section`.
pub open spec fn from_some_href(section: Seq<char>, link: Seq<char>) -> bool {
    exists|h: int| link_at(section, link, h)
}

/// The link scan only adds links taken from quoted `href`s.
proof fn lemma_links_origin(section: Seq<char>, cursor: int, found: Seq<Seq<char>>)
    requires
        all_from_hrefs(section, found),
    ensures
        all_from_hrefs(section, links_from(section, cursor, found)),
    decreases section.len() - cursor,
{
    reveal_strlit("href=");
    if cursor >= 0 {
        lemma_find_from(section, "href="@, cursor);
        if let Some(h) = find_from(section, "href="@, cursor) {
            let start = h + "href="@.len();
            if start < section.len() {
                if section[start] != '"' && section[start] != '\'' {
                    lemma_links_origin(section, start + 1, found);
                } else {
                    lemma_find_from(section, seq![section[start]], start + 1);
                    if let Some(end) = find_from(section, seq![section[start]], start + 1) {
                        let url = decode_entities(section.subrange(start + 1, end));
                        if url.len() > 0 && !found.contains(url) {
                            let found2 = found.push(url);
                            assert(link_at(section, url, h));
                            assert(from_some_href(section, url));
                            assert forall|i: int| 0 <= i < found2.len() implies #[trigger] from_some_href(
                                section,
                                found2[i],
                            ) by {
                                if i < found.len() {
                                    assert(found2[i] == found[i]);
                                } else {
                                    assert(found2[i] == url);
                                }
                            }
                            assert(all_from_hrefs(section, found2));
                            lemma_links_origin(section, end + 1, found2);
                        } else {
                            lemma_links_origin(section, end + 1, found);
                        }
                    }
                }
            }
        }
    }
}

/// Every link of a section is the decoded text between the quotes of one of its `href`s.
pub proof fn law_links_from_hrefs(section: Seq<char>)
    ensures
        all_from_hrefs(section, links(section)),
{
    lemma_links_origin(section, 0, Seq::empty());
}

/// The stop index is within `s`, comes no later than the first occurrence of any marker,
/// and is either the end of `s` or the first occurrence of one of them.
proof fn lemma_stop_index(s: Seq<char>, markers: Seq<Seq<char>>)
    ensures
        0 <= stop_index(s, markers) <= s.len(),
        forall|k: int|
            0 <= k < markers.len() ==> (#[trigger] find_from(s, markers[k], 0) matches Some(j)
                ==> stop_index(s, markers) <= j),
        stop_index(s, markers) == s.len() || exists|k: int|
            0 <= k < markers.len() && #[trigger] find_from(s, markers[k], 0) == Some(
                stop_index(s, markers),
            ),
    decreases markers.len(),
{
    if markers.len() > 0 {
        let earlier = markers.drop_last();
        lemma_stop_index(s, earlier);
        let m = markers.last();
        lemma_find_from(s, m, 0);
        assert forall|k: int|
            0 <= k < markers.len() implies (#[trigger] find_from(s, markers[k], 0) matches Some(j)
                ==> stop_index(s, markers) <= j) by {
            if k < earlier.len() {
                assert(markers[k] == earlier[k]);
            }
        }
        if stop_index(s, markers) != s.len() {
            if stop_index(s, markers) == stop_index(s, earlier) {
                let k = choose|k: int|
                    0 <= k < earlier.len() && #[trigger] find_from(s, earlier[k], 0) == Some(
                        stop_index(s, earlier),
                    );
                assert(markers[k] == earlier[k]);
            } else {
                assert(find_from(s, markers[markers.len() - 1], 0) == Some(stop_index(s, markers)));
            }
        }
    }
}

/// Text cut at the stop index holds no complete non-empty marker.
proof fn lemma_no_marker_before_stop(s: Seq<char>, markers: Seq<Seq<char>>, k: int)
    requires
        0 <= k < markers.len(),
        markers[k].len() > 0,
    ensures
        forall|p: int| !matches_at(s.take(stop_index(s, markers)), markers[k], p),
{
    lemma_stop_index(s, markers);
    let m = markers[k];
    let stop = stop_index(s, markers);
    assert forall|p: int| !matches_at(s.take(stop), m, p) by {
        if matches_at(s.take(stop), m, p) {
            assert forall|q: int| 0 <= q < m.len() implies #[trigger] s[p + q] == m[q] by {
                assert(s.take(stop)[p + q] == m[q]);
            }
            assert(matches_at(s, m, p));
            lemma_find_from(s, m, 0);
            assert(find_from(s, markers[k], 0) is Some);
        }
    }
}

/// A text with no occurrence of `m` in it does not contain `m`, nor does any piece of it.
proof fn lemma_no_match_in_piece(x: Seq<char>, m: Seq<char>, a: int, b: int)
    requires
        0 <= a <= b <= x.len(),
        forall|p: int| !matches_at(x, m, p),
    ensures
        !contains(x.subrange(a, b), m),
{
    let t = x.subrange(a, b);
    lemma_find_from(t, m, 0);
    if let Some(p) = find_from(t, m, 0) {
        assert forall|q: int| 0 <= q < m.len() implies #[trigger] x[a + p + q] == m[q] by {
            assert(t[p + q] == m[q]);
        }
        assert(matches_at(x, m, a + p));
    }
}

/// The section after a label ends at the first stop marker: it is found exactly when the label
/// occurs; it is the start of the text after the label; it holds no (non-empty) stop marker;
/// and it runs to the end of the text or up to where a stop marker starts.
pub proof fn law_section_html(input: Seq<char>, label: Seq<char>, markers: Seq<Seq<char>>)
    requires
        forall|k: int| 0 <= k < markers.len() ==> #[trigger] markers[k].len() > 0,
    ensures
        section_html(input, label, markers) is Some <==> contains(input, label),
        section_html(input, label, markers) matches Some(section) ==> {
            let i = find_from(input, label, 0)->0;
            let rest = input.subrange(i + label.len(), input.len() as int);
            &&& section == rest.take(section.len() as int)
            &&& forall|k: int| 0 <= k < markers.len() ==> !contains(section, #[trigger] markers[k])
            &&& section.len() == rest.len() || exists|k: int|
                0 <= k < markers.len() && matches_at(rest, #[trigger] markers[k], section.len() as int)
        },
{
    lemma_find_from(input, label, 0);
    if let Some(i) = find_from(input, label, 0) {
        let rest = input.subrange(i + label.len(), input.len() as int);
        lemma_stop_index(rest, markers);
        let stop = stop_index(rest, markers);
        let section = rest.take(stop);
        assert forall|k: int| 0 <= k < markers.len() implies !contains(section, #[trigger] markers[k]) by {
            lemma_no_marker_before_stop(rest, markers, k);
            lemma_no_match_in_piece(section, markers[k], 0, section.len() as int);
            assert(section.subrange(0, section.len() as int) =~= section);
        }
        if stop != rest.len() {
            let k = choose|k: int|
                0 <= k < markers.len() && #[trigger] find_from(rest, markers[k], 0) == Some(stop);
            lemma_find_from(rest, markers[k], 0);
        }
    }
}

/// A section's value holds no (non-empty) stop marker, is empty when the label does not occur
/// in the cleaned text, and otherwise is a piece of the cleaned text.
pub proof fn law_section_value(dd: Seq<char>, label: Seq<char>, markers: Seq<Seq<char>>)
    requires
        forall|k: int| 0 <= k < markers.len() ==> #[trigger] markers[k].len() > 0,
    ensures
        forall|k: int|
            0 <= k < markers.len() ==> !contains(section_value(dd, label, markers), #[trigger] markers[k]),
        !contains(clean_text(dd), label) ==> section_value(dd, label, markers).len() == 0,
        section_value(dd, label, markers).len() > 0 ==> contains(
            clean_text(dd),
            section_value(dd, label, markers),
        ),
{
    let text = clean_text(dd);
    let v = section_value(dd, label, markers);
    lemma_find_from(text, label, 0);
    if let Some(i) = find_from(text, label, 0) {
        let after = text.subrange(i + label.len(), text.len() as int);
        lemma_trim_start(after);
        let rest = trim_start(after);
        let k0 = after.len() - rest.len();
        lemma_stop_index(rest, markers);
        let stop = stop_index(rest, markers);
        let cut = rest.take(stop);
        lemma_trim_is_subrange(cut);
        let (a, b) = choose|a: int, b: int| 0 <= a <= b <= cut.len() && trim(cut) == cut.subrange(a, b);
        assert(v == cut.subrange(a, b));
        assert forall|k: int|
            0 <= k < markers.len() implies !contains(v, #[trigger] markers[k]) by {
            lemma_no_marker_before_stop(rest, markers, k);
            lemma_no_match_in_piece(cut, markers[k], a, b);
        }
        if v.len() > 0 {
            let p = i + label.len() + k0 + a;
            assert forall|q: int| 0 <= q < v.len() implies #[trigger] text[p + q] == v[q] by {
                assert(v[q] == cut[a + q]);
                assert(cut[a + q] == rest[a + q]);
                assert(rest[a + q] == after[k0 + a + q]);
            }
            assert(matches_at(text, v, p));
            lemma_found_if_matches(text, v, p);
        }
    } else {
        assert(v =~= Seq::<char>::empty());
    }
}

// ---------------------------------------------------------------------------
// Pages built from option blocks
// ---------------------------------------------------------------------------

/// The markup of one option: `<dt id="opt-NAME">TERM</dt><dd>BODY</dd>`.
pub open spec fn block_markup(name: Seq<char>, term: Seq<char>, body: Seq<char>) -> Seq<char> {
    "<dt id=\"opt-"@ + name + "\">"@ + term + "</dt><dd>"@ + body + "</dd>"@
}

/// An option block that reads back as written: no `"` in its name, no anchor and no `<dd` in
/// its term, no anchor and no `</dd>` in its body.
pub open spec fn plain_block(block: (Seq<char>, Seq<char>, Seq<char>)) -> bool {
    &&& !block.0.contains('"')
    &&& !contains(block.1, "id=\"opt-"@)
    &&& !contains(block.1, "<dd"@)
    &&& !contains(block.2, "id=\"opt-"@)
    &&& !contains(block.2, "</dd>"@)
}

/// Where the pieces of a block stand in a page that holds it after `before`.
#[verifier::spinoff_prover]
#[verifier::rlimit(40)]
proof fn lemma_block_layout(
    before: Seq<char>,
    name: Seq<char>,
    term: Seq<char>,
    body: Seq<char>,
    after: Seq<char>,
)
    ensures
        ({
            let html = before + block_markup(name, term, body) + after;
            let o = before.len() as int;
            let b0 = o + 12 + name.len();
            let c0 = b0 + 2 + term.len();
            let e0 = c0 + 9 + body.len();
            &&& block_markup(name, term, body).len() == e0 + 5 - o
            &&& html.len() >= e0 + 5
            &&& html.subrange(o, o + 12) == "<dt id=\"opt-"@
            &&& html.subrange(o + 12, b0) == name
            &&& html.subrange(b0, b0 + 2) == "\">"@
            &&& html.subrange(b0 + 2, c0) == term
            &&& html.subrange(c0, c0 + 9) == "</dt><dd>"@
            &&& html.subrange(c0 + 9, e0) == body
            &&& html.subrange(e0, e0 + 5) == "</dd>"@
        }),
{
    reveal_strlit("<dt id=\"opt-");
    reveal_strlit("\">");
    reveal_strlit("</dt><dd>");
    reveal_strlit("</dd>");
    let html = before + block_markup(name, term, body) + after;
    let o = before.len() as int;
    let b0 = o + 12 + name.len();
    let c0 = b0 + 2 + term.len();
    let e0 = c0 + 9 + body.len();
    assert(html.subrange(o, o + 12) =~= "<dt id=\"opt-"@);
    assert(html.subrange(o + 12, b0) =~= name);
    assert(html.subrange(b0, b0 + 2) =~= "\">"@);
    assert(html.subrange(b0 + 2, c0) =~= term);
    assert(html.subrange(c0, c0 + 9) =~= "</dt><dd>"@);
    assert(html.subrange(c0 + 9, e0) =~= body);
    assert(html.subrange(e0, e0 + 5) =~= "</dd>"@);
}

/// A block's anchor is found where the block starts, four characters in.
proof fn lemma_block_anchor(html: Seq<char>, o: int)
    requires
        0 <= o,
        o + 12 <= html.len(),
        html.subrange(o, o + 12) == "<dt id=\"opt-"@,
    ensures
        find_from(html, "id=\"opt-"@, o) == Some(o + 4),
{
    reveal_strlit("<dt id=\"opt-");
    reveal_strlit("id=\"opt-");
    let ap = "id=\"opt-"@;
    assert forall|j: int| o <= j < o + 4 implies !matches_at(html, ap, j) by {
        assert(html[j] == html.subrange(o, o + 12)[j - o]);
        if matches_at(html, ap, j) {
            assert(html[j + 0] == ap[0]);
        }
    }
    assert forall|q: int| 0 <= q < ap.len() implies #[trigger] html[o + 4 + q] == ap[q] by {
        assert(html[o + 4 + q] == html.subrange(o, o + 12)[4 + q]);
    }
    lemma_find_at(html, ap, o, o + 4);
}

/// A block's name runs up to the `"` after it.
proof fn lemma_block_name(html: Seq<char>, n0: int, b0: int, name: Seq<char>)
    requires
        0 <= n0 <= b0,
        b0 + 2 <= html.len(),
        html.subrange(n0, b0) == name,
        html.subrange(b0, b0 + 2) == "\">"@,
        !name.contains('"'),
    ensures
        find_from(html, "\""@, n0) == Some(b0),
{
    reveal_strlit("\">");
    reveal_strlit("\"");
    let qp = "\""@;
    assert forall|j: int| n0 <= j < b0 implies !matches_at(html, qp, j) by {
        assert(html[j] == html.subrange(n0, b0)[j - n0]);
        if matches_at(html, qp, j) {
            assert(html[j + 0] == qp[0]);
            assert(name[j - n0] == '"');
        }
    }
    assert(html[b0] == html.subrange(b0, b0 + 2)[0]);
    assert(matches_at(html, qp, b0)) by {
        assert(html[b0 + 0] == qp[0]);
    }
    lemma_find_at(html, qp, n0, b0);
}

/// After a block's name, the next `<dd>` block is the block's own body.
#[verifier::spinoff_prover]
#[verifier::rlimit(40)]
proof fn lemma_block_body(html: Seq<char>, b0: int, c0: int, e0: int, term: Seq<char>, body: Seq<char>)
    requires
        0 <= b0,
        b0 + 2 <= c0,
        c0 + 9 <= e0,
        e0 + 5 <= html.len(),
        html.subrange(b0, b0 + 2) == "\">"@,
        html.subrange(b0 + 2, c0) == term,
        html.subrange(c0, c0 + 9) == "</dt><dd>"@,
        html.subrange(c0 + 9, e0) == body,
        html.subrange(e0, e0 + 5) == "</dd>"@,
        !contains(term, "<dd"@),
        !contains(body, "</dd>"@),
    ensures
        dd_block_at(html, b0) == Some((body, e0 + 5)),
{
    reveal_strlit("\">");
    reveal_strlit("</dt><dd>");
    reveal_strlit("</dd>");
    reveal_strlit("<dd");
    reveal_strlit(">");
    let dp = "<dd"@;
    let gp = ">"@;
    let ep = "</dd>"@;
    assert forall|q: int| 0 <= q < 9 implies #[trigger] html[c0 + q] == "</dt><dd>"@[q] by {
        assert(html[c0 + q] == html.subrange(c0, c0 + 9)[q]);
    }
    assert forall|q: int| 0 <= q < 5 implies #[trigger] html[e0 + q] == "</dd>"@[q] by {
        assert(html[e0 + q] == html.subrange(e0, e0 + 5)[q]);
    }
    assert(html[b0] == html.subrange(b0, b0 + 2)[0]);
    assert(html[b0 + 1] == html.subrange(b0, b0 + 2)[1]);
    assert(html[c0] == html.subrange(c0, c0 + 9)[0]);
    assert(html[e0] == html.subrange(e0, e0 + 5)[0]);
    lemma_no_match_up_to(html, dp, b0 + 2, c0);
    assert forall|j: int| b0 <= j < c0 + 5 implies !matches_at(html, dp, j) by {
        if matches_at(html, dp, j) {
            assert(html[j + 0] == dp[0]);
            if c0 <= j {
                assert(html[c0 + (j - c0)] == "</dt><dd>"@[j - c0]);
                assert(html[c0 + 1] == "</dt><dd>"@[1]);
                assert(html[j + 1] == dp[1]);
            }
        }
    }
    assert forall|q: int| 0 <= q < 3 implies #[trigger] html[c0 + 5 + q] == dp[q] by {
        assert(html[c0 + (5 + q)] == "</dt><dd>"@[5 + q]);
    }
    assert(matches_at(html, dp, c0 + 5));
    lemma_find_at(html, dp, b0, c0 + 5);
    assert forall|j: int| c0 + 5 <= j < c0 + 8 implies !matches_at(html, gp, j) by {
        if matches_at(html, gp, j) {
            assert(html[j + 0] == gp[0]);
            assert(html[c0 + (j - c0)] == "</dt><dd>"@[j - c0]);
        }
    }
    assert(html[c0 + 8] == "</dt><dd>"@[8]);
    assert(matches_at(html, gp, c0 + 8)) by {
        assert(html[c0 + 8 + 0] == gp[0]);
    }
    lemma_find_at(html, gp, c0 + 5, c0 + 8);
    lemma_no_match_up_to(html, ep, c0 + 9, e0);
    assert(matches_at(html, ep, e0));
    lemma_find_at(html, ep, c0 + 9, e0);
}

/// No anchor starts between a block's name and its end.
#[verifier::spinoff_prover]
#[verifier::rlimit(40)]
proof fn lemma_block_no_anchor(html: Seq<char>, b0: int, c0: int, e0: int, term: Seq<char>, body: Seq<char>)
    requires
        0 <= b0,
        b0 + 2 <= c0,
        c0 + 9 <= e0,
        e0 + 5 <= html.len(),
        html.subrange(b0, b0 + 2) == "\">"@,
        html.subrange(b0 + 2, c0) == term,
        html.subrange(c0, c0 + 9) == "</dt><dd>"@,
        html.subrange(c0 + 9, e0) == body,
        html.subrange(e0, e0 + 5) == "</dd>"@,
        !contains(term, "id=\"opt-"@),
        !contains(body, "id=\"opt-"@),
    ensures
        find_from(html, "id=\"opt-"@, b0) == find_from(html, "id=\"opt-"@, e0 + 5),
{
    reveal_strlit("\">");
    reveal_strlit("</dt><dd>");
    reveal_strlit("</dd>");
    reveal_strlit("id=\"opt-");
    let ap = "id=\"opt-"@;
    assert forall|q: int| 0 <= q < 9 implies #[trigger] html[c0 + q] == "</dt><dd>"@[q] by {
        assert(html[c0 + q] == html.subrange(c0, c0 + 9)[q]);
    }
    assert forall|q: int| 0 <= q < 5 implies #[trigger] html[e0 + q] == "</dd>"@[q] by {
        assert(html[e0 + q] == html.subrange(e0, e0 + 5)[q]);
    }
    assert(html[b0] == html.subrange(b0, b0 + 2)[0]);
    assert(html[b0 + 1] == html.subrange(b0, b0 + 2)[1]);
    assert(html[c0] == html.subrange(c0, c0 + 9)[0]);
    assert(html[e0] == html.subrange(e0, e0 + 5)[0]);
    lemma_no_match_up_to(html, ap, b0 + 2, c0);
    lemma_no_match_up_to(html, ap, c0 + 9, e0);
    assert forall|j: int| b0 <= j < e0 + 5 implies !matches_at(html, ap, j) by {
        if matches_at(html, ap, j) {
            assert(html[j + 0] == ap[0]);
            if c0 <= j < c0 + 9 {
                assert(html[c0 + (j - c0)] == "</dt><dd>"@[j - c0]);
            }
            if e0 <= j {
                assert(html[e0 + (j - e0)] == "</dd>"@[j - e0]);
            }
        }
    }
    lemma_find_across_gap(html, ap, b0, e0 + 5);
}

/// The page made of option blocks, one after the other.
pub open spec fn blocks_page(blocks: Seq<(Seq<char>, Seq<char>, Seq<char>)>) -> Seq<char>
    decreases blocks.len(),
{
    if blocks.len() == 0 {
        Seq::empty()
    } else {
        let last = blocks.last();
        blocks_page(blocks.drop_last()) + block_markup(last.0, last.1, last.2)
    }
}

/// The options that blocks `k..` of a page stand for, after those in `found`: in page order,
/// each block whose name (with `_name_` read as `<name>`) contains `query` in lowercase and is
/// not the name of an option already kept, with the fields read from its own body.
pub open spec fn kept_blocks(
    blocks: Seq<(Seq<char>, Seq<char>, Seq<char>)>,
    query: Seq<char>,
    k: int,
    found: Seq<OptionText>,
) -> Seq<OptionText>
    decreases blocks.len() - k,
{
    if k < 0 || k >= blocks.len() {
        found
    } else {
        let name = replace(blocks[k].0, "_name_"@, "<name>"@);
        if contains(lowercase(name), query) && !option_names(found).contains(name) {
            kept_blocks(blocks, query, k + 1, found.push(option_entry(name, Some(blocks[k].2))))
        } else {
            kept_blocks(blocks, query, k + 1, found)
        }
    }
}

/// The first `n` items of `s` (all of them when there are no more).
pub open spec fn first_n(s: Seq<OptionText>, n: nat) -> Seq<OptionText> {
    if s.len() <= n {
        s
    } else {
        s.take(n as int)
    }
}

/// The blocks before `j` make up the start of the page.
proof fn lemma_page_prefix(blocks: Seq<(Seq<char>, Seq<char>, Seq<char>)>, j: int)
    requires
        0 <= j <= blocks.len(),
    ensures
        blocks_page(blocks.take(j)).len() <= blocks_page(blocks).len(),
        blocks_page(blocks).take(blocks_page(blocks.take(j)).len() as int) == blocks_page(
            blocks.take(j),
        ),
    decreases blocks.len() - j,
{
    if j == blocks.len() {
        assert(blocks.take(j) =~= blocks);
        assert(blocks_page(blocks).take(blocks_page(blocks).len() as int) =~= blocks_page(blocks));
    } else {
        lemma_page_prefix(blocks, j + 1);
        assert(blocks.take(j + 1).drop_last() =~= blocks.take(j));
        let whole = blocks_page(blocks);
        let a = blocks_page(blocks.take(j));
        let b = blocks_page(blocks.take(j + 1));
        assert(whole.take(a.len() as int) =~= b.take(a.len() as int));
        assert(b.take(a.len() as int) =~= a);
    }
}

/// The options kept from the blocks start with those already found.
proof fn lemma_kept_extends(
    blocks: Seq<(Seq<char>, Seq<char>, Seq<char>)>,
    query: Seq<char>,
    k: int,
    found: Seq<OptionText>,
)
    ensures
        kept_blocks(blocks, query, k, found).len() >= found.len(),
        kept_blocks(blocks, query, k, found).take(found.len() as int) == found,
    decreases blocks.len() - k,
{
    if k < 0 || k >= blocks.len() {
        assert(found.take(found.len() as int) =~= found);
    } else {
        let name = replace(blocks[k].0, "_name_"@, "<name>"@);
        if contains(lowercase(name), query) && !option_names(found).contains(name) {
            let found2 = found.push(option_entry(name, Some(blocks[k].2)));
            lemma_kept_extends(blocks, query, k + 1, found2);
            let r = kept_blocks(blocks, query, k + 1, found2);
            assert(r.take(found.len() as int) =~= r.take(found2.len() as int).take(found.len() as int));
            assert(found2.take(found.len() as int) =~= found);
        } else {
            lemma_kept_extends(blocks, query, k + 1, found);
        }
    }
}

/// The option scan goes on alike from two positions that lead to the same next anchor.
proof fn lemma_scan_same(
    html: Seq<char>,
    query: Seq<char>,
    limit: nat,
    c1: int,
    c2: int,
    found: Seq<OptionText>,
)
    requires
        0 <= c1,
        0 <= c2,
        find_from(html, "id=\"opt-"@, c1) == find_from(html, "id=\"opt-"@, c2),
    ensures
        scan_options(html, query, limit, c1, found) == scan_options(html, query, limit, c2, found),
{
}

/// What the option scan sees of block `k` of a page of plain blocks: its anchor where it
/// starts, its name up to the `"`, its body as the next `<dd>` block, and no other anchor up
/// to where block `k + 1` starts.
#[verifier::spinoff_prover]
#[verifier::rlimit(40)]
proof fn lemma_block_in_page(blocks: Seq<(Seq<char>, Seq<char>, Seq<char>)>, k: int)
    requires
        0 <= k < blocks.len(),
        plain_block(blocks[k]),
    ensures
        ({
            let html = blocks_page(blocks);
            let o = blocks_page(blocks.take(k)).len() as int;
            let next = blocks_page(blocks.take(k + 1)).len() as int;
            let name_end = o + 12 + blocks[k].0.len();
            &&& o < next <= html.len()
            &&& find_from(html, "id=\"opt-"@, o) == Some(o + 4)
            &&& find_from(html, "\""@, o + 12) == Some(name_end)
            &&& html.subrange(o + 12, name_end) == blocks[k].0
            &&& dd_block_at(html, name_end) == Some((blocks[k].2, next))
            &&& find_from(html, "id=\"opt-"@, name_end) == find_from(html, "id=\"opt-"@, next)
        }),
{
    let html = blocks_page(blocks);
    let o = blocks_page(blocks.take(k)).len() as int;
    let x = blocks_page(blocks.take(k));
    let (n, t, d) = blocks[k];
    let m = block_markup(n, t, d);
    lemma_page_prefix(blocks, k + 1);
    assert(blocks.take(k + 1).drop_last() =~= blocks.take(k));
    assert(blocks.take(k + 1).last() == blocks[k]);
    let next = blocks_page(blocks.take(k + 1)).len() as int;
    let y = html.skip(next);
    assert(html =~= x + m + y) by {
        assert(html =~= html.take(next) + y);
    }
    lemma_block_layout(x, n, t, d, y);
    let b0 = o + 12 + n.len();
    let c0 = b0 + 2 + t.len();
    let e0 = c0 + 9 + d.len();
    lemma_block_anchor(html, o);
    lemma_block_name(html, o + 12, b0, n);
    lemma_block_body(html, b0, c0, e0, t, d);
    lemma_block_no_anchor(html, b0, c0, e0, t, d);
}

/// Scanning a page of plain blocks from the start of block `k` keeps what `kept_blocks` keeps,
/// up to `limit` options.
#[verifier::spinoff_prover]
#[verifier::rlimit(40)]
proof fn lemma_scan_blocks(
    blocks: Seq<(Seq<char>, Seq<char>, Seq<char>)>,
    query: Seq<char>,
    limit: nat,
    k: int,
    found: Seq<OptionText>,
)
    requires
        0 <= k <= blocks.len(),
        found.len() < limit,
        forall|i: int| 0 <= i < blocks.len() ==> plain_block(#[trigger] blocks[i]),
    ensures
        scan_options(
            blocks_page(blocks),
            query,
            limit,
            blocks_page(blocks.take(k)).len() as int,
            found,
        ) == first_n(kept_blocks(blocks, query, k, found), limit),
    decreases blocks.len() - k,
{
    reveal_strlit("id=\"opt-");
    let html = blocks_page(blocks);
    let o = blocks_page(blocks.take(k)).len() as int;
    if k == blocks.len() {
        assert(blocks.take(k) =~= blocks);
        assert(find_from(html, "id=\"opt-"@, o) is None);
    } else {
        lemma_block_in_page(blocks, k);
        let next = blocks_page(blocks.take(k + 1)).len() as int;
        let name_end = o + 12 + blocks[k].0.len();
        lemma_scan_same(html, query, limit, name_end, next, found);
        let name = replace(blocks[k].0, "_name_"@, "<name>"@);
        if contains(lowercase(name), query) && !option_names(found).contains(name) {
            let found2 = found.push(option_entry(name, Some(blocks[k].2)));
            if found2.len() >= limit {
                lemma_kept_extends(blocks, query, k + 1, found2);
                let r = kept_blocks(blocks, query, k + 1, found2);
                if r.len() <= limit {
                    assert(r =~= r.take(found2.len() as int));
                } else {
                    assert(r.take(limit as int) =~= r.take(found2.len() as int));
                }
            } else {
                lemma_scan_blocks(blocks, query, limit, k + 1, found2);
            }
        } else {
            lemma_scan_blocks(blocks, query, limit, k + 1, found);
        }
    }
}

/// A page made of plain option blocks `<dt id="opt-NAME">TERM</dt><dd>BODY</dd>` lists, for a
/// limit of at least one, the first `limit` of the options that `kept_blocks` keeps: in page
/// order, each block whose name (with `_name_` read as `<name>`) contains the lowercase query
/// in lowercase, skipping names already listed, with its fields read from its own body.
pub proof fn law_options_of_blocks(
    blocks: Seq<(Seq<char>, Seq<char>, Seq<char>)>,
    query: Seq<char>,
    limit: nat,
)
    requires
        limit >= 1,
        forall|i: int| 0 <= i < blocks.len() ==> plain_block(#[trigger] blocks[i]),
    ensures
        options_in(blocks_page(blocks), query, limit) == first_n(
            kept_blocks(blocks, lowercase(query), 0, Seq::empty()),
            limit,
        ),
{
    assert(blocks.take(0) =~= Seq::<(Seq<char>, Seq<char>, Seq<char>)>::empty());
    lemma_scan_blocks(blocks, lowercase(query), limit, 0, Seq::empty());
}

/// The name that block `k` of a page of option blocks gives its option.
pub open spec fn block_name(blocks: Seq<(Seq<char>, Seq<char>, Seq<char>)>, k: int) -> Seq<char> {
    replace(blocks[k].0, "_name_"@, "<name>"@)
}

/// Block `k` is the first block named as option `o`, and `o` has the fields of its body.
pub open spec fn first_block_of(
    blocks: Seq<(Seq<char>, Seq<char>, Seq<char>)>,
    o: OptionText,
    k: int,
) -> bool {
    &&& 0 <= k < blocks.len()
    &&& block_name(blocks, k) == o.name
    &&& forall|j: int| 0 <= j < k ==> block_name(blocks, j) != o.name
    &&& o == option_entry(o.name, Some(blocks[k].2))
}

/// Option `o` has the fields of the first block named as it.
pub open spec fn from_first_block(blocks: Seq<(Seq<char>, Seq<char>, Seq<char>)>, o: OptionText) -> bool {
    exists|k: int| first_block_of(blocks, o, k)
}

/// Each of `options` has the fields of the first block named as it.
pub open spec fn all_from_first_blocks(
    blocks: Seq<(Seq<char>, Seq<char>, Seq<char>)>,
    options: Seq<OptionText>,
) -> bool {
    forall|i: int| 0 <= i < options.len() ==> from_first_block(blocks, #[trigger] options[i])
}

/// The blocks kept from `k` on each come from the first block of their name, given that every
/// block before `k` whose name matches is already listed.
#[verifier::spinoff_prover]
#[verifier::rlimit(40)]
proof fn lemma_kept_first(
    blocks: Seq<(Seq<char>, Seq<char>, Seq<char>)>,
    query: Seq<char>,
    k: int,
    found: Seq<OptionText>,
)
    requires
        0 <= k <= blocks.len(),
        all_from_first_blocks(blocks, found),
        forall|j: int|
            0 <= j < k && contains(lowercase(#[trigger] block_name(blocks, j)), query)
                ==> option_names(found).contains(block_name(blocks, j)),
    ensures
        all_from_first_blocks(blocks, kept_blocks(blocks, query, k, found)),
    decreases blocks.len() - k,
{
    if k < blocks.len() {
        let name = block_name(blocks, k);
        if contains(lowercase(name), query) && !option_names(found).contains(name) {
            let entry = option_entry(name, Some(blocks[k].2));
            lemma_entry_description(name, Some(blocks[k].2));
            let found2 = found.push(entry);
            assert(option_names(found2) =~= option_names(found).push(name));
            assert forall|j: int| 0 <= j < k implies block_name(blocks, j) != name by {
                if block_name(blocks, j) == name {
                    assert(contains(lowercase(block_name(blocks, j)), query));
                }
            }
            assert(first_block_of(blocks, entry, k));
            assert forall|i: int| 0 <= i < found2.len() implies from_first_block(
                blocks,
                #[trigger] found2[i],
            ) by {
                if i < found.len() {
                    assert(found2[i] == found[i]);
                } else {
                    assert(first_block_of(blocks, found2[i], k));
                }
            }
            assert forall|j: int|
                0 <= j < k + 1 && contains(lowercase(#[trigger] block_name(blocks, j)), query)
                    implies option_names(found2).contains(block_name(blocks, j)) by {
                if j < k {
                    let w = choose|x: int| 0 <= x < option_names(found).len() && option_names(found)[x]
                        == block_name(blocks, j);
                    assert(option_names(found2)[w] == block_name(blocks, j));
                } else {
                    assert(option_names(found2)[found.len() as int] == name);
                }
            }
            lemma_kept_first(blocks, query, k + 1, found2);
        } else {
            lemma_kept_first(blocks, query, k + 1, found);
        }
    }
}

/// In a page made of plain option blocks, every listed option has the fields of the first
/// block with its name: its description, type, default and declarations are read from that
/// block's body, as `option_entry` reads them, and no earlier block has that name.
pub proof fn law_options_from_first_blocks(
    blocks: Seq<(Seq<char>, Seq<char>, Seq<char>)>,
    query: Seq<char>,
    limit: nat,
)
    requires
        limit >= 1,
        forall|i: int| 0 <= i < blocks.len() ==> plain_block(#[trigger] blocks[i]),
    ensures
        all_from_first_blocks(blocks, options_in(blocks_page(blocks), query, limit)),
{
    law_options_of_blocks(blocks, query, limit);
    let kept = kept_blocks(blocks, lowercase(query), 0, Seq::empty());
    lemma_kept_first(blocks, lowercase(query), 0, Seq::empty());
    let r = options_in(blocks_page(blocks), query, limit);
    assert forall|i: int| 0 <= i < r.len() implies from_first_block(blocks, #[trigger] r[i]) by {
        assert(r[i] == kept[i]);
    }
}

// ---------------------------------------------------------------------------
// What the readable text, the sections and the declarations are made of
// ---------------------------------------------------------------------------

/// Escaped markup stays as text: in text without `<` or `>` nothing is taken for a tag, so its
/// readable text is its entities decoded and its words single-spaced (`&lt;name&gt;` reads as
/// `<name>`, tags being removed before entities are decoded).
pub proof fn law_clean_text_keeps_escaped_markup(s: Seq<char>)
    requires
        forall|i: int| 0 <= i < s.len() ==> #[trigger] s[i] != '<' && s[i] != '>',
    ensures
        clean_text(s) == collapse_whitespace(decode_entities(s)),
{
    lemma_strip_tags_plain(s);
}

/// The first paragraph is the whole of the first `<p>...</p>` element: with `dd` made of `a`
/// (holding no `<p`), `<p>`, `x` (holding no `</p>`), `</p>` and anything after, it is the
/// readable text of all of `x`, inner tags such as `<code>` or `<a>` included, when that text
/// is not empty.
pub proof fn law_first_paragraph_whole(a: Seq<char>, x: Seq<char>, b: Seq<char>)
    requires
        !contains(a, "<p"@),
        !contains(x, "</p>"@),
        clean_text(x).len() > 0,
    ensures
        first_paragraph(a + "<p>"@ + x + "</p>"@ + b) == Some(clean_text(x)),
{
    reveal_strlit("<p");
    reveal_strlit("<p>");
    reveal_strlit(">");
    reveal_strlit("</p>");
    let dd = a + "<p>"@ + x + "</p>"@ + b;
    let o = a.len() as int;
    let e = o + 3 + x.len();
    assert(dd.subrange(0, o) =~= a);
    assert(dd.subrange(o + 3, e) =~= x);
    assert(dd[o] == '<' && dd[o + 1] == 'p' && dd[o + 2] == '>');
    assert(dd[e] == '<' && dd[e + 1] == '/' && dd[e + 2] == 'p' && dd[e + 3] == '>');
    lemma_no_match_up_to(dd, "<p"@, 0, o);
    assert(matches_at(dd, "<p"@, o)) by {
        assert(dd[o + 0] == '<' && dd[o + 1] == 'p');
    }
    lemma_find_at(dd, "<p"@, 0, o);
    assert forall|j: int| o <= j < o + 2 implies !matches_at(dd, ">"@, j) by {
        if matches_at(dd, ">"@, j) {
            assert(dd[j + 0] == '>');
        }
    }
    assert(matches_at(dd, ">"@, o + 2)) by {
        assert(dd[(o + 2) + 0] == '>');
    }
    lemma_find_at(dd, ">"@, o, o + 2);
    lemma_no_match_up_to(dd, "</p>"@, o + 3, e);
    assert(matches_at(dd, "</p>"@, e)) by {
        assert(dd[e + 0] == '<' && dd[e + 1] == '/' && dd[e + 2] == 'p' && dd[e + 3] == '>');
    }
    lemma_find_at(dd, "</p>"@, o + 3, e);
}

/// An option's type never runs into the next section: it holds none of the labels `Default:`,
/// `Example:`, `Declared by:`, `Defined by:`, `Related packages:` and `Related options:`.
pub proof fn law_type_info_stops(dd: Seq<char>)
    ensures
        !contains(type_info(dd), "Default:"@),
        !contains(type_info(dd), "Example:"@),
        !contains(type_info(dd), "Declared by:"@),
        !contains(type_info(dd), "Defined by:"@),
        !contains(type_info(dd), "Related packages:"@),
        !contains(type_info(dd), "Related options:"@),
{
    lemma_stops_nonempty();
    law_section_value(dd, "Type:"@, type_stops());
    assert(type_stops()[0] == "Default:"@);
    assert(type_stops()[1] == "Example:"@);
    assert(type_stops()[2] == "Declared by:"@);
    assert(type_stops()[3] == "Defined by:"@);
    assert(type_stops()[4] == "Related packages:"@);
    assert(type_stops()[5] == "Related options:"@);
}

/// An option's default never runs into the next section: it holds none of the labels
/// `Example:`, `Declared by:`, `Defined by:`, `Related packages:`, `Related options:` and
/// `Type:`.
pub proof fn law_default_value_stops(dd: Seq<char>)
    ensures
        !contains(default_value(dd), "Example:"@),
        !contains(default_value(dd), "Declared by:"@),
        !contains(default_value(dd), "Defined by:"@),
        !contains(default_value(dd), "Related packages:"@),
        !contains(default_value(dd), "Related options:"@),
        !contains(default_value(dd), "Type:"@),
{
    lemma_stops_nonempty();
    law_section_value(dd, "Default:"@, default_stops());
    assert(default_stops()[0] == "Example:"@);
    assert(default_stops()[1] == "Declared by:"@);
    assert(default_stops()[2] == "Defined by:"@);
    assert(default_stops()[3] == "Related packages:"@);
    assert(default_stops()[4] == "Related options:"@);
    assert(default_stops()[5] == "Type:"@);
}

/// The stop labels are not empty.
proof fn lemma_stops_nonempty()
    ensures
        forall|k: int| 0 <= k < type_stops().len() ==> #[trigger] type_stops()[k].len() > 0,
        forall|k: int| 0 <= k < default_stops().len() ==> #[trigger] default_stops()[k].len() > 0,
        forall|k: int|
            0 <= k < declared_by_stops().len() ==> #[trigger] declared_by_stops()[k].len() > 0,
{
    reveal_strlit("Default:");
    reveal_strlit("Example:");
    reveal_strlit("Declared by:");
    reveal_strlit("Defined by:");
    reveal_strlit("Related packages:");
    reveal_strlit("Related options:");
    reveal_strlit("Type:");
}

/// An option's declarations are the links of its `Declared by:` section only: the markup after
/// the first `Declared by:` up to the next of `Defined by:`, `Related packages:`, `Related
/// options:`, `Example:`, `Default:` or `Type:`. They are the distinct, non-empty, decoded
/// texts of that section's quoted `href`s, joined by `, `; none when there is no such section.
pub proof fn law_declared_by_from_section(dd: Seq<char>)
    ensures
        match section_html(
            dd,
            "Declared by:"@,
            seq![
                "Defined by:"@,
                "Related packages:"@,
                "Related options:"@,
                "Example:"@,
                "Default:"@,
                "Type:"@,
            ],
        ) {
            None => declared_by(dd).len() == 0,
            Some(section) => exists|found: Seq<Seq<char>>|
                #![trigger join(found, ", "@)]
                declared_by(dd) == join(found, ", "@) && all_from_hrefs(section, found)
                    && distinct_non_empty(found),
        },
{
    let stops = seq![
        "Defined by:"@,
        "Related packages:"@,
        "Related options:"@,
        "Example:"@,
        "Default:"@,
        "Type:"@,
    ];
    assert(stops =~= declared_by_stops());
    if let Some(section) = section_html(dd, "Declared by:"@, stops) {
        law_links_from_hrefs(section);
        law_links_distinct(section);
        assert(declared_by(dd) == join(links(section), ", "@));
    }
}

} // verus!
