//! The tools of the server: the arguments they take, the commands and requests they make,
//! and how a wiki page title becomes part of a URL.
use vstd::prelude::*;

use vstd::string::StringSliceAdditionalSpecFns;
use vstd::utf8::encode_utf8;

use crate::command::{nix_args, nix_command, NixCommand, OutputFormat};
use crate::json::{
    json_document, json_string_member, json_tree_entries, pretty_json, reformat_json, string_member,
};
use crate::manual::{manual_candidates, manual_pages, sorted, ManualListFailure};
use crate::text::{
    from_chars, replace, replace_literal, string_views, to_chars, lemma_encode_utf8_concat,
    lemma_replace_absent, matches_at,
};

verus! {

/// Evaluates a Nix expression.
pub struct EvaluateTool {
    /// The Nix expression to evaluate, such as `nixpkgs#lib.version`.
    pub expression: String,
}

/// Gets the build log of an installable.
pub struct LogTool {
    /// The installable whose build log to get, such as `nixpkgs#hello`.
    pub installable: String,
}

/// Searches the packages of an installable.
pub struct PackagesSearchTool {
    /// The installable to search in, such as `nixpkgs` or `github:owner/repo`.
    pub installable: String,
    /// The regular expression that package names are matched against.
    pub regex: String,
}

/// Shows why a package has another in its closure.
pub struct PackagesWhyDepends {
    /// The package whose closure is examined.
    pub package: String,
    /// The dependency to explain.
    pub dependency: String,
}

/// Shows the outputs of a flake.
pub struct FlakesShowTool {
    /// The flake reference, such as `github:owner/repo` or a directory.
    pub flake: String,
}

/// Shows the metadata of a flake.
pub struct FlakesMetadataTool {
    /// The flake reference, such as `github:owner/repo` or a directory.
    pub flake: String,
}

/// Searches the NixOS wiki.
pub struct WikiSearchTool {
    /// The words to search for.
    pub query: String,
}

/// Reads a page of the NixOS wiki.
pub struct WikiGetPageTool {
    /// The title of the page, such as `Docker`.
    pub title: String,
}

/// Checks the Nix installation for problems.
pub struct ConfigCheckTool {}

/// Shows the Nix configuration.
pub struct ConfigShowTool {}

/// Searches the Nix documentation with manix.
pub struct ManixSearchTool {
    /// The words to search for, such as `programs.git`.
    pub query: String,
}

/// The arguments, failure label and output format of a `nix` run.
pub open spec fn command_view(c: NixCommand) -> (Seq<Seq<char>>, Seq<char>, OutputFormat) {
    (string_views(c.args@), c.label@, c.format)
}

/// An owned copy of `s`.
fn owned(s: &str) -> (r: String)
    ensures
        r@ == s@,
{
    s.to_owned()
}

impl EvaluateTool {
    /// `nix eval --json <expression>`, its output a JSON document.
    pub fn command(&self) -> (r: NixCommand)
        ensures
            command_view(r) == (
                nix_args(seq!["eval"@, "--json"@, self.expression@]),
                "nix eval"@,
                OutputFormat::Json,
            ),
    {
        let rest = vec![owned("eval"), owned("--json"), self.expression.clone()];
        assert(string_views(rest@) =~= seq!["eval"@, "--json"@, self.expression@]);
        nix_command(rest, "nix eval", OutputFormat::Json)
    }
}

impl LogTool {
    /// `nix log <installable>`, its output (the build log) given as text.
    pub fn command(&self) -> (r: NixCommand)
        ensures
            command_view(r) == (
                nix_args(seq!["log"@, self.installable@]),
                "nix log"@,
                OutputFormat::Text,
            ),
    {
        let rest = vec![owned("log"), self.installable.clone()];
        assert(string_views(rest@) =~= seq!["log"@, self.installable@]);
        nix_command(rest, "nix log", OutputFormat::Text)
    }
}

impl PackagesSearchTool {
    /// `nix search --json <installable> <regex>`, its output a JSON document.
    pub fn command(&self) -> (r: NixCommand)
        ensures
            command_view(r) == (
                nix_args(seq!["search"@, "--json"@, self.installable@, self.regex@]),
                "nix search failed"@,
                OutputFormat::Json,
            ),
    {
        let rest = vec![owned("search"), owned("--json"), self.installable.clone(), self.regex.clone()];
        assert(string_views(rest@) =~= seq!["search"@, "--json"@, self.installable@, self.regex@]);
        nix_command(rest, "nix search failed", OutputFormat::Json)
    }
}

impl PackagesWhyDepends {
    /// `nix why-depends --all <package> <dependency>`, its output given as text.
    pub fn command(&self) -> (r: NixCommand)
        ensures
            command_view(r) == (
                nix_args(seq!["why-depends"@, "--all"@, self.package@, self.dependency@]),
                "nix why-depends failed"@,
                OutputFormat::Text,
            ),
    {
        let rest = vec![owned("why-depends"), owned("--all"), self.package.clone(), self.dependency.clone()];
        assert(string_views(rest@) =~= seq!["why-depends"@, "--all"@, self.package@, self.dependency@]);
        nix_command(rest, "nix why-depends failed", OutputFormat::Text)
    }
}

impl FlakesShowTool {
    /// `nix flake show --json <flake>`, its output a JSON document.
    pub fn command(&self) -> (r: NixCommand)
        ensures
            command_view(r) == (
                nix_args(seq!["flake"@, "show"@, "--json"@, self.flake@]),
                "nix flake show"@,
                OutputFormat::Json,
            ),
    {
        let rest = vec![owned("flake"), owned("show"), owned("--json"), self.flake.clone()];
        assert(string_views(rest@) =~= seq!["flake"@, "show"@, "--json"@, self.flake@]);
        nix_command(rest, "nix flake show", OutputFormat::Json)
    }
}

impl FlakesMetadataTool {
    /// `nix flake metadata --json <flake>`, its output a JSON document.
    pub fn command(&self) -> (r: NixCommand)
        ensures
            command_view(r) == (
                nix_args(seq!["flake"@, "metadata"@, "--json"@, self.flake@]),
                "nix flake metadata"@,
                OutputFormat::Json,
            ),
    {
        let rest = vec![owned("flake"), owned("metadata"), owned("--json"), self.flake.clone()];
        assert(string_views(rest@) =~= seq!["flake"@, "metadata"@, "--json"@, self.flake@]);
        nix_command(rest, "nix flake metadata", OutputFormat::Json)
    }
}

impl ConfigCheckTool {
    /// `nix config check`, its output given as text.
    pub fn command(&self) -> (r: NixCommand)
        ensures
            command_view(r) == (
                nix_args(seq!["config"@, "check"@]),
                "nix config check"@,
                OutputFormat::Text,
            ),
    {
        let rest = vec![owned("config"), owned("check")];
        assert(string_views(rest@) =~= seq!["config"@, "check"@]);
        nix_command(rest, "nix config check", OutputFormat::Text)
    }
}

impl ConfigShowTool {
    /// `nix config show`, its output given as text.
    pub fn command(&self) -> (r: NixCommand)
        ensures
            command_view(r) == (
                nix_args(seq!["config"@, "show"@]),
                "nix config show"@,
                OutputFormat::Text,
            ),
    {
        let rest = vec![owned("config"), owned("show")];
        assert(string_views(rest@) =~= seq!["config"@, "show"@]);
        nix_command(rest, "nix config show", OutputFormat::Text)
    }
}

impl ManixSearchTool {
    /// `nix run nixpkgs#manix -- <query>`, its output given as text.
    pub fn command(&self) -> (r: NixCommand)
        ensures
            command_view(r) == (
                nix_args(seq!["run"@, "nixpkgs#manix"@, "--"@, self.query@]),
                "manix failed"@,
                OutputFormat::Text,
            ),
    {
        let rest = vec![owned("run"), owned("nixpkgs#manix"), owned("--"), self.query.clone()];
        assert(string_views(rest@) =~= seq!["run"@, "nixpkgs#manix"@, "--"@, self.query@]);
        nix_command(rest, "manix failed", OutputFormat::Text)
    }
}

/// The address of the NixOS wiki's search API.
pub open spec fn wiki_api_url() -> Seq<char> {
    "https://wiki.nixos.org/w/api.php"@
}

impl WikiSearchTool {
    /// The address the search is sent to.
    pub fn api_url(&self) -> (r: String)
        ensures
            r@ == wiki_api_url(),
    {
        owned("https://wiki.nixos.org/w/api.php")
    }

    /// The query parameters of the search request, in order.
    pub fn query_params(&self) -> (r: Vec<(String, String)>)
        ensures
            r@.map_values(|p: (String, String)| (p.0@, p.1@)) == seq![
                ("action"@, "query"@),
                ("list"@, "search"@),
                ("srsearch"@, self.query@),
                ("format"@, "json"@),
            ],
    {
        let r = vec![
            (owned("action"), owned("query")),
            (owned("list"), owned("search")),
            (owned("srsearch"), self.query.clone()),
            (owned("format"), owned("json")),
        ];
        assert(r@.map_values(|p: (String, String)| (p.0@, p.1@)) =~= seq![
            ("action"@, "query"@),
            ("list"@, "search"@),
            ("srsearch"@, self.query@),
            ("format"@, "json"@),
        ]);
        r
    }
}

// ---------------------------------------------------------------------------
// Wiki page titles in URLs
// ---------------------------------------------------------------------------

/// Bytes that stand for themselves in a URL path: ASCII letters, digits and `-_.~`.
pub open spec fn is_unreserved(b: u8) -> bool {
    ||| (48 <= b && b <= 57)
    ||| (65 <= b && b <= 90)
    ||| (97 <= b && b <= 122)
    ||| b == 45
    ||| b == 95
    ||| b == 46
    ||| b == 126
}

/// The uppercase hexadecimal digit for `d < 16`.
pub open spec fn hex_digit(d: u8) -> char {
    if d < 10 {
        (d + 48) as char
    } else {
        (d + 55) as char
    }
}

/// How one byte is written in a URL path: itself when unreserved, else `%` and two
/// uppercase hexadecimal digits.
pub open spec fn percent_encode_byte(b: u8) -> Seq<char> {
    if is_unreserved(b) {
        seq![b as char]
    } else {
        seq!['%', hex_digit(b / 16), hex_digit(b % 16)]
    }
}

/// The bytes `bytes` written in a URL path.
pub open spec fn percent_encode(bytes: Seq<u8>) -> Seq<char>
    decreases bytes.len(),
{
    if bytes.len() == 0 {
        Seq::empty()
    } else {
        percent_encode(bytes.drop_last()) + percent_encode_byte(bytes.last())
    }
}

/// A wiki page title as a URL path segment: spaces become underscores, and the UTF-8 bytes
/// of the result are percent-encoded.
pub open spec fn title_path(title: Seq<char>) -> Seq<char> {
    percent_encode(encode_utf8(replace(title, " "@, "_"@)))
}

/// The uppercase hexadecimal digit for `d`.
fn hex_digit_exec(d: u8) -> (r: char)
    requires
        d < 16,
    ensures
        r == hex_digit(d),
{
    if d < 10 {
        (d + 48) as char
    } else {
        (d + 55) as char
    }
}

/// The UTF-8 bytes of `s` percent-encoded for a URL path.
pub fn percent_encode_text(s: &str) -> (r: String)
    ensures
        r@ == percent_encode(encode_utf8(s@)),
{
    let bytes = s.as_bytes();
    let mut out: Vec<char> = Vec::new();
    let n = bytes.len();
    for i in 0..n
        invariant
            n == bytes@.len(),
            bytes@ == encode_utf8(s@),
            out@ == percent_encode(bytes@.take(i as int)),
    {
        let b = bytes[i];
        assert(bytes@.take(i + 1).drop_last() =~= bytes@.take(i as int));
        let ghost before = out@;
        if (48 <= b && b <= 57) || (65 <= b && b <= 90) || (97 <= b && b <= 122) || b == 45 || b
            == 95 || b == 46 || b == 126 {
            out.push(b as char);
        } else {
            out.push('%');
            out.push(hex_digit_exec(b / 16));
            out.push(hex_digit_exec(b % 16));
        }
        assert(out@ =~= before + percent_encode_byte(b));
    }
    assert(bytes@.take(n as int) =~= bytes@);
    from_chars(out.as_slice())
}

/// The title of a wiki page written as a URL path segment.
pub fn encode_title_for_path(title: &str) -> (r: String)
    ensures
        r@ == title_path(title@),
{
    let cs = to_chars(title);
    proof {
        reveal_strlit(" ");
    }
    let underscored = replace_literal(cs.as_slice(), " ", "_");
    let s = from_chars(underscored.as_slice());
    percent_encode_text(s.as_str())
}

/// The value of the hexadecimal digit `c` (either case), 0 for other characters.
pub open spec fn hex_value(c: char) -> int {
    if '0' <= c && c <= '9' {
        c as int - 48
    } else if 'A' <= c && c <= 'F' {
        c as int - 55
    } else if 'a' <= c && c <= 'f' {
        c as int - 87
    } else {
        0
    }
}

/// The bytes a percent-encoded text stands for: `%` and two hexadecimal digits stand for one
/// byte, any other character for its own code.
pub open spec fn percent_decode(s: Seq<char>) -> Seq<u8>
    decreases s.len(),
{
    if s.len() == 0 {
        Seq::empty()
    } else if s[0] == '%' && s.len() >= 3 {
        seq![(hex_value(s[1]) * 16 + hex_value(s[2])) as u8] + percent_decode(s.skip(3))
    } else {
        seq![s[0] as u8] + percent_decode(s.drop_first())
    }
}

/// Encoding two pieces one after the other is encoding them together.
proof fn lemma_percent_encode_concat(a: Seq<u8>, b: Seq<u8>)
    ensures
        percent_encode(a + b) == percent_encode(a) + percent_encode(b),
    decreases b.len(),
{
    if b.len() == 0 {
        assert(a + b =~= a);
        assert(percent_encode(a) + percent_encode(b) =~= percent_encode(a));
    } else {
        lemma_percent_encode_concat(a, b.drop_last());
        assert((a + b).drop_last() =~= a + b.drop_last());
        assert(percent_encode(a) + percent_encode(b) =~= percent_encode(a) + percent_encode(
            b.drop_last(),
        ) + percent_encode_byte(b.last()));
    }
}

/// Decoding one encoded byte followed by anything gives that byte first.
proof fn lemma_decode_encoded_byte(b: u8, rest: Seq<char>)
    ensures
        percent_decode(percent_encode_byte(b) + rest) == seq![b] + percent_decode(rest),
{
    let s = percent_encode_byte(b) + rest;
    if is_unreserved(b) {
        assert(s[0] == b as char);
        assert(s.drop_first() =~= rest);
    } else {
        assert(s[0] == '%');
        assert(s.skip(3) =~= rest);
        let hi = b / 16;
        let lo = b % 16;
        assert(hex_value(hex_digit(hi)) == hi);
        assert(hex_value(hex_digit(lo)) == lo);
        assert(s[1] == hex_digit(hi));
        assert(s[2] == hex_digit(lo));
    }
}

/// Percent-encoding can be undone: decoding the encoding of some bytes gives those bytes.
pub proof fn law_percent_decode_encode(bytes: Seq<u8>)
    ensures
        percent_decode(percent_encode(bytes)) == bytes,
    decreases bytes.len(),
{
    if bytes.len() > 0 {
        let tail = bytes.drop_first();
        assert(bytes =~= seq![bytes[0]] + tail);
        lemma_percent_encode_concat(seq![bytes[0]], tail);
        assert(seq![bytes[0]].drop_last() =~= Seq::<u8>::empty());
        assert(percent_encode(Seq::<u8>::empty()) =~= Seq::<char>::empty());
        assert(percent_encode(seq![bytes[0]]) == percent_encode(seq![bytes[0]].drop_last())
            + percent_encode_byte(bytes[0]));
        assert(percent_encode(seq![bytes[0]]) =~= percent_encode_byte(bytes[0]));
        lemma_decode_encoded_byte(bytes[0], percent_encode(tail));
        law_percent_decode_encode(tail);
    }
}

/// A wiki title's path segment decodes back to the UTF-8 bytes of the title with its spaces
/// turned into underscores.
pub proof fn law_title_path_decodes(title: Seq<char>)
    ensures
        percent_decode(title_path(title)) == encode_utf8(replace(title, " "@, "_"@)),
{
    law_percent_decode_encode(encode_utf8(replace(title, " "@, "_"@)));
}

/// The address of the wiki page `title` in the wiki's REST API.
pub open spec fn wiki_page_url(title: Seq<char>) -> Seq<char> {
    "https://wiki.nixos.org/w/rest.php/v1/page/"@ + title_path(title)
}

/// Why a wiki page gave no text.
pub enum WikiPageFailure {
    /// The reply is JSON without a string `source`; the message shows the reply.
    MissingSource { message: String },
    /// The reply is not JSON.
    InvalidJson(serde_json::Error),
}

/// The message for a reply without a page source.
pub open spec fn missing_source_message(title: Seq<char>, reply: Seq<char>) -> Seq<char> {
    "wiki returned JSON without 'source' field for title '"@ + title + "'. Response: "@ + reply
}

impl WikiGetPageTool {
    /// The address the page is read from.
    pub fn page_url(&self) -> (r: String)
        ensures
            r@ == wiki_page_url(self.title@),
    {
        let mut url = owned("https://wiki.nixos.org/w/rest.php/v1/page/");
        let encoded = encode_title_for_path(self.title.as_str());
        url.append(encoded.as_str());
        url
    }

    /// The page text in the wiki's reply `body`: its string member `source`.
    pub fn page_text(&self, body: &str) -> (r: Result<String, WikiPageFailure>)
        ensures
            json_document(body@) <==> json_string_member(body@, "source"@) is Some,
            match json_string_member(body@, "source"@) {
                Some(Some(source)) => r matches Ok(text) && text@ == source,
                Some(None) => pretty_json(body@) is Some && (r matches Err(
                    WikiPageFailure::MissingSource { message },
                ) && message@ == missing_source_message(self.title@, pretty_json(body@)->0)),
                None => r matches Err(WikiPageFailure::InvalidJson(_)),
            },
    {
        match string_member(body, "source") {
            Ok(Some(source)) => Ok(source),
            Ok(None) => match reformat_json(body) {
                Ok(reply) => {
                    let mut message = owned("wiki returned JSON without 'source' field for title '");
                    message.append(self.title.as_str());
                    message.append("'. Response: ");
                    message.append(reply.as_str());
                    Err(WikiPageFailure::MissingSource { message })
                },
                Err(e) => Err(WikiPageFailure::InvalidJson(e)),
            },
            Err(e) => Err(WikiPageFailure::InvalidJson(e)),
        }
    }
}

/// The part of a reply shown when it is not JSON: all of it up to 500 bytes, else its first
/// 500 bytes; `None` when byte 500 falls inside a character.
pub fn body_preview(body: &str) -> (r: Option<String>)
    ensures
        body.spec_bytes().len() <= 500 ==> (r matches Some(p) && p@ == body@),
        body.spec_bytes().len() > 500 && vstd::utf8::is_char_boundary(body.spec_bytes(), 500)
            ==> (r matches Some(p) && encode_utf8(p@) == body.spec_bytes().take(500)),
        body.spec_bytes().len() > 500 && !vstd::utf8::is_char_boundary(body.spec_bytes(), 500)
            ==> r is None,
{
    let n = body.as_bytes().len();
    if n <= 500 {
        return Some(owned(body));
    }
    if !body.is_char_boundary(500) {
        return None;
    }
    let (head, _) = body.split_at(500);
    let p = owned(head);
    assert(body.spec_bytes().take(500) =~= body.spec_bytes().subrange(0, 500));
    Some(p)
}

/// Characters that may stand in a URL path segment as they are: ASCII letters and digits,
/// `-_.~`, and `%` for escapes.
pub open spec fn is_path_segment_char(c: char) -> bool {
    ||| ('0' <= c && c <= '9')
    ||| ('A' <= c && c <= 'Z')
    ||| ('a' <= c && c <= 'z')
    ||| c == '-'
    ||| c == '_'
    ||| c == '.'
    ||| c == '~'
    ||| c == '%'
}

/// Percent-encoding writes only characters safe in a URL path segment.
proof fn lemma_percent_encode_safe(bytes: Seq<u8>)
    ensures
        forall|i: int|
            0 <= i < percent_encode(bytes).len() ==> is_path_segment_char(
                #[trigger] percent_encode(bytes)[i],
            ),
    decreases bytes.len(),
{
    if bytes.len() > 0 {
        lemma_percent_encode_safe(bytes.drop_last());
        let b = bytes.last();
        let front = percent_encode(bytes.drop_last());
        let last = percent_encode_byte(b);
        assert forall|i: int| 0 <= i < last.len() implies is_path_segment_char(#[trigger] last[i]) by {
            if is_unreserved(b) {
                assert(last[i] == b as char);
            } else {
                assert(b / 16 < 16 && b % 16 < 16);
            }
        }
        assert forall|i: int|
            0 <= i < percent_encode(bytes).len() implies is_path_segment_char(
                #[trigger] percent_encode(bytes)[i],
            ) by {
            if i < front.len() {
                assert(percent_encode(bytes)[i] == front[i]);
            } else {
                assert(percent_encode(bytes)[i] == last[i - front.len()]);
            }
        }
    }
}

/// An encoded wiki title is safe in a URL path: it holds only ASCII letters and digits,
/// `-_.~` and `%`, so never a space, `/`, `?` or `#`.
pub proof fn law_title_path_safe(title: Seq<char>)
    ensures
        forall|i: int|
            0 <= i < title_path(title).len() ==> is_path_segment_char(#[trigger] title_path(title)[i]),
{
    lemma_percent_encode_safe(encode_utf8(replace(title, " "@, "_"@)));
}

/// An uppercase hexadecimal digit.
pub open spec fn is_upper_hex(c: char) -> bool {
    ('0' <= c && c <= '9') || ('A' <= c && c <= 'F')
}

/// Every `%` of `s` starts an escape: two uppercase hexadecimal digits follow it, and the byte
/// they stand for is not one that could have stood for itself.
pub open spec fn escapes_well_formed(s: Seq<char>) -> bool {
    forall|i: int|
        0 <= i < s.len() && #[trigger] s[i] == '%' ==> {
            &&& i + 2 < s.len()
            &&& is_upper_hex(s[i + 1])
            &&& is_upper_hex(s[i + 2])
            &&& !is_unreserved((hex_value(s[i + 1]) * 16 + hex_value(s[i + 2])) as u8)
        }
}

/// The digit written for `d < 16` is an uppercase hexadecimal digit worth `d`, and no `%`.
proof fn lemma_hex_digit(d: u8)
    requires
        d < 16,
    ensures
        is_upper_hex(hex_digit(d)),
        hex_value(hex_digit(d)) == d,
        hex_digit(d) != '%',
{
}

/// Percent-encoding writes a `%` only to start a well-formed escape of a reserved byte.
proof fn lemma_percent_encode_escapes(bytes: Seq<u8>)
    ensures
        escapes_well_formed(percent_encode(bytes)),
    decreases bytes.len(),
{
    if bytes.len() > 0 {
        lemma_percent_encode_escapes(bytes.drop_last());
        let front = percent_encode(bytes.drop_last());
        let b = bytes.last();
        let last = percent_encode_byte(b);
        let s = percent_encode(bytes);
        assert(s == front + last);
        let hi = b / 16;
        let lo = b % 16;
        lemma_hex_digit(hi);
        lemma_hex_digit(lo);
        assert(hi * 16 + lo == b);
        assert((b as char) as u32 == b as u32);
        assert forall|i: int| 0 <= i < s.len() && #[trigger] s[i] == '%' implies {
            &&& i + 2 < s.len()
            &&& is_upper_hex(s[i + 1])
            &&& is_upper_hex(s[i + 2])
            &&& !is_unreserved((hex_value(s[i + 1]) * 16 + hex_value(s[i + 2])) as u8)
        } by {
            if i < front.len() {
                assert(front[i] == '%');
                assert(s[i + 1] == front[i + 1]);
                assert(s[i + 2] == front[i + 2]);
            } else if is_unreserved(b) {
                assert(s[i] == b as char);
            } else {
                assert(s[i] == last[i - front.len()]);
                assert(i == front.len());
                assert(s[i + 1] == hex_digit(hi));
                assert(s[i + 2] == hex_digit(lo));
            }
        }
    }
}

/// A wiki title's path segment writes each `%` as the start of an escape: two uppercase
/// hexadecimal digits follow it, standing for a byte that is not an ASCII letter or digit nor
/// one of `-_.~` (those always stand for themselves).
pub proof fn law_title_path_escapes(title: Seq<char>)
    ensures
        escapes_well_formed(title_path(title)),
{
    lemma_percent_encode_escapes(encode_utf8(replace(title, " "@, "_"@)));
}

/// A character that stands for itself in a URL path: an ASCII letter or digit, or `-_.~`.
pub open spec fn is_unreserved_char(c: char) -> bool {
    (c as u32) < 128 && is_unreserved(c as u32 as u8)
}

/// Text of unreserved characters is its own percent-encoding.
proof fn lemma_plain_encodes_to_itself(s: Seq<char>)
    requires
        forall|i: int| 0 <= i < s.len() ==> is_unreserved_char(#[trigger] s[i]),
    ensures
        percent_encode(encode_utf8(s)) == s,
    decreases s.len(),
{
    if s.len() > 0 {
        let init = s.drop_last();
        let c = s.last();
        lemma_plain_encodes_to_itself(init);
        assert(s =~= init + seq![c]);
        lemma_encode_utf8_concat(init, seq![c]);
        let v = c as u32;
        assert(is_unreserved_char(s[s.len() - 1]));
        assert(((v & 0x7F) as u8) == (v as u8) && ((v as u8) as u32) == v) by (bit_vector)
            requires
                v < 128,
        ;
        let b = v as u8;
        assert(vstd::utf8::leading_byte_width_1(v) == b);
        vstd::utf8::char_u32_cast(c, v);
        assert(b as char == c);
        assert(seq![c].drop_first() =~= Seq::<char>::empty());
        assert(seq![c][0] == c);
        assert(vstd::utf8::encode_scalar(v) =~= seq![b]);
        assert(encode_utf8(Seq::<char>::empty()) =~= Seq::<u8>::empty());
        assert(encode_utf8(seq![c]) == vstd::utf8::encode_scalar(seq![c][0] as u32) + encode_utf8(
            seq![c].drop_first(),
        ));
        assert(encode_utf8(seq![c]) =~= seq![b]);
        let bytes = encode_utf8(init) + seq![b];
        assert(bytes.drop_last() =~= encode_utf8(init));
        assert(percent_encode(bytes) == percent_encode(encode_utf8(init)) + percent_encode_byte(b));
        assert(percent_encode_byte(b) =~= seq![c]);
    }
}

/// A title made only of ASCII letters, digits and `-_.~` stands in the path as it is: no such
/// character is ever escaped.
pub proof fn law_plain_title_path(title: Seq<char>)
    requires
        forall|i: int| 0 <= i < title.len() ==> is_unreserved_char(#[trigger] title[i]),
    ensures
        title_path(title) == title,
{
    reveal_strlit(" ");
    assert forall|k: int| !matches_at(title, " "@, k) by {
        if matches_at(title, " "@, k) {
            assert(title[k + 0] == ' ');
            assert(is_unreserved_char(title[k]));
        }
    }
    lemma_replace_absent(title, " "@, "_"@);
    lemma_plain_encodes_to_itself(title);
}

// ---------------------------------------------------------------------------
// Tools that read documentation and package data over HTTP
// ---------------------------------------------------------------------------

/// Lists the Markdown files of the Nix manual.
pub struct NixManualListTool {}

/// Reads a file of the Nix manual.
pub struct NixManualReadTool {
    /// The file to read, as `nix_manual_list` names it (without `.md`).
    pub path: String,
}

/// Gets the version history of a package from nixhub.
pub struct NixhubPackageVersionsTool {
    /// The package name, such as `nodejs`.
    pub package: String,
}

/// Lists the NixOS channels with their status.
pub struct NixosChannelsTool {}

/// The directory of the Nix repository that holds the manual's Markdown sources.
pub open spec fn nix_manual_dir() -> Seq<char> {
    "doc/manual/source/"@
}

/// The address of the git tree listing of the Nix repository.
pub open spec fn nix_tree_url() -> Seq<char> {
    "https://api.github.com/repos/NixOS/nix/git/trees/master?recursive=1"@
}

/// The address of the Nix manual's Markdown file `path` (without its `.md`).
pub open spec fn nix_manual_file_url(path: Seq<char>) -> Seq<char> {
    "https://raw.githubusercontent.com/NixOS/nix/master/doc/manual/source/"@ + path + ".md"@
}

/// The address of nixhub's version history of `package`.
pub open spec fn nixhub_url(package: Seq<char>) -> Seq<char> {
    "https://www.nixhub.io/packages/"@ + percent_encode(encode_utf8(package))
        + "?_data=routes%2F_nixhub.packages.%24pkg._index"@
}

/// The address of the channel status query of the NixOS monitoring service.
pub open spec fn nixos_channels_url() -> Seq<char> {
    "https://prometheus.nixos.org/api/v1/query?query=channel_revision"@
}

impl NixManualListTool {
    /// The address of the listing of the Nix repository's files.
    pub fn tree_url(&self) -> (r: String)
        ensures
            r@ == nix_tree_url(),
    {
        owned("https://api.github.com/repos/NixOS/nix/git/trees/master?recursive=1")
    }

    /// The manual files named in the listing `body`, in lexicographic order.
    pub fn pages(&self, body: &str) -> (r: Result<Vec<String>, ManualListFailure>)
        ensures
            match json_tree_entries(body@, "tree"@, "path"@, "type"@) {
                None => r matches Err(ManualListFailure::InvalidJson(_)),
                Some(None) => r matches Err(ManualListFailure::MissingTree),
                Some(Some(entries)) => (r matches Ok(pages) && sorted(string_views(pages@))
                    && string_views(pages@).to_multiset() == manual_candidates(
                    entries,
                    nix_manual_dir(),
                ).to_multiset()),
            },
    {
        manual_pages(body, "doc/manual/source/")
    }
}

impl NixManualReadTool {
    /// The address the file is read from.
    pub fn url(&self) -> (r: String)
        ensures
            r@ == nix_manual_file_url(self.path@),
    {
        let mut url = owned("https://raw.githubusercontent.com/NixOS/nix/master/doc/manual/source/");
        url.append(self.path.as_str());
        url.append(".md");
        url
    }
}

impl NixhubPackageVersionsTool {
    /// The address the version history is read from; the package name is percent-encoded.
    pub fn url(&self) -> (r: String)
        ensures
            r@ == nixhub_url(self.package@),
    {
        let mut url = owned("https://www.nixhub.io/packages/");
        let name = percent_encode_text(self.package.as_str());
        url.append(name.as_str());
        url.append("?_data=routes%2F_nixhub.packages.%24pkg._index");
        url
    }
}

impl NixosChannelsTool {
    /// The address the channel status is read from.
    pub fn url(&self) -> (r: String)
        ensures
            r@ == nixos_channels_url(),
    {
        owned("https://prometheus.nixos.org/api/v1/query?query=channel_revision")
    }
}

} // verus!
