//! The `nix` command lines the tools run and what their output becomes.
use vstd::prelude::*;

use vstd::utf8::{decode_utf8, valid_utf8};

use crate::json::{pretty_json, reformat_json};
use crate::text::string_views;

verus! {

/// `std::string::FromUtf8Error`, carried through unread.
#[verifier::external_type_specification]
#[verifier::external_body]
pub struct ExFromUtf8Error(std::string::FromUtf8Error);

/// `String::from_utf8`: claimed to succeed exactly on valid UTF-8, with the text it encodes.
#[verifier::external_body]
pub(crate) fn utf8_string(bytes: Vec<u8>) -> (r: Result<String, std::string::FromUtf8Error>)
    ensures
        r is Ok <==> valid_utf8(bytes@),
        r matches Ok(s) ==> s@ == decode_utf8(bytes@),
{
    String::from_utf8(bytes)
}

/// What `String::from_utf8_lossy` makes of `bytes`: the text they encode, each invalid
/// sequence replaced by U+FFFD.
pub uninterp spec fn utf8_lossy(bytes: Seq<u8>) -> Seq<char>;

/// `String::from_utf8_lossy(..).to_string()`: claimed to give `utf8_lossy` of the bytes,
/// which for valid UTF-8 is the text they encode.
#[verifier::external_body]
pub(crate) fn lossy_string(bytes: &[u8]) -> (r: String)
    ensures
        r@ == utf8_lossy(bytes@),
        valid_utf8(bytes@) ==> r@ == decode_utf8(bytes@),
{
    String::from_utf8_lossy(bytes).to_string()
}

/// How a tool presents the standard output of its command.
#[derive(PartialEq, Eq, Structural, Debug, Clone, Copy)]
pub enum OutputFormat {
    /// The output is a JSON document, given back indented.
    Json,
    /// The output is given back as it is.
    Text,
}

/// A run of `nix`: its arguments, the words that start the message when it fails, and how
/// its output is presented.
pub struct NixCommand {
    pub args: Vec<String>,
    pub label: String,
    pub format: OutputFormat,
}

/// What a finished command left: whether it succeeded, its exit status as text, and its two
/// output streams.
pub struct CommandOutput {
    pub success: bool,
    pub status: String,
    pub stdout: Vec<u8>,
    pub stderr: Vec<u8>,
}

/// Why a tool's command gave no result.
pub enum CommandFailure {
    /// The command failed; the message says which one, its status and what it wrote to its
    /// error stream.
    Failed { message: String },
    /// The command's output is not UTF-8.
    InvalidUtf8(std::string::FromUtf8Error),
    /// The command's output is not the JSON document the tool expects.
    InvalidJson(serde_json::Error),
}

/// The arguments that every `nix` run starts with, followed by `rest`.
pub open spec fn nix_args(rest: Seq<Seq<char>>) -> Seq<Seq<char>> {
    seq!["--extra-experimental-features"@, "nix-command flakes"@] + rest
}

/// The message for a failed command: `<label> (status: <status>): <stderr>`.
pub open spec fn failure_message(label: Seq<char>, status: Seq<char>, stderr: Seq<char>) -> Seq<
    char,
> {
    label + " (status: "@ + status + "): "@ + stderr
}

/// A `nix` run with the common arguments followed by `rest`.
pub fn nix_command(rest: Vec<String>, label: &str, format: OutputFormat) -> (r: NixCommand)
    ensures
        string_views(r.args@) == nix_args(string_views(rest@)),
        r.label@ == label@,
        r.format == format,
{
    let mut args: Vec<String> = Vec::new();
    args.push("--extra-experimental-features".to_owned());
    args.push("nix-command flakes".to_owned());
    let ghost prefix = args@;
    let mut rest = rest;
    let ghost rest_items = rest@;
    args.append(&mut rest);
    assert(string_views(args@) =~= nix_args(string_views(rest_items)));
    NixCommand { args, label: label.to_owned(), format }
}

/// The text of a tool's result, from the output of its command.
pub fn finish_command(command: &NixCommand, output: CommandOutput) -> (r: Result<String, CommandFailure>)
    ensures
        !output.success ==> (r matches Err(CommandFailure::Failed { message }) && message@
            == failure_message(command.label@, output.status@, utf8_lossy(output.stderr@))),
        output.success && !valid_utf8(output.stdout@) ==> r matches Err(
            CommandFailure::InvalidUtf8(_),
        ),
        output.success && valid_utf8(output.stdout@) && command.format == OutputFormat::Text
            ==> (r matches Ok(s) && s@ == decode_utf8(output.stdout@)),
        output.success && valid_utf8(output.stdout@) && command.format == OutputFormat::Json
            ==> match pretty_json(decode_utf8(output.stdout@)) {
            Some(p) => (r matches Ok(s) && s@ == p),
            None => r matches Err(CommandFailure::InvalidJson(_)),
        },
{
    if !output.success {
        let stderr = lossy_string(output.stderr.as_slice());
        let mut message = command.label.clone();
        message.append(" (status: ");
        message.append(output.status.as_str());
        message.append("): ");
        message.append(stderr.as_str());
        return Err(CommandFailure::Failed { message });
    }
    let stdout = match utf8_string(output.stdout) {
        Ok(s) => s,
        Err(e) => return Err(CommandFailure::InvalidUtf8(e)),
    };
    match command.format {
        OutputFormat::Text => Ok(stdout),
        OutputFormat::Json => match reformat_json(stdout.as_str()) {
            Ok(pretty) => Ok(pretty),
            Err(e) => Err(CommandFailure::InvalidJson(e)),
        },
    }
}

/// The arguments of `nix eval --json --impure --expr <expression>`.
pub open spec fn expression_eval_args(expression: Seq<char>) -> Seq<Seq<char>> {
    nix_args(seq!["eval"@, "--json"@, "--impure"@, "--expr"@, expression])
}

/// The `nix` arguments that evaluate `expression` to JSON.
pub fn eval_expression_args(expression: String) -> (r: Vec<String>)
    ensures
        string_views(r@) == expression_eval_args(expression@),
{
    let rest = vec![
        "eval".to_owned(),
        "--json".to_owned(),
        "--impure".to_owned(),
        "--expr".to_owned(),
        expression,
    ];
    assert(string_views(rest@) =~= seq!["eval"@, "--json"@, "--impure"@, "--expr"@, expression@]);
    let c = nix_command(rest, "nix eval", OutputFormat::Json);
    c.args
}

/// The message for a failed evaluation of the options of `subject`.
pub open spec fn eval_failure_message(subject: Seq<char>, stderr: Seq<char>) -> Seq<char> {
    "nix eval for "@ + subject + " options failed: "@ + stderr
}

/// The standard output of an evaluation of the options of `subject`, as text.
pub fn eval_output_text(subject: &str, output: CommandOutput) -> (r: Result<String, CommandFailure>)
    ensures
        !output.success ==> (r matches Err(CommandFailure::Failed { message }) && message@
            == eval_failure_message(subject@, utf8_lossy(output.stderr@))),
        output.success && !valid_utf8(output.stdout@) ==> r matches Err(
            CommandFailure::InvalidUtf8(_),
        ),
        output.success && valid_utf8(output.stdout@) ==> (r matches Ok(s) && s@ == decode_utf8(
            output.stdout@,
        )),
{
    if !output.success {
        let stderr = lossy_string(output.stderr.as_slice());
        let mut message = "nix eval for ".to_owned();
        message.append(subject);
        message.append(" options failed: ");
        message.append(stderr.as_str());
        return Err(CommandFailure::Failed { message });
    }
    match utf8_string(output.stdout) {
        Ok(s) => Ok(s),
        Err(e) => Err(CommandFailure::InvalidUtf8(e)),
    }
}

} // verus!
