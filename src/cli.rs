//! The command-line client's options and the rendering of its output.
use vstd::prelude::*;
use vstd::string::StringExecFns;

verus! {

/// How the client prints a reply.
#[derive(Copy, Clone, Debug, PartialEq, Eq, Structural)]
pub enum OutputFormat {
    /// Human readable plain text.
    Plain,
    /// JSON formatted output.
    Json,
}

/// Client subcommands.
#[derive(Copy, Clone, Debug, PartialEq, Eq, Structural)]
pub enum Commands {
    /// Show daemon status.
    Status,
}

/// Global command line options and the subcommand.
#[derive(Clone, Debug)]
pub struct Cli {
    /// Output as JSON.
    pub json: bool,
    /// Output in plain text; wins over `json`.
    pub plain: bool,
    /// Endpoint of the daemon.
    pub endpoint: String,
    pub command: Commands,
}

impl Cli {
    /// The output format the flags select: plain text unless `--json` is
    /// given without `--plain`.
    pub fn output_format(&self) -> (r: OutputFormat)
        ensures
            r == (if self.json && !self.plain {
                OutputFormat::Json
            } else {
                OutputFormat::Plain
            }),
    {
        if self.plain {
            OutputFormat::Plain
        } else if self.json {
            OutputFormat::Json
        } else {
            OutputFormat::Plain
        }
    }
}

/// The daemon's answer to a status query.
#[derive(Clone, Debug)]
pub struct StatusReply {
    pub message: String,
}

/// Lowercase hexadecimal digit of `n`, below 16.
pub open spec fn hex_digit(n: u32) -> char {
    seq!['0', '1', '2', '3', '4', '5', '6', '7', '8', '9', 'a', 'b', 'c', 'd', 'e', 'f'][n as int]
}

/// How one character stands inside a JSON string literal: `"` and `\`
/// escaped, the control characters with a short escape where JSON has one,
/// the other control characters as `\u00xx`, everything else as itself.
pub open spec fn json_escape(c: char) -> Seq<char> {
    if c == '"' {
        seq!['\\', '"']
    } else if c == '\\' {
        seq!['\\', '\\']
    } else if c == '\u{8}' {
        seq!['\\', 'b']
    } else if c == '\t' {
        seq!['\\', 't']
    } else if c == '\n' {
        seq!['\\', 'n']
    } else if c == '\u{c}' {
        seq!['\\', 'f']
    } else if c == '\r' {
        seq!['\\', 'r']
    } else if (c as u32) < 0x20 {
        seq!['\\', 'u', '0', '0', hex_digit((c as u32) / 16), hex_digit((c as u32) % 16)]
    } else {
        seq![c]
    }
}

/// The characters of `s`, each as it stands inside a JSON string literal.
pub open spec fn json_escaped(s: Seq<char>) -> Seq<char>
    decreases s.len(),
{
    if s.len() == 0 {
        Seq::empty()
    } else {
        json_escaped(s.drop_last()) + json_escape(s.last())
    }
}

/// The JSON string literal that stands for `s`: its escaped characters
/// between double quotes.
pub open spec fn json_string_of(s: Seq<char>) -> Seq<char> {
    seq!['"'] + json_escaped(s) + seq!['"']
}

/// Relies on serde_json::to_string on a `str`: the JSON string literal of
/// its text, escaped by serde_json's compact formatter. Serialising a `str`
/// into memory cannot fail, so the error arm is never taken.
#[verifier::external_body]
fn json_string(s: &str) -> (r: String)
    ensures
        r@ == json_string_of(s@),
{
    match serde_json::to_string(s) {
        Ok(j) => j,
        Err(_) => String::new(),
    }
}

/// The JSON object `{"message":<encoded>}`, where `encoded` is the JSON
/// string literal of the message.
pub fn frame_status_json(encoded: &str) -> (r: String)
    ensures
        r@ == seq!['{', '"', 'm', 'e', 's', 's', 'a', 'g', 'e', '"', ':'] + encoded@ + seq!['}'],
{
    let mut r = String::from_str("{\"message\":");
    r.append(encoded);
    r.append("}");
    proof {
        reveal_strlit("{\"message\":");
        reveal_strlit("}");
        assert(r@ =~= seq!['{', '"', 'm', 'e', 's', 's', 'a', 'g', 'e', '"', ':'] + encoded@ + seq![
            '}',
        ]);
    }
    r
}

/// Format the status reply in the selected format: the message itself, or
/// a JSON object holding it under `message`.
pub fn render(reply: StatusReply, fmt: OutputFormat) -> (r: String)
    ensures
        fmt == OutputFormat::Plain ==> r@ == reply.message@,
        fmt == OutputFormat::Json ==> r@ == seq!['{', '"', 'm', 'e', 's', 's', 'a', 'g', 'e', '"', ':']
            + json_string_of(reply.message@) + seq!['}'],
{
    match fmt {
        OutputFormat::Plain => reply.message,
        OutputFormat::Json => {
            let encoded = json_string(reply.message.as_str());
            frame_status_json(encoded.as_str())
        },
    }
}

} // verus!
