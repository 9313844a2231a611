//! Replies of the scenario editor's HTTP API: reading the scenario file,
//! validating and reformatting an edited one before it is written, and
//! serving the files of the web UI.

use vstd::prelude::*;
use vstd::string::*;
use crate::config::{default_concurrency_spec, default_timeout_ms_spec};
use crate::text::{decimal, digit_char};
use crate::report::{json_accepts, json_error_message, path_extension, portable_path};

verus! {

/// An HTTP reply: status, content type and body.
#[derive(Debug)]
pub struct HttpReply {
    pub status: u16,
    pub content_type: String,
    pub body: String,
}

/// What reading the scenario file gave.
#[derive(Debug)]
pub enum FileRead {
    /// The file's content.
    Found(String),
    /// The file does not exist.
    NotFound,
    /// Reading failed for another reason, with the error text.
    Failed(String),
}

/// The scenario served when the file does not exist yet: a global run
/// block, no requests, no scenarios.
pub open spec fn empty_scenario_template() -> Seq<char> {
    "{\"requests\":{},\"run\":{\"concurrency\":10,\"output\":\"report.html\",\"output_format\":\"html\",\"requests\":100,\"timeout_ms\":5000},\"scenarios\":[]}"@
}

/// The template served for a missing scenario file opens its `run` block
/// with the default concurrency, closes it with the default timeout, and
/// has no requests and no scenarios.
pub proof fn law_template_has_defaults()
    ensures
        ({
            let t = empty_scenario_template();
            let conc = "\"run\":{\"concurrency\":"@ + decimal(default_concurrency_spec() as nat) + ","@;
            let time = "\"timeout_ms\":"@ + decimal(default_timeout_ms_spec() as nat) + "},"@;
            &&& "{\"requests\":{},"@.is_prefix_of(t)
            &&& exists|i: int| 0 <= i && i + conc.len() <= t.len() && #[trigger] t.subrange(i, i + conc.len()) == conc
            &&& exists|i: int| 0 <= i && i + time.len() <= t.len() && #[trigger] t.subrange(i, i + time.len()) == time
            &&& "\"scenarios\":[]}"@.is_suffix_of(t)
        }),
{
    reveal_strlit("{\"requests\":{},\"run\":{\"concurrency\":10,\"output\":\"report.html\",\"output_format\":\"html\",\"requests\":100,\"timeout_ms\":5000},\"scenarios\":[]}");
    reveal_strlit("\"run\":{\"concurrency\":");
    reveal_strlit(",");
    reveal_strlit("\"timeout_ms\":");
    reveal_strlit("},");
    reveal_strlit("{\"requests\":{},");
    reveal_strlit("\"scenarios\":[]}");
    assert(digit_char(0) == '0');
    assert(digit_char(1) == '1');
    assert(digit_char(5) == '5');
    reveal_with_fuel(decimal, 5);
    assert(decimal(10) =~= seq!['1', '0']);
    assert(decimal(5000) =~= seq!['5', '0', '0', '0']);
    let t = empty_scenario_template();
    let conc = "\"run\":{\"concurrency\":"@ + decimal(default_concurrency_spec() as nat) + ","@;
    let time = "\"timeout_ms\":"@ + decimal(default_timeout_ms_spec() as nat) + "},"@;
    assert(t.subrange(15, (15 + conc.len()) as int) =~= conc);
    assert(t.subrange(100, (100 + time.len()) as int) =~= time);
    assert("{\"requests\":{},"@ =~= t.take(15));
    assert("\"scenarios\":[]}"@ =~= t.skip(119));
}

/// The content type of JSON replies.
pub open spec fn json_type() -> Seq<char> {
    "application/json"@
}

/// The content type of plain-text replies.
pub open spec fn text_type() -> Seq<char> {
    "text/plain; charset=utf-8"@
}

/// The reply to `GET /api/scenario`: the file as JSON, the empty template
/// when it does not exist, an internal error otherwise.
pub fn scenario_get_reply(read: FileRead) -> (r: HttpReply)
    ensures
        read is Found ==> r.status == 200 && r.content_type@ == json_type() && r.body@
            == read->Found_0@,
        read is NotFound ==> r.status == 200 && r.content_type@ == json_type() && r.body@
            == empty_scenario_template(),
        read is Failed ==> r.status == 500 && r.content_type@ == text_type() && r.body@
            == "Cannot read file: "@ + read->Failed_0@,
{
    match read {
        FileRead::Found(content) => HttpReply {
            status: 200,
            content_type: String::from_str("application/json"),
            body: content,
        },
        FileRead::NotFound => HttpReply {
            status: 200,
            content_type: String::from_str("application/json"),
            body: String::from_str(
                "{\"requests\":{},\"run\":{\"concurrency\":10,\"output\":\"report.html\",\"output_format\":\"html\",\"requests\":100,\"timeout_ms\":5000},\"scenarios\":[]}",
            ),
        },
        FileRead::Failed(msg) => {
            let mut body = String::from_str("Cannot read file: ");
            body.append(msg.as_str());
            HttpReply { status: 500, content_type: String::from_str("text/plain; charset=utf-8"), body }
        },
    }
}

/// What `serde_json::to_string_pretty` gives for the JSON value that the
/// bytes parse to.
pub uninterp spec fn pretty_json_text(bytes: Seq<u8>) -> Seq<char>;

/// Calls `serde_json::to_string_pretty` on the `serde_json::Value` that
/// `serde_json::from_slice` parses from the bytes. Claimed: it succeeds
/// exactly when the bytes parse (printing a `Value` cannot fail: its
/// `Serialize` impl raises no error of its own, its map keys are strings,
/// and the output goes to a `Vec<u8>`, whose writes do not fail), and the
/// text is a function of the bytes. The text itself is left to the name.
#[verifier::external_body]
fn reformat_json(bytes: &[u8]) -> (res: Result<String, serde_json::Error>)
    ensures
        res is Ok <==> json_accepts(bytes@),
        res is Ok ==> res->Ok_0@ == pretty_json_text(bytes@),
{
    let value: serde_json::Value = serde_json::from_slice(bytes)?;
    serde_json::to_string_pretty(&value)
}

/// Checks the body of `PUT /api/scenario` and reformats it for writing:
/// a body that is not JSON is a bad request; JSON is pretty-printed.
pub fn prepare_scenario_put(body: &[u8]) -> (res: Result<String, HttpReply>)
    ensures
        !json_accepts(body@) ==> res is Err && res->Err_0.status == 400 && res->Err_0.content_type@
            == text_type() && "Invalid JSON: "@.is_prefix_of(res->Err_0.body@),
        json_accepts(body@) ==> res is Ok && res->Ok_0@ == pretty_json_text(body@),
{
    match reformat_json(body) {
        Ok(text) => Ok(text),
        Err(e) => {
            let mut msg = String::from_str("Invalid JSON: ");
            let detail = json_error_message(&e);
            msg.append(detail.as_str());
            Err(HttpReply { status: 400, content_type: String::from_str("text/plain; charset=utf-8"), body: msg })
        },
    }
}

/// The step of writing the scenario file that failed.
#[derive(Debug, Clone, Copy, PartialEq, Eq, Structural)]
pub enum WriteStep {
    CreateDirectory,
    WriteFile,
}

/// The reply when writing the scenario file failed.
pub fn write_failure_reply(step: WriteStep, error: &str) -> (r: HttpReply)
    ensures
        r.status == 500,
        r.content_type@ == text_type(),
        step == WriteStep::CreateDirectory ==> r.body@ == "Cannot create directory: "@ + error@,
        step == WriteStep::WriteFile ==> r.body@ == "Cannot write file: "@ + error@,
{
    let mut body = match step {
        WriteStep::CreateDirectory => String::from_str("Cannot create directory: "),
        WriteStep::WriteFile => String::from_str("Cannot write file: "),
    };
    body.append(error);
    HttpReply { status: 500, content_type: String::from_str("text/plain; charset=utf-8"), body }
}

// ── Web UI files ─────────────────────────────────────────────────────────────

/// A reply carrying a file of the web UI.
#[derive(Debug)]
pub struct AssetReply {
    pub status: u16,
    /// The `Content-Type` header, when one is sent.
    pub content_type: Option<String>,
    pub body: Vec<u8>,
}

/// The MIME type that `mime_guess` gives a portable path, as text.
pub uninterp spec fn guessed_mime(path: Seq<char>) -> Seq<char>;

/// Calls `mime_guess::from_path(path).first_or_octet_stream()` and renders
/// the type as text. Claimed: for a portable path the result is a function
/// of the path (the extension that `Path::extension` gives, looked up in a
/// static table), and such a path without an extension gets
/// "application/octet-stream", as the crate's documentation says. Which
/// type an extension maps to is left to the name; other paths are split by
/// platform-specific rules, so nothing is stated of them.
#[verifier::external_body]
fn mime_for_path(path: &str) -> (m: String)
    ensures
        portable_path(path@) ==> m@ == guessed_mime(path@),
        portable_path(path@) && path_extension(path@) is None ==> m@ == "application/octet-stream"@,
{
    mime_guess::from_path(path).first_or_octet_stream().to_string()
}

/// The reply serving a UI file: when it exists, its bytes typed by the
/// MIME type guessed from its path; otherwise 404 with an empty body.
pub fn asset_reply(path: &str, content: Option<Vec<u8>>) -> (r: AssetReply)
    ensures
        content is Some ==> r.status == 200 && r.content_type is Some && r.body@ == content->0@,
        content is Some && portable_path(path@) ==> r.content_type->0@ == guessed_mime(path@),
        content is None ==> r.status == 404 && r.content_type is None && r.body@.len() == 0,
{
    match content {
        Some(data) => AssetReply { status: 200, content_type: Some(mime_for_path(path)), body: data },
        None => AssetReply { status: 404, content_type: None, body: Vec::new() },
    }
}

} // verus!
