//! How a request for a path among the logs is answered.
//!
//! The answer is worked out in steps. A [`Step`] is either the answer or
//! something that has to be found out first; what was found goes to the function
//! that the step's documentation names, which returns the next step.

use vstd::prelude::*;
use vstd::utf8::{decode_utf8, encode_utf8, valid_utf8};

use crate::listing::{
    collect_traversal_items, collected, collected_page, entries_of, traversal_page, DirEntry,
    Entry, RUNTIME_CONDENSED_JSON, RUNTIME_CONDENSED_TXT,
};
use crate::page::{items_of, viewer, viewer_page, Item, TraversalItem};
use crate::paths::{
    below, extension, file_name, is_below, join_path, joined_path, last_name, path_extension,
    renamed, starts_with_path, strip_path, with_file_name,
};
use crate::request::{
    accept_prefers_html, decode_path, first_values, header_value, likes_html, percent_bytes,
    percent_decoded,
};
use crate::text::{is_text, to_chars, to_string};

verus! {

/// A short message with a status of its own.
#[derive(Debug)]
pub struct Message {
    /// The HTTP status.
    pub status: u16,
    /// The text.
    pub body: String,
}

/// An answer.
#[derive(Debug)]
pub enum Reply {
    /// A message.
    Message(Message),
    /// Content that may be cached, with the headers of [`headers`], or the message
    /// that stands in its place.
    Content { content_type: &'static str, body: Result<String, Message> },
}

/// The formats in which runtimes are condensed.
#[derive(Debug, Clone, Copy, PartialEq, Eq, Structural)]
pub enum Condensed {
    /// As text.
    Txt,
    /// As JSON.
    Json,
}

/// What is remembered of a request.
#[derive(Debug)]
pub struct Visit {
    /// Where the logs are.
    pub raw_logs_path: String,
    /// The path that is requested.
    pub requested_path: String,
    /// Whether a directory is wanted as JSON.
    pub wants_json: bool,
    /// Whether a log is wanted in the viewer.
    pub wants_viewer: bool,
}

/// What comes next.
#[derive(Debug)]
pub enum Step {
    /// The answer.
    Reply(Reply),
    /// Whether the requested path belongs to a round that is still played; for
    /// [`after_ongoing`].
    AskOngoing(Visit),
    /// The runtimes at a path, condensed; for [`after_condensing`].
    CondenseRuntimes { path: String, format: Condensed },
    /// What stands at the requested path; for [`after_metadata`].
    ReadMetadata(Visit),
    /// The entries of the requested directory; for [`after_listing`].
    ListDirectory(Visit),
    /// The items as JSON; for [`after_encoding`].
    EncodeItems(Vec<TraversalItem>),
    /// The requested file, sanitized; for [`after_reading`].
    ReadFile(Visit),
}

/// Something could not be found out.
#[derive(Debug, Clone, Copy, PartialEq, Eq, Structural)]
pub struct Failed;

/// What stands at a path.
#[derive(Debug, Clone, Copy, PartialEq, Eq, Structural)]
pub enum FileKind {
    /// A directory.
    Directory,
    /// A regular file.
    File,
    /// Something else.
    Other,
}

/// Why it could not be found out what stands at a path.
#[derive(Debug, Clone, Copy, PartialEq, Eq, Structural)]
pub enum MetadataError {
    /// Nothing stands there.
    NotFound,
    /// The path leads through something that is not a directory.
    NotADirectory,
    /// Any other reason.
    Other,
}

/// What became of reading a file.
#[derive(Debug)]
pub enum Reading {
    /// It is not known how to take what is private out of such a file.
    NoStrategy,
    /// The file could not be read.
    Unreadable,
    /// What is left of the file without what is private.
    Scrubbed(String),
}

/// The model of a [`Message`].
pub struct Note {
    pub status: int,
    pub body: Seq<char>,
}

/// The model of a [`Reply`].
pub enum Answer {
    Note(Note),
    Content { content_type: Seq<char>, body: Result<Seq<char>, Note> },
}

/// The model of a [`Visit`].
pub struct Call {
    pub logs: Seq<char>,
    pub path: Seq<char>,
    pub wants_json: bool,
    pub wants_viewer: bool,
}

/// The model of a [`Step`].
pub enum Next {
    Answer(Answer),
    AskOngoing(Call),
    CondenseRuntimes { path: Seq<char>, format: Condensed },
    ReadMetadata(Call),
    ListDirectory(Call),
    EncodeItems(Seq<Item>),
    ReadFile(Call),
}

/// The model of a [`Reading`].
pub enum Read {
    NoStrategy,
    Unreadable,
    Scrubbed(Seq<char>),
}

impl View for Reading {
    type V = Read;

    open spec fn view(&self) -> Read {
        match *self {
            Reading::NoStrategy => Read::NoStrategy,
            Reading::Unreadable => Read::Unreadable,
            Reading::Scrubbed(text) => Read::Scrubbed(text@),
        }
    }
}

impl View for Message {
    type V = Note;

    open spec fn view(&self) -> Note {
        Note { status: self.status as int, body: self.body@ }
    }
}

impl View for Reply {
    type V = Answer;

    open spec fn view(&self) -> Answer {
        match *self {
            Reply::Message(message) => Answer::Note(message@),
            Reply::Content { content_type, body } => Answer::Content {
                content_type: content_type@,
                body: match body {
                    Ok(text) => Ok(text@),
                    Err(message) => Err(message@),
                },
            },
        }
    }
}

impl View for Visit {
    type V = Call;

    open spec fn view(&self) -> Call {
        Call {
            logs: self.raw_logs_path@,
            path: self.requested_path@,
            wants_json: self.wants_json,
            wants_viewer: self.wants_viewer,
        }
    }
}

impl View for Step {
    type V = Next;

    open spec fn view(&self) -> Next {
        match *self {
            Step::Reply(reply) => Next::Answer(reply@),
            Step::AskOngoing(visit) => Next::AskOngoing(visit@),
            Step::CondenseRuntimes { path, format } => Next::CondenseRuntimes {
                path: path@,
                format,
            },
            Step::ReadMetadata(visit) => Next::ReadMetadata(visit@),
            Step::ListDirectory(visit) => Next::ListDirectory(visit@),
            Step::EncodeItems(items) => Next::EncodeItems(items_of(items@)),
            Step::ReadFile(visit) => Next::ReadFile(visit@),
        }
    }
}

/// The answer `body` with the status `status`.
pub open spec fn note(status: int, body: Seq<char>) -> Answer {
    Answer::Note(Note { status, body })
}

/// The answer `body`, of the type `content_type`.
pub open spec fn content(content_type: Seq<char>, body: Seq<char>) -> Answer {
    Answer::Content { content_type, body: Ok(body) }
}

/// The message that something went wrong.
pub open spec fn failure(status: int, message: Seq<char>) -> Note {
    Note {
        status,
        body: message
            + "\nplease report this error to mothblocks, ideally with the url you tried"@,
    }
}

/// The answer where there is nothing that the public may see.
pub open spec fn missing() -> Answer {
    note(404, "couldn't find that path"@)
}

/// The path that is requested by a client that names `path`.
pub open spec fn requested(logs: Seq<char>, path: Seq<char>) -> Seq<char> {
    joined_path(
        logs,
        if path.len() > 0 && path[0] == '/' {
            path.skip(1)
        } else {
            path
        },
    )
}

/// The first step of a request for `path`.
pub open spec fn first_step(
    logs: Seq<char>,
    path: Seq<char>,
    wants_json: bool,
    wants_viewer: bool,
) -> Next {
    if is_below(requested(logs, path), logs) {
        Next::AskOngoing(
            Call { logs, path: requested(logs, path), wants_json, wants_viewer },
        )
    } else {
        Next::Answer(note(403, "attempted path traversal"@))
    }
}

/// The first step of a request for `path` with the parameters `format` and `raw`, by
/// a client that accepts `accept`.
pub open spec fn request_step(
    logs: Seq<char>,
    path: Seq<char>,
    format: Option<Seq<char>>,
    raw: Option<Seq<char>>,
    accept: Option<Seq<char>>,
) -> Next {
    first_step(
        logs,
        path,
        format == Some("json"@),
        raw != Some("1"@) && likes_html(accept),
    )
}

/// The value of a parameter of a request.
pub open spec fn parameter(value: Option<&str>) -> Option<Seq<char>> {
    match value {
        Some(value) => Some(value@),
        None => None,
    }
}

/// The step after it is known whether the path belongs to a round that is still
/// played.
pub open spec fn step_after_ongoing(call: Call, ongoing: Result<bool, Failed>) -> Next {
    match ongoing {
        Ok(true) => Next::Answer(missing()),
        Ok(false) => if last_name(call.path) == Some(RUNTIME_CONDENSED_TXT@) {
            Next::CondenseRuntimes {
                path: renamed(call.path, "runtime.log"@),
                format: Condensed::Txt,
            }
        } else if last_name(call.path) == Some(RUNTIME_CONDENSED_JSON@) {
            Next::CondenseRuntimes {
                path: renamed(call.path, "runtime.log"@),
                format: Condensed::Json,
            }
        } else {
            Next::ReadMetadata(call)
        },
        Err(_) => Next::Answer(
            Answer::Note(failure(500, "error figuring out if that round is ongoing or not"@)),
        ),
    }
}

/// The answer with condensed runtimes.
pub open spec fn answer_after_condensing(
    format: Condensed,
    runtimes: Result<Seq<char>, Failed>,
) -> Answer {
    match runtimes {
        Ok(text) => match format {
            Condensed::Txt => content("text/plain"@, text),
            Condensed::Json => content("application/json"@, text),
        },
        Err(_) => Answer::Note(failure(404, "couldn't find runtime.log"@)),
    }
}

/// The step after it is known what stands at the path.
pub open spec fn step_after_metadata(
    call: Call,
    metadata: Result<FileKind, MetadataError>,
) -> Next {
    match metadata {
        Ok(FileKind::Directory) => Next::ListDirectory(call),
        Ok(FileKind::File) => Next::ReadFile(call),
        Ok(FileKind::Other) => Next::Answer(note(400, "tried to access weird file"@)),
        Err(MetadataError::Other) => Next::Answer(
            Answer::Note(failure(500, "couldn't get metadata of path"@)),
        ),
        Err(_) => Next::Answer(missing()),
    }
}

/// The step after the entries of the directory are known.
pub open spec fn step_after_listing(call: Call, entries: Result<Seq<Entry>, Failed>) -> Next {
    if call.wants_json {
        let items = match entries {
            Ok(entries) => collected(call.logs, call.path, entries),
            Err(_) => None,
        };
        match items {
            Some(items) => Next::EncodeItems(items),
            None => Next::Answer(Answer::Note(failure(500, "error creating traversal JSON"@))),
        }
    } else {
        let page = match entries {
            Ok(entries) => collected_page(call.logs, call.path, entries),
            Err(_) => None,
        };
        Next::Answer(
            Answer::Content {
                content_type: "text/html"@,
                body: match page {
                    Some(page) => Ok(page),
                    None => Err(failure(500, "error creating traversal page"@)),
                },
            },
        )
    }
}

/// The answer with the items of a directory as JSON.
pub open spec fn answer_after_encoding(json: Seq<char>) -> Answer {
    content("application/json"@, json)
}

/// Whether the file at `path` is plain text: a log, a text, or a file without an
/// extension.
pub open spec fn is_plain_text(path: Seq<char>) -> bool {
    path_extension(path) is None || path_extension(path) == Some("log"@) || path_extension(path)
        == Some("txt"@)
}

/// The type of the content of the file at `path`.
pub open spec fn content_type_of(path: Seq<char>) -> Seq<char> {
    if path_extension(path) == Some("json"@) {
        "application/json"@
    } else if path_extension(path) == Some("html"@) {
        "text/html"@
    } else {
        "text/plain; charset=utf-8"@
    }
}

/// The answer with a file of which `scrubbed` is left.
pub open spec fn answer_with_file(call: Call, scrubbed: Seq<char>) -> Answer {
    if call.wants_viewer && is_plain_text(call.path) {
        let relative = match below(call.path, call.logs) {
            Some(relative) => relative,
            None => call.path,
        };
        content("text/html; charset=utf-8"@, viewer(relative, scrubbed))
    } else {
        content(content_type_of(call.path), scrubbed)
    }
}

/// The answer after the requested file was read.
pub open spec fn answer_after_reading(call: Call, read: Read) -> Answer {
    match read {
        Read::NoStrategy => missing(),
        Read::Unreadable => Answer::Note(failure(500, "couldn't read file"@)),
        Read::Scrubbed(text) => answer_with_file(call, text),
    }
}

/// A message.
fn message(status: u16, body: &str) -> (reply: Reply)
    ensures
        reply@ == note(status as int, body@),
{
    Reply::Message(Message { status, body: body.to_owned() })
}

/// The answer where there is nothing that the public may see.
fn not_found() -> (reply: Reply)
    ensures
        reply@ == missing(),
{
    message(404, "couldn't find that path")
}

/// The headers of content of the type `content_type`.
pub fn headers<'a>(content_type: &'a str) -> (pairs: [(&'static str, &'a str); 2])
    ensures
        pairs@[0] == ("cache-control", "public, max-age=31536000"),
        pairs@[1] == ("content-type", content_type),
{
    [("cache-control", "public, max-age=31536000"), ("content-type", content_type)]
}

/// The message that something went wrong.
pub fn error_to_response(status_code: u16, message: &str) -> (out: Message)
    ensures
        out@ == failure(status_code as int, message@),
{
    let mut body: String = message.to_owned();
    body.append("\nplease report this error to mothblocks, ideally with the url you tried");
    Message { status: status_code, body }
}

/// The first step of a request for the path `path`, from which percent signs have
/// been decoded.
pub fn get_decoded(
    raw_logs_path: &str,
    path: &str,
    wants_json: bool,
    wants_viewer: bool,
) -> (step: Step)
    ensures
        step@ == first_step(raw_logs_path@, path@, wants_json, wants_viewer),
{
    let logs = to_chars(raw_logs_path);
    let mut named = to_chars(path);
    if named.len() > 0 && named[0] == '/' {
        let slash = named.remove(0);
        assert(named@ == path@.skip(1));
    }
    let requested_path = join_path(logs.as_slice(), named.as_slice());
    if !starts_with_path(requested_path.as_slice(), logs.as_slice()) {
        return Step::Reply(message(403, "attempted path traversal"));
    }
    Step::AskOngoing(
        Visit {
            raw_logs_path: raw_logs_path.to_owned(),
            requested_path: to_string(requested_path.as_slice()),
            wants_json,
            wants_viewer,
        },
    )
}

/// Whether a parameter of a request has the value `wanted`.
fn is_set(value: Option<&str>, wanted: &str) -> (yes: bool)
    ensures
        yes == (value is Some && value->0@ == wanted@),
{
    match value {
        Some(value) => is_text(to_chars(value).as_slice(), wanted),
        None => false,
    }
}

/// The first step of a request for the path `uri_path`, with the parameters
/// `format` and `raw`. A client gets a directory as JSON if it asks for the format
/// `json`. It gets a log in the viewer if it accepts HTML and has not asked for the
/// raw file by `raw=1`. A path whose bytes, once decoded, are UTF-8 stands for the
/// text that they encode.
pub fn get(
    raw_logs_path: &str,
    uri_path: &str,
    format: Option<&str>,
    raw: Option<&str>,
    request_headers: &axum::http::HeaderMap,
) -> (step: Step)
    ensures
        step@ == first_step(
            raw_logs_path@,
            percent_decoded(uri_path@),
            format is Some && format->0@ == "json"@,
            !(raw is Some && raw->0@ == "1"@) && likes_html(
                header_value(first_values(*request_headers), "accept"@),
            ),
        ),
        valid_utf8(percent_bytes(encode_utf8(uri_path@))) ==> percent_decoded(uri_path@)
            == decode_utf8(percent_bytes(encode_utf8(uri_path@))),
        step@ == request_step(
            raw_logs_path@,
            percent_decoded(uri_path@),
            parameter(format),
            parameter(raw),
            header_value(first_values(*request_headers), "accept"@),
        ),
{
    let decoded_path = decode_path(uri_path);
    let wants_json = is_set(format, "json");
    let force_raw = is_set(raw, "1");
    let wants_viewer = !force_raw && accept_prefers_html(request_headers);
    get_decoded(raw_logs_path, decoded_path.as_str(), wants_json, wants_viewer)
}

/// The step after it is known whether the requested path belongs to a round that
/// is still played.
pub fn after_ongoing(visit: Visit, ongoing: Result<bool, Failed>) -> (step: Step)
    ensures
        step@ == step_after_ongoing(visit@, ongoing),
{
    match ongoing {
        Ok(true) => Step::Reply(not_found()),
        Ok(false) => {
            let path = to_chars(visit.requested_path.as_str());
            let format = match file_name(path.as_slice()) {
                Some(name) => if is_text(name, RUNTIME_CONDENSED_TXT) {
                    Some(Condensed::Txt)
                } else if is_text(name, RUNTIME_CONDENSED_JSON) {
                    Some(Condensed::Json)
                } else {
                    None
                },
                None => None,
            };
            match format {
                Some(format) => {
                    let log = with_file_name(path.as_slice(), to_chars("runtime.log").as_slice());
                    Step::CondenseRuntimes { path: to_string(log.as_slice()), format }
                },
                None => Step::ReadMetadata(visit),
            }
        },
        Err(_) => Step::Reply(
            Reply::Message(
                error_to_response(500, "error figuring out if that round is ongoing or not"),
            ),
        ),
    }
}

/// The text of a result, where there is one.
pub open spec fn text_of(found: Result<String, Failed>) -> Result<Seq<char>, Failed> {
    match found {
        Ok(text) => Ok(text@),
        Err(failed) => Err(failed),
    }
}

/// The answer with condensed runtimes.
pub fn after_condensing(format: Condensed, runtimes: Result<String, Failed>) -> (reply: Reply)
    ensures
        reply@ == answer_after_condensing(format, text_of(runtimes)),
{
    match runtimes {
        Ok(text) => {
            let content_type = match format {
                Condensed::Txt => "text/plain",
                Condensed::Json => "application/json",
            };
            Reply::Content { content_type, body: Ok(text) }
        },
        Err(_) => Reply::Message(error_to_response(404, "couldn't find runtime.log")),
    }
}

/// The step after it is known what stands at the requested path.
pub fn after_metadata(visit: Visit, metadata: Result<FileKind, MetadataError>) -> (step: Step)
    ensures
        step@ == step_after_metadata(visit@, metadata),
{
    match metadata {
        Ok(FileKind::Directory) => Step::ListDirectory(visit),
        Ok(FileKind::File) => Step::ReadFile(visit),
        Ok(FileKind::Other) => Step::Reply(message(400, "tried to access weird file")),
        Err(MetadataError::NotFound) => Step::Reply(not_found()),
        Err(MetadataError::NotADirectory) => Step::Reply(not_found()),
        Err(MetadataError::Other) => Step::Reply(
            Reply::Message(error_to_response(500, "couldn't get metadata of path")),
        ),
    }
}

/// The entries of a result, where there are any.
pub open spec fn found_entries(found: Result<Vec<DirEntry>, Failed>) -> Result<
    Seq<Entry>,
    Failed,
> {
    match found {
        Ok(entries) => Ok(entries_of(entries@)),
        Err(failed) => Err(failed),
    }
}

/// The step after the entries of the requested directory are known.
pub fn after_listing(visit: Visit, entries: Result<Vec<DirEntry>, Failed>) -> (step: Step)
    ensures
        step@ == step_after_listing(visit@, found_entries(entries)),
{
    let logs = visit.raw_logs_path.as_str();
    let path = visit.requested_path.as_str();
    if visit.wants_json {
        let items = match entries {
            Ok(entries) => match collect_traversal_items(logs, path, &entries) {
                Ok(items) => Some(items),
                Err(_) => None,
            },
            Err(_) => None,
        };
        match items {
            Some(items) => Step::EncodeItems(items),
            None => Step::Reply(
                Reply::Message(error_to_response(500, "error creating traversal JSON")),
            ),
        }
    } else {
        let page = match entries {
            Ok(entries) => match traversal_page(logs, path, &entries) {
                Ok(page) => Some(page),
                Err(_) => None,
            },
            Err(_) => None,
        };
        let body = match page {
            Some(page) => Ok(page),
            None => Err(error_to_response(500, "error creating traversal page")),
        };
        Step::Reply(Reply::Content { content_type: "text/html", body })
    }
}

/// The answer with the items of a directory as JSON.
pub fn after_encoding(json: String) -> (reply: Reply)
    ensures
        reply@ == content("application/json"@, json@),
        reply@ == answer_after_encoding(json@),
{
    Reply::Content { content_type: "application/json", body: Ok(json) }
}

/// The answer with the requested file, of which `scrubbed` is left. A log is shown
/// in the viewer only if the client wants that and the file is plain text.
pub fn answer_file(visit: &Visit, scrubbed: String) -> (reply: Reply)
    ensures
        reply@ == answer_with_file(visit@, scrubbed@),
{
    let path = to_chars(visit.requested_path.as_str());
    let found = extension(path.as_slice());
    let plain_text = match found {
        Some(found) => is_text(found, "log") || is_text(found, "txt"),
        None => true,
    };
    if visit.wants_viewer && plain_text {
        let relative = match strip_path(
            path.as_slice(),
            to_chars(visit.raw_logs_path.as_str()).as_slice(),
        ) {
            Some(relative) => to_string(relative),
            None => visit.requested_path.clone(),
        };
        let page = viewer_page(relative.as_str(), scrubbed.as_str());
        return Reply::Content { content_type: "text/html; charset=utf-8", body: Ok(page) };
    }
    let content_type = match found {
        Some(found) => if is_text(found, "json") {
            "application/json"
        } else if is_text(found, "html") {
            "text/html"
        } else {
            "text/plain; charset=utf-8"
        },
        None => "text/plain; charset=utf-8",
    };
    Reply::Content { content_type, body: Ok(scrubbed) }
}

/// The answer after the requested file was read.
pub fn after_reading(visit: Visit, reading: Reading) -> (reply: Reply)
    ensures
        reply@ == answer_after_reading(visit@, reading@),
{
    match reading {
        Reading::NoStrategy => not_found(),
        Reading::Unreadable => Reply::Message(error_to_response(500, "couldn't read file")),
        Reading::Scrubbed(text) => answer_file(&visit, text),
    }
}

} // verus!
