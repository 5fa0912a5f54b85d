//! How requests are answered.

use vstd::prelude::*;

use crate::laws::paths::{
    are_names, law_below_leads_back, law_below_takes_the_base_away, law_components_of_renamed,
    law_joined_path_is_below, lemma_joined_names, put_behind,
};
use crate::listing::{
    collected, collected_page, Entry, RUNTIME_CONDENSED_JSON, RUNTIME_CONDENSED_TXT,
};
use crate::page::{viewer, Item};
use crate::paths::{
    below, components, is_absolute, is_below, joined_path, last_name, path_extension, renamed,
};
use crate::request::likes_html;
use crate::route::{
    answer_after_condensing, answer_after_encoding, answer_after_reading, answer_with_file, content,
    content_type_of, first_step, is_plain_text, missing, note, request_step, step_after_listing,
    step_after_metadata, step_after_ongoing, Answer, Call, Condensed, Failed, FileKind,
    MetadataError, Next, Note, Read,
};
use crate::text::{holds, joined};

verus! {

/// What can be found out while a request is answered.
pub struct World {
    /// Whether a path belongs to a round that is still played.
    pub ongoing: spec_fn(Seq<char>) -> Result<bool, Failed>,
    /// The condensed runtimes at a path.
    pub runtimes: spec_fn(Seq<char>, Condensed) -> Result<Seq<char>, Failed>,
    /// What stands at a path.
    pub metadata: spec_fn(Seq<char>) -> Result<FileKind, MetadataError>,
    /// The entries of a directory.
    pub entries: spec_fn(Seq<char>) -> Result<Seq<Entry>, Failed>,
    /// Items as JSON.
    pub encoded: spec_fn(Seq<Item>) -> Seq<char>,
    /// What is left of a file without what is private.
    pub read: spec_fn(Seq<char>) -> Read,
}

/// How many steps may follow, at most.
pub open spec fn steps_left(next: Next) -> nat {
    match next {
        Next::Answer(answer) => 0,
        Next::AskOngoing(call) => 4,
        Next::CondenseRuntimes { path, format } => 1,
        Next::ReadMetadata(call) => 3,
        Next::ListDirectory(call) => 2,
        Next::EncodeItems(items) => 1,
        Next::ReadFile(call) => 1,
    }
}

/// The answer in which the step `next` ends.
pub open spec fn answer(world: World, next: Next) -> Answer
    decreases steps_left(next),
{
    match next {
        Next::Answer(answer) => answer,
        Next::AskOngoing(call) => answer(
            world,
            step_after_ongoing(call, (world.ongoing)(call.path)),
        ),
        Next::CondenseRuntimes { path, format } => answer_after_condensing(
            format,
            (world.runtimes)(path, format),
        ),
        Next::ReadMetadata(call) => answer(
            world,
            step_after_metadata(call, (world.metadata)(call.path)),
        ),
        Next::ListDirectory(call) => answer(
            world,
            step_after_listing(call, (world.entries)(call.path)),
        ),
        Next::EncodeItems(items) => answer_after_encoding((world.encoded)(items)),
        Next::ReadFile(call) => answer_after_reading(call, (world.read)(call.path)),
    }
}

/// A round that is still played is answered as if nothing were there, whatever is
/// there.
pub proof fn law_ongoing_rounds_look_missing(world: World, call: Call)
    requires
        (world.ongoing)(call.path) == Ok::<bool, Failed>(true),
    ensures
        answer(world, Next::AskOngoing(call)) == missing(),
{
    reveal_with_fuel(answer, 2);
}

/// A path at which nothing stands, and that offers no condensed runtimes, is
/// answered in the same way.
pub proof fn law_nothing_looks_missing(world: World, call: Call)
    requires
        (world.ongoing)(call.path) == Ok::<bool, Failed>(false),
        last_name(call.path) != Some(RUNTIME_CONDENSED_TXT@),
        last_name(call.path) != Some(RUNTIME_CONDENSED_JSON@),
        (world.metadata)(call.path) == Err::<FileKind, MetadataError>(MetadataError::NotFound) || (
        world.metadata)(call.path) == Err::<FileKind, MetadataError>(MetadataError::NotADirectory),
    ensures
        answer(world, Next::AskOngoing(call)) == missing(),
{
    reveal_with_fuel(answer, 3);
}

/// A file that cannot be sanitized is answered in the same way, and is not shown.
pub proof fn law_unsanitizable_files_look_missing(world: World, call: Call)
    requires
        (world.ongoing)(call.path) == Ok::<bool, Failed>(false),
        last_name(call.path) != Some(RUNTIME_CONDENSED_TXT@),
        last_name(call.path) != Some(RUNTIME_CONDENSED_JSON@),
        (world.metadata)(call.path) == Ok::<FileKind, MetadataError>(FileKind::File),
        (world.read)(call.path) == Read::NoStrategy,
    ensures
        answer(world, Next::AskOngoing(call)) == missing(),
{
    reveal_with_fuel(answer, 4);
}

/// A request is refused if and only if the path behind the first slash is absolute
/// and its components do not open with those of the logs. Any other path is looked
/// for as seen from the logs, so that the components of what is looked for open
/// with those of the logs. Two dots count as a component like any other, and are
/// not refused.
pub proof fn law_what_is_refused(
    logs: Seq<char>,
    path: Seq<char>,
    wants_json: bool,
    wants_viewer: bool,
)
    ensures
        ({
            let named = if is_absolute(path) {
                path.skip(1)
            } else {
                path
            };
            let step = first_step(logs, path, wants_json, wants_viewer);
            if is_absolute(named) && !is_below(named, logs) {
                step == Next::Answer(note(403, "attempted path traversal"@))
            } else {
                &&& step matches Next::AskOngoing(call)
                &&& call.path == joined_path(logs, named)
                &&& is_below(call.path, logs)
            }
        }),
{
    let named = if is_absolute(path) {
        path.skip(1)
    } else {
        path
    };
    if !is_absolute(named) {
        law_joined_path_is_below(logs, named);
    }
}

/// If the components of the requested path open with those of the logs and go on,
/// then so do those of the runtimes that are condensed for it; only the last
/// component differs.
pub proof fn law_condensed_runtimes_lie_below(call: Call)
    requires
        is_below(call.path, call.logs),
        components(call.path).len() > components(call.logs).len(),
    ensures
        step_after_ongoing(call, Ok(false)) matches Next::CondenseRuntimes { path, format } ==> {
            &&& is_below(path, call.logs)
            &&& components(path) == components(call.path).drop_last().push("runtime.log"@)
        },
{
    reveal_strlit("runtime.log");
    if let Next::CondenseRuntimes { path, format } = step_after_ongoing(call, Ok(false)) {
        law_components_of_renamed(call.path, "runtime.log"@);
        let all = components(call.path);
        let base = components(call.logs);
        assert(base == all.subrange(0, base.len() as int));
        assert(base == components(path).subrange(0, base.len() as int));
    }
}

/// A file is shown in the viewer if and only if the client wants that and the file
/// is plain text; what is left of it is handed out as it is otherwise.
pub proof fn law_when_the_viewer_is_used(call: Call, scrubbed: Seq<char>)
    ensures
        ({
            let shown = answer_with_file(call, scrubbed);
            let relative = match below(call.path, call.logs) {
                Some(relative) => relative,
                None => call.path,
            };
            &&& call.wants_viewer && is_plain_text(call.path) ==> shown == content(
                "text/html; charset=utf-8"@,
                viewer(relative, scrubbed),
            )
            &&& !(call.wants_viewer && is_plain_text(call.path)) ==> shown == content(
                content_type_of(call.path),
                scrubbed,
            )
            &&& content_type_of(call.path) != "text/html; charset=utf-8"@
        }),
{
    reveal_strlit("text/html; charset=utf-8");
    reveal_strlit("application/json");
    reveal_strlit("text/html");
    reveal_strlit("text/plain; charset=utf-8");
    assert("text/html; charset=utf-8"@.len() == 24);
    assert("application/json"@.len() == 16);
    assert("text/html"@.len() == 9);
    assert("text/plain; charset=utf-8"@.len() == 25);
}

/// Files that are JSON or HTML are never shown in the viewer.
pub proof fn law_json_and_html_are_not_viewed(call: Call, scrubbed: Seq<char>)
    requires
        path_extension(call.path) == Some("json"@) || path_extension(call.path) == Some("html"@),
    ensures
        answer_with_file(call, scrubbed) == content(content_type_of(call.path), scrubbed),
{
    reveal_strlit("json");
    reveal_strlit("html");
    reveal_strlit("log");
    reveal_strlit("txt");
    assert("json"@.len() == 4 && "html"@.len() == 4 && "log"@.len() == 3 && "txt"@.len() == 3);
}

/// A request: the path that is asked for, the parameters `format` and `raw`, and what
/// the client accepts.
pub struct Request {
    pub path: Seq<char>,
    pub format: Option<Seq<char>>,
    pub raw: Option<Seq<char>>,
    pub accept: Option<Seq<char>>,
}

/// The answer to a request.
pub open spec fn answer_to(world: World, logs: Seq<char>, request: Request) -> Answer {
    answer(
        world,
        request_step(logs, request.path, request.format, request.raw, request.accept),
    )
}

/// The place of `path` in the directory `logs`; an absolute path tells its place.
pub open spec fn place(logs: Seq<char>, path: Seq<char>) -> Seq<char> {
    if path.len() > 0 && path[0] == '/' {
        path
    } else {
        put_behind(logs, path)
    }
}

/// Whether a request asks for `path`, in front of which a slash may stand, and is not
/// refused.
pub open spec fn asks_for(logs: Seq<char>, request: Request, path: Seq<char>) -> bool {
    &&& request.path == seq!['/'] + path || request.path == path && !is_absolute(path)
    &&& is_absolute(path) ==> is_below(path, logs)
}

/// Whether the client would like to get HTML: what it accepts holds `text/html`, and
/// it has not asked for the raw file.
pub open spec fn wants_html(request: Request) -> bool {
    &&& request.raw != Some("1"@)
    &&& request.accept matches Some(accept) && exists|before: Seq<char>, after: Seq<char>|
        accept == #[trigger] (before + "text/html"@ + after)
}

/// Whether a place is neither a round that is still played nor a name under which
/// runtimes are offered condensed.
pub open spec fn is_ordinary(world: World, at: Seq<char>) -> bool {
    &&& (world.ongoing)(at) == Ok::<bool, Failed>(false)
    &&& last_name(at) != Some("runtime.condensed.txt"@)
    &&& last_name(at) != Some("runtime.condensed.json"@)
}

/// A message with a status.
pub open spec fn says(answer: Answer, status: int, body: Seq<char>) -> bool {
    answer == Answer::Note(Note { status, body })
}

/// A message that asks for a report of what went wrong.
pub open spec fn asks_for_report(note: Note, status: int, message: Seq<char>) -> bool {
    &&& note.status == status
    &&& note.body == message
        + "\nplease report this error to mothblocks, ideally with the url you tried"@
}

proof fn lemma_wants_html(request: Request)
    ensures
        wants_html(request) <==> request.raw != Some("1"@) && likes_html(request.accept),
{
    let wanted = "text/html"@;
    if let Some(accept) = request.accept {
        if exists|before: Seq<char>, after: Seq<char>|
            accept == #[trigger] (before + wanted + after) {
            let (before, after) = choose|before: Seq<char>, after: Seq<char>|
                accept == #[trigger] (before + wanted + after);
            let i = before.len() as int;
            assert(wanted == accept.skip(i).subrange(0, wanted.len() as int));
            assert(wanted.is_prefix_of(accept.skip(i)));
        }
        if holds(accept, wanted) {
            let i = choose|i: int|
                0 <= i <= accept.len() && #[trigger] wanted.is_prefix_of(accept.skip(i));
            let before = accept.take(i);
            let after = accept.skip(i).skip(wanted.len() as int);
            assert(accept.skip(i).subrange(0, wanted.len() as int) == wanted);
            assert(accept.skip(i) == wanted + after);
            assert(accept == before + wanted + after);
        }
    }
}

/// A request leads to the place of its path in the logs, and what the client wants is
/// told by the parameters and by what it accepts.
pub proof fn law_requests_lead_to_places(logs: Seq<char>, request: Request, path: Seq<char>)
    requires
        asks_for(logs, request, path),
    ensures
        request_step(logs, request.path, request.format, request.raw, request.accept)
            == Next::AskOngoing(
            Call {
                logs,
                path: place(logs, path),
                wants_json: request.format == Some("json"@),
                wants_viewer: wants_html(request),
            },
        ),
{
    lemma_wants_html(request);
    lemma_place(logs, path);
    if request.path == seq!['/'] + path {
        assert(request.path.skip(1) == path);
    }
}

/// The place of a path, put together in another way.
proof fn lemma_place(logs: Seq<char>, path: Seq<char>)
    requires
        is_absolute(path) ==> is_below(path, logs),
    ensures
        place(logs, path) == joined_path(logs, path),
        is_below(place(logs, path), logs),
{
    assert(logs.push('/') == logs + seq!['/']);
    if !is_absolute(path) {
        law_joined_path_is_below(logs, path);
    }
}

/// A request for an absolute path whose components do not open with those of the logs
/// is refused, whatever there is.
pub proof fn law_refused_requests(world: World, logs: Seq<char>, request: Request, path: Seq<char>)
    requires
        request.path == seq!['/'] + path,
        is_absolute(path),
        !is_below(path, logs),
    ensures
        says(answer_to(world, logs, request), 403, "attempted path traversal"@),
{
    assert(request.path.skip(1) == path);
}

/// A round that is still played is answered like a place where nothing stands.
pub proof fn law_request_for_an_ongoing_round(
    world: World,
    logs: Seq<char>,
    request: Request,
    path: Seq<char>,
)
    requires
        asks_for(logs, request, path),
    ensures
        (world.ongoing)(place(logs, path)) == Ok::<bool, Failed>(true) ==> says(
            answer_to(world, logs, request),
            404,
            "couldn't find that path"@,
        ),
        (world.ongoing)(place(logs, path)) is Err ==> {
            &&& answer_to(world, logs, request) matches Answer::Note(note)
            &&& asks_for_report(note, 500, "error figuring out if that round is ongoing or not"@)
        },
{
    law_requests_lead_to_places(logs, request, path);
    reveal_with_fuel(answer, 2);
}

/// What an ordinary place is answered with is told by what stands there.
proof fn lemma_ordinary(world: World, call: Call)
    requires
        is_ordinary(world, call.path),
    ensures
        answer(world, Next::AskOngoing(call)) == answer(
            world,
            step_after_metadata(call, (world.metadata)(call.path)),
        ),
{
    assert(step_after_ongoing(call, (world.ongoing)(call.path)) == Next::ReadMetadata(call));
    assert(answer(world, Next::AskOngoing(call)) == answer(world, Next::ReadMetadata(call)));
}

/// What an ordinary place at which a file stands is answered with.
proof fn lemma_file(world: World, call: Call)
    requires
        is_ordinary(world, call.path),
        (world.metadata)(call.path) == Ok::<FileKind, MetadataError>(FileKind::File),
    ensures
        answer(world, Next::AskOngoing(call)) == answer_after_reading(
            call,
            (world.read)(call.path),
        ),
{
    lemma_ordinary(world, call);
    assert(step_after_metadata(call, (world.metadata)(call.path)) == Next::ReadFile(call));
}

/// A request for a directory is answered with the listing of the entries that are
/// found at that very place: as JSON if the format `json` is asked for, and as a page
/// otherwise. Where there is no listing, the answer says so.
pub proof fn law_request_for_a_directory(
    world: World,
    logs: Seq<char>,
    request: Request,
    path: Seq<char>,
)
    requires
        asks_for(logs, request, path),
        is_ordinary(world, place(logs, path)),
        (world.metadata)(place(logs, path)) == Ok::<FileKind, MetadataError>(FileKind::Directory),
    ensures
        ({
            let at = place(logs, path);
            let found = (world.entries)(at);
            let items = collected(logs, at, found->Ok_0);
            let page = collected_page(logs, at, found->Ok_0);
            let given = answer_to(world, logs, request);
            if request.format == Some("json"@) {
                if found is Ok && items is Some {
                    given == Answer::Content {
                        content_type: "application/json"@,
                        body: Ok((world.encoded)(items->0)),
                    }
                } else {
                    &&& given matches Answer::Note(note)
                    &&& asks_for_report(note, 500, "error creating traversal JSON"@)
                }
            } else {
                &&& given matches Answer::Content { content_type, body }
                &&& content_type == "text/html"@
                &&& found is Ok && page is Some ==> body == Ok::<Seq<char>, Note>(page->0)
                &&& !(found is Ok && page is Some) ==> {
                    &&& body matches Err(note)
                    &&& asks_for_report(note, 500, "error creating traversal page"@)
                }
            }
        }),
{
    law_requests_lead_to_places(logs, request, path);
    let call = Call {
        logs,
        path: place(logs, path),
        wants_json: request.format == Some("json"@),
        wants_viewer: wants_html(request),
    };
    lemma_ordinary(world, call);
    let next = step_after_listing(call, (world.entries)(call.path));
    assert(answer(world, Next::AskOngoing(call)) == answer(world, Next::ListDirectory(call)));
    assert(answer(world, Next::ListDirectory(call)) == answer(world, next));
}

/// A request for a file that can be sanitized is answered with what is left of the
/// file: as it is, with the type of the file's extension, if the client asked for the
/// raw file, does not accept HTML, or the file is not plain text; in the viewer, under
/// the path as seen from the logs, otherwise.
pub proof fn law_request_for_a_file(
    world: World,
    logs: Seq<char>,
    request: Request,
    path: Seq<char>,
)
    requires
        asks_for(logs, request, path),
        is_ordinary(world, place(logs, path)),
        (world.metadata)(place(logs, path)) == Ok::<FileKind, MetadataError>(FileKind::File),
        (world.read)(place(logs, path)) is Scrubbed,
    ensures
        ({
            let at = place(logs, path);
            let text = (world.read)(at)->Scrubbed_0;
            let ext = path_extension(at);
            let plain = ext is None || ext == Some("log"@) || ext == Some("txt"@);
            &&& answer_to(world, logs, request) matches Answer::Content {
                content_type,
                body: Ok(body),
            }
            &&& wants_html(request) && plain ==> {
                &&& content_type == "text/html; charset=utf-8"@
                &&& exists|relative: Seq<char>|
                    body == #[trigger] viewer(relative, text) && components(
                        joined_path(logs, relative),
                    ) == components(at)
            }
            &&& !(wants_html(request) && plain) ==> {
                &&& body == text
                &&& ext == Some("json"@) ==> content_type == "application/json"@
                &&& ext == Some("html"@) ==> content_type == "text/html"@
                &&& ext != Some("json"@) && ext != Some("html"@) ==> content_type
                    == "text/plain; charset=utf-8"@
            }
        }),
{
    reveal_strlit("json");
    reveal_strlit("html");
    assert("json"@[0] == 'j' && "html"@[0] == 'h');
    let at = place(logs, path);
    law_requests_lead_to_places(logs, request, path);
    let call = Call {
        logs,
        path: at,
        wants_json: request.format == Some("json"@),
        wants_viewer: wants_html(request),
    };
    lemma_file(world, call);
    lemma_place(logs, path);
    law_below_leads_back(at, logs);
    let relative = below(at, logs)->0;
    let text = (world.read)(at)->Scrubbed_0;
    assert(viewer(relative, text) == viewer(relative, text));
}

/// A log that is reached from the logs by `names` is shown in the viewer under the
/// path that the names make.
pub proof fn law_viewer_shows_the_path(
    world: World,
    logs: Seq<char>,
    request: Request,
    names: Seq<Seq<char>>,
    path: Seq<char>,
)
    requires
        are_names(names),
        names.len() > 0,
        path == joined(names, seq!['/']),
        asks_for(logs, request, path),
        is_ordinary(world, place(logs, path)),
        (world.metadata)(place(logs, path)) == Ok::<FileKind, MetadataError>(FileKind::File),
        (world.read)(place(logs, path)) is Scrubbed,
        wants_html(request),
        ({
            let ext = path_extension(place(logs, path));
            ext is None || ext == Some("log"@) || ext == Some("txt"@)
        }),
    ensures
        answer_to(world, logs, request) == (Answer::Content {
            content_type: "text/html; charset=utf-8"@,
            body: Ok(viewer(path, (world.read)(place(logs, path))->Scrubbed_0)),
        }),
{
    let call = Call {
        logs,
        path: place(logs, path),
        wants_json: request.format == Some("json"@),
        wants_viewer: true,
    };
    assert(answer_to(world, logs, request) == answer(world, Next::AskOngoing(call))) by {
        law_requests_lead_to_places(logs, request, path);
    }
    assert(below(call.path, logs) == Some(path)) by {
        law_below_takes_the_base_away(logs, names);
        lemma_joined_names(names);
    }
    lemma_viewed(world, call, path);
}

proof fn lemma_viewed(world: World, call: Call, relative: Seq<char>)
    requires
        is_ordinary(world, call.path),
        (world.metadata)(call.path) == Ok::<FileKind, MetadataError>(FileKind::File),
        (world.read)(call.path) is Scrubbed,
        call.wants_viewer,
        is_plain_text(call.path),
        below(call.path, call.logs) == Some(relative),
    ensures
        answer(world, Next::AskOngoing(call)) == (Answer::Content {
            content_type: "text/html; charset=utf-8"@,
            body: Ok(viewer(relative, (world.read)(call.path)->Scrubbed_0)),
        }),
{
    lemma_file(world, call);
}

/// Where there is nothing, or nothing that can be sanitized, the answer is that the
/// path could not be found; where something else went wrong, the answer tells what.
pub proof fn law_requests_that_fail(
    world: World,
    logs: Seq<char>,
    request: Request,
    path: Seq<char>,
)
    requires
        asks_for(logs, request, path),
        is_ordinary(world, place(logs, path)),
    ensures
        ({
            let at = place(logs, path);
            let found = (world.metadata)(at);
            let given = answer_to(world, logs, request);
            &&& found == Err::<FileKind, MetadataError>(MetadataError::NotFound) || found == Err::<
                FileKind,
                MetadataError,
            >(MetadataError::NotADirectory) ==> says(given, 404, "couldn't find that path"@)
            &&& found == Err::<FileKind, MetadataError>(MetadataError::Other) ==> {
                &&& given matches Answer::Note(note)
                &&& asks_for_report(note, 500, "couldn't get metadata of path"@)
            }
            &&& found == Ok::<FileKind, MetadataError>(FileKind::Other) ==> says(
                given,
                400,
                "tried to access weird file"@,
            )
            &&& found == Ok::<FileKind, MetadataError>(FileKind::File) && (world.read)(at)
                is NoStrategy ==> says(given, 404, "couldn't find that path"@)
            &&& found == Ok::<FileKind, MetadataError>(FileKind::File) && (world.read)(at)
                is Unreadable ==> {
                &&& given matches Answer::Note(note)
                &&& asks_for_report(note, 500, "couldn't read file"@)
            }
        }),
{
    law_requests_lead_to_places(logs, request, path);
    let call = Call {
        logs,
        path: place(logs, path),
        wants_json: request.format == Some("json"@),
        wants_viewer: wants_html(request),
    };
    lemma_ordinary(world, call);
    if (world.metadata)(call.path) == Ok::<FileKind, MetadataError>(FileKind::File) {
        lemma_file(world, call);
    }
}

/// A request for condensed runtimes is answered with what is condensed from the file
/// `runtime.log` beside the requested name, in the format that the name tells.
pub proof fn law_request_for_condensed_runtimes(
    world: World,
    logs: Seq<char>,
    request: Request,
    path: Seq<char>,
)
    requires
        asks_for(logs, request, path),
        (world.ongoing)(place(logs, path)) == Ok::<bool, Failed>(false),
        last_name(place(logs, path)) == Some("runtime.condensed.txt"@) || last_name(
            place(logs, path),
        ) == Some("runtime.condensed.json"@),
    ensures
        ({
            let at = place(logs, path);
            let is_txt = last_name(at) == Some("runtime.condensed.txt"@);
            let given = answer_to(world, logs, request);
            exists|log: Seq<char>|
                {
                    &&& #[trigger] components(log) == components(at).drop_last().push(
                        "runtime.log"@,
                    )
                    &&& match (world.runtimes)(
                        log,
                        if is_txt {
                            Condensed::Txt
                        } else {
                            Condensed::Json
                        },
                    ) {
                        Ok(text) => given == (Answer::Content {
                            content_type: if is_txt {
                                "text/plain"@
                            } else {
                                "application/json"@
                            },
                            body: Ok(text),
                        }),
                        Err(_) => {
                            &&& given matches Answer::Note(note)
                            &&& asks_for_report(note, 404, "couldn't find runtime.log"@)
                        },
                    }
                }
        }),
{
    reveal_strlit("runtime.log");
    reveal_strlit("runtime.condensed.txt");
    reveal_strlit("runtime.condensed.json");
    assert("runtime.condensed.txt"@.len() == 21 && "runtime.condensed.json"@.len() == 22);
    law_requests_lead_to_places(logs, request, path);
    reveal_with_fuel(answer, 2);
    let at = place(logs, path);
    let log = renamed(at, "runtime.log"@);
    law_components_of_renamed(at, "runtime.log"@);
    assert(components(log) == components(at).drop_last().push("runtime.log"@));
}

} // verus!
