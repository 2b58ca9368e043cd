//! LM Studio's OpenAI-compatible server.
//!
//! The OpenAI shape reports token counts but no decode duration, so every figure here is wall
//! clock and includes prompt processing and HTTP overhead. [`super::ollama`] gets the engine's
//! own decode timing and is the more accurate of the two; the difference is recorded on each
//! [`Run`] rather than smoothed over.

use vstd::prelude::*;
use super::{BenchError, ErrorView, Run, RunView};
use crate::bench;
use crate::json::{self, Json, JsonView};
use crate::text;

verus! {

/// Default port for LM Studio's local server.
pub const DEFAULT_PORT: u16 = 1234;

/// Where the server lists its models.
pub fn models_url(port: u16) -> (r: String)
    ensures
        r@ == bench::endpoint_of(port, "/v1/models"@),
{
    bench::endpoint(port, "/v1/models")
}

/// Where the server completes a chat.
pub fn completions_url(port: u16) -> (r: String)
    ensures
        r@ == bench::endpoint_of(port, "/v1/chat/completions"@),
{
    bench::endpoint(port, "/v1/chat/completions")
}

/// What to say when no server answers.
pub fn no_server_message(port: u16) -> (r: String)
    ensures
        r@ == "no LM Studio server on port "@ + text::decimal(port as nat)
            + ".\n  Start it with:  lms server start\n  Then load a model:  lms load <model>"@,
{
    let mut s = String::from_str("no LM Studio server on port ");
    s.append(text::decimal_string(port as u64).as_str());
    s.append(".\n  Start it with:  lms server start\n  Then load a model:  lms load <model>");
    s
}

/// Models the server currently has loaded and ready, of the reply to a request for
/// [`models_url`].
pub fn loaded_models(port: u16, success: bool, stdout: &[u8]) -> (r: Result<
    Vec<String>,
    BenchError,
>)
    ensures
        match r {
            Ok(names) => {
                &&& success
                &&& json::json_parse(stdout@) matches Ok(reply)
                    && text::strings(names@) == bench::listed_names(reply, "data"@, "id"@)
            },
            Err(e) => if !success {
                e@ == bench::plain(
                    "server did not respond on port "@ + text::decimal(port as nat)
                        + "; start it with `lms server start`"@,
                )
            } else {
                json::json_parse(stdout@) matches Err(why) && e@ == (ErrorView {
                    message: "parsing /v1/models response"@,
                    cause: Some(why),
                })
            },
        },
{
    if !success {
        let mut message = String::from_str("server did not respond on port ");
        message.append(text::decimal_string(port as u64).as_str());
        message.append("; start it with `lms server start`");
        return Err(BenchError { message, cause: None });
    }
    match json::parse(stdout) {
        Ok(reply) => Ok(bench::names(&reply, "data", "id")),
        Err(why) => Err(
            BenchError {
                message: String::from_str("parsing /v1/models response"),
                cause: Some(why),
            },
        ),
    }
}

// ---------------------------------------------------------------------------
// Requests

/// What a completion request asks for.
pub open spec fn request(model: Seq<char>, prompt: Seq<char>, max_tokens: u32) -> JsonView {
    JsonView::Object(
        seq![
            ("max_tokens"@, JsonView::Uint(max_tokens as u64)),
            (
                "messages"@,
                JsonView::Array(
                    seq![
                        JsonView::Object(
                            seq![
                                ("content"@, JsonView::Str(prompt)),
                                ("role"@, JsonView::Str("user"@)),
                            ],
                        ),
                    ],
                ),
            ),
            ("model"@, JsonView::Str(model)),
            ("stream"@, JsonView::Bool(false)),
            ("temperature"@, JsonView::Number("0.0"@)),
        ],
    )
}

proof fn lemma_request_is_writable(model: Seq<char>, prompt: Seq<char>, max_tokens: u32)
    ensures
        json::is_writable(request(model, prompt, max_tokens)),
{
    reveal_strlit("max_tokens");
    reveal_strlit("messages");
    reveal_strlit("model");
    reveal_strlit("stream");
    reveal_strlit("temperature");
    reveal_strlit("content");
    reveal_strlit("role");
    reveal_with_fuel(text::comes_before, 3);
    let members = request(model, prompt, max_tokens)->Object_0;
    let messages = members[1].1->Array_0;
    let message = messages[0]->Object_0;
    assert("max_tokens"@[0] == 'm' && "max_tokens"@[1] == 'a');
    assert("messages"@[0] == 'm' && "messages"@[1] == 'e');
    assert("model"@[0] == 'm' && "model"@[1] == 'o');
    assert("stream"@[0] == 's');
    assert("temperature"@[0] == 't');
    assert("content"@[0] == 'c');
    assert("role"@[0] == 'r');
    assert(json::keys_ascend(message));
    assert forall|i: int| 0 <= i < message.len() implies json::is_writable(
        (#[trigger] message[i]).1,
    ) by {}
    assert(json::is_writable(messages[0]));
    assert(json::is_writable(members[1].1));
    assert(json::keys_ascend(members)) by {
        assert forall|i: int, j: int| 0 <= i < j < members.len() implies text::comes_before(
            (#[trigger] members[i]).0,
            (#[trigger] members[j]).0,
        ) by {
            assert(members[i].0.drop_first()[0] == members[i].0[1]);
            assert(members[j].0.drop_first()[0] == members[j].0[1]);
        }
    }
    assert forall|i: int| 0 <= i < members.len() implies json::is_writable(
        (#[trigger] members[i]).1,
    ) by {}
}

/// The body of a completion request.
///
/// `max_tokens` is enforced rather than suggested, and the temperature is pinned to zero, so
/// two engines asked the same question do the same amount of work.
pub fn request_body(model: &str, prompt: &str, max_tokens: u32) -> (r: String)
    ensures
        r@ == json::json_text(request(model@, prompt@, max_tokens)),
{
    let mut message: Vec<(String, Json)> = Vec::new();
    message.push(("content".to_owned(), Json::Str(prompt.to_owned())));
    message.push(("role".to_owned(), Json::Str("user".to_owned())));
    proof {
        json::lemma_members_view(message@);
        assert(json::members_view(message@) =~= seq![
            ("content"@, JsonView::Str(prompt@)),
            ("role"@, JsonView::Str("user"@)),
        ]);
    }
    let mut messages: Vec<Json> = Vec::new();
    messages.push(Json::Object(message));
    let ghost first = messages@[0]@;
    proof {
        json::lemma_items_view(messages@);
        assert(json::items_view(messages@) =~= seq![first]);
    }
    let mut members: Vec<(String, Json)> = Vec::new();
    members.push(("max_tokens".to_owned(), Json::Uint(max_tokens as u64)));
    members.push(("messages".to_owned(), Json::Array(messages)));
    members.push(("model".to_owned(), Json::Str(model.to_owned())));
    members.push(("stream".to_owned(), Json::Bool(false)));
    members.push(("temperature".to_owned(), Json::Number("0.0".to_owned())));
    proof {
        json::lemma_members_view(members@);
        assert(json::members_view(members@) =~= request(model@, prompt@, max_tokens)->Object_0);
        lemma_request_is_writable(model@, prompt@, max_tokens);
    }
    json::render(Json::Object(members))
}

// ---------------------------------------------------------------------------
// Replies

/// The tokens that a reply says it used, under a key.
pub open spec fn usage(reply: JsonView, key: Seq<char>) -> u32 {
    bench::count_of(
        match reply.get("usage"@) {
            Some(u) => u.get_uint(key),
            None => None,
        },
    )
}

/// The measurement that a reply stands for, or why it is none.
pub open spec fn measured(
    reply: JsonView,
    error: Option<Seq<char>>,
    model: Seq<char>,
    nanos: u64,
) -> Result<RunView, ErrorView> {
    if error is Some {
        Err(bench::plain("server returned an error: "@ + error.unwrap()))
    } else if usage(reply, "completion_tokens"@) == 0 {
        Err(bench::plain("server reported zero completion tokens; nothing was measured"@))
    } else {
        Ok(
            RunView {
                engine: "lm-studio"@,
                model: bench::model_of(reply, model),
                completion_tokens: usage(reply, "completion_tokens"@),
                prompt_tokens: usage(reply, "prompt_tokens"@),
                nanos,
                engine_timed: false,
            },
        )
    }
}

fn used(reply: &Json, key: &str) -> (r: u32)
    ensures
        r == usage(reply@, key@),
{
    match reply.get("usage") {
        Some(u) => bench::count(u.get_u64(key)),
        None => bench::count(None),
    }
}

/// The measurement that a reply stands for. `error` is how the error that the reply reports is
/// written, if it reports one.
///
/// The server's own token accounting is trusted over any local tokenizer guess; a mismatch
/// between its tokenizer and ours would silently skew every rate we report.
pub fn run_from(reply: &Json, error: Option<String>, model: &str, nanos: u64) -> (r: Result<
    Run,
    BenchError,
>)
    ensures
        bench::run_view(r) == measured(reply@, bench::opt_view(error), model@, nanos),
        r matches Ok(run) ==> run.is_timed(),
{
    if let Some(err) = error {
        let mut message = String::from_str("server returned an error: ");
        message.append(err.as_str());
        return Err(BenchError { message, cause: None });
    }
    let completion_tokens = used(reply, "completion_tokens");
    let prompt_tokens = used(reply, "prompt_tokens");
    if completion_tokens == 0 {
        return Err(
            BenchError {
                message: String::from_str(
                    "server reported zero completion tokens; nothing was measured",
                ),
                cause: None,
            },
        );
    }
    Ok(
        Run {
            engine: "lm-studio",
            model: bench::model_named(reply, model),
            completion_tokens,
            prompt_tokens,
            nanos,
            // The OpenAI shape reports token counts but no decode duration, so this is wall
            // clock — prompt processing and HTTP overhead included.
            engine_timed: false,
        },
    )
}

/// Measure one completion request by what came back of it and the wall-clock nanoseconds that
/// it took.
pub fn measure_once(
    model: &str,
    success: bool,
    stdout: &[u8],
    stderr: &[u8],
    nanos: u64,
) -> (r: Result<Run, BenchError>)
    ensures
        bench::run_view(r) == if !success {
            Err(bench::plain("completion request failed: "@ + text::text_of(stderr@)))
        } else {
            match json::json_parse(stdout@) {
                Ok(reply) => measured(reply, json::member_text(reply, "error"@), model@, nanos),
                Err(why) => Err(
                    ErrorView {
                        message: "parsing completion response"@,
                        cause: Some(why),
                    },
                ),
            }
        },
        r matches Ok(run) ==> run.is_timed(),
{
    if !success {
        let mut message = String::from_str("completion request failed: ");
        message.append(text::decoded(stderr).as_str());
        return Err(BenchError { message, cause: None });
    }
    match json::parse_noting(stdout, "error") {
        Ok((reply, error)) => run_from(&reply, error, model, nanos),
        Err(why) => Err(
            BenchError {
                message: String::from_str("parsing completion response"),
                cause: Some(why),
            },
        ),
    }
}

/// A reply without an error and with tokens to show is a measurement, timed by the wall clock:
/// its counts are those that the server reports as used.
pub proof fn lemma_the_wall_clock_times_replies(
    reply: JsonView,
    used: JsonView,
    error: Option<Seq<char>>,
    model: Seq<char>,
    nanos: u64,
    tokens: u64,
)
    requires
        reply.get("usage"@) == Some(used),
        used.get("completion_tokens"@) == Some(JsonView::Uint(tokens)),
        tokens <= u32::MAX,
    ensures
        error is Some || tokens == 0 <==> measured(reply, error, model, nanos) is Err,
        measured(reply, error, model, nanos) matches Ok(run) ==> {
            &&& run.engine == "lm-studio"@
            &&& run.completion_tokens == tokens
            &&& run.nanos == nanos
            &&& !run.engine_timed
            &&& match reply.get("model"@) {
                Some(JsonView::Str(name)) => run.model == name,
                _ => run.model == model,
            }
            &&& match used.get("prompt_tokens"@) {
                Some(JsonView::Uint(n)) => n <= u32::MAX ==> run.prompt_tokens == n,
                _ => run.prompt_tokens == 0,
            }
        },
{
}

/// A reply that counts no tokens is no measurement, whatever else it says.
pub proof fn lemma_no_tokens_is_no_measurement(
    reply: JsonView,
    error: Option<Seq<char>>,
    model: Seq<char>,
    nanos: u64,
)
    ensures
        reply.get("usage"@) is None ==> measured(reply, error, model, nanos) is Err,
        reply.get("usage"@) matches Some(used) ==> !(used.get("completion_tokens"@) matches Some(
            JsonView::Uint(n),
        )) ==> measured(reply, error, model, nanos) is Err,
        error matches Some(why) ==> (measured(reply, error, model, nanos) matches Err(e)
            && e.message == "server returned an error: "@ + why && e.cause is None),
{
}

/// A request asks for the model and the number of tokens that were given, with the prompt as
/// what the user says, at a temperature of zero and in one piece.
pub proof fn lemma_requests_ask_for_what_is_given(
    model: Seq<char>,
    prompt: Seq<char>,
    max_tokens: u32,
)
    ensures
        request(model, prompt, max_tokens).get("model"@) == Some(JsonView::Str(model)),
        request(model, prompt, max_tokens).get("max_tokens"@) == Some(
            JsonView::Uint(max_tokens as u64),
        ),
        request(model, prompt, max_tokens).get("stream"@) == Some(JsonView::Bool(false)),
        request(model, prompt, max_tokens).get("temperature"@) == Some(JsonView::Number("0.0"@)),
        request(model, prompt, max_tokens).get("messages"@) matches Some(messages)
            && messages.at(1) is None && (messages.at(0) matches Some(message) && message.get(
            "content"@,
        ) == Some(JsonView::Str(prompt)) && message.get("role"@) == Some(JsonView::Str("user"@))),
{
    reveal_strlit("max_tokens");
    reveal_strlit("messages");
    reveal_strlit("model");
    reveal_strlit("stream");
    reveal_strlit("temperature");
    reveal_strlit("content");
    reveal_strlit("role");
    assert("max_tokens"@[0] == 'm' && "max_tokens"@[1] == 'a');
    assert("messages"@[0] == 'm' && "messages"@[1] == 'e');
    assert("model"@[0] == 'm' && "model"@[1] == 'o');
    assert("stream"@[0] == 's');
    assert("temperature"@[0] == 't');
    assert("content"@[0] == 'c');
    assert("role"@[0] == 'r');
    reveal_with_fuel(json::member, 6);
}

} // verus!
