//! Ollama's native API.
//!
//! Ollama also speaks the OpenAI shape, and using it would let this file be a copy of
//! [`super::lmstudio`]. It is deliberately not: the native endpoint reports `eval_count` and
//! `eval_duration` — the tokens decoded and the nanoseconds spent decoding them, as the
//! runtime itself counted. That excludes prompt processing, HTTP overhead and the time the
//! client spends starting up, all of which a wall-clock measurement folds into the rate.
//!
//! So: engine-reported timing where the engine reports it, wall clock only where it does not.

use vstd::prelude::*;
use super::{BenchError, ErrorView, Run, RunView};
use crate::bench;
use crate::json::{self, Json, JsonView};
use crate::text;

verus! {

/// Default port for the Ollama server.
pub const DEFAULT_PORT: u16 = 11434;

/// Where the server lists its models.
pub fn tags_url(port: u16) -> (r: String)
    ensures
        r@ == bench::endpoint_of(port, "/api/tags"@),
{
    bench::endpoint(port, "/api/tags")
}

/// Where the server generates.
pub fn generate_url(port: u16) -> (r: String)
    ensures
        r@ == bench::endpoint_of(port, "/api/generate"@),
{
    bench::endpoint(port, "/api/generate")
}

/// Models Ollama has pulled locally, of the reply to a request for [`tags_url`].
pub fn local_models(port: u16, success: bool, stdout: &[u8]) -> (r: Result<
    Vec<String>,
    BenchError,
>)
    ensures
        match r {
            Ok(names) => {
                &&& success
                &&& json::json_parse(stdout@) matches Ok(reply)
                    && text::strings(names@) == bench::listed_names(reply, "models"@, "name"@)
            },
            Err(e) => if !success {
                e@ == bench::plain(
                    "Ollama did not respond on port "@ + text::decimal(port as nat)
                        + "; start it with `ollama serve`"@,
                )
            } else {
                json::json_parse(stdout@) matches Err(why) && e@ == (ErrorView {
                    message: "parsing /api/tags response"@,
                    cause: Some(why),
                })
            },
        },
{
    if !success {
        let mut message = String::from_str("Ollama did not respond on port ");
        message.append(text::decimal_string(port as u64).as_str());
        message.append("; start it with `ollama serve`");
        return Err(BenchError { message, cause: None });
    }
    match json::parse(stdout) {
        Ok(reply) => Ok(bench::names(&reply, "models", "name")),
        Err(why) => Err(
            BenchError { message: String::from_str("parsing /api/tags response"), cause: Some(why) },
        ),
    }
}

// ---------------------------------------------------------------------------
// Requests

/// What a generation request asks for.
pub open spec fn request(model: Seq<char>, prompt: Seq<char>, max_tokens: u32) -> JsonView {
    JsonView::Object(
        seq![
            ("model"@, JsonView::Str(model)),
            (
                "options"@,
                JsonView::Object(
                    seq![
                        ("num_predict"@, JsonView::Uint(max_tokens as u64)),
                        ("temperature"@, JsonView::Number("0.0"@)),
                    ],
                ),
            ),
            ("prompt"@, JsonView::Str(prompt)),
            ("stream"@, JsonView::Bool(false)),
        ],
    )
}

proof fn lemma_request_is_writable(model: Seq<char>, prompt: Seq<char>, max_tokens: u32)
    ensures
        json::is_writable(request(model, prompt, max_tokens)),
{
    reveal_strlit("model");
    reveal_strlit("options");
    reveal_strlit("prompt");
    reveal_strlit("stream");
    reveal_strlit("num_predict");
    reveal_strlit("temperature");
    let members = request(model, prompt, max_tokens)->Object_0;
    let options = members[1].1->Object_0;
    assert("model"@[0] == 'm' && "options"@[0] == 'o');
    assert("prompt"@[0] == 'p' && "stream"@[0] == 's');
    assert("num_predict"@[0] == 'n' && "temperature"@[0] == 't');
    assert(json::keys_ascend(options));
    assert forall|i: int| 0 <= i < options.len() implies json::is_writable(
        (#[trigger] options[i]).1,
    ) by {}
    assert(json::is_writable(members[1].1));
    assert(json::keys_ascend(members));
    assert forall|i: int| 0 <= i < members.len() implies json::is_writable(
        (#[trigger] members[i]).1,
    ) by {}
}

/// The body of a generation request.
///
/// `num_predict` caps the generation and the temperature is pinned to zero, so two engines
/// asked the same question do the same amount of work.
pub fn request_body(model: &str, prompt: &str, max_tokens: u32) -> (r: String)
    ensures
        r@ == json::json_text(request(model@, prompt@, max_tokens)),
{
    let mut options: Vec<(String, Json)> = Vec::new();
    options.push(("num_predict".to_owned(), Json::Uint(max_tokens as u64)));
    options.push(("temperature".to_owned(), Json::Number("0.0".to_owned())));
    proof {
        json::lemma_members_view(options@);
        assert(json::members_view(options@) =~= seq![
            ("num_predict"@, JsonView::Uint(max_tokens as u64)),
            ("temperature"@, JsonView::Number("0.0"@)),
        ]);
    }
    let mut members: Vec<(String, Json)> = Vec::new();
    members.push(("model".to_owned(), Json::Str(model.to_owned())));
    members.push(("options".to_owned(), Json::Object(options)));
    members.push(("prompt".to_owned(), Json::Str(prompt.to_owned())));
    members.push(("stream".to_owned(), Json::Bool(false)));
    proof {
        json::lemma_members_view(members@);
        assert(json::members_view(members@) =~= request(model@, prompt@, max_tokens)->Object_0);
        lemma_request_is_writable(model@, prompt@, max_tokens);
    }
    json::render(Json::Object(members))
}

// ---------------------------------------------------------------------------
// Replies

/// The time that decoding took: the engine's own figure, or the wall clock where it gives
/// none.
pub open spec fn decode_nanos(reply: JsonView, wall_nanos: u64) -> (u64, bool) {
    match reply.get_uint("eval_duration"@) {
        Some(n) if n > 0 => (n, true),
        _ => (wall_nanos, false),
    }
}

/// The measurement that a reply stands for, or why it is none.
pub open spec fn measured(
    reply: JsonView,
    error: Option<Seq<char>>,
    model: Seq<char>,
    wall_nanos: u64,
) -> Result<RunView, ErrorView> {
    let tokens = bench::count_of(reply.get_uint("eval_count"@));
    if error is Some {
        Err(bench::plain("Ollama returned an error: "@ + error.unwrap()))
    } else if tokens == 0 {
        Err(bench::plain("Ollama reported zero eval tokens; nothing was measured"@))
    } else {
        Ok(
            RunView {
                engine: "ollama"@,
                model: bench::model_of(reply, model),
                completion_tokens: tokens,
                prompt_tokens: bench::count_of(reply.get_uint("prompt_eval_count"@)),
                nanos: decode_nanos(reply, wall_nanos).0,
                engine_timed: decode_nanos(reply, wall_nanos).1,
            },
        )
    }
}

/// The measurement that a reply stands for. `error` is how the error that the reply reports is
/// written, if it reports one.
pub fn run_from(reply: &Json, error: Option<String>, model: &str, wall_nanos: u64) -> (r: Result<
    Run,
    BenchError,
>)
    ensures
        bench::run_view(r) == measured(reply@, bench::opt_view(error), model@, wall_nanos),
        r matches Ok(run) ==> run.is_timed(),
{
    if let Some(err) = error {
        let mut message = String::from_str("Ollama returned an error: ");
        message.append(err.as_str());
        return Err(BenchError { message, cause: None });
    }
    let completion_tokens = bench::count(reply.get_u64("eval_count"));
    if completion_tokens == 0 {
        return Err(
            BenchError {
                message: String::from_str("Ollama reported zero eval tokens; nothing was measured"),
                cause: None,
            },
        );
    }
    // `eval_duration` is decode time in nanoseconds, excluding prompt processing. Fall back to
    // wall clock if it is absent, and say which was used rather than presenting two different
    // measurements as one.
    let (nanos, engine_timed) = match reply.get_u64("eval_duration") {
        Some(n) if n > 0 => (n, true),
        _ => (wall_nanos, false),
    };
    Ok(
        Run {
            engine: "ollama",
            model: bench::model_named(reply, model),
            completion_tokens,
            prompt_tokens: bench::count(reply.get_u64("prompt_eval_count")),
            nanos,
            engine_timed,
        },
    )
}

/// Measure one generation request by what came back of it and the wall-clock nanoseconds that
/// it took.
pub fn measure_once(
    model: &str,
    success: bool,
    stdout: &[u8],
    stderr: &[u8],
    wall_nanos: u64,
) -> (r: Result<Run, BenchError>)
    ensures
        bench::run_view(r) == if !success {
            Err(bench::plain("generate request failed: "@ + text::text_of(stderr@)))
        } else {
            match json::json_parse(stdout@) {
                Ok(reply) => measured(
                    reply,
                    json::member_text(reply, "error"@),
                    model@,
                    wall_nanos,
                ),
                Err(why) => Err(
                    ErrorView { message: "parsing generate response"@, cause: Some(why) },
                ),
            }
        },
        r matches Ok(run) ==> run.is_timed(),
{
    if !success {
        let mut message = String::from_str("generate request failed: ");
        message.append(text::decoded(stderr).as_str());
        return Err(BenchError { message, cause: None });
    }
    match json::parse_noting(stdout, "error") {
        Ok((reply, error)) => run_from(&reply, error, model, wall_nanos),
        Err(why) => Err(
            BenchError { message: String::from_str("parsing generate response"), cause: Some(why) },
        ),
    }
}

/// A reply without an error and with tokens to show is a measurement. It is timed by the engine
/// where the engine reports a duration, whatever the wall clock shows, and by the wall clock
/// only where it does not; the run says which.
pub proof fn lemma_the_engine_times_itself(
    reply: JsonView,
    error: Option<Seq<char>>,
    model: Seq<char>,
    wall: u64,
    tokens: u64,
)
    requires
        reply.get("eval_count"@) == Some(JsonView::Uint(tokens)),
        tokens <= u32::MAX,
    ensures
        error is Some || tokens == 0 <==> measured(reply, error, model, wall) is Err,
        measured(reply, error, model, wall) matches Ok(run) ==> {
            &&& run.engine == "ollama"@
            &&& run.completion_tokens == tokens
            &&& match reply.get("eval_duration"@) {
                Some(JsonView::Uint(n)) => if n > 0 {
                    run.nanos == n && run.engine_timed
                } else {
                    run.nanos == wall && !run.engine_timed
                },
                _ => run.nanos == wall && !run.engine_timed,
            }
            &&& match reply.get("model"@) {
                Some(JsonView::Str(name)) => run.model == name,
                _ => run.model == model,
            }
            &&& match reply.get("prompt_eval_count"@) {
                Some(JsonView::Uint(n)) => n <= u32::MAX ==> run.prompt_tokens == n,
                _ => run.prompt_tokens == 0,
            }
        },
{
}

/// A reply that counts no tokens is no measurement, whatever else it says.
pub proof fn lemma_no_tokens_is_no_measurement(
    reply: JsonView,
    error: Option<Seq<char>>,
    model: Seq<char>,
    wall: u64,
)
    ensures
        !(reply.get("eval_count"@) matches Some(JsonView::Uint(n))) ==> measured(
            reply,
            error,
            model,
            wall,
        ) is Err,
        error matches Some(why) ==> (measured(reply, error, model, wall) matches Err(e) && e.message
            == "Ollama returned an error: "@ + why && e.cause is None),
{
}

/// A request asks for the model, the prompt and the number of tokens that were given, at a
/// temperature of zero and in one piece.
pub proof fn lemma_requests_ask_for_what_is_given(
    model: Seq<char>,
    prompt: Seq<char>,
    max_tokens: u32,
)
    ensures
        request(model, prompt, max_tokens).get("model"@) == Some(JsonView::Str(model)),
        request(model, prompt, max_tokens).get("prompt"@) == Some(JsonView::Str(prompt)),
        request(model, prompt, max_tokens).get("stream"@) == Some(JsonView::Bool(false)),
        request(model, prompt, max_tokens).get("options"@) matches Some(options)
            && options.get("num_predict"@) == Some(JsonView::Uint(max_tokens as u64))
            && options.get("temperature"@) == Some(JsonView::Number("0.0"@)),
{
    lemma_request_is_writable(model, prompt, max_tokens);
    reveal_strlit("model");
    reveal_strlit("options");
    reveal_strlit("prompt");
    reveal_strlit("stream");
    reveal_strlit("num_predict");
    reveal_strlit("temperature");
    let members = request(model, prompt, max_tokens)->Object_0;
    let options = members[1].1->Object_0;
    assert("model"@[0] == 'm' && "options"@[0] == 'o');
    assert("prompt"@[0] == 'p' && "stream"@[0] == 's');
    assert("num_predict"@[0] == 'n' && "temperature"@[0] == 't');
    reveal_with_fuel(json::member, 6);
}

} // verus!
