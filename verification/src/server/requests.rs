use vstd::prelude::*;

use crate::json::{Json, JsonView};
use crate::sampling::params::{SamplingParams, StructuredOutputParams};
use crate::server::openai::{
    extract_stop_strings, finish_reason_text, generate_completion_id, now_timestamp, random_id,
    reason_text, stop_strings, ChatChoice, ChatCompletionRequest, ChatCompletionResponse,
    ChatCompletionTool, ChatResponseMessage, CompletionOutput, CompletionRequest, RequestOutput,
    ResponseFormat,
};
use crate::server::tool_calls::{all_shaped, extracted, parse_chat_output, tool_names};
use crate::text::{copy_texts, text_view, texts};

verus! {

/// A request constrains its output in one way only.
pub fn validate_structured_output_request(
    structured_outputs: &Option<StructuredOutputParams>,
    response_format: &Option<ResponseFormat>,
) -> (result: Result<(), String>)
    ensures
        match result {
            Ok(()) => structured_outputs is None || response_format is None,
            Err(text) => structured_outputs is Some && response_format is Some && text@
                == "structured_outputs and response_format cannot both be set"@,
        },
{
    if structured_outputs.is_some() && response_format.is_some() {
        return Err("structured_outputs and response_format cannot both be set".to_owned());
    }
    Ok(())
}

/// The constraint of a request: the one that it gives, or the one that its response
/// format stands for.
pub open spec fn requested(
    structured_outputs: Option<StructuredOutputParams>,
    response_format: Option<ResponseFormat>,
) -> Option<StructuredOutputParams> {
    match structured_outputs {
        Some(params) => Some(params),
        None => match response_format {
            Some(ResponseFormat::JsonObject) => Some(
                StructuredOutputParams {
                    json_schema: None,
                    json_object: Some(true),
                    xml: None,
                    regex: None,
                    grammar: None,
                    choice: None,
                },
            ),
            Some(ResponseFormat::JsonSchema { json_schema }) => Some(
                StructuredOutputParams {
                    json_schema: Some(json_schema.schema),
                    json_object: None,
                    xml: None,
                    regex: None,
                    grammar: None,
                    choice: None,
                },
            ),
            _ => None,
        },
    }
}

pub open spec fn json_view(json: Option<Json>) -> Option<JsonView> {
    match json {
        Some(value) => Some(value@),
        None => None,
    }
}

pub open spec fn texts_view(list: Option<Vec<String>>) -> Option<Seq<Seq<char>>> {
    match list {
        Some(values) => Some(texts(values@)),
        None => None,
    }
}

/// The two constraints say the same.
pub open spec fn same_constraint(
    a: Option<StructuredOutputParams>,
    b: Option<StructuredOutputParams>,
) -> bool {
    match (a, b) {
        (Some(a), Some(b)) => {
            &&& json_view(a.json_schema) == json_view(b.json_schema)
            &&& a.json_object == b.json_object
            &&& text_view(a.xml) == text_view(b.xml)
            &&& text_view(a.regex) == text_view(b.regex)
            &&& text_view(a.grammar) == text_view(b.grammar)
            &&& texts_view(a.choice) == texts_view(b.choice)
        },
        (None, None) => true,
        _ => false,
    }
}

fn copy_text(text: &Option<String>) -> (copy: Option<String>)
    ensures
        copy == *text,
{
    match text {
        Some(s) => Some(s.clone()),
        None => None,
    }
}

fn copy_constraint(params: &StructuredOutputParams) -> (copy: StructuredOutputParams)
    ensures
        same_constraint(Some(copy), Some(*params)),
{
    StructuredOutputParams {
        json_schema: match &params.json_schema {
            Some(json) => Some(json.copy()),
            None => None,
        },
        json_object: params.json_object,
        xml: copy_text(&params.xml),
        regex: copy_text(&params.regex),
        grammar: copy_text(&params.grammar),
        choice: match &params.choice {
            Some(list) => Some(copy_texts(list)),
            None => None,
        },
    }
}

/// The constraint of a request.
pub fn request_structured_outputs(
    structured_outputs: &Option<StructuredOutputParams>,
    response_format: &Option<ResponseFormat>,
) -> (constraint: Option<StructuredOutputParams>)
    ensures
        same_constraint(constraint, requested(*structured_outputs, *response_format)),
{
    if let Some(params) = structured_outputs {
        return Some(copy_constraint(params));
    }
    match response_format {
        Some(ResponseFormat::JsonObject) => Some(
            StructuredOutputParams {
                json_schema: None,
                json_object: Some(true),
                xml: None,
                regex: None,
                grammar: None,
                choice: None,
            },
        ),
        Some(ResponseFormat::JsonSchema { json_schema }) => Some(
            StructuredOutputParams {
                json_schema: Some(json_schema.schema.copy()),
                json_object: None,
                xml: None,
                regex: None,
                grammar: None,
                choice: None,
            },
        ),
        _ => None,
    }
}

/// The given value, or else the default.
pub open spec fn given<A>(value: Option<A>, default: A) -> A {
    match value {
        Some(v) => v,
        None => default,
    }
}

/// The given value, or else the default, where that may be none.
pub open spec fn given_or<A>(value: Option<A>, default: Option<A>) -> Option<A> {
    match value {
        Some(v) => Some(v),
        None => default,
    }
}

/// What a request cannot set is as in the defaults.
pub open spec fn rest_kept(params: SamplingParams, defaults: SamplingParams) -> bool {
    &&& params.best_of == defaults.best_of
    &&& params.top_k == defaults.top_k
    &&& params.min_p == defaults.min_p
    &&& params.repetition_penalty == defaults.repetition_penalty
    &&& params.stop_token_ids == defaults.stop_token_ids
    &&& params.min_tokens == defaults.min_tokens
    &&& params.logit_bias == defaults.logit_bias
    &&& params.allowed_token_ids == defaults.allowed_token_ids
    &&& params.ignore_eos == defaults.ignore_eos
    &&& params.speculative_decoding == defaults.speculative_decoding
    &&& params.skip_reading_prefix_cache == defaults.skip_reading_prefix_cache
}

/// How the tokens of a chat completion are drawn.
pub fn chat_request_to_sampling_params(
    req: &ChatCompletionRequest,
    defaults: SamplingParams,
) -> (params: SamplingParams)
    ensures
        params.temperature == given(req.temperature, defaults.temperature),
        params.top_p == given(req.top_p, defaults.top_p),
        params.max_tokens == given_or(req.max_tokens, defaults.max_tokens),
        params.presence_penalty == given(req.presence_penalty, defaults.presence_penalty),
        params.frequency_penalty == given(req.frequency_penalty, defaults.frequency_penalty),
        params.seed == given_or(req.seed, defaults.seed),
        params.n == given(req.n, defaults.n),
        params.logprobs == if req.logprobs == Some(true) {
            Some(given(req.top_logprobs, 1))
        } else {
            defaults.logprobs
        },
        texts(params.stop@) == stop_strings(req.stop),
        same_constraint(
            params.structured_outputs,
            requested(req.structured_outputs, req.response_format),
        ),
        rest_kept(params, defaults),
{
    let mut params = defaults;
    if let Some(t) = req.temperature {
        params.temperature = t;
    }
    if let Some(p) = req.top_p {
        params.top_p = p;
    }
    if let Some(max_tokens) = req.max_tokens {
        params.max_tokens = Some(max_tokens);
    }
    if let Some(penalty) = req.presence_penalty {
        params.presence_penalty = penalty;
    }
    if let Some(penalty) = req.frequency_penalty {
        params.frequency_penalty = penalty;
    }
    if let Some(seed) = req.seed {
        params.seed = Some(seed);
    }
    if let Some(n) = req.n {
        params.n = n;
    }
    if let Some(true) = req.logprobs {
        params.logprobs = match req.top_logprobs {
            Some(count) => Some(count),
            None => Some(1),
        };
    }
    params.stop = extract_stop_strings(&req.stop);
    params.structured_outputs =
    request_structured_outputs(&req.structured_outputs, &req.response_format);
    params
}

/// How the tokens of a completion are drawn.
pub fn completion_request_to_sampling_params(
    req: &CompletionRequest,
    defaults: SamplingParams,
) -> (params: SamplingParams)
    ensures
        params.temperature == given(req.temperature, defaults.temperature),
        params.top_p == given(req.top_p, defaults.top_p),
        params.max_tokens == given_or(req.max_tokens, defaults.max_tokens),
        params.presence_penalty == given(req.presence_penalty, defaults.presence_penalty),
        params.frequency_penalty == given(req.frequency_penalty, defaults.frequency_penalty),
        params.seed == given_or(req.seed, defaults.seed),
        params.n == given(req.n, defaults.n),
        params.logprobs == given_or(req.logprobs, defaults.logprobs),
        texts(params.stop@) == stop_strings(req.stop),
        same_constraint(
            params.structured_outputs,
            requested(req.structured_outputs, req.response_format),
        ),
        rest_kept(params, defaults),
{
    let mut params = defaults;
    if let Some(t) = req.temperature {
        params.temperature = t;
    }
    if let Some(p) = req.top_p {
        params.top_p = p;
    }
    if let Some(max_tokens) = req.max_tokens {
        params.max_tokens = Some(max_tokens);
    }
    if let Some(penalty) = req.presence_penalty {
        params.presence_penalty = penalty;
    }
    if let Some(penalty) = req.frequency_penalty {
        params.frequency_penalty = penalty;
    }
    if let Some(seed) = req.seed {
        params.seed = Some(seed);
    }
    if let Some(n) = req.n {
        params.n = n;
    }
    if let Some(count) = req.logprobs {
        params.logprobs = Some(count);
    }
    params.stop = extract_stop_strings(&req.stop);
    params.structured_outputs =
    request_structured_outputs(&req.structured_outputs, &req.response_format);
    params
}

/// The names of the tools that a request gives.
pub open spec fn given_names(tools: Option<&[ChatCompletionTool]>) -> Seq<Seq<char>> {
    match tools {
        Some(list) => tool_names(list@),
        None => Seq::empty(),
    }
}

/// The choice that a completion of the engine becomes.
pub open spec fn chat_choice(
    choice: ChatChoice,
    i: int,
    output: CompletionOutput,
    names: Seq<Seq<char>>,
) -> bool {
    let found = extracted(output.text@, names);
    &&& choice.index == i as u32
    &&& choice.message.role@ == "assistant"@
    &&& text_view(choice.message.content) == found.content
    &&& all_shaped(choice.message.tool_calls, found.calls)
    &&& text_view(choice.finish_reason) == if found.calls is Some {
        Some("tool_calls"@)
    } else {
        match output.finish_reason {
            Some(reason) => Some(reason_text(reason)),
            None => None,
        }
    }
}

/// Convert engine output to a chat response, without looking for calls.
pub fn request_output_to_chat_completion(output: &RequestOutput, model: &str) -> (response:
    ChatCompletionResponse)
    ensures
        random_id(response.id@, "chatcmpl"@ + "-"@),
        response.object@ == "chat.completion"@,
        response.model@ == model@,
        response.usage == output.usage,
        response.generation_time is None,
        response.choices@.len() == output.outputs@.len(),
        forall|i: int|
            0 <= i < response.choices@.len() ==> chat_choice(
                #[trigger] response.choices@[i],
                i,
                output.outputs@[i],
                Seq::empty(),
            ),
{
    request_output_to_chat_completion_with_tools(output, model, None)
}

/// Convert engine output to a chat response, with the calls to the given tools.
pub fn request_output_to_chat_completion_with_tools(
    output: &RequestOutput,
    model: &str,
    tools: Option<&[ChatCompletionTool]>,
) -> (response: ChatCompletionResponse)
    ensures
        random_id(response.id@, "chatcmpl"@ + "-"@),
        response.object@ == "chat.completion"@,
        response.model@ == model@,
        response.usage == output.usage,
        response.generation_time is None,
        response.choices@.len() == output.outputs@.len(),
        forall|i: int|
            0 <= i < response.choices@.len() ==> chat_choice(
                #[trigger] response.choices@[i],
                i,
                output.outputs@[i],
                given_names(tools),
            ),
{
    let id = generate_completion_id("chatcmpl");
    let created = now_timestamp();
    let mut choices: Vec<ChatChoice> = Vec::new();
    let mut i: usize = 0;
    while i < output.outputs.len()
        invariant
            i <= output.outputs@.len(),
            choices@.len() == i,
            forall|k: int|
                0 <= k < i ==> chat_choice(
                    #[trigger] choices@[k],
                    k,
                    output.outputs@[k],
                    given_names(tools),
                ),
        decreases output.outputs@.len() - i,
    {
        let one = &output.outputs[i];
        let parsed = parse_chat_output(one.text.as_str(), tools);
        let finish_reason = if parsed.tool_calls.is_some() {
            Some("tool_calls".to_owned())
        } else {
            match one.finish_reason {
                Some(reason) => Some(finish_reason_text(reason)),
                None => None,
            }
        };
        choices.push(
            ChatChoice {
                index: i as u32,
                message: ChatResponseMessage {
                    role: "assistant".to_owned(),
                    content: parsed.content,
                    tool_calls: parsed.tool_calls,
                },
                finish_reason,
            },
        );
        i = i + 1;
    }
    ChatCompletionResponse {
        id,
        object: "chat.completion".to_owned(),
        created,
        model: model.to_owned(),
        choices,
        usage: output.usage,
        generation_time: None,
    }
}

/// An answer without tools is the engine's text as it is.
pub proof fn lemma_plain_choice(choice: ChatChoice, i: int, output: CompletionOutput)
    requires
        chat_choice(choice, i, output, Seq::empty()),
    ensures
        text_view(choice.message.content) == Some(output.text@),
        choice.message.tool_calls is None,
{
}

/// A request's own settings count, and the defaults where it has none. Log probabilities are
/// those of the request where it asks for them, one where it does not say how many.
pub proof fn lemma_chat_params(
    req: ChatCompletionRequest,
    defaults: SamplingParams,
    params: SamplingParams,
)
    requires
        call_ensures(chat_request_to_sampling_params, (&req, defaults), params),
    ensures
        req.temperature is Some ==> req.temperature == Some(params.temperature),
        req.temperature is None ==> params.temperature == defaults.temperature,
        req.top_p is Some ==> req.top_p == Some(params.top_p),
        req.top_p is None ==> params.top_p == defaults.top_p,
        req.max_tokens is Some ==> params.max_tokens == req.max_tokens,
        req.max_tokens is None ==> params.max_tokens == defaults.max_tokens,
        req.presence_penalty is Some ==> req.presence_penalty == Some(params.presence_penalty),
        req.presence_penalty is None ==> params.presence_penalty == defaults.presence_penalty,
        req.frequency_penalty is Some ==> req.frequency_penalty == Some(params.frequency_penalty),
        req.frequency_penalty is None ==> params.frequency_penalty == defaults.frequency_penalty,
        req.seed is Some ==> params.seed == req.seed,
        req.seed is None ==> params.seed == defaults.seed,
        req.n is Some ==> req.n == Some(params.n),
        req.n is None ==> params.n == defaults.n,
        req.logprobs == Some(true) && req.top_logprobs is Some ==> params.logprobs
            == req.top_logprobs,
        req.logprobs == Some(true) && req.top_logprobs is None ==> params.logprobs == Some(1u32),
        req.logprobs != Some(true) ==> params.logprobs == defaults.logprobs,
        params.top_k == defaults.top_k,
        params.min_p == defaults.min_p,
        params.repetition_penalty == defaults.repetition_penalty,
        params.min_tokens == defaults.min_tokens,
        params.ignore_eos == defaults.ignore_eos,
{
}

/// The same for a completion request, which says itself how many log probabilities it wants.
pub proof fn lemma_completion_params(
    req: CompletionRequest,
    defaults: SamplingParams,
    params: SamplingParams,
)
    requires
        call_ensures(completion_request_to_sampling_params, (&req, defaults), params),
    ensures
        req.temperature is Some ==> req.temperature == Some(params.temperature),
        req.temperature is None ==> params.temperature == defaults.temperature,
        req.top_p is Some ==> req.top_p == Some(params.top_p),
        req.top_p is None ==> params.top_p == defaults.top_p,
        req.max_tokens is Some ==> params.max_tokens == req.max_tokens,
        req.max_tokens is None ==> params.max_tokens == defaults.max_tokens,
        req.presence_penalty is Some ==> req.presence_penalty == Some(params.presence_penalty),
        req.presence_penalty is None ==> params.presence_penalty == defaults.presence_penalty,
        req.frequency_penalty is Some ==> req.frequency_penalty == Some(params.frequency_penalty),
        req.frequency_penalty is None ==> params.frequency_penalty == defaults.frequency_penalty,
        req.seed is Some ==> params.seed == req.seed,
        req.seed is None ==> params.seed == defaults.seed,
        req.n is Some ==> req.n == Some(params.n),
        req.n is None ==> params.n == defaults.n,
        req.logprobs is Some ==> params.logprobs == req.logprobs,
        req.logprobs is None ==> params.logprobs == defaults.logprobs,
{
}

/// What output is asked for: the request's own demand, or else that of the response format:
/// any object, or one by a schema. A plain text format demands nothing.
pub proof fn lemma_requested(
    structured_outputs: Option<StructuredOutputParams>,
    response_format: Option<ResponseFormat>,
)
    ensures
        ({
            let wanted = requested(structured_outputs, response_format);
            &&& structured_outputs is Some ==> wanted == structured_outputs
            &&& structured_outputs is None && response_format is None ==> wanted is None
            &&& structured_outputs is None && response_format is Some ==> match response_format->0 {
                ResponseFormat::JsonObject => wanted is Some && wanted->0.json_object == Some(true)
                    && wanted->0.json_schema is None && wanted->0.regex is None
                    && wanted->0.choice is None && wanted->0.grammar is None && wanted->0.xml
                    is None,
                ResponseFormat::JsonSchema { json_schema } => wanted is Some
                    && wanted->0.json_schema == Some(json_schema.schema) && wanted->0.json_object
                    is None && wanted->0.regex is None && wanted->0.choice is None
                    && wanted->0.grammar is None && wanted->0.xml is None,
                _ => wanted is None,
            }
        }),
{
}

} // verus!
