use vstd::prelude::*;

use crate::float_bits::F64Bits;
use crate::server::openai::{
    delta_of, finish_reason_text, generate_completion_id, now_timestamp, random_id, reason_text,
    tool_calls_to_deltas, ChatChoice, ChatCompletionChunk, ChatCompletionRequest,
    ChatCompletionResponse, ChatCompletionTool, ChatResponseMessage, ChunkChoice, ChunkDelta,
    CompletionChoice, CompletionRequest, CompletionResponse, ErrorDetail, ErrorResponse,
    FinishReason, ModelInfo, ModelListResponse, PromptInput, UsageInfo,
};
use crate::server::requests::{given_names, validate_structured_output_request};
use crate::server::tool_calls::{
    all_shaped, extracted, parse_chat_output, shaped, tool_names, CallView,
};
use crate::server::tools::{request_fault, validate_tool_call_request, verdict};
use crate::text::{chars_of, count_text, digits, join2, text_view, texts};

verus! {

/// Why a chat request is turned away, if it is: the first reason in this order.
pub open spec fn chat_refusal(req: ChatCompletionRequest, max_messages: usize) -> Option<
    Seq<char>,
> {
    if req.messages@.len() == 0 {
        Some("messages must not be empty"@)
    } else if req.messages@.len() > max_messages {
        Some("too many messages: max is "@ + digits(max_messages))
    } else if req.structured_outputs is Some && req.response_format is Some {
        Some("structured_outputs and response_format cannot both be set"@)
    } else {
        request_fault(req)
    }
}

/// Whether a chat request is taken on.
pub fn admit_chat_request(req: &ChatCompletionRequest, max_messages: usize) -> (result: Result<
    (),
    String,
>)
    ensures
        verdict(result, chat_refusal(*req, max_messages)),
{
    if req.messages.len() == 0 {
        return Err("messages must not be empty".to_owned());
    }
    if req.messages.len() > max_messages {
        return Err(join2("too many messages: max is ", count_text(max_messages).as_str()));
    }
    if let Err(text) = validate_structured_output_request(
        &req.structured_outputs,
        &req.response_format,
    ) {
        return Err(text);
    }
    validate_tool_call_request(req)
}

/// Whether a completion request is taken on: it may have sixteen prompts at most.
pub fn admit_completion_request(req: &CompletionRequest) -> (result: Result<(), String>)
    ensures
        match req.prompt {
            PromptInput::Multiple(items) => if items@.len() > 16 {
                result matches Err(text) && text@ == "too many prompt variants: max is 16"@
            } else {
                result is Ok
            },
            PromptInput::Single(_) => result is Ok,
        },
{
    if let PromptInput::Multiple(items) = &req.prompt {
        if items.len() > 16 {
            return Err("too many prompt variants: max is 16".to_owned());
        }
    }
    Ok(())
}

/// The texts with line ends between them.
pub open spec fn lines(items: Seq<Seq<char>>) -> Seq<char>
    decreases items.len(),
{
    if items.len() == 0 {
        Seq::empty()
    } else if items.len() == 1 {
        items[0]
    } else {
        lines(items.drop_last()) + "\n"@ + items.last()
    }
}

/// The text of a prompt; several prompts become one, line by line.
pub fn prompt_text(prompt: &PromptInput) -> (text: String)
    ensures
        text@ == match *prompt {
            PromptInput::Single(text) => text@,
            PromptInput::Multiple(items) => lines(texts(items@)),
        },
{
    match prompt {
        PromptInput::Single(text) => text.clone(),
        PromptInput::Multiple(items) => {
            let ghost all = texts(items@);
            let mut text = String::new();
            let mut i: usize = 0;
            assert(all.take(0) =~= Seq::<Seq<char>>::empty());
            assert(text@ =~= lines(all.take(0)));
            while i < items.len()
                invariant
                    i <= items@.len(),
                    all == texts(items@),
                    text@ == lines(all.take(i as int)),
                    i == 0 ==> text@ == Seq::<char>::empty(),
                decreases items@.len() - i,
            {
                let ghost next = all.take(i as int + 1);
                assert(next.drop_last() =~= all.take(i as int));
                assert(next.last() == items@[i as int]@);
                if i > 0 {
                    text.append("\n");
                } else {
                    assert(next[0] == items@[0]@);
                    assert(Seq::<char>::empty() + items@[0]@ =~= items@[0]@);
                }
                text.append(items[i].as_str());
                i = i + 1;
            }
            assert(all.take(i as int) =~= all);
            text
        },
    }
}

/// Tokens of one completion, as the engine hands them out.
#[derive(Debug, Clone)]
pub struct TokenOutput {
    pub token_ids: Vec<u32>,
    pub finish_reason: Option<FinishReason>,
}

/// What the engine hands out in one go.
#[derive(Debug, Clone)]
pub struct EngineOutput {
    pub outputs: Vec<TokenOutput>,
    pub finished: bool,
}

/// The tokens of some outputs, in their order.
pub open spec fn all_ids(outputs: Seq<TokenOutput>) -> Seq<u32>
    decreases outputs.len(),
{
    if outputs.len() == 0 {
        Seq::empty()
    } else {
        all_ids(outputs.drop_last()) + outputs.last().token_ids@
    }
}

/// The last reason that the outputs give, or else the one before.
pub open spec fn last_reason(
    outputs: Seq<TokenOutput>,
    before: Option<FinishReason>,
) -> Option<FinishReason>
    decreases outputs.len(),
{
    if outputs.len() == 0 {
        before
    } else {
        match outputs.last().finish_reason {
            Some(reason) => Some(reason),
            None => last_reason(outputs.drop_last(), before),
        }
    }
}

/// The reason that the first output gives.
pub open spec fn first_reason(outputs: Seq<TokenOutput>) -> Option<FinishReason> {
    if outputs.len() == 0 {
        None
    } else {
        outputs[0].finish_reason
    }
}

pub fn first_finish_reason(output: &EngineOutput) -> (reason: Option<FinishReason>)
    ensures
        reason == first_reason(output.outputs@),
{
    if output.outputs.len() == 0 {
        None
    } else {
        output.outputs[0].finish_reason
    }
}

/// What has come from the engine so far.
#[derive(Debug, Clone)]
pub struct Collector {
    pub token_ids: Vec<u32>,
    pub reason: Option<FinishReason>,
}

impl Collector {
    pub fn new() -> (collector: Self)
        ensures
            collector.token_ids@ == Seq::<u32>::empty(),
            collector.reason is None,
    {
        Collector { token_ids: Vec::new(), reason: None }
    }

    /// Take an output in. Tells whether it was the last one.
    pub fn accept(&mut self, output: &EngineOutput) -> (finished: bool)
        ensures
            final(self).token_ids@ == old(self).token_ids@ + all_ids(output.outputs@),
            final(self).reason == last_reason(output.outputs@, old(self).reason),
            finished == output.finished,
    {
        let ghost outputs = output.outputs@;
        let ghost ids = self.token_ids@;
        let ghost reason = self.reason;
        let mut i: usize = 0;
        assert(outputs.take(0) =~= Seq::<TokenOutput>::empty());
        assert(ids + all_ids(outputs.take(0)) =~= ids);
        while i < output.outputs.len()
            invariant
                i <= output.outputs@.len(),
                outputs == output.outputs@,
                self.token_ids@ == ids + all_ids(outputs.take(i as int)),
                self.reason == last_reason(outputs.take(i as int), reason),
            decreases output.outputs@.len() - i,
        {
            let one = &output.outputs[i];
            let ghost next = outputs.take(i as int + 1);
            assert(next.drop_last() =~= outputs.take(i as int));
            assert(next.last() == *one);
            let ghost before = self.token_ids@;
            let mut k: usize = 0;
            assert(before + one.token_ids@.take(0) =~= before);
            while k < one.token_ids.len()
                invariant
                    k <= one.token_ids@.len(),
                    self.token_ids@ == before + one.token_ids@.take(k as int),
                    self.reason == last_reason(outputs.take(i as int), reason),
                decreases one.token_ids@.len() - k,
            {
                self.token_ids.push(one.token_ids[k]);
                k = k + 1;
                assert(self.token_ids@ =~= before + one.token_ids@.take(k as int));
            }
            assert(one.token_ids@.take(k as int) =~= one.token_ids@);
            assert(self.token_ids@ =~= ids + all_ids(next));
            if let Some(given) = one.finish_reason {
                self.reason = Some(given);
            }
            i = i + 1;
        }
        assert(outputs.take(i as int) =~= outputs);
        output.finished
    }

    /// Why the completion ended, in the words of the protocol: for its length, unless the
    /// engine said otherwise.
    pub fn finish_reason(&self) -> (text: String)
        ensures
            text@ == match self.reason {
                Some(reason) => reason_text(reason),
                None => "length"@,
            },
    {
        match self.reason {
            Some(reason) => finish_reason_text(reason),
            None => "length".to_owned(),
        }
    }
}

/// Taking two outputs in is taking in their completions in a row.
pub proof fn lemma_collected_in_order(first: Seq<TokenOutput>, second: Seq<TokenOutput>)
    ensures
        all_ids(first + second) == all_ids(first) + all_ids(second),
    decreases second.len(),
{
    if second.len() == 0 {
        assert(first + second =~= first);
        assert(all_ids(first) + all_ids(second) =~= all_ids(first));
    } else {
        lemma_collected_in_order(first, second.drop_last());
        assert((first + second).drop_last() =~= first + second.drop_last());
        assert(all_ids(first + second) =~= all_ids(first) + all_ids(second));
    }
}

/// The count, as far as 32 bits go.
pub open spec fn capped(n: int) -> int {
    if n > u32::MAX {
        u32::MAX as int
    } else {
        n
    }
}

fn cap(n: usize) -> (capped: u32)
    ensures
        capped == self::capped(n as int),
{
    if n > u32::MAX as usize {
        u32::MAX
    } else {
        n as u32
    }
}

/// How many tokens a completion took.
pub fn usage_of(prompt_tokens: usize, completion_tokens: usize) -> (usage: UsageInfo)
    ensures
        usage.prompt_tokens == capped(prompt_tokens as int),
        usage.completion_tokens == capped(completion_tokens as int),
        usage.total_tokens == capped(prompt_tokens + completion_tokens),
{
    let prompt_tokens: u32 = cap(prompt_tokens);
    let completion_tokens: u32 = cap(completion_tokens);
    let total_tokens: u32 = prompt_tokens.saturating_add(completion_tokens);
    UsageInfo { prompt_tokens, completion_tokens, total_tokens }
}

/// The first chunk of a stream: who speaks.
pub fn opening_choice() -> (choice: ChunkChoice)
    ensures
        choice.index == 0,
        text_view(choice.delta.role) == Some("assistant"@),
        choice.delta.content is None,
        choice.delta.tool_calls is None,
        choice.finish_reason is None,
{
    ChunkChoice {
        index: 0,
        delta: ChunkDelta {
            role: Some("assistant".to_owned()),
            content: None,
            tool_calls: None,
        },
        finish_reason: None,
    }
}

/// The reason in the words of the protocol, if there is one.
pub open spec fn reason_words(reason: Option<FinishReason>) -> Option<Seq<char>> {
    match reason {
        Some(reason) => Some(reason_text(reason)),
        None => None,
    }
}

fn reason_string(reason: Option<FinishReason>) -> (text: Option<String>)
    ensures
        text_view(text) == reason_words(reason),
{
    match reason {
        Some(reason) => Some(finish_reason_text(reason)),
        None => None,
    }
}

/// The choice says the text and why it ended. There is none where nothing was said and
/// nothing ended.
pub open spec fn says_text(
    choice: Option<ChunkChoice>,
    text: Seq<char>,
    reason: Option<FinishReason>,
) -> bool {
    &&& choice is Some <==> (text.len() > 0 || reason is Some)
    &&& choice matches Some(c) ==> {
        &&& c.index == 0
        &&& c.delta.role is None
        &&& text_view(c.delta.content) == Some(text)
        &&& c.delta.tool_calls is None
        &&& text_view(c.finish_reason) == reason_words(reason)
    }
}

/// The chunk for some text of a stream.
pub fn content_choice(text: String, reason: Option<FinishReason>) -> (choice: Option<ChunkChoice>)
    ensures
        says_text(choice, text@, reason),
{
    if chars_of(text.as_str()).len() == 0 && reason.is_none() {
        return None;
    }
    Some(
        ChunkChoice {
            index: 0,
            delta: ChunkDelta { role: None, content: Some(text), tool_calls: None },
            finish_reason: reason_string(reason),
        },
    )
}

/// The choice says what a whole text comes to: its calls to the tools, or the text and
/// why it ended.
pub open spec fn says_outcome(
    choice: ChunkChoice,
    text: Seq<char>,
    tools: Seq<ChatCompletionTool>,
    reason: Option<FinishReason>,
) -> bool {
    let found = extracted(text, tool_names(tools));
    &&& choice.index == 0
    &&& choice.delta.role is None
    &&& text_view(choice.delta.content) == found.content
    &&& choice.delta.tool_calls is Some <==> found.calls is Some
    &&& found.calls matches Some(calls) ==> deltas_shown(choice.delta.tool_calls->0@, calls)
    &&& text_view(choice.finish_reason) == if found.calls is Some {
        Some("tool_calls"@)
    } else {
        reason_words(reason)
    }
}

/// The last chunk of a stream with tools.
pub fn tool_choice_chunk(
    text: &str,
    tools: &[ChatCompletionTool],
    reason: Option<FinishReason>,
) -> (choice: ChunkChoice)
    ensures
        says_outcome(choice, text@, tools@, reason),
{
    let parsed = parse_chat_output(text, Some(tools));
    let ghost found = extracted(text@, tool_names(tools@));
    match parsed.tool_calls {
        Some(calls) => {
            let deltas = tool_calls_to_deltas(calls.as_slice());
            proof {
                let views = found.calls->0;
                assert forall|i: int| 0 <= i < views.len() implies delta_shown(
                    #[trigger] deltas@[i],
                    i,
                    views[i],
                ) by {
                    assert(shaped(calls@[i], views[i]));
                    assert(delta_of(deltas@[i], i, calls@[i]));
                }
            }
            ChunkChoice {
                index: 0,
                delta: ChunkDelta {
                    role: None,
                    content: parsed.content,
                    tool_calls: Some(deltas),
                },
                finish_reason: Some("tool_calls".to_owned()),
            }
        },
        None => ChunkChoice {
            index: 0,
            delta: ChunkDelta { role: None, content: parsed.content, tool_calls: None },
            finish_reason: reason_string(reason),
        },
    }
}

/// The delta carries the whole call.
pub open spec fn delta_shown(
    delta: crate::server::openai::ToolCallDelta,
    i: int,
    call: CallView,
) -> bool {
    &&& delta.index == i as u32
    &&& delta.function matches Some(function) && text_view(function.name) == Some(call.name)
        && text_view(function.arguments) == Some(call.arguments)
    &&& text_view(delta.tool_type) == Some("function"@)
    &&& delta.id matches Some(id) && match call.id {
        Some(given) => id@ == given,
        None => random_id(id@, "call_"@),
    }
}

/// The deltas carry the calls.
pub open spec fn deltas_shown(
    deltas: Seq<crate::server::openai::ToolCallDelta>,
    calls: Seq<CallView>,
) -> bool {
    &&& deltas.len() == calls.len()
    &&& forall|i: int|
        0 <= i < calls.len() ==> delta_shown(#[trigger] deltas[i], i, calls[i])
}

/// A chunk of a stream.
pub fn chat_chunk(
    id: &str,
    created: u64,
    model: &str,
    choice: ChunkChoice,
    generation_time: Option<F64Bits>,
) -> (chunk: ChatCompletionChunk)
    ensures
        chunk.id@ == id@,
        chunk.object@ == "chat.completion.chunk"@,
        chunk.created == created,
        chunk.model@ == model@,
        chunk.choices@ == seq![choice],
        chunk.generation_time == generation_time,
{
    let mut choices: Vec<ChunkChoice> = Vec::new();
    choices.push(choice);
    assert(choices@ =~= seq![choice]);
    ChatCompletionChunk {
        id: id.to_owned(),
        object: "chat.completion.chunk".to_owned(),
        created,
        model: model.to_owned(),
        choices,
        generation_time,
    }
}

/// What a request came to.
#[derive(Debug, Clone)]
pub struct EngineCompletion {
    pub text: String,
    pub usage: UsageInfo,
    pub finish_reason: String,
    pub generation_time: F64Bits,
}

/// The answer to a chat request, with the calls to the given tools.
pub fn chat_completion_response(
    model: &str,
    completion: EngineCompletion,
    tools: Option<&[ChatCompletionTool]>,
) -> (response: ChatCompletionResponse)
    ensures
        ({
            let found = extracted(completion.text@, given_names(tools));
            &&& random_id(response.id@, "chatcmpl"@ + "-"@)
            &&& response.object@ == "chat.completion"@
            &&& response.model@ == model@
            &&& response.usage == completion.usage
            &&& response.generation_time == Some(completion.generation_time)
            &&& response.choices@.len() == 1
            &&& response.choices@[0].index == 0
            &&& response.choices@[0].message.role@ == "assistant"@
            &&& text_view(response.choices@[0].message.content) == found.content
            &&& all_shaped(response.choices@[0].message.tool_calls, found.calls)
            &&& text_view(response.choices@[0].finish_reason) == if found.calls is Some {
                Some("tool_calls"@)
            } else {
                Some(completion.finish_reason@)
            }
        }),
{
    let parsed = parse_chat_output(completion.text.as_str(), tools);
    let finish_reason = if parsed.tool_calls.is_some() {
        "tool_calls".to_owned()
    } else {
        completion.finish_reason
    };
    let mut choices: Vec<ChatChoice> = Vec::new();
    choices.push(
        ChatChoice {
            index: 0,
            message: ChatResponseMessage {
                role: "assistant".to_owned(),
                content: parsed.content,
                tool_calls: parsed.tool_calls,
            },
            finish_reason: Some(finish_reason),
        },
    );
    ChatCompletionResponse {
        id: generate_completion_id("chatcmpl"),
        object: "chat.completion".to_owned(),
        created: now_timestamp(),
        model: model.to_owned(),
        choices,
        usage: completion.usage,
        generation_time: Some(completion.generation_time),
    }
}

/// The answer to a completion request.
pub fn completion_response(model: &str, completion: EngineCompletion) -> (response:
    CompletionResponse)
    ensures
        random_id(response.id@, "cmpl"@ + "-"@),
        response.object@ == "text_completion"@,
        response.model@ == model@,
        response.usage == completion.usage,
        response.generation_time == Some(completion.generation_time),
        response.choices@.len() == 1,
        response.choices@[0].index == 0,
        response.choices@[0].text@ == completion.text@,
        text_view(response.choices@[0].finish_reason) == Some(completion.finish_reason@),
{
    let mut choices: Vec<CompletionChoice> = Vec::new();
    choices.push(
        CompletionChoice {
            index: 0,
            text: completion.text,
            finish_reason: Some(completion.finish_reason),
        },
    );
    CompletionResponse {
        id: generate_completion_id("cmpl"),
        object: "text_completion".to_owned(),
        created: now_timestamp(),
        model: model.to_owned(),
        choices,
        usage: completion.usage,
        generation_time: Some(completion.generation_time),
    }
}

/// What is answered while no model is loaded: nothing, at no cost.
pub fn empty_completion(generation_time: F64Bits) -> (completion: EngineCompletion)
    ensures
        completion.text@ == ""@,
        completion.finish_reason@ == "stop"@,
        completion.usage == (UsageInfo {
            prompt_tokens: 0,
            completion_tokens: 0,
            total_tokens: 0,
        }),
        completion.generation_time == generation_time,
{
    EngineCompletion {
        text: "".to_owned(),
        usage: UsageInfo { prompt_tokens: 0, completion_tokens: 0, total_tokens: 0 },
        finish_reason: "stop".to_owned(),
        generation_time,
    }
}

/// What is streamed while no model is loaded: who speaks, and that all is said.
pub fn empty_choice() -> (choice: ChunkChoice)
    ensures
        choice.index == 0,
        text_view(choice.delta.role) == Some("assistant"@),
        choice.delta.content is None,
        choice.delta.tool_calls is None,
        text_view(choice.finish_reason) == Some("stop"@),
{
    ChunkChoice {
        index: 0,
        delta: ChunkDelta {
            role: Some("assistant".to_owned()),
            content: None,
            tool_calls: None,
        },
        finish_reason: Some("stop".to_owned()),
    }
}

/// A part of a text completion as it is streamed.
#[derive(Debug)]
pub struct CompletionChunk {
    pub id: String,
    pub object: String,
    pub created: u64,
    pub model: String,
    pub choices: Vec<CompletionChoice>,
    pub usage: UsageInfo,
    pub finished: bool,
    pub generation_time: Option<F64Bits>,
}

/// How far a streamed text completion has come.
#[derive(Debug, Clone, Copy, PartialEq, Eq, Structural)]
pub struct CompletionProgress {
    pub reason: Option<FinishReason>,
    pub usage: UsageInfo,
    pub finished: bool,
    pub generation_time: F64Bits,
}

/// The chunk that carries the next piece of text.
pub fn completion_chunk(
    id: &str,
    created: u64,
    model: &str,
    text: String,
    progress: CompletionProgress,
) -> (chunk: CompletionChunk)
    ensures
        chunk.id@ == id@,
        chunk.object@ == "text_completion.chunk"@,
        chunk.created == created,
        chunk.model@ == model@,
        chunk.choices@.len() == 1,
        chunk.choices@[0].index == 0,
        chunk.choices@[0].text@ == text@,
        text_view(chunk.choices@[0].finish_reason) == reason_words(progress.reason),
        chunk.usage == progress.usage,
        chunk.finished == progress.finished,
        chunk.generation_time == Some(progress.generation_time),
{
    let finish_reason = reason_string(progress.reason);
    let mut choices: Vec<CompletionChoice> = Vec::new();
    choices.push(CompletionChoice { index: 0, text, finish_reason });
    CompletionChunk {
        id: id.to_owned(),
        object: "text_completion.chunk".to_owned(),
        created,
        model: model.to_owned(),
        choices,
        usage: progress.usage,
        finished: progress.finished,
        generation_time: Some(progress.generation_time),
    }
}

/// The one chunk that a server without a model streams.
pub fn empty_completion_chunk(model: &str, generation_time: F64Bits) -> (chunk: CompletionChunk)
    ensures
        random_id(chunk.id@, "cmpl"@ + "-"@),
        chunk.object@ == "text_completion.chunk"@,
        chunk.model@ == model@,
        chunk.choices@.len() == 1,
        chunk.choices@[0].index == 0,
        chunk.choices@[0].text@ == ""@,
        text_view(chunk.choices@[0].finish_reason) == Some("stop"@),
        chunk.usage == (UsageInfo { prompt_tokens: 0, completion_tokens: 0, total_tokens: 0 }),
        chunk.finished,
        chunk.generation_time == Some(generation_time),
{
    let id = generate_completion_id("cmpl");
    let progress = CompletionProgress {
        reason: Some(FinishReason::Stop),
        usage: UsageInfo { prompt_tokens: 0, completion_tokens: 0, total_tokens: 0 },
        finished: true,
        generation_time,
    };
    completion_chunk(id.as_str(), now_timestamp(), model, "".to_owned(), progress)
}

/// The list of models: the one that is served.
pub fn model_list(model: &str) -> (list: ModelListResponse)
    ensures
        list.object@ == "list"@,
        list.data@.len() == 1,
        list.data@[0].id@ == model@,
        list.data@[0].object@ == "model"@,
        list.data@[0].owned_by@ == "rllm"@,
{
    let mut data: Vec<ModelInfo> = Vec::new();
    data.push(
        ModelInfo {
            id: model.to_owned(),
            object: "model".to_owned(),
            created: now_timestamp(),
            owned_by: "rllm".to_owned(),
        },
    );
    ModelListResponse { object: "list".to_owned(), data }
}

/// The body of a refusal.
pub fn error_body(message: &str, error_type: &str) -> (body: ErrorResponse)
    ensures
        body.error.message@ == message@,
        body.error.error_type@ == error_type@,
        body.error.code is None,
{
    ErrorResponse {
        error: ErrorDetail {
            message: message.to_owned(),
            error_type: error_type.to_owned(),
            code: None,
        },
    }
}

/// What the metrics page shows.
pub fn metrics_page(rendered: String) -> (page: String)
    ensures
        page@ == if rendered@.len() == 0 {
            "# no metrics recorded yet\n"@
        } else {
            rendered@
        },
{
    if chars_of(rendered.as_str()).len() == 0 {
        "# no metrics recorded yet\n".to_owned()
    } else {
        rendered
    }
}

/// A chat request is let in where it has messages, though not too many, does not ask for
/// output in two ways, and its tools are in order.
pub proof fn lemma_chat_admitted(req: ChatCompletionRequest, max_messages: usize)
    ensures
        chat_refusal(req, max_messages) is None <==> {
            &&& 0 < req.messages@.len() <= max_messages
            &&& req.structured_outputs is None || req.response_format is None
            &&& request_fault(req) is None
        },
{
}

/// Prompts are put one to a line, in order.
pub proof fn lemma_lines(a: Seq<Seq<char>>, b: Seq<Seq<char>>, one: Seq<char>)
    requires
        a.len() > 0,
        b.len() > 0,
    ensures
        lines(a + b) == lines(a) + "\n"@ + lines(b),
        lines(seq![one]) == one,
    decreases b.len(),
{
    assert((a + b).drop_last() =~= a + b.drop_last());
    if b.len() == 1 {
        assert(a + b.drop_last() =~= a);
    } else {
        lemma_lines(a, b.drop_last(), one);
        assert(lines(a + b) =~= lines(a) + "\n"@ + lines(b));
    }
}

/// The reason that counts is the last one given.
pub proof fn lemma_last_reason(outputs: Seq<TokenOutput>, before: Option<FinishReason>, i: int)
    requires
        0 <= i < outputs.len(),
        outputs[i].finish_reason is Some,
        forall|j: int| i < j < outputs.len() ==> (#[trigger] outputs[j]).finish_reason is None,
    ensures
        last_reason(outputs, before) == outputs[i].finish_reason,
    decreases outputs.len(),
{
    if i < outputs.len() - 1 {
        assert(outputs[outputs.len() - 1].finish_reason is None);
        let front = outputs.drop_last();
        assert forall|j: int| i < j < front.len() implies (#[trigger] front[j]).finish_reason
            is None by {
            assert(outputs[j].finish_reason is None);
        }
        lemma_last_reason(front, before, i);
    }
}

/// Where no reason is given, the one from before stands.
pub proof fn lemma_no_reason(outputs: Seq<TokenOutput>, before: Option<FinishReason>)
    requires
        forall|j: int| 0 <= j < outputs.len() ==> (#[trigger] outputs[j]).finish_reason is None,
    ensures
        last_reason(outputs, before) == before,
    decreases outputs.len(),
{
    if outputs.len() > 0 {
        assert(outputs[outputs.len() - 1].finish_reason is None);
        let front = outputs.drop_last();
        assert forall|j: int| 0 <= j < front.len() implies (#[trigger] front[j]).finish_reason
            is None by {
            assert(outputs[j].finish_reason is None);
        }
        lemma_no_reason(front, before);
    }
}

/// The total of a usage is the sum of its parts, as long as that can be told.
pub proof fn lemma_usage_adds_up(
    prompt_tokens: usize,
    completion_tokens: usize,
    usage: UsageInfo,
)
    requires
        call_ensures(usage_of, (prompt_tokens, completion_tokens), usage),
        prompt_tokens + completion_tokens <= u32::MAX,
    ensures
        usage.prompt_tokens == prompt_tokens,
        usage.completion_tokens == completion_tokens,
        usage.total_tokens == usage.prompt_tokens + usage.completion_tokens,
{
}

/// A chunk of text is sent where there is text or the end has come, and never changes the
/// text.
pub proof fn lemma_content_sent(choice: Option<ChunkChoice>, text: Seq<char>, reason: Option<FinishReason>)
    requires
        says_text(choice, text, reason),
    ensures
        choice is None <==> text.len() == 0 && reason is None,
        choice is Some ==> choice->0.delta.content is Some && (choice->0.delta.content->0)@ == text,
        choice is Some ==> (choice->0.finish_reason is Some <==> reason is Some),
{
}

} // verus!
