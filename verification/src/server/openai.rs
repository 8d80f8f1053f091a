use vstd::prelude::*;

use crate::float_bits::{F32Bits, F64Bits};
use crate::json::Json;
use crate::sampling::params::StructuredOutputParams;
use crate::text::{copy_texts, text_view, texts};

verus! {

#[derive(Debug, Clone, PartialEq, Eq)]
pub struct ChatMessage {
    pub role: String,
    pub content: Option<String>,
    pub name: Option<String>,
    pub tool_call_id: Option<String>,
    pub tool_calls: Option<Vec<ToolCall>>,
}

#[derive(Debug, Clone, PartialEq, Eq)]
pub struct ToolCall {
    pub id: String,
    pub tool_type: String,
    pub function: FunctionCall,
}

#[derive(Debug, Clone, PartialEq, Eq)]
pub struct FunctionCall {
    pub name: String,
    /// Function arguments as a JSON-encoded string.
    pub arguments: String,
}

#[derive(Debug)]
pub struct ChatCompletionTool {
    pub tool_type: String,
    pub function: FunctionDefinition,
}

#[derive(Debug)]
pub struct FunctionDefinition {
    pub name: String,
    pub description: Option<String>,
    pub parameters: Option<Json>,
    pub strict: Option<bool>,
}

#[derive(Debug, Clone, Copy, PartialEq, Eq, Structural)]
pub enum ToolChoiceMode {
    /// `none` in the protocol.
    Disabled,
    Auto,
    Required,
}

#[derive(Debug, Clone, PartialEq, Eq)]
pub enum ToolChoice {
    Mode(ToolChoiceMode),
    Named(NamedToolChoice),
}

#[derive(Debug, Clone, PartialEq, Eq)]
pub struct NamedToolChoice {
    pub tool_type: String,
    pub function: NamedFunction,
}

#[derive(Debug, Clone, PartialEq, Eq)]
pub struct NamedFunction {
    pub name: String,
}

#[derive(Debug)]
pub struct ChatCompletionRequest {
    pub model: String,
    pub messages: Vec<ChatMessage>,
    pub temperature: Option<F32Bits>,
    pub top_p: Option<F32Bits>,
    pub max_tokens: Option<u32>,
    pub stream: Option<bool>,
    pub stop: Option<StopSequence>,
    pub n: Option<u32>,
    pub logprobs: Option<bool>,
    pub top_logprobs: Option<u32>,
    pub presence_penalty: Option<F32Bits>,
    pub frequency_penalty: Option<F32Bits>,
    pub seed: Option<u64>,
    pub structured_outputs: Option<StructuredOutputParams>,
    pub response_format: Option<ResponseFormat>,
    pub tools: Option<Vec<ChatCompletionTool>>,
    pub tool_choice: Option<ToolChoice>,
    pub parallel_tool_calls: Option<bool>,
}

#[derive(Debug, Clone, PartialEq, Eq)]
pub enum StopSequence {
    Single(String),
    Multiple(Vec<String>),
}

#[derive(Debug)]
pub enum ResponseFormat {
    Text,
    JsonObject,
    JsonSchema { json_schema: ResponseFormatJsonSchema },
}

#[derive(Debug)]
pub struct ResponseFormatJsonSchema {
    pub name: String,
    pub description: Option<String>,
    pub schema: Json,
    pub strict: Option<bool>,
}

#[derive(Debug)]
pub struct CompletionRequest {
    pub model: String,
    pub prompt: PromptInput,
    pub suffix: Option<String>,
    pub temperature: Option<F32Bits>,
    pub top_p: Option<F32Bits>,
    pub max_tokens: Option<u32>,
    pub stream: Option<bool>,
    pub stop: Option<StopSequence>,
    pub n: Option<u32>,
    pub logprobs: Option<u32>,
    pub presence_penalty: Option<F32Bits>,
    pub frequency_penalty: Option<F32Bits>,
    pub seed: Option<u64>,
    pub structured_outputs: Option<StructuredOutputParams>,
    pub response_format: Option<ResponseFormat>,
}

#[derive(Debug, Clone, PartialEq, Eq)]
pub enum PromptInput {
    Single(String),
    Multiple(Vec<String>),
}

#[derive(Debug)]
pub struct ChatCompletionResponse {
    pub id: String,
    pub object: String,
    pub created: u64,
    pub model: String,
    pub choices: Vec<ChatChoice>,
    pub usage: UsageInfo,
    pub generation_time: Option<F64Bits>,
}

#[derive(Debug, Clone, PartialEq, Eq)]
pub struct ChatChoice {
    pub index: u32,
    pub message: ChatResponseMessage,
    pub finish_reason: Option<String>,
}

#[derive(Debug, Clone, PartialEq, Eq)]
pub struct ChatResponseMessage {
    pub role: String,
    pub content: Option<String>,
    pub tool_calls: Option<Vec<ToolCall>>,
}

#[derive(Debug)]
pub struct CompletionResponse {
    pub id: String,
    pub object: String,
    pub created: u64,
    pub model: String,
    pub choices: Vec<CompletionChoice>,
    pub usage: UsageInfo,
    pub generation_time: Option<F64Bits>,
}

#[derive(Debug, Clone, PartialEq, Eq)]
pub struct CompletionChoice {
    pub index: u32,
    pub text: String,
    pub finish_reason: Option<String>,
}

#[derive(Debug, Clone, Copy, PartialEq, Eq, Structural)]
pub struct UsageInfo {
    pub prompt_tokens: u32,
    pub completion_tokens: u32,
    pub total_tokens: u32,
}

#[derive(Debug)]
pub struct ChatCompletionChunk {
    pub id: String,
    pub object: String,
    pub created: u64,
    pub model: String,
    pub choices: Vec<ChunkChoice>,
    pub generation_time: Option<F64Bits>,
}

#[derive(Debug, Clone, PartialEq, Eq)]
pub struct ChunkChoice {
    pub index: u32,
    pub delta: ChunkDelta,
    pub finish_reason: Option<String>,
}

#[derive(Debug, Clone, PartialEq, Eq)]
pub struct ChunkDelta {
    pub role: Option<String>,
    pub content: Option<String>,
    pub tool_calls: Option<Vec<ToolCallDelta>>,
}

#[derive(Debug, Clone, PartialEq, Eq)]
pub struct ToolCallDelta {
    pub index: u32,
    pub id: Option<String>,
    pub tool_type: Option<String>,
    pub function: Option<FunctionCallDelta>,
}

#[derive(Debug, Clone, PartialEq, Eq)]
pub struct FunctionCallDelta {
    pub name: Option<String>,
    pub arguments: Option<String>,
}

#[derive(Debug, Clone, PartialEq, Eq)]
pub struct ParsedChatOutput {
    pub content: Option<String>,
    pub tool_calls: Option<Vec<ToolCall>>,
}

#[derive(Debug, Clone, PartialEq, Eq)]
pub struct ModelListResponse {
    pub object: String,
    pub data: Vec<ModelInfo>,
}

#[derive(Debug, Clone, PartialEq, Eq)]
pub struct ModelInfo {
    pub id: String,
    pub object: String,
    pub created: u64,
    pub owned_by: String,
}

#[derive(Debug, Clone, PartialEq, Eq)]
pub struct ErrorResponse {
    pub error: ErrorDetail,
}

#[derive(Debug, Clone, PartialEq, Eq)]
pub struct ErrorDetail {
    pub message: String,
    pub error_type: String,
    pub code: Option<String>,
}

#[derive(Debug, Clone, PartialEq, Eq)]
pub struct HealthResponse {
    pub status: String,
}

/// Why a completion ended.
#[derive(Debug, Clone, Copy, PartialEq, Eq, Structural)]
pub enum FinishReason {
    Stop,
    Length,
    Aborted,
    Error,
}

/// One completion of the engine.
#[derive(Debug)]
pub struct CompletionOutput {
    pub text: String,
    pub finish_reason: Option<FinishReason>,
}

/// What the engine gives back for a request.
#[derive(Debug)]
pub struct RequestOutput {
    pub outputs: Vec<CompletionOutput>,
    pub usage: UsageInfo,
}

/// A lower-case hexadecimal digit.
pub open spec fn hex_digit(c: char) -> bool {
    '0' <= c <= '9' || 'a' <= c <= 'f'
}

/// The prefix and a random number of 32 hexadecimal digits.
pub open spec fn random_id(id: Seq<char>, prefix: Seq<char>) -> bool {
    &&& id.len() == prefix.len() + 32
    &&& id.take(prefix.len() as int) == prefix
    &&& forall|i: int| prefix.len() <= i < id.len() ==> hex_digit(#[trigger] id[i])
}

/// `uuid::Uuid::new_v4`, as a simple string: 32 lower-case hexadecimal digits.
/// Which ones is random.
#[verifier::external_body]
fn random_hex() -> (digits: String)
    ensures
        digits@.len() == 32,
        forall|i: int| 0 <= i < 32 ==> hex_digit(#[trigger] digits@[i]),
{
    uuid::Uuid::new_v4().as_simple().to_string()
}

/// `std::time::SystemTime::now`, in whole seconds since the Unix epoch. Nothing
/// is stated of the clock.
#[verifier::external_body]
fn clock_seconds() -> u64 {
    std::time::SystemTime::now().duration_since(std::time::UNIX_EPOCH).unwrap_or_default().as_secs()
}

/// Generate a completion id (such as "cmpl-abc123").
pub fn generate_completion_id(prefix: &str) -> (id: String)
    ensures
        random_id(id@, prefix@ + "-"@),
{
    let digits = random_hex();
    let id = crate::text::join3(prefix, "-", digits.as_str());
    proof {
        let head = prefix@ + "-"@;
        assert(id@ =~= head + digits@);
        assert(id@.take(head.len() as int) =~= head);
        assert forall|i: int| head.len() <= i < id@.len() implies hex_digit(#[trigger] id@[i]) by {
            assert(id@[i] == digits@[i - head.len()]);
        }
    }
    id
}

pub fn generate_tool_call_id() -> (id: String)
    ensures
        random_id(id@, "call_"@),
{
    let digits = random_hex();
    let id = crate::text::join2("call_", digits.as_str());
    proof {
        let head = "call_"@;
        assert(id@.take(head.len() as int) =~= head);
        assert forall|i: int| head.len() <= i < id@.len() implies hex_digit(#[trigger] id@[i]) by {
            assert(id@[i] == digits@[i - head.len()]);
        }
    }
    id
}

/// The current Unix timestamp.
pub fn now_timestamp() -> u64 {
    clock_seconds()
}

/// The stop strings of a request.
pub open spec fn stop_strings(stop: Option<StopSequence>) -> Seq<Seq<char>> {
    match stop {
        Some(StopSequence::Single(s)) => seq![s@],
        Some(StopSequence::Multiple(v)) => texts(v@),
        None => Seq::empty(),
    }
}

pub fn extract_stop_strings(stop: &Option<StopSequence>) -> (strings: Vec<String>)
    ensures
        texts(strings@) == stop_strings(*stop),
{
    let mut strings: Vec<String> = Vec::new();
    match stop {
        Some(StopSequence::Single(s)) => {
            strings.push(s.clone());
        },
        Some(StopSequence::Multiple(v)) => {
            strings = copy_texts(v);
        },
        None => {},
    }
    assert(texts(strings@) =~= stop_strings(*stop));
    strings
}

/// A streaming delta that carries a whole tool call.
pub open spec fn delta_of(delta: ToolCallDelta, index: int, call: ToolCall) -> bool {
    &&& delta.index == index as u32
    &&& delta.id == Some(call.id)
    &&& delta.tool_type == Some(call.tool_type)
    &&& delta.function == Some(
        FunctionCallDelta {
            name: Some(call.function.name),
            arguments: Some(call.function.arguments),
        },
    )
}

/// Convert complete tool calls into streaming deltas, each of which carries
/// all of its call's arguments.
pub fn tool_calls_to_deltas(tool_calls: &[ToolCall]) -> (deltas: Vec<ToolCallDelta>)
    ensures
        deltas@.len() == tool_calls@.len(),
        forall|i: int|
            0 <= i < deltas@.len() ==> delta_of(#[trigger] deltas@[i], i, tool_calls@[i]),
{
    let mut deltas: Vec<ToolCallDelta> = Vec::new();
    let mut i: usize = 0;
    while i < tool_calls.len()
        invariant
            i <= tool_calls@.len(),
            deltas@.len() == i,
            forall|k: int|
                0 <= k < i ==> delta_of(#[trigger] deltas@[k], k, tool_calls@[k]),
        decreases tool_calls@.len() - i,
    {
        let call = &tool_calls[i];
        deltas.push(
            ToolCallDelta {
                index: i as u32,
                id: Some(call.id.clone()),
                tool_type: Some(call.tool_type.clone()),
                function: Some(
                    FunctionCallDelta {
                        name: Some(call.function.name.clone()),
                        arguments: Some(call.function.arguments.clone()),
                    },
                ),
            },
        );
        i = i + 1;
    }
    deltas
}

/// The finish reason in the words of the protocol.
pub open spec fn reason_text(reason: FinishReason) -> Seq<char> {
    match reason {
        FinishReason::Length => "length"@,
        _ => "stop"@,
    }
}

pub fn finish_reason_text(reason: FinishReason) -> (text: String)
    ensures
        text@ == reason_text(reason),
{
    match reason {
        FinishReason::Length => "length".to_owned(),
        _ => "stop".to_owned(),
    }
}

/// The choice of a plain completion.
pub open spec fn completion_choice(
    choice: CompletionChoice,
    i: int,
    output: CompletionOutput,
) -> bool {
    &&& choice.index == i as u32
    &&& choice.text@ == output.text@
    &&& text_view(choice.finish_reason) == match output.finish_reason {
        Some(r) => Some(reason_text(r)),
        None => None,
    }
}

/// Convert engine output to a completion response.
pub fn request_output_to_completion(output: &RequestOutput, model: &str) -> (response:
    CompletionResponse)
    ensures
        random_id(response.id@, "cmpl"@ + "-"@),
        response.object@ == "text_completion"@,
        response.model@ == model@,
        response.usage == output.usage,
        response.generation_time is None,
        response.choices@.len() == output.outputs@.len(),
        forall|i: int|
            0 <= i < response.choices@.len() ==> completion_choice(
                #[trigger] response.choices@[i],
                i,
                output.outputs@[i],
            ),
{
    let id = generate_completion_id("cmpl");
    let created = now_timestamp();
    let mut choices: Vec<CompletionChoice> = Vec::new();
    let mut i: usize = 0;
    while i < output.outputs.len()
        invariant
            i <= output.outputs@.len(),
            choices@.len() == i,
            forall|k: int|
                0 <= k < i ==> completion_choice(#[trigger] choices@[k], k, output.outputs@[k]),
        decreases output.outputs@.len() - i,
    {
        let one = &output.outputs[i];
        let finish_reason = match one.finish_reason {
            Some(r) => Some(finish_reason_text(r)),
            None => None,
        };
        choices.push(CompletionChoice { index: i as u32, text: one.text.clone(), finish_reason });
        i = i + 1;
    }
    CompletionResponse {
        id,
        object: "text_completion".to_owned(),
        created,
        model: model.to_owned(),
        choices,
        usage: output.usage,
        generation_time: None,
    }
}

/// Stopping at the length is told as such, and every other end as a stop.
pub proof fn lemma_reason_text(reason: FinishReason)
    ensures
        reason is Length ==> reason_text(reason) == "length"@,
        !(reason is Length) ==> reason_text(reason) == "stop"@,
{
}

/// One stop string is a list of one, a list is itself, and where none is given there is
/// none.
pub proof fn lemma_stop_strings(stop: Option<StopSequence>)
    ensures
        stop is None ==> stop_strings(stop).len() == 0,
        stop is Some && stop->0 is Single ==> stop_strings(stop) == seq![(stop->0->Single_0)@],
        stop is Some && stop->0 is Multiple ==> stop_strings(stop).len() == (
        stop->0->Multiple_0)@.len() && forall|i: int|
            0 <= i < stop_strings(stop).len() ==> #[trigger] stop_strings(stop)[i] == (
            stop->0->Multiple_0)@[i]@,
{
}

} // verus!
