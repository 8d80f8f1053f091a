use vstd::prelude::*;

use crate::float_bits::F32Bits;
use crate::json::{json_reading, parsed_json, read_json, Json};
use crate::sampling::params::SamplingParams;
use crate::server::openai::{
    ChatCompletionRequest, ChatCompletionTool, ChatMessage, CompletionRequest, FunctionCall,
    FunctionDefinition, NamedFunction, NamedToolChoice, PromptInput, StopSequence, ToolCall,
    ToolChoice, ToolChoiceMode,
};
use crate::server::requests::chat_request_to_sampling_params;
use crate::text::{join2, text_eq, texts};

verus! {

/// A tool call as it comes over the wire.
#[derive(Debug, Clone)]
pub struct WireToolCall {
    pub id: String,
    pub call_type: String,
    pub function: Option<FunctionCall>,
}

/// A message as it comes over the wire.
#[derive(Debug, Clone)]
pub struct WireMessage {
    pub role: String,
    pub content: Option<String>,
    pub name: Option<String>,
    pub tool_call_id: Option<String>,
    pub tool_calls: Vec<WireToolCall>,
}

/// A function as it comes over the wire.
#[derive(Debug, Clone)]
pub struct WireFunction {
    pub name: String,
    pub description: Option<String>,
    pub parameters_json: Option<String>,
    pub strict: Option<bool>,
}

/// A tool as it comes over the wire.
#[derive(Debug, Clone)]
pub struct WireTool {
    pub tool_type: String,
    pub function: Option<WireFunction>,
}

/// A choice among the tools as it comes over the wire.
#[derive(Debug, Clone)]
pub enum WireToolChoice {
    Mode(String),
    Named { tool_type: String, function_name: String },
}

/// A chat request as it comes over the wire.
#[derive(Debug, Clone)]
pub struct WireChatRequest {
    pub model: String,
    pub messages: Vec<WireMessage>,
    pub temperature: Option<F32Bits>,
    pub top_p: Option<F32Bits>,
    pub max_tokens: Option<u32>,
    pub stop: Vec<String>,
    pub n: Option<u32>,
    pub logprobs: Option<bool>,
    pub top_logprobs: Option<u32>,
    pub presence_penalty: Option<F32Bits>,
    pub frequency_penalty: Option<F32Bits>,
    pub seed: Option<u64>,
    pub tools: Vec<WireTool>,
    pub tool_choice: Option<WireToolChoice>,
    pub parallel_tool_calls: Option<bool>,
}

/// A completion request as it comes over the wire.
#[derive(Debug, Clone)]
pub struct WireCompletionRequest {
    pub model: String,
    pub prompt: String,
    pub temperature: Option<F32Bits>,
    pub top_p: Option<F32Bits>,
    pub max_tokens: Option<u32>,
    pub stop: Vec<String>,
    pub n: Option<u32>,
    pub logprobs: Option<u32>,
    pub presence_penalty: Option<F32Bits>,
    pub frequency_penalty: Option<F32Bits>,
    pub seed: Option<u64>,
}

/// The call is whole.
pub open spec fn whole_call(call: WireToolCall) -> bool {
    call.function is Some
}

/// All calls of the message are whole.
pub open spec fn whole_message(message: WireMessage) -> bool {
    forall|i: int|
        0 <= i < message.tool_calls@.len() ==> whole_call(#[trigger] message.tool_calls@[i])
}

/// What is wrong with a tool, if anything is.
pub open spec fn wire_tool_fault(tool: WireTool) -> Option<Seq<char>> {
    match tool.function {
        None => Some("tools require a function"@),
        Some(function) => match function.parameters_json {
            Some(text) => match json_reading(text@) {
                Ok(_) => None,
                Err(words) => Some("invalid tool parameters_json: "@ + words),
            },
            None => None,
        },
    }
}

/// What is wrong with the first of the tools with a fault.
pub open spec fn first_wire_tool_fault(tools: Seq<WireTool>, n: int) -> Option<Seq<char>>
    decreases n,
{
    if n <= 0 {
        None
    } else {
        match first_wire_tool_fault(tools, n - 1) {
            Some(fault) => Some(fault),
            None => wire_tool_fault(tools[n - 1]),
        }
    }
}

proof fn lemma_first_wire_tool_fault(tools: Seq<WireTool>, i: int, n: int)
    requires
        0 <= i <= n,
        first_wire_tool_fault(tools, i) is Some,
    ensures
        first_wire_tool_fault(tools, n) == first_wire_tool_fault(tools, i),
    decreases n,
{
    if i < n {
        lemma_first_wire_tool_fault(tools, i, n - 1);
    }
}

/// The mode that a word names.
pub open spec fn named_mode(word: Seq<char>) -> Option<ToolChoiceMode> {
    if word == "none"@ {
        Some(ToolChoiceMode::Disabled)
    } else if word == "auto"@ {
        Some(ToolChoiceMode::Auto)
    } else if word == "required"@ {
        Some(ToolChoiceMode::Required)
    } else {
        None
    }
}

/// The choice names a mode that there is.
pub open spec fn known_choice(choice: Option<WireToolChoice>) -> bool {
    match choice {
        Some(WireToolChoice::Mode(word)) => named_mode(word@) is Some,
        _ => true,
    }
}

/// All messages are whole.
pub open spec fn whole_messages(messages: Seq<WireMessage>) -> bool {
    forall|i: int| 0 <= i < messages.len() ==> whole_message(#[trigger] messages[i])
}

/// What is wrong with a chat request, if anything is.
pub open spec fn wire_fault(req: WireChatRequest) -> Option<Seq<char>> {
    if !whole_messages(req.messages@) {
        Some("tool calls require a function"@)
    } else {
        match first_wire_tool_fault(req.tools@, req.tools@.len() as int) {
            Some(fault) => Some(fault),
            None => if known_choice(req.tool_choice) {
                None
            } else {
                Some("tool_choice mode must be none, auto, or required"@)
            },
        }
    }
}

/// The call of the protocol for the call of the wire.
pub open spec fn call_maps(call: ToolCall, wire: WireToolCall) -> bool {
    &&& call.id == wire.id
    &&& call.tool_type == wire.call_type
    &&& wire.function == Some(call.function)
}

/// The message of the protocol for the message of the wire.
pub open spec fn message_maps(message: ChatMessage, wire: WireMessage) -> bool {
    &&& message.role == wire.role
    &&& message.content == wire.content
    &&& message.name == wire.name
    &&& message.tool_call_id == wire.tool_call_id
    &&& match message.tool_calls {
        None => wire.tool_calls@.len() == 0,
        Some(calls) => {
            &&& calls@.len() > 0
            &&& calls@.len() == wire.tool_calls@.len()
            &&& forall|i: int|
                0 <= i < calls@.len() ==> call_maps(#[trigger] calls@[i], wire.tool_calls@[i])
        },
    }
}

/// The tool of the protocol for the tool of the wire.
pub open spec fn tool_maps(tool: ChatCompletionTool, wire: WireTool) -> bool {
    &&& tool.tool_type == wire.tool_type
    &&& wire.function matches Some(function) && {
        &&& tool.function.name == function.name
        &&& tool.function.description == function.description
        &&& tool.function.strict == function.strict
        &&& match function.parameters_json {
            Some(text) => tool.function.parameters matches Some(json) && parsed_json(text@) == Some(
                json@,
            ),
            None => tool.function.parameters is None,
        }
    }
}

/// The choice of the protocol for the choice of the wire.
pub open spec fn choice_maps(choice: Option<ToolChoice>, wire: Option<WireToolChoice>) -> bool {
    match wire {
        None => choice is None,
        Some(WireToolChoice::Mode(word)) => choice matches Some(ToolChoice::Mode(mode))
            && named_mode(word@) == Some(mode),
        Some(WireToolChoice::Named { tool_type, function_name }) => choice matches Some(
            ToolChoice::Named(named),
        ) && named.tool_type == tool_type && named.function.name == function_name,
    }
}

/// Several stop strings, or none.
pub open spec fn stop_maps(stop: Option<StopSequence>, wire: Seq<String>) -> bool {
    match stop {
        None => wire.len() == 0,
        Some(StopSequence::Multiple(list)) => wire.len() > 0 && list@ == wire,
        Some(StopSequence::Single(_)) => false,
    }
}

pub fn stop_sequence(stop: Vec<String>) -> (sequence: Option<StopSequence>)
    ensures
        stop_maps(sequence, stop@),
{
    if stop.len() == 0 {
        None
    } else {
        Some(StopSequence::Multiple(stop))
    }
}

/// The call of the protocol; a call without a function is refused.
pub fn proto_to_tool_call(call: WireToolCall) -> (result: Result<ToolCall, String>)
    ensures
        match result {
            Ok(mapped) => call_maps(mapped, call),
            Err(text) => !whole_call(call) && text@ == "tool calls require a function"@,
        },
{
    match call.function {
        Some(function) => Ok(ToolCall { id: call.id, tool_type: call.call_type, function }),
        None => Err("tool calls require a function".to_owned()),
    }
}

fn map_calls(calls: Vec<WireToolCall>) -> (result: Result<Option<Vec<ToolCall>>, String>)
    ensures
        match result {
            Ok(None) => calls@.len() == 0,
            Ok(Some(list)) => {
                &&& list@.len() > 0
                &&& list@.len() == calls@.len()
                &&& forall|i: int|
                    0 <= i < list@.len() ==> call_maps(#[trigger] list@[i], calls@[i])
            },
            Err(text) => {
                &&& text@ == "tool calls require a function"@
                &&& exists|i: int| 0 <= i < calls@.len() && !whole_call(#[trigger] calls@[i])
            },
        },
{
    if calls.len() == 0 {
        return Ok(None);
    }
    let ghost given = calls@;
    let mut list: Vec<ToolCall> = Vec::new();
    for call in it: calls.into_iter()
        invariant
            it.seq() == given,
            list@.len() == it.index(),
            forall|i: int| 0 <= i < list@.len() ==> call_maps(#[trigger] list@[i], given[i]),
    {
        assert(call == given[it.index()]);
        match proto_to_tool_call(call) {
            Ok(mapped) => {
                list.push(mapped);
            },
            Err(text) => {
                return Err(text);
            },
        }
    }
    Ok(Some(list))
}

fn map_messages(messages: Vec<WireMessage>) -> (result: Result<Vec<ChatMessage>, String>)
    ensures
        match result {
            Ok(list) => {
                &&& whole_messages(messages@)
                &&& list@.len() == messages@.len()
                &&& forall|i: int|
                    0 <= i < list@.len() ==> message_maps(#[trigger] list@[i], messages@[i])
            },
            Err(text) => !whole_messages(messages@) && text@ == "tool calls require a function"@,
        },
{
    let ghost given = messages@;
    let mut list: Vec<ChatMessage> = Vec::new();
    for message in it: messages.into_iter()
        invariant
            it.seq() == given,
            list@.len() == it.index(),
            forall|i: int| 0 <= i < list@.len() ==> whole_message(#[trigger] given[i]),
            forall|i: int| 0 <= i < list@.len() ==> message_maps(#[trigger] list@[i], given[i]),
    {
        assert(message == given[it.index()]);
        let ghost at = it.index();
        match map_calls(message.tool_calls) {
            Ok(tool_calls) => {
                proof {
                    assert forall|i: int| 0 <= i < message.tool_calls@.len() implies whole_call(
                        #[trigger] message.tool_calls@[i],
                    ) by {
                        assert(call_maps(tool_calls->0@[i], message.tool_calls@[i]));
                    }
                    assert(whole_message(given[at]));
                }
                list.push(
                    ChatMessage {
                        role: message.role,
                        content: message.content,
                        name: message.name,
                        tool_call_id: message.tool_call_id,
                        tool_calls,
                    },
                );
            },
            Err(text) => {
                assert(!whole_message(given[at]));
                return Err(text);
            },
        }
    }
    Ok(list)
}

fn map_tool(tool: WireTool) -> (result: Result<ChatCompletionTool, String>)
    ensures
        match result {
            Ok(mapped) => wire_tool_fault(tool) is None && tool_maps(mapped, tool),
            Err(text) => wire_tool_fault(tool) == Some(text@),
        },
{
    let function = match tool.function {
        Some(function) => function,
        None => {
            return Err("tools require a function".to_owned());
        },
    };
    let parameters: Option<Json> = match &function.parameters_json {
        Some(text) => match read_json(text.as_str()) {
            Ok(json) => Some(json),
            Err(words) => {
                return Err(join2("invalid tool parameters_json: ", words.as_str()));
            },
        },
        None => None,
    };
    Ok(
        ChatCompletionTool {
            tool_type: tool.tool_type,
            function: FunctionDefinition {
                name: function.name,
                description: function.description,
                parameters,
                strict: function.strict,
            },
        },
    )
}

fn map_tools(tools: Vec<WireTool>) -> (result: Result<Option<Vec<ChatCompletionTool>>, String>)
    ensures
        match result {
            Ok(None) => tools@.len() == 0,
            Ok(Some(list)) => {
                &&& first_wire_tool_fault(tools@, tools@.len() as int) is None
                &&& list@.len() > 0
                &&& list@.len() == tools@.len()
                &&& forall|i: int|
                    0 <= i < list@.len() ==> tool_maps(#[trigger] list@[i], tools@[i])
            },
            Err(text) => first_wire_tool_fault(tools@, tools@.len() as int) == Some(text@),
        },
{
    if tools.len() == 0 {
        return Ok(None);
    }
    let ghost given = tools@;
    let mut list: Vec<ChatCompletionTool> = Vec::new();
    for tool in it: tools.into_iter()
        invariant
            it.seq() == given,
            list@.len() == it.index(),
            first_wire_tool_fault(given, it.index() as int) is None,
            forall|i: int| 0 <= i < list@.len() ==> tool_maps(#[trigger] list@[i], given[i]),
    {
        assert(tool == given[it.index()]);
        let ghost at = it.index();
        match map_tool(tool) {
            Ok(mapped) => {
                list.push(mapped);
            },
            Err(text) => {
                proof {
                    lemma_first_wire_tool_fault(given, at + 1, given.len() as int);
                }
                return Err(text);
            },
        }
    }
    Ok(Some(list))
}

fn map_choice(choice: Option<WireToolChoice>) -> (result: Result<Option<ToolChoice>, String>)
    ensures
        match result {
            Ok(mapped) => known_choice(choice) && choice_maps(mapped, choice),
            Err(text) => !known_choice(choice) && text@
                == "tool_choice mode must be none, auto, or required"@,
        },
{
    match choice {
        None => Ok(None),
        Some(WireToolChoice::Mode(word)) => {
            if text_eq(word.as_str(), "none") {
                Ok(Some(ToolChoice::Mode(ToolChoiceMode::Disabled)))
            } else if text_eq(word.as_str(), "auto") {
                Ok(Some(ToolChoice::Mode(ToolChoiceMode::Auto)))
            } else if text_eq(word.as_str(), "required") {
                Ok(Some(ToolChoice::Mode(ToolChoiceMode::Required)))
            } else {
                Err("tool_choice mode must be none, auto, or required".to_owned())
            }
        },
        Some(WireToolChoice::Named { tool_type, function_name }) => Ok(
            Some(
                ToolChoice::Named(
                    NamedToolChoice { tool_type, function: NamedFunction { name: function_name } },
                ),
            ),
        ),
    }
}

/// What the requests of the wire and of the protocol have in common.
pub open spec fn chat_maps(req: ChatCompletionRequest, wire: WireChatRequest) -> bool {
    &&& req.model == wire.model
    &&& req.messages@.len() == wire.messages@.len()
    &&& forall|i: int|
        0 <= i < req.messages@.len() ==> message_maps(
            #[trigger] req.messages@[i],
            wire.messages@[i],
        )
    &&& req.temperature == wire.temperature
    &&& req.top_p == wire.top_p
    &&& req.max_tokens == wire.max_tokens
    &&& req.stream == Some(false)
    &&& stop_maps(req.stop, wire.stop@)
    &&& req.n == wire.n
    &&& req.logprobs == wire.logprobs
    &&& req.top_logprobs == wire.top_logprobs
    &&& req.presence_penalty == wire.presence_penalty
    &&& req.frequency_penalty == wire.frequency_penalty
    &&& req.seed == wire.seed
    &&& req.structured_outputs is None
    &&& req.response_format is None
    &&& match req.tools {
        None => wire.tools@.len() == 0,
        Some(list) => {
            &&& list@.len() > 0
            &&& list@.len() == wire.tools@.len()
            &&& forall|i: int|
                0 <= i < list@.len() ==> tool_maps(#[trigger] list@[i], wire.tools@[i])
        },
    }
    &&& choice_maps(req.tool_choice, wire.tool_choice)
    &&& req.parallel_tool_calls == wire.parallel_tool_calls
}

/// The chat request of the protocol for the request of the wire.
pub fn proto_to_chat_request(req: WireChatRequest) -> (result: Result<
    ChatCompletionRequest,
    String,
>)
    ensures
        match result {
            Ok(mapped) => wire_fault(req) is None && chat_maps(mapped, req),
            Err(text) => wire_fault(req) == Some(text@),
        },
{
    let messages = match map_messages(req.messages) {
        Ok(messages) => messages,
        Err(text) => {
            return Err(text);
        },
    };
    let tools = match map_tools(req.tools) {
        Ok(tools) => tools,
        Err(text) => {
            return Err(text);
        },
    };
    let tool_choice = match map_choice(req.tool_choice) {
        Ok(tool_choice) => tool_choice,
        Err(text) => {
            return Err(text);
        },
    };
    Ok(
        ChatCompletionRequest {
            model: req.model,
            messages,
            temperature: req.temperature,
            top_p: req.top_p,
            max_tokens: req.max_tokens,
            stream: Some(false),
            stop: stop_sequence(req.stop),
            n: req.n,
            logprobs: req.logprobs,
            top_logprobs: req.top_logprobs,
            presence_penalty: req.presence_penalty,
            frequency_penalty: req.frequency_penalty,
            seed: req.seed,
            structured_outputs: None,
            response_format: None,
            tools,
            tool_choice,
            parallel_tool_calls: req.parallel_tool_calls,
        },
    )
}

/// The completion request of the protocol for the request of the wire.
pub fn proto_to_completion_request(req: WireCompletionRequest) -> (mapped: CompletionRequest)
    ensures
        mapped.model == req.model,
        mapped.prompt == PromptInput::Single(req.prompt),
        mapped.suffix is None,
        mapped.temperature == req.temperature,
        mapped.top_p == req.top_p,
        mapped.max_tokens == req.max_tokens,
        mapped.stream == Some(false),
        stop_maps(mapped.stop, req.stop@),
        mapped.n == req.n,
        mapped.logprobs == req.logprobs,
        mapped.presence_penalty == req.presence_penalty,
        mapped.frequency_penalty == req.frequency_penalty,
        mapped.seed == req.seed,
        mapped.structured_outputs is None,
        mapped.response_format is None,
{
    CompletionRequest {
        model: req.model,
        prompt: PromptInput::Single(req.prompt),
        suffix: None,
        temperature: req.temperature,
        top_p: req.top_p,
        max_tokens: req.max_tokens,
        stream: Some(false),
        stop: stop_sequence(req.stop),
        n: req.n,
        logprobs: req.logprobs,
        presence_penalty: req.presence_penalty,
        frequency_penalty: req.frequency_penalty,
        seed: req.seed,
        structured_outputs: None,
        response_format: None,
    }
}

/// Whether the output is searched for calls: where there are tools, unless the choice
/// rules them out.
pub fn searches_for_calls(req: &ChatCompletionRequest) -> (r: bool)
    ensures
        r == (req.tools is Some && req.tool_choice != Some(
            ToolChoice::Mode(ToolChoiceMode::Disabled),
        )),
{
    if req.tools.is_none() {
        return false;
    }
    match &req.tool_choice {
        Some(ToolChoice::Mode(mode)) => *mode != ToolChoiceMode::Disabled,
        _ => true,
    }
}

proof fn lemma_wire_tools(tools: Seq<WireTool>, n: int)
    requires
        0 <= n <= tools.len(),
    ensures
        first_wire_tool_fault(tools, n) is None <==> forall|i: int|
            0 <= i < n ==> readable_tool(#[trigger] tools[i]),
    decreases n,
{
    if n > 0 {
        lemma_wire_tools(tools, n - 1);
        if forall|i: int| 0 <= i < n ==> readable_tool(#[trigger] tools[i]) {
            assert(readable_tool(tools[n - 1]));
        }
    }
}

/// A tool with a function whose parameters, where there are any, can be read.
pub open spec fn readable_tool(tool: WireTool) -> bool {
    &&& tool.function is Some
    &&& (tool.function->0).parameters_json is Some ==> json_reading(
        ((tool.function->0).parameters_json->0)@,
    ) is Ok
}

/// Which requests can be mapped: every call and every tool has its function, parameters can
/// be read, and a choice of tools is one of the three words or a name.
pub proof fn lemma_wire_accepted(req: WireChatRequest)
    ensures
        wire_fault(req) is None <==> {
            &&& forall|m: int, c: int|
                0 <= m < req.messages@.len() && 0 <= c < req.messages@[m].tool_calls@.len() ==> (
                #[trigger] req.messages@[m].tool_calls@[c]).function is Some
            &&& forall|i: int| 0 <= i < req.tools@.len() ==> readable_tool(#[trigger] req.tools@[i])
            &&& match req.tool_choice {
                Some(WireToolChoice::Mode(word)) => word@ == "none"@ || word@ == "auto"@ || word@
                    == "required"@,
                _ => true,
            }
        },
{
    lemma_wire_tools(req.tools@, req.tools@.len() as int);
    if whole_messages(req.messages@) {
        assert forall|m: int, c: int|
            0 <= m < req.messages@.len() && 0 <= c < req.messages@[m].tool_calls@.len() implies (
        #[trigger] req.messages@[m].tool_calls@[c]).function is Some by {
            assert(whole_message(req.messages@[m]));
            assert(whole_call(req.messages@[m].tool_calls@[c]));
        }
    } else {
        let m = choose|m: int|
            0 <= m < req.messages@.len() && !whole_message(#[trigger] req.messages@[m]);
        let calls = req.messages@[m].tool_calls@;
        let c = choose|c: int| 0 <= c < calls.len() && !whole_call(#[trigger] calls[c]);
        assert(req.messages@[m].tool_calls@[c].function is None);
    }
}

/// What a request asks for over the wire is what is sampled by: its own settings, and the
/// defaults where it has none.
pub proof fn lemma_wire_params(
    wire: WireChatRequest,
    req: ChatCompletionRequest,
    defaults: SamplingParams,
    params: SamplingParams,
)
    requires
        chat_maps(req, wire),
        call_ensures(chat_request_to_sampling_params, (&req, defaults), params),
    ensures
        wire.temperature is Some ==> wire.temperature == Some(params.temperature),
        wire.temperature is None ==> params.temperature == defaults.temperature,
        wire.top_p is Some ==> wire.top_p == Some(params.top_p),
        wire.top_p is None ==> params.top_p == defaults.top_p,
        wire.max_tokens is Some ==> params.max_tokens == wire.max_tokens,
        wire.presence_penalty is Some ==> wire.presence_penalty == Some(params.presence_penalty),
        wire.presence_penalty is None ==> params.presence_penalty == defaults.presence_penalty,
        wire.frequency_penalty is Some ==> wire.frequency_penalty == Some(
            params.frequency_penalty,
        ),
        wire.frequency_penalty is None ==> params.frequency_penalty == defaults.frequency_penalty,
        wire.seed is Some ==> params.seed == wire.seed,
        wire.n is Some ==> wire.n == Some(params.n),
        wire.logprobs == Some(true) && wire.top_logprobs is Some ==> params.logprobs
            == wire.top_logprobs,
        texts(params.stop@) == texts(wire.stop@),
        req.messages@.len() == wire.messages@.len(),
        req.model == wire.model,
{
    if wire.stop@.len() == 0 {
        assert(texts(wire.stop@) =~= Seq::<Seq<char>>::empty());
    }
}

} // verus!
