use std::collections::HashSet;

use rllm::json::{parse_json, write_json, Json};
use rllm::sampling::params::{SamplingParams, StructuredOutputParams};
use rllm::server::answers::{route_chat, ChatRoute, GrpcCode, ServingFailure};
use rllm::server::auth::{bearer_matches, is_authorized, metadata_value_matches};
use rllm::server::grpc::{
    proto_to_chat_request, proto_to_completion_request, proto_to_tool_call, searches_for_calls,
    stop_sequence, WireChatRequest, WireCompletionRequest, WireFunction, WireMessage, WireTool,
    WireToolCall, WireToolChoice,
};
use rllm::server::openai::{
    extract_stop_strings, finish_reason_text, generate_completion_id, generate_tool_call_id,
    now_timestamp, request_output_to_completion, tool_calls_to_deltas, ChatCompletionRequest,
    ChatCompletionTool, ChatMessage, ChunkDelta, CompletionOutput, CompletionRequest, FinishReason,
    FunctionCall, FunctionDefinition, NamedFunction, NamedToolChoice, PromptInput, RequestOutput,
    ResponseFormat, ResponseFormatJsonSchema, StopSequence, ToolCall, ToolChoice, ToolChoiceMode,
    UsageInfo,
};
use rllm::server::requests::{
    chat_request_to_sampling_params, completion_request_to_sampling_params,
    request_output_to_chat_completion, request_output_to_chat_completion_with_tools,
    request_structured_outputs, validate_structured_output_request,
};
use rllm::server::serving::{
    admit_chat_request, admit_completion_request, chat_chunk, chat_completion_response,
    completion_chunk, completion_response, content_choice, empty_choice, empty_completion,
    empty_completion_chunk, error_body, first_finish_reason, metrics_page, model_list,
    opening_choice, prompt_text, tool_choice_chunk, usage_of, Collector, CompletionProgress,
    EngineCompletion, EngineOutput, TokenOutput,
};
use rllm::server::streaming::{parts_to_decode, ChatStream, StreamAction};
use rllm::server::tool_calls::{
    normalize_tool_call, output_from_values, parse_chat_output, raw_tool_call,
    strip_json_code_fence, tool_call_json_values, tool_call_sections, values_to_tool_calls,
};
use rllm::server::tools::{
    messages_for_chat_template, tool_choice_for_chat_template, tool_to_json,
    tools_for_chat_template, validate_function_name, validate_tool_call_request,
    validate_tool_message,
};

const MAX_MESSAGES: usize = 256;

fn text(json: &Json, key: &str) -> Option<String> {
    json.get(key).and_then(|value| value.as_text()).cloned()
}

fn flag(json: &Json, key: &str) -> Option<bool> {
    match json.get(key) {
        Some(Json::Bool(value)) => Some(*value),
        _ => None,
    }
}

fn items<'a>(json: &'a Json, key: &str) -> Option<&'a Vec<Json>> {
    match json.get(key) {
        Some(Json::Array(values)) => Some(values),
        _ => None,
    }
}

fn number(json: &Json, key: &str) -> Option<u32> {
    match json.get(key) {
        Some(Json::Decimal(digits)) => Some(digits.parse::<f32>().unwrap().to_bits()),
        Some(Json::Unsigned(n)) => Some((*n as f32).to_bits()),
        _ => None,
    }
}

fn count(json: &Json, key: &str) -> Option<u32> {
    match json.get(key) {
        Some(Json::Unsigned(n)) => Some(*n as u32),
        _ => None,
    }
}

fn stop(json: &Json) -> Option<StopSequence> {
    match json.get("stop") {
        Some(Json::Text(s)) => Some(StopSequence::Single(s.clone())),
        Some(Json::Array(values)) => Some(StopSequence::Multiple(
            values.iter().filter_map(|v| v.as_text()).cloned().collect(),
        )),
        _ => None,
    }
}

fn tool_call(json: &Json) -> ToolCall {
    let function = json.get("function").unwrap();
    ToolCall {
        id: text(json, "id").unwrap(),
        tool_type: text(json, "type").unwrap(),
        function: FunctionCall {
            name: text(function, "name").unwrap(),
            arguments: text(function, "arguments").unwrap(),
        },
    }
}

fn message(json: &Json) -> ChatMessage {
    ChatMessage {
        role: text(json, "role").unwrap(),
        content: text(json, "content"),
        name: text(json, "name"),
        tool_call_id: text(json, "tool_call_id"),
        tool_calls: items(json, "tool_calls").map(|calls| calls.iter().map(tool_call).collect()),
    }
}

fn tool(json: &Json) -> ChatCompletionTool {
    let function = json.get("function").unwrap();
    ChatCompletionTool {
        tool_type: text(json, "type").unwrap(),
        function: FunctionDefinition {
            name: text(function, "name").unwrap(),
            description: text(function, "description"),
            parameters: function.get("parameters").map(|value| value.copy()),
            strict: flag(function, "strict"),
        },
    }
}

fn choice(json: &Json) -> Option<ToolChoice> {
    match json.get("tool_choice") {
        Some(Json::Text(mode)) => Some(ToolChoice::Mode(match mode.as_str() {
            "none" => ToolChoiceMode::Disabled,
            "auto" => ToolChoiceMode::Auto,
            _ => ToolChoiceMode::Required,
        })),
        Some(named) => Some(ToolChoice::Named(NamedToolChoice {
            tool_type: text(named, "type").unwrap(),
            function: NamedFunction { name: text(named.get("function").unwrap(), "name").unwrap() },
        })),
        None => None,
    }
}

fn constraint(json: &Json) -> Option<StructuredOutputParams> {
    json.get("structured_outputs").map(|outputs| StructuredOutputParams {
        json_schema: outputs.get("json_schema").map(|value| value.copy()),
        json_object: flag(outputs, "json_object"),
        xml: text(outputs, "xml"),
        regex: text(outputs, "regex"),
        grammar: text(outputs, "grammar"),
        choice: None,
    })
}

fn format_of(json: &Json) -> Option<ResponseFormat> {
    let format = json.get("response_format")?;
    Some(match text(format, "type").unwrap().as_str() {
        "text" => ResponseFormat::Text,
        "json_object" => ResponseFormat::JsonObject,
        _ => {
            let schema = format.get("json_schema").unwrap();
            ResponseFormat::JsonSchema {
                json_schema: ResponseFormatJsonSchema {
                    name: text(schema, "name").unwrap(),
                    description: text(schema, "description"),
                    schema: schema.get("schema").unwrap().copy(),
                    strict: flag(schema, "strict"),
                },
            }
        }
    })
}

fn chat(content: &str) -> ChatCompletionRequest {
    let json = parse_json(content).unwrap();
    ChatCompletionRequest {
        model: text(&json, "model").unwrap(),
        messages: items(&json, "messages").unwrap().iter().map(message).collect(),
        temperature: number(&json, "temperature"),
        top_p: number(&json, "top_p"),
        max_tokens: count(&json, "max_tokens"),
        stream: flag(&json, "stream"),
        stop: stop(&json),
        n: count(&json, "n"),
        logprobs: flag(&json, "logprobs"),
        top_logprobs: count(&json, "top_logprobs"),
        presence_penalty: number(&json, "presence_penalty"),
        frequency_penalty: number(&json, "frequency_penalty"),
        seed: None,
        structured_outputs: constraint(&json),
        response_format: format_of(&json),
        tools: items(&json, "tools").map(|tools| tools.iter().map(tool).collect()),
        tool_choice: choice(&json),
        parallel_tool_calls: flag(&json, "parallel_tool_calls"),
    }
}

fn completion(content: &str) -> CompletionRequest {
    let json = parse_json(content).unwrap();
    CompletionRequest {
        model: text(&json, "model").unwrap(),
        prompt: match json.get("prompt") {
            Some(Json::Array(values)) => PromptInput::Multiple(
                values.iter().filter_map(|v| v.as_text()).cloned().collect(),
            ),
            Some(value) => PromptInput::Single(value.as_text().unwrap().clone()),
            None => PromptInput::Single(String::new()),
        },
        suffix: text(&json, "suffix"),
        temperature: number(&json, "temperature"),
        top_p: number(&json, "top_p"),
        max_tokens: count(&json, "max_tokens"),
        stream: flag(&json, "stream"),
        stop: stop(&json),
        n: count(&json, "n"),
        logprobs: count(&json, "logprobs"),
        presence_penalty: number(&json, "presence_penalty"),
        frequency_penalty: number(&json, "frequency_penalty"),
        seed: None,
        structured_outputs: constraint(&json),
        response_format: format_of(&json),
    }
}

fn defaults() -> SamplingParams {
    SamplingParams {
        n: 1,
        best_of: None,
        temperature: 1f32.to_bits(),
        top_p: 1f32.to_bits(),
        top_k: -1,
        min_p: 0f32.to_bits(),
        repetition_penalty: 1f32.to_bits(),
        frequency_penalty: 0f32.to_bits(),
        presence_penalty: 0f32.to_bits(),
        seed: None,
        stop: vec![],
        stop_token_ids: vec![],
        min_tokens: 0,
        max_tokens: Some(16),
        logprobs: None,
        logit_bias: vec![],
        allowed_token_ids: None,
        ignore_eos: false,
        structured_outputs: None,
        speculative_decoding: None,
        skip_reading_prefix_cache: false,
    }
}

fn output_tools() -> Vec<ChatCompletionTool> {
    ["get_weather", "get_time"]
        .iter()
        .map(|name| ChatCompletionTool {
            tool_type: "function".into(),
            function: FunctionDefinition {
                name: name.to_string(),
                description: None,
                parameters: None,
                strict: None,
            },
        })
        .collect()
}

#[test]
fn tool_request_parses_and_defaults_template_choice_to_auto() {
    let req = chat(
        r#"{
            "model": "test-model",
            "messages": [{"role": "user", "content": "Weather in Istanbul?"}],
            "tools": [{
                "type": "function",
                "function": {
                    "name": "get_weather",
                    "description": "Get current weather",
                    "parameters": {
                        "type": "object",
                        "properties": {"city": {"type": "string"}},
                        "required": ["city"]
                    }
                }
            }]
        }"#,
    );

    validate_tool_call_request(&req).unwrap();
    assert_eq!(tools_for_chat_template(&req).unwrap().unwrap().len(), 1);
    assert_eq!(tool_choice_for_chat_template(&req).unwrap(), Some(Json::Text("auto".into())));
}

#[test]
fn named_tool_choice_filters_template_tools() {
    let req = chat(
        r#"{
            "model": "test-model",
            "messages": [{"role": "user", "content": "Weather?"}],
            "tools": [
                {"type": "function", "function": {"name": "get_weather"}},
                {"type": "function", "function": {"name": "get_time"}}
            ],
            "tool_choice": {"type": "function", "function": {"name": "get_weather"}}
        }"#,
    );

    let tools = tools_for_chat_template(&req).unwrap().unwrap();
    assert_eq!(tools.len(), 1);
    let name = tools[0].get("function").unwrap().get("name").unwrap();
    assert_eq!(name.as_text().unwrap(), "get_weather");
}

#[test]
fn prior_tool_calls_are_normalized_for_model_templates() {
    let req = chat(
        r#"{
            "model": "test-model",
            "messages": [
                {"role": "user", "content": "Weather?"},
                {
                    "role": "assistant",
                    "content": null,
                    "tool_calls": [{
                        "id": "call_1",
                        "type": "function",
                        "function": {
                            "name": "get_weather",
                            "arguments": "{\"city\":\"Istanbul\"}"
                        }
                    }]
                },
                {"role": "tool", "tool_call_id": "call_1", "content": "Sunny"}
            ]
        }"#,
    );

    let messages = messages_for_chat_template(&req).unwrap();
    let calls = items(&messages[1], "tool_calls").unwrap();
    let city = calls[0].get("function").unwrap().get("arguments").unwrap().get("city").unwrap();
    assert_eq!(city.as_text().unwrap(), "Istanbul");
}

#[test]
fn rejects_unknown_named_tool_choice() {
    let req = chat(
        r#"{
            "model": "test-model",
            "messages": [{"role": "user", "content": "Weather?"}],
            "tools": [{"type": "function", "function": {"name": "get_weather"}}],
            "tool_choice": {"type": "function", "function": {"name": "missing"}}
        }"#,
    );
    assert!(validate_tool_call_request(&req).is_err());
}

#[test]
fn generate_completion_id_format() {
    let id = generate_completion_id("chatcmpl");
    assert!(id.starts_with("chatcmpl-"));
    assert!(id.len() > "chatcmpl-".len());
    assert_eq!(id.len(), "chatcmpl-".len() + 32);
    assert!(id["chatcmpl-".len()..].chars().all(|c| c.is_ascii_hexdigit()));
    assert_ne!(id, generate_completion_id("chatcmpl"));
    assert!(generate_tool_call_id().starts_with("call_"));
    assert!(now_timestamp() > 1_600_000_000);
}

#[test]
fn parses_llama_json_tool_call() {
    let tools = output_tools();
    let parsed = parse_chat_output(
        r#"{"name":"get_weather","parameters":{"city":"Istanbul"}}"#,
        Some(&tools),
    );
    assert_eq!(parsed.content, None);
    let calls = parsed.tool_calls.unwrap();
    assert_eq!(calls.len(), 1);
    assert!(calls[0].id.starts_with("call_"));
    assert_eq!(calls[0].function.name, "get_weather");
    assert_eq!(
        parse_json(&calls[0].function.arguments).unwrap(),
        parse_json(r#"{"city": "Istanbul"}"#).unwrap()
    );
}

#[test]
fn parses_parallel_hermes_tool_calls_and_preserves_content() {
    let tools = output_tools();
    let parsed = parse_chat_output(
        "I will check both.\n\
         <tool_call>{\"name\":\"get_weather\",\"arguments\":{\"city\":\"Istanbul\"}}</tool_call>\n\
         <tool_call>{\"name\":\"get_time\",\"arguments\":{\"timezone\":\"UTC\"}}</tool_call>",
        Some(&tools),
    );
    assert_eq!(parsed.content.as_deref(), Some("I will check both."));
    let calls = parsed.tool_calls.unwrap();
    assert_eq!(calls.len(), 2);
    assert_eq!(calls[0].function.name, "get_weather");
    assert_eq!(calls[1].function.name, "get_time");
}

#[test]
fn leaves_unknown_or_malformed_calls_as_content() {
    let tools = output_tools();
    for text in [
        r#"{"name":"delete_everything","arguments":{}}"#,
        r#"<tool_call>{"name":"get_weather","arguments":</tool_call>"#,
        r#"{"answer":42}"#,
    ] {
        let parsed = parse_chat_output(text, Some(&tools));
        assert_eq!(parsed.content.as_deref(), Some(text));
        assert!(parsed.tool_calls.is_none());
    }
}

fn engine_output(text: &str, reason: Option<FinishReason>) -> RequestOutput {
    RequestOutput {
        outputs: vec![CompletionOutput { text: text.into(), finish_reason: reason }],
        usage: UsageInfo { prompt_tokens: 10, completion_tokens: 8, total_tokens: 18 },
    }
}

#[test]
fn response_converter_emits_tool_calls_finish_reason() {
    let output = engine_output(
        r#"<|python_tag|>{"name":"get_weather","arguments":{"city":"Istanbul"}}"#,
        Some(FinishReason::Stop),
    );
    let tools = output_tools();
    let response =
        request_output_to_chat_completion_with_tools(&output, "test-model", Some(&tools));
    let choice = &response.choices[0];
    assert_eq!(choice.finish_reason.as_deref(), Some("tool_calls"));
    assert!(choice.message.content.is_none());
    assert_eq!(choice.message.tool_calls.as_ref().unwrap().len(), 1);
    assert_eq!(response.usage.total_tokens, 18);
}

#[test]
fn streaming_delta_has_openai_tool_call_shape() {
    let tools = output_tools();
    let parsed = parse_chat_output(
        r#"[{"name":"get_weather","arguments":{"city":"Istanbul"}}]"#,
        Some(&tools),
    );
    let delta = ChunkDelta {
        role: None,
        content: None,
        tool_calls: parsed.tool_calls.as_deref().map(tool_calls_to_deltas),
    };
    let calls = delta.tool_calls.unwrap();
    assert_eq!(calls[0].index, 0);
    assert_eq!(calls[0].tool_type.as_deref(), Some("function"));
    assert_eq!(calls[0].function.as_ref().unwrap().name.as_deref(), Some("get_weather"));
}

#[test]
fn outputs_without_tools_stay_as_they_are() {
    let text = r#"{"name":"get_weather","parameters":{}}"#;
    let parsed = parse_chat_output(text, None);
    assert_eq!(parsed.content.as_deref(), Some(text));
    assert!(parsed.tool_calls.is_none());
    let response =
        request_output_to_chat_completion(&engine_output(text, Some(FinishReason::Length)), "m");
    assert_eq!(response.choices[0].message.content.as_deref(), Some(text));
    assert_eq!(response.choices[0].finish_reason.as_deref(), Some("length"));
    let response = request_output_to_completion(&engine_output("abc", None), "m");
    assert_eq!(response.choices[0].text, "abc");
    assert!(response.choices[0].finish_reason.is_none());
}

#[test]
fn code_fences_are_taken_off() {
    assert_eq!(strip_json_code_fence("```json\n{\"a\": 1}\n```"), "{\"a\": 1}");
    assert_eq!(strip_json_code_fence("```\n[]\n```"), "[]");
    assert_eq!(strip_json_code_fence("{}"), "{}");
}

#[test]
fn sections_hold_the_calls_and_the_rest() {
    let found = tool_call_sections("Hm. <tool_call>{}</tool_call> Done.").unwrap();
    assert_eq!(found.bodies.len(), 1);
    assert_eq!(found.bodies[0].trim(), "{}");
    assert!(found.content.unwrap().contains("Done."));
    assert!(tool_call_sections("<tool_call>{}").is_none());
    let values = tool_call_json_values(&vec!["{\"a\":1}".to_string(), "[2, 3]".to_string()]);
    assert!(values.is_some());
    assert!(tool_call_json_values(&vec!["{".to_string()]).is_none());
}

#[test]
fn calls_are_found_in_several_shapes() {
    let nested = parse_json(
        r#"{"id": "c1", "function": {"name": "get_time", "arguments": "{\"zone\": \"UTC\"}"}}"#,
    )
    .unwrap();
    let raw = raw_tool_call(&nested).unwrap();
    assert_eq!((raw.id.as_deref(), raw.name.as_str()), (Some("c1"), "get_time"));
    let call = normalize_tool_call(&nested).unwrap();
    assert_eq!(parse_json(&call.arguments), parse_json(r#"{"zone": "UTC"}"#));
    assert!(raw_tool_call(&Json::Bool(true)).is_none());
    assert!(values_to_tool_calls(vec![]).is_none());
    let wrapped = parse_json(r#"{"tool_calls": [{"name": "get_time", "arguments": {}}]}"#).unwrap();
    assert_eq!(values_to_tool_calls(vec![wrapped]).unwrap().len(), 1);
    let tools = output_tools();
    let flat = parse_json(r#"{"name": "get_time", "arguments": {"zone": "UTC"}}"#).unwrap();
    let output = output_from_values("raw", None, vec![flat], &tools);
    assert_eq!(output.tool_calls.unwrap()[0].function.arguments, r#"{"zone":"UTC"}"#);
    let output = output_from_values("raw", None, vec![Json::Null], &tools);
    assert_eq!(output.content.as_deref(), Some("raw"));
}

#[test]
fn function_names_are_checked() {
    assert!(validate_function_name("get_weather-2").is_ok());
    assert!(validate_function_name("").is_err());
    assert!(validate_function_name(&"a".repeat(64)).is_ok());
    assert_eq!(
        validate_function_name(&"a".repeat(65)).unwrap_err(),
        "tool function names must contain between 1 and 64 characters"
    );
    assert!(validate_function_name("get weather").is_err());
}

#[test]
fn messages_need_what_their_roles_ask() {
    let plain = |role: &str, content: Option<&str>| ChatMessage {
        role: role.into(),
        content: content.map(|c| c.into()),
        name: None,
        tool_call_id: None,
        tool_calls: None,
    };
    assert!(validate_tool_message(&plain("user", Some("hi"))).is_ok());
    assert_eq!(
        validate_tool_message(&plain("user", None)).unwrap_err(),
        "user messages require content"
    );
    assert!(validate_tool_message(&plain("assistant", None)).is_err());
    assert!(validate_tool_message(&plain("tool", Some("Sunny"))).is_err());
    assert!(validate_tool_message(&plain("robot", Some("hi"))).is_err());
    let answer = ChatMessage { tool_call_id: Some("c".into()), ..plain("tool", Some("Sunny")) };
    assert!(validate_tool_message(&answer).is_ok());
}

#[test]
fn tools_are_written_for_templates() {
    let tools = output_tools();
    let json = tool_to_json(&tools[0]);
    assert_eq!(write_json(&json), r#"{"function":{"name":"get_weather"},"type":"function"}"#);
}

fn tool_request(tool_choice: &str) -> ChatCompletionRequest {
    let content = format!(
        r#"{{
        "model": "test-model",
        "messages": [{{"role": "user", "content": "What is the weather in Istanbul?"}}],
        "tools": [{{
            "type": "function",
            "function": {{
                "name": "get_weather",
                "description": "Get current weather",
                "parameters": {{
                    "type": "object",
                    "properties": {{"city": {{"type": "string"}}}},
                    "required": ["city"],
                    "additionalProperties": false
                }}
            }}
        }}],
        "tool_choice": {tool_choice},
        "parallel_tool_calls": false
    }}"#
    );
    chat(&content)
}

#[test]
fn accepts_named_tool_choice() {
    let req = tool_request(r#"{"type": "function", "function": {"name": "get_weather"}}"#);
    assert!(admit_chat_request(&req, MAX_MESSAGES).is_ok());
}

#[test]
fn rejects_named_tool_choice_not_in_tools() {
    let req = tool_request(r#"{"type": "function", "function": {"name": "missing"}}"#);
    assert!(admit_chat_request(&req, MAX_MESSAGES).is_err());
}

#[test]
fn rejects_empty_tools_array() {
    let req = chat(
        r#"{
            "model": "test-model",
            "messages": [{"role": "user", "content": "Hello"}],
            "tools": []
        }"#,
    );
    assert!(admit_chat_request(&req, MAX_MESSAGES).is_err());
}

#[test]
fn accepts_tool_call_conversation_history() {
    let req = chat(
        r#"{
            "model": "test-model",
            "messages": [
                {"role": "user", "content": "Weather in Istanbul?"},
                {
                    "role": "assistant",
                    "content": null,
                    "tool_calls": [{
                        "id": "call_weather_1",
                        "type": "function",
                        "function": {
                            "name": "get_weather",
                            "arguments": "{\"city\":\"Istanbul\"}"
                        }
                    }]
                },
                {
                    "role": "tool",
                    "tool_call_id": "call_weather_1",
                    "content": "{\"temperature\":24,\"condition\":\"sunny\"}"
                },
                {"role": "user", "content": "Summarize that result."}
            ]
        }"#,
    );
    assert!(admit_chat_request(&req, MAX_MESSAGES).is_ok());
}

#[test]
fn response_format_json_schema_maps_to_internal_constraint() {
    let request = chat(
        r#"{
            "model": "test-model",
            "messages": [{"role": "user", "content": "answer"}],
            "response_format": {
                "type": "json_schema",
                "json_schema": {
                    "name": "answer",
                    "strict": true,
                    "schema": {"type": "object", "properties": {"answer": {"type": "string"}}}
                }
            }
        }"#,
    );
    let params = chat_request_to_sampling_params(&request, defaults());
    let structured = params.structured_outputs.unwrap();
    assert!(structured.json_schema.is_some());
    assert!(structured.json_object.is_none() && structured.regex.is_none());
}

#[test]
fn rejects_response_format_with_structured_outputs() {
    let req = chat(
        r#"{
            "model": "test-model",
            "messages": [{"role": "user", "content": "answer"}],
            "response_format": {"type": "json_object"},
            "structured_outputs": {"json_object": true}
        }"#,
    );
    let refusal = admit_chat_request(&req, MAX_MESSAGES).unwrap_err();
    assert_eq!(refusal, "structured_outputs and response_format cannot both be set");
    assert!(validate_structured_output_request(&None, &Some(ResponseFormat::Text)).is_ok());
    assert!(request_structured_outputs(&None, &Some(ResponseFormat::Text)).is_none());
    let object = request_structured_outputs(&None, &Some(ResponseFormat::JsonObject)).unwrap();
    assert_eq!(object.json_object, Some(true));
}

#[test]
fn test_server_list_models() {
    let models = model_list("test-model");
    assert_eq!(models.object, "list");
    assert!(!models.data.is_empty());
    assert_eq!(models.data[0].id, "test-model");
}

#[test]
fn test_model_list_endpoint() {
    let models = model_list("test-model");
    assert_eq!(models.object, "list");
    assert_eq!(models.data.len(), 1);
    assert_eq!(models.data[0].id, "test-model");
    assert_eq!(models.data[0].object, "model");
    assert_eq!(models.data[0].owned_by, "rllm");
}

#[test]
fn test_server_metrics_endpoint() {
    assert!(!metrics_page(String::new()).is_empty());
    assert_eq!(metrics_page("a 1\n".into()), "a 1\n");
}

#[test]
fn test_chat_completions_basic() {
    let req = chat(
        r#"{
            "model": "test-model",
            "messages": [{"role": "user", "content": "Hello!"}],
            "max_tokens": 10,
            "temperature": 0.0
        }"#,
    );
    assert!(admit_chat_request(&req, MAX_MESSAGES).is_ok());
    let resp = chat_completion_response(&req.model, empty_completion(0), None);
    assert_eq!(resp.object, "chat.completion");
    assert!(!resp.choices.is_empty());
    assert_eq!(resp.choices[0].message.role, "assistant");
}

#[test]
fn test_chat_completions_empty_messages_error() {
    let req = chat(r#"{"model": "test-model", "messages": []}"#);
    let refusal = admit_chat_request(&req, MAX_MESSAGES).unwrap_err();
    let err = error_body(&refusal, "invalid_request_error");
    assert_eq!(err.error.error_type, "invalid_request_error");
    assert!(err.error.message.contains("empty"));
    assert!(err.error.code.is_none());
}

#[test]
fn test_completions_basic() {
    let req =
        completion(r#"{"model": "test-model", "prompt": "Hello world", "max_tokens": 10}"#);
    assert!(admit_completion_request(&req).is_ok());
    let resp = completion_response(&req.model, empty_completion(0));
    assert_eq!(resp.object, "text_completion");
    assert!(!resp.choices.is_empty());
}

#[test]
fn test_chat_completions_with_all_params() {
    let req = chat(
        r#"{
            "model": "test-model",
            "messages": [
                {"role": "system", "content": "You are helpful."},
                {"role": "user", "content": "Hello!"}
            ],
            "max_tokens": 100,
            "temperature": 0.7,
            "top_p": 0.9,
            "presence_penalty": 0.1,
            "frequency_penalty": 0.1,
            "n": 1,
            "stream": false,
            "stop": ["\n", "stop"]
        }"#,
    );
    assert!(admit_chat_request(&req, MAX_MESSAGES).is_ok());
    let params = chat_request_to_sampling_params(&req, defaults());
    assert_eq!(f32::from_bits(params.temperature), 0.7);
    assert_eq!(f32::from_bits(params.top_p), 0.9);
    assert_eq!(f32::from_bits(params.presence_penalty), 0.1);
    assert_eq!(f32::from_bits(params.frequency_penalty), 0.1);
    assert_eq!(params.max_tokens, Some(100));
    assert_eq!(params.stop, vec!["\n", "stop"]);
    let resp = chat_completion_response(&req.model, empty_completion(0), None);
    assert_eq!(resp.model, "test-model");
    assert_eq!(resp.choices.len(), 1);
}

#[test]
fn test_completions_with_stop_sequences() {
    let req = completion(
        r#"{
            "model": "test-model",
            "prompt": "Complete this sentence:",
            "max_tokens": 50,
            "stop": ["\n", "."],
            "temperature": 0.5
        }"#,
    );
    assert!(admit_completion_request(&req).is_ok());
    let params = completion_request_to_sampling_params(&req, defaults());
    assert_eq!(params.stop, vec!["\n", "."]);
    let resp = completion_response(&req.model, empty_completion(0));
    assert_eq!(resp.object, "text_completion");
    assert!(resp.usage.total_tokens == 0);
}

#[test]
fn too_much_input_is_turned_away() {
    let many = format!(
        r#"{{"model": "m", "messages": [{}]}}"#,
        vec![r#"{"role": "user", "content": "a"}"#; 3].join(",")
    );
    assert_eq!(admit_chat_request(&chat(&many), 2).unwrap_err(), "too many messages: max is 2");
    assert!(admit_chat_request(&chat(&many), 3).is_ok());
    let prompts = format!(r#"{{"model": "m", "prompt": [{}]}}"#, vec![r#""p""#; 17].join(","));
    assert_eq!(
        admit_completion_request(&completion(&prompts)).unwrap_err(),
        "too many prompt variants: max is 16"
    );
}

#[test]
fn prompts_are_joined_by_lines() {
    assert_eq!(prompt_text(&PromptInput::Single("a".into())), "a");
    assert_eq!(prompt_text(&PromptInput::Multiple(vec!["a".into(), "b".into()])), "a\nb");
    assert_eq!(prompt_text(&PromptInput::Multiple(vec![])), "");
    assert_eq!(
        extract_stop_strings(&Some(StopSequence::Single("x".into()))),
        vec!["x".to_string()]
    );
    assert!(extract_stop_strings(&None).is_empty());
}

fn step(ids: &[u32], reason: Option<FinishReason>, finished: bool) -> EngineOutput {
    EngineOutput {
        outputs: vec![TokenOutput { token_ids: ids.to_vec(), finish_reason: reason }],
        finished,
    }
}

#[test]
fn tokens_are_collected_in_order() {
    let mut collector = Collector::new();
    assert_eq!(collector.finish_reason(), "length");
    assert!(!collector.accept(&step(&[1, 2], None, false)));
    assert!(collector.accept(&step(&[3], Some(FinishReason::Stop), true)));
    assert_eq!(collector.token_ids, vec![1, 2, 3]);
    assert_eq!(collector.finish_reason(), "stop");
    assert_eq!(first_finish_reason(&step(&[], Some(FinishReason::Length), true)), Some(FinishReason::Length));
    assert!(first_finish_reason(&EngineOutput { outputs: vec![], finished: true }).is_none());
    assert_eq!(finish_reason_text(FinishReason::Aborted), "stop");
}

#[test]
fn usage_is_capped() {
    let usage = usage_of(3, 4);
    assert_eq!((usage.prompt_tokens, usage.completion_tokens, usage.total_tokens), (3, 4, 7));
    let usage = usage_of(u32::MAX as usize, 5);
    assert_eq!(usage.total_tokens, u32::MAX);
}

#[test]
fn streams_open_carry_and_close() {
    let opening = opening_choice();
    assert_eq!(opening.delta.role.as_deref(), Some("assistant"));
    assert!(content_choice(String::new(), None).is_none());
    let last = content_choice(String::new(), Some(FinishReason::Length)).unwrap();
    assert_eq!(last.finish_reason.as_deref(), Some("length"));
    let chunk = chat_chunk("id", 7, "m", content_choice("ab".into(), None).unwrap(), None);
    assert_eq!(chunk.object, "chat.completion.chunk");
    assert_eq!((chunk.id.as_str(), chunk.created, chunk.model.as_str()), ("id", 7, "m"));
    assert_eq!(chunk.choices[0].delta.content.as_deref(), Some("ab"));
    assert_eq!(empty_choice().finish_reason.as_deref(), Some("stop"));
}

#[test]
fn streamed_tool_calls_come_in_one_chunk() {
    let tools = output_tools();
    let found = tool_choice_chunk(r#"{"name":"get_time","arguments":{}}"#, &tools, None);
    assert_eq!(found.delta.tool_calls.unwrap().len(), 1);
    assert_eq!(found.finish_reason.as_deref(), Some("tool_calls"));
    let plain = tool_choice_chunk("no call", &tools, Some(FinishReason::Stop));
    assert_eq!(plain.delta.content.as_deref(), Some("no call"));
    assert_eq!(plain.finish_reason.as_deref(), Some("stop"));
    let response = chat_completion_response(
        "m",
        EngineCompletion {
            text: r#"{"name":"get_time","arguments":{}}"#.into(),
            usage: usage_of(1, 2),
            finish_reason: "stop".into(),
            generation_time: 1f64.to_bits(),
        },
        Some(&tools),
    );
    assert_eq!(response.choices[0].finish_reason.as_deref(), Some("tool_calls"));
    assert_eq!(response.generation_time, Some(1f64.to_bits()));
}

#[test]
fn list_models_requires_api_key_when_configured() {
    let secret = Some("secret".to_string());
    assert!(!is_authorized(&secret, None, None));
    assert!(!is_authorized(&secret, Some("other"), Some("Bearer other")));
    assert!(!is_authorized(&secret, None, Some("secret")));
    assert!(is_authorized(&None, None, None));
}

#[test]
fn list_models_accepts_bearer_token() {
    let secret = Some("secret".to_string());
    assert!(is_authorized(&secret, None, Some("Bearer secret")));
    assert!(is_authorized(&secret, Some("secret"), None));
    let response = model_list("test-model");
    assert_eq!(response.object, "list");
    assert_eq!(response.data[0].id, "test-model");
    assert!(bearer_matches(Some("Bearer k"), "k") && !bearer_matches(Some("bearer k"), "k"));
    assert!(metadata_value_matches(Some("k"), "k") && !metadata_value_matches(None, "k"));
}

#[test]
fn chat_completion_uses_placeholder_without_runtime() {
    let mapped = proto_to_chat_request(wire_chat("hello")).unwrap();
    let response = chat_completion_response(&mapped.model, empty_completion(0), None);
    assert_eq!(response.object, "chat.completion");
    assert_eq!(response.choices[0].message.role, "assistant");
    assert_eq!(response.choices[0].finish_reason.as_deref(), Some("stop"));
}

#[test]
fn stream_completion_uses_placeholder_without_runtime() {
    let chunk = empty_completion_chunk("test-model", 0);
    assert_eq!(chunk.object, "text_completion.chunk");
    assert!(chunk.finished);
    assert_eq!(chunk.choices[0].finish_reason.as_deref(), Some("stop"));
    assert_eq!(chunk.usage.total_tokens, 0);
    let progress = CompletionProgress {
        reason: None,
        usage: usage_of(2, 1),
        finished: false,
        generation_time: 1f64.to_bits(),
    };
    let chunk = completion_chunk("id", 7, "m", "ab".into(), progress);
    assert_eq!((chunk.id.as_str(), chunk.created, chunk.finished), ("id", 7, false));
    assert_eq!(chunk.choices[0].text, "ab");
    assert!(chunk.choices[0].finish_reason.is_none());
    assert_eq!(chunk.usage.total_tokens, 3);
}

fn wire_chat(content: &str) -> WireChatRequest {
    WireChatRequest {
        model: "test-model".into(),
        messages: vec![WireMessage {
            role: "user".into(),
            content: Some(content.into()),
            name: None,
            tool_call_id: None,
            tool_calls: Vec::new(),
        }],
        temperature: None,
        top_p: None,
        max_tokens: Some(4),
        stop: vec![],
        n: None,
        logprobs: None,
        top_logprobs: None,
        presence_penalty: None,
        frequency_penalty: None,
        seed: None,
        tools: Vec::new(),
        tool_choice: None,
        parallel_tool_calls: None,
    }
}

#[test]
fn proto_tool_request_maps_all_fields() {
    let mut req = wire_chat("Weather in Istanbul?");
    req.messages.push(WireMessage {
        role: "assistant".into(),
        content: None,
        name: None,
        tool_call_id: None,
        tool_calls: vec![WireToolCall {
            id: "call_weather".into(),
            call_type: "function".into(),
            function: Some(FunctionCall {
                name: "get_weather".into(),
                arguments: r#"{"city":"Istanbul"}"#.into(),
            }),
        }],
    });
    req.tools = vec![WireTool {
        tool_type: "function".into(),
        function: Some(WireFunction {
            name: "get_weather".into(),
            description: Some("Get weather".into()),
            parameters_json: Some(r#"{"type":"object"}"#.into()),
            strict: Some(true),
        }),
    }];
    req.tool_choice = Some(WireToolChoice::Named {
        tool_type: "function".into(),
        function_name: "get_weather".into(),
    });
    req.parallel_tool_calls = Some(false);

    let mapped = proto_to_chat_request(req).unwrap();
    validate_tool_call_request(&mapped).unwrap();
    assert_eq!(mapped.tools.as_ref().unwrap()[0].function.name, "get_weather");
    assert!(matches!(mapped.tool_choice, Some(ToolChoice::Named(_))));
    assert_eq!(mapped.messages[1].tool_calls.as_ref().unwrap()[0].id, "call_weather");
    assert_eq!(mapped.parallel_tool_calls, Some(false));
    assert!(searches_for_calls(&mapped));
}

#[test]
fn incomplete_wire_requests_are_refused() {
    let mut req = wire_chat("hi");
    req.tools = vec![WireTool { tool_type: "function".into(), function: None }];
    assert!(proto_to_chat_request(req).is_err());
    let mut req = wire_chat("hi");
    req.tools = vec![WireTool {
        tool_type: "function".into(),
        function: Some(WireFunction {
            name: "f".into(),
            description: None,
            parameters_json: Some("{".into()),
            strict: None,
        }),
    }];
    assert!(proto_to_chat_request(req).is_err());
    let mut req = wire_chat("hi");
    req.tool_choice = Some(WireToolChoice::Mode("sometimes".into()));
    assert!(proto_to_chat_request(req).is_err());
    let call = WireToolCall { id: "c".into(), call_type: "function".into(), function: None };
    assert_eq!(proto_to_tool_call(call).unwrap_err(), "tool calls require a function");
}

#[test]
fn wire_modes_and_completions_are_mapped() {
    for (mode, expected) in [
        ("none", ToolChoiceMode::Disabled),
        ("auto", ToolChoiceMode::Auto),
        ("required", ToolChoiceMode::Required),
    ] {
        let mut req = wire_chat("hi");
        req.tool_choice = Some(WireToolChoice::Mode(mode.into()));
        let mapped = proto_to_chat_request(req).unwrap();
        assert_eq!(mapped.tool_choice, Some(ToolChoice::Mode(expected)));
        assert!(!searches_for_calls(&mapped));
    }
    let mapped = proto_to_completion_request(WireCompletionRequest {
        model: "m".into(),
        prompt: "hello".into(),
        temperature: None,
        top_p: None,
        max_tokens: Some(4),
        stop: vec!["x".into()],
        n: None,
        logprobs: None,
        presence_penalty: None,
        frequency_penalty: None,
        seed: Some(9),
    });
    assert_eq!(mapped.prompt, PromptInput::Single("hello".into()));
    assert_eq!((mapped.stream, mapped.max_tokens, mapped.seed), (Some(false), Some(4), Some(9)));
    assert_eq!(mapped.stop, Some(StopSequence::Multiple(vec!["x".into()])));
    assert!(stop_sequence(vec![]).is_none());
}

#[test]
fn sampling_parameters_keep_their_defaults() {
    let mut base = defaults();
    base.allowed_token_ids = Some(HashSet::from([1, 2]));
    let req = completion(r#"{"model": "m", "prompt": "p"}"#);
    let params = completion_request_to_sampling_params(&req, base);
    assert_eq!(params.temperature, 1f32.to_bits());
    assert_eq!(params.max_tokens, Some(16));
    assert!(params.stop.is_empty() && params.structured_outputs.is_none());
}

#[test]
fn a_plain_stream_decodes_each_part() {
    let req = tool_request("\"none\"");
    let mut stream = ChatStream::new(&req);
    assert!(!stream.searches);
    let mut output = step(&[1, 2], None, false);
    output.outputs.push(TokenOutput { token_ids: vec![], finish_reason: None });
    output.outputs.push(TokenOutput { token_ids: vec![3], finish_reason: None });
    assert_eq!(parts_to_decode(&output), vec![vec![1, 2], vec![3]]);
    assert_eq!(stream.accept(&output), StreamAction::DecodeParts(vec![vec![1, 2], vec![3]]));
    assert_eq!(stream.accept(&step(&[], None, false)), StreamAction::DecodeParts(vec![]));
    assert!(stream.held.token_ids.is_empty());
    assert!(stream.choice(String::new(), &[], None).is_none());
    let choice = stream.choice("hi".into(), &[], Some(FinishReason::Stop)).unwrap();
    assert_eq!(choice.delta.content.as_deref(), Some("hi"));
    assert_eq!(choice.finish_reason.as_deref(), Some("stop"));
}

#[test]
fn a_stream_with_tools_is_held_until_it_is_complete() {
    let req = tool_request("\"auto\"");
    let mut stream = ChatStream::new(&req);
    assert!(stream.searches);
    assert_eq!(stream.accept(&step(&[1, 2], None, false)), StreamAction::Wait);
    assert_eq!(
        stream.accept(&step(&[3], Some(FinishReason::Stop), true)),
        StreamAction::DecodeHeld(vec![1, 2, 3])
    );
    let tools = output_tools();
    let call = r#"{"name":"get_weather","parameters":{"city":"Istanbul"}}"#;
    let choice = stream.choice(call.into(), &tools, Some(FinishReason::Stop)).unwrap();
    assert_eq!(choice.finish_reason.as_deref(), Some("tool_calls"));
    let deltas = choice.delta.tool_calls.unwrap();
    assert_eq!(deltas.len(), 1);
    let function = deltas[0].function.as_ref().unwrap();
    assert_eq!(function.name.as_deref(), Some("get_weather"));
    assert_eq!(function.arguments.as_deref(), Some(r#"{"city":"Istanbul"}"#));
    let choice = stream.choice("no".into(), &tools, None).unwrap();
    assert_eq!(choice.delta.content.as_deref(), Some("no"));
    assert_eq!(choice.finish_reason, None);
}

#[test]
fn chats_are_routed_by_stream_and_model() {
    let mut req = tool_request("\"auto\"");
    assert_eq!(route_chat(&req, 8, true), Ok(ChatRoute::Answer));
    assert_eq!(route_chat(&req, 8, false), Ok(ChatRoute::EmptyAnswer));
    req.stream = Some(true);
    assert_eq!(route_chat(&req, 8, true), Ok(ChatRoute::Stream));
    assert_eq!(route_chat(&req, 8, false), Ok(ChatRoute::EmptyStream));
    assert_eq!(
        route_chat(&req, 0, true),
        Err(ServingFailure::Refused("too many messages: max is 0".into()))
    );
}

#[test]
fn failures_are_reported_by_both_protocols() {
    let told = |failure: ServingFailure| {
        let http = failure.http_answer();
        let (code, message) = failure.grpc_answer();
        (http.status, http.body.error.error_type, http.body.error.message, code, message)
    };
    let e = || "e".to_string();
    for (failure, status, kind, text) in [
        (ServingFailure::Refused(e()), 400, "invalid_request_error", "e"),
        (ServingFailure::SamplingParams(e()), 400, "invalid_request_error", "invalid sampling params: e"),
        (ServingFailure::RenderChat(e()), 500, "internal_error", "failed to render chat template: e"),
        (ServingFailure::TokenizeChat(e()), 500, "internal_error", "failed to tokenize chat prompt: e"),
        (
            ServingFailure::TokenizeCompletion(e()),
            500,
            "internal_error",
            "failed to tokenize completion prompt: e",
        ),
        (ServingFailure::DecodeOutput(e()), 500, "internal_error", "failed to decode output tokens: e"),
        (ServingFailure::DecodeToolCall(e()), 500, "internal_error", "failed to decode tool call: e"),
    ] {
        let code = if status == 400 { GrpcCode::InvalidArgument } else { GrpcCode::Internal };
        assert_eq!(told(failure), (status, kind.into(), text.into(), code, text.into()));
    }
    let hidden = "An internal error occurred while processing your request.";
    assert_eq!(
        told(ServingFailure::Internal),
        (500, "server_error".into(), hidden.into(), GrpcCode::Internal, hidden.into())
    );
    assert_eq!(
        told(ServingFailure::SubmitStream(e())),
        (
            500,
            "internal_error".into(),
            "failed to submit stream request: e".into(),
            GrpcCode::Internal,
            hidden.into()
        )
    );
}

#[test]
fn arguments_of_found_calls_are_passed_on() {
    let tools = output_tools();
    let parsed = parse_chat_output(
        "{\"name\":\"get_time\",\"arguments\":{\"a\":[1,-2,0.5],\"z\":{\"k\":null}}}",
        Some(&tools),
    );
    let calls = parsed.tool_calls.unwrap();
    assert_eq!(calls[0].function.arguments, "{\"a\":[1,-2,0.5],\"z\":{\"k\":null}}");
}
