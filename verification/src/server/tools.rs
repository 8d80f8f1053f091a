use vstd::prelude::*;

use crate::json::{first_member, json_views, parse_json, parsed_json, Json, JsonView};
use crate::server::openai::{
    ChatCompletionRequest, ChatCompletionTool, ChatMessage, ToolCall, ToolChoice, ToolChoiceMode,
};
use crate::text::{chars_of, join2, join3, quoted, quoted_text, text_eq};

verus! {

/// How many bytes a character takes in UTF-8.
pub open spec fn char_bytes(c: char) -> nat {
    if c <= '\u{7f}' {
        1
    } else if c <= '\u{7ff}' {
        2
    } else if c <= '\u{ffff}' {
        3
    } else {
        4
    }
}

/// How many bytes a text takes in UTF-8.
pub open spec fn text_bytes(s: Seq<char>) -> nat
    decreases s.len(),
{
    if s.len() == 0 {
        0
    } else {
        text_bytes(s.drop_last()) + char_bytes(s.last())
    }
}

proof fn lemma_text_bytes(s: Seq<char>, n: int)
    requires
        0 <= n <= s.len(),
    ensures
        text_bytes(s.take(n)) <= text_bytes(s),
    decreases s.len(),
{
    if n == s.len() {
        assert(s.take(n) =~= s);
    } else {
        assert(s.drop_last().take(n) =~= s.take(n));
        lemma_text_bytes(s.drop_last(), n);
    }
}

fn exceeds_bytes(chars: &Vec<char>, limit: usize) -> (r: bool)
    requires
        limit <= 1000,
    ensures
        r == (text_bytes(chars@) > limit),
{
    let mut total: usize = 0;
    let mut i: usize = 0;
    assert(chars@.take(0) =~= Seq::<char>::empty());
    while i < chars.len()
        invariant
            i <= chars@.len(),
            limit <= 1000,
            total == text_bytes(chars@.take(i as int)),
            total <= limit,
        decreases chars@.len() - i,
    {
        let c: char = chars[i];
        assert(chars@.take(i as int + 1).drop_last() =~= chars@.take(i as int));
        let bytes: usize = if c <= '\u{7f}' {
            1
        } else if c <= '\u{7ff}' {
            2
        } else if c <= '\u{ffff}' {
            3
        } else {
            4
        };
        total = total + bytes;
        i = i + 1;
        if total > limit {
            proof {
                lemma_text_bytes(chars@, i as int);
            }
            return true;
        }
    }
    assert(chars@.take(i as int) =~= chars@);
    false
}

/// The character may stand in a function's name.
pub open spec fn name_char(c: char) -> bool {
    'a' <= c <= 'z' || 'A' <= c <= 'Z' || '0' <= c <= '9' || c == '_' || c == '-'
}

/// What is wrong with a function's name, if anything is.
pub open spec fn name_fault(name: Seq<char>) -> Option<Seq<char>> {
    if name.len() == 0 || text_bytes(name) > 64 {
        Some("tool function names must contain between 1 and 64 characters"@)
    } else if exists|i: int| 0 <= i < name.len() && !name_char(#[trigger] name[i]) {
        Some(
            "invalid tool function name "@ + quoted(name)
                + ": use only letters, numbers, underscores, or hyphens"@,
        )
    } else {
        None
    }
}

/// A verdict in words: nothing, or what is wrong.
pub open spec fn verdict(result: Result<(), String>, fault: Option<Seq<char>>) -> bool {
    match result {
        Ok(()) => fault is None,
        Err(text) => fault == Some(text@),
    }
}

pub fn validate_function_name(name: &str) -> (result: Result<(), String>)
    ensures
        verdict(result, name_fault(name@)),
{
    let chars = chars_of(name);
    if chars.len() == 0 || exceeds_bytes(&chars, 64) {
        return Err("tool function names must contain between 1 and 64 characters".to_owned());
    }
    let mut i: usize = 0;
    while i < chars.len()
        invariant
            i <= chars@.len(),
            chars@ == name@,
            name@.len() > 0,
            text_bytes(name@) <= 64,
            forall|j: int| 0 <= j < i ==> name_char(#[trigger] name@[j]),
        decreases chars@.len() - i,
    {
        let c: char = chars[i];
        let good = ('a' <= c && c <= 'z') || ('A' <= c && c <= 'Z') || ('0' <= c && c <= '9') || c
            == '_' || c == '-';
        if !good {
            assert(!name_char(name@[i as int]));
            return Err(
                join3(
                    "invalid tool function name ",
                    quoted_text(name).as_str(),
                    ": use only letters, numbers, underscores, or hyphens",
                ),
            );
        }
        i = i + 1;
    }
    Ok(())
}

/// A tool before this one has the name.
pub open spec fn named_before(tools: Seq<ChatCompletionTool>, i: int, name: Seq<char>) -> bool {
    exists|j: int| 0 <= j < i && (#[trigger] tools[j]).function.name@ == name
}

/// What is wrong with a tool of the list, if anything is.
pub open spec fn tool_fault(tools: Seq<ChatCompletionTool>, i: int) -> Option<Seq<char>> {
    let name = tools[i].function.name@;
    if tools[i].tool_type@ != "function"@ {
        Some("only tools with type \"function\" are supported"@)
    } else if name_fault(name) is Some {
        name_fault(name)
    } else if named_before(tools, i, name) {
        Some("duplicate tool function name: "@ + name)
    } else {
        match tools[i].function.parameters {
            Some(parameters) => if parameters@ is Object {
                None
            } else {
                Some("parameters for tool "@ + name + " must be a JSON object"@)
            },
            None => None,
        }
    }
}

/// What is wrong with the first of the tools with a fault.
pub open spec fn first_tool_fault(tools: Seq<ChatCompletionTool>, n: int) -> Option<Seq<char>>
    decreases n,
{
    if n <= 0 {
        None
    } else {
        match first_tool_fault(tools, n - 1) {
            Some(fault) => Some(fault),
            None => tool_fault(tools, n - 1),
        }
    }
}

proof fn lemma_first_tool_fault(tools: Seq<ChatCompletionTool>, i: int, n: int)
    requires
        0 <= i <= n,
        first_tool_fault(tools, i) is Some,
    ensures
        first_tool_fault(tools, n) == first_tool_fault(tools, i),
    decreases n,
{
    if i < n {
        lemma_first_tool_fault(tools, i, n - 1);
    }
}

fn is_named(tools: &Vec<ChatCompletionTool>, n: usize, name: &str) -> (r: bool)
    requires
        n <= tools@.len(),
    ensures
        r == named_before(tools@, n as int, name@),
{
    let mut j: usize = 0;
    while j < n
        invariant
            j <= n <= tools@.len(),
            forall|k: int| 0 <= k < j ==> (#[trigger] tools@[k]).function.name@ != name@,
        decreases n - j,
    {
        if text_eq(tools[j].function.name.as_str(), name) {
            return true;
        }
        j = j + 1;
    }
    false
}

fn check_tool(tools: &Vec<ChatCompletionTool>, i: usize) -> (result: Result<(), String>)
    requires
        i < tools@.len(),
    ensures
        verdict(result, tool_fault(tools@, i as int)),
{
    let tool = &tools[i];
    if !text_eq(tool.tool_type.as_str(), "function") {
        return Err("only tools with type \"function\" are supported".to_owned());
    }
    let name = tool.function.name.as_str();
    if let Err(text) = validate_function_name(name) {
        return Err(text);
    }
    if is_named(tools, i, name) {
        return Err(join2("duplicate tool function name: ", name));
    }
    if let Some(parameters) = &tool.function.parameters {
        if !parameters.is_object() {
            return Err(join3("parameters for tool ", name, " must be a JSON object"));
        }
    }
    Ok(())
}

/// The tools of a request.
pub open spec fn tool_list(tools: Option<Vec<ChatCompletionTool>>) -> Seq<ChatCompletionTool> {
    match tools {
        Some(list) => list@,
        None => Seq::empty(),
    }
}

/// What is wrong with the choice of a tool, if anything is.
pub open spec fn choice_fault(
    choice: Option<ToolChoice>,
    tools: Seq<ChatCompletionTool>,
) -> Option<Seq<char>> {
    match choice {
        None => None,
        Some(ToolChoice::Mode(ToolChoiceMode::Disabled)) => None,
        Some(ToolChoice::Mode(_)) => if tools.len() == 0 {
            Some("tools must be set when tool_choice is auto or required"@)
        } else {
            None
        },
        Some(ToolChoice::Named(named)) => if named.tool_type@ != "function"@ {
            Some("named tool_choice must have type \"function\""@)
        } else if name_fault(named.function.name@) is Some {
            name_fault(named.function.name@)
        } else if !named_before(tools, tools.len() as int, named.function.name@) {
            Some("the named tool_choice does not match any supplied tool"@)
        } else {
            None
        },
    }
}

fn check_choice(choice: &Option<ToolChoice>, tools: &Option<Vec<ChatCompletionTool>>) -> (result:
    Result<(), String>)
    ensures
        verdict(result, choice_fault(*choice, tool_list(*tools))),
{
    match choice {
        None => Ok(()),
        Some(ToolChoice::Mode(mode)) => {
            if *mode == ToolChoiceMode::Disabled {
                return Ok(());
            }
            let empty = match tools {
                Some(list) => list.len() == 0,
                None => true,
            };
            if empty {
                return Err("tools must be set when tool_choice is auto or required".to_owned());
            }
            Ok(())
        },
        Some(ToolChoice::Named(named)) => {
            if !text_eq(named.tool_type.as_str(), "function") {
                return Err("named tool_choice must have type \"function\"".to_owned());
            }
            if let Err(text) = validate_function_name(named.function.name.as_str()) {
                return Err(text);
            }
            let found = match tools {
                Some(list) => is_named(list, list.len(), named.function.name.as_str()),
                None => false,
            };
            if !found {
                return Err("the named tool_choice does not match any supplied tool".to_owned());
            }
            Ok(())
        },
    }
}

/// What is wrong with a call in a message, if anything is.
pub open spec fn call_fault(call: ToolCall) -> Option<Seq<char>> {
    if call.id@.len() == 0 {
        Some("assistant tool calls require a non-empty id"@)
    } else if call.tool_type@ != "function"@ {
        Some("only assistant tool calls with type \"function\" are supported"@)
    } else if name_fault(call.function.name@) is Some {
        name_fault(call.function.name@)
    } else if parsed_json(call.function.arguments@) is None {
        Some("assistant tool call arguments must contain valid JSON"@)
    } else {
        None
    }
}

/// What is wrong with the first of the calls with a fault.
pub open spec fn first_call_fault(calls: Seq<ToolCall>, n: int) -> Option<Seq<char>>
    decreases n,
{
    if n <= 0 {
        None
    } else {
        match first_call_fault(calls, n - 1) {
            Some(fault) => Some(fault),
            None => call_fault(calls[n - 1]),
        }
    }
}

proof fn lemma_first_call_fault(calls: Seq<ToolCall>, i: int, n: int)
    requires
        0 <= i <= n,
        first_call_fault(calls, i) is Some,
    ensures
        first_call_fault(calls, n) == first_call_fault(calls, i),
    decreases n,
{
    if i < n {
        lemma_first_call_fault(calls, i, n - 1);
    }
}

fn check_call(call: &ToolCall) -> (result: Result<(), String>)
    ensures
        verdict(result, call_fault(*call)),
{
    if chars_of(call.id.as_str()).len() == 0 {
        return Err("assistant tool calls require a non-empty id".to_owned());
    }
    if !text_eq(call.tool_type.as_str(), "function") {
        return Err("only assistant tool calls with type \"function\" are supported".to_owned());
    }
    if let Err(text) = validate_function_name(call.function.name.as_str()) {
        return Err(text);
    }
    if parse_json(call.function.arguments.as_str()).is_none() {
        return Err("assistant tool call arguments must contain valid JSON".to_owned());
    }
    Ok(())
}

fn check_calls(calls: &Vec<ToolCall>) -> (result: Result<(), String>)
    ensures
        verdict(result, first_call_fault(calls@, calls@.len() as int)),
{
    let mut i: usize = 0;
    while i < calls.len()
        invariant
            i <= calls@.len(),
            first_call_fault(calls@, i as int) is None,
        decreases calls@.len() - i,
    {
        if let Err(text) = check_call(&calls[i]) {
            proof {
                lemma_first_call_fault(calls@, i as int + 1, calls@.len() as int);
            }
            return Err(text);
        }
        i = i + 1;
    }
    Ok(())
}

/// What is wrong with a message of the system or of the user, if anything is.
pub open spec fn plain_message_fault(message: ChatMessage) -> Option<Seq<char>> {
    if message.content is None {
        Some(message.role@ + " messages require content"@)
    } else if message.tool_calls is Some || message.tool_call_id is Some {
        Some(message.role@ + " messages cannot contain tool call fields"@)
    } else {
        None
    }
}

/// What is wrong with a message of the assistant, if anything is.
pub open spec fn assistant_message_fault(message: ChatMessage) -> Option<Seq<char>> {
    if message.content is None && (message.tool_calls is None || message.tool_calls->0@.len()
        == 0) {
        Some("assistant messages require content or tool_calls"@)
    } else if message.tool_call_id is Some {
        Some("assistant messages cannot contain tool_call_id"@)
    } else {
        match message.tool_calls {
            Some(calls) => first_call_fault(calls@, calls@.len() as int),
            None => None,
        }
    }
}

/// What is wrong with a message of a tool, if anything is.
pub open spec fn tool_message_fault(message: ChatMessage) -> Option<Seq<char>> {
    if message.content is None {
        Some("tool messages require content"@)
    } else if message.tool_call_id is None || message.tool_call_id->0@.len() == 0 {
        Some("tool messages require a non-empty tool_call_id"@)
    } else if message.tool_calls is Some {
        Some("tool messages cannot contain tool_calls"@)
    } else {
        None
    }
}

/// What is wrong with a message, if anything is.
pub open spec fn message_fault(message: ChatMessage) -> Option<Seq<char>> {
    if message.role@ == "system"@ || message.role@ == "user"@ {
        plain_message_fault(message)
    } else if message.role@ == "assistant"@ {
        assistant_message_fault(message)
    } else if message.role@ == "tool"@ {
        tool_message_fault(message)
    } else {
        Some("unsupported chat message role: "@ + message.role@)
    }
}

pub fn validate_tool_message(message: &ChatMessage) -> (result: Result<(), String>)
    ensures
        verdict(result, message_fault(*message)),
{
    let role = message.role.as_str();
    if text_eq(role, "system") || text_eq(role, "user") {
        if message.content.is_none() {
            return Err(join2(role, " messages require content"));
        }
        if message.tool_calls.is_some() || message.tool_call_id.is_some() {
            return Err(join2(role, " messages cannot contain tool call fields"));
        }
        Ok(())
    } else if text_eq(role, "assistant") {
        let no_calls = match &message.tool_calls {
            Some(calls) => calls.len() == 0,
            None => true,
        };
        if message.content.is_none() && no_calls {
            return Err("assistant messages require content or tool_calls".to_owned());
        }
        if message.tool_call_id.is_some() {
            return Err("assistant messages cannot contain tool_call_id".to_owned());
        }
        match &message.tool_calls {
            Some(calls) => check_calls(calls),
            None => Ok(()),
        }
    } else if text_eq(role, "tool") {
        if message.content.is_none() {
            return Err("tool messages require content".to_owned());
        }
        let no_id = match &message.tool_call_id {
            Some(id) => chars_of(id.as_str()).len() == 0,
            None => true,
        };
        if no_id {
            return Err("tool messages require a non-empty tool_call_id".to_owned());
        }
        if message.tool_calls.is_some() {
            return Err("tool messages cannot contain tool_calls".to_owned());
        }
        Ok(())
    } else {
        Err(join2("unsupported chat message role: ", role))
    }
}

/// What is wrong with the first of the messages with a fault.
pub open spec fn first_message_fault(messages: Seq<ChatMessage>, n: int) -> Option<Seq<char>>
    decreases n,
{
    if n <= 0 {
        None
    } else {
        match first_message_fault(messages, n - 1) {
            Some(fault) => Some(fault),
            None => message_fault(messages[n - 1]),
        }
    }
}

proof fn lemma_first_message_fault(messages: Seq<ChatMessage>, i: int, n: int)
    requires
        0 <= i <= n,
        first_message_fault(messages, i) is Some,
    ensures
        first_message_fault(messages, n) == first_message_fault(messages, i),
    decreases n,
{
    if i < n {
        lemma_first_message_fault(messages, i, n - 1);
    }
}

proof fn lemma_no_message_fault(messages: Seq<ChatMessage>, i: int, n: int)
    requires
        0 <= i < n,
        first_message_fault(messages, n) is None,
    ensures
        message_fault(messages[i]) is None,
    decreases n,
{
    if i < n - 1 {
        lemma_no_message_fault(messages, i, n - 1);
    }
}

proof fn lemma_no_call_fault(calls: Seq<ToolCall>, i: int, n: int)
    requires
        0 <= i < n,
        first_call_fault(calls, n) is None,
    ensures
        call_fault(calls[i]) is None,
    decreases n,
{
    if i < n - 1 {
        lemma_no_call_fault(calls, i, n - 1);
    }
}

/// What is wrong with the tools of a request, with its choice among them and with its
/// messages, if anything is: the first fault in this order.
pub open spec fn request_fault(req: ChatCompletionRequest) -> Option<Seq<char>> {
    let tools = tool_list(req.tools);
    if req.tools is Some && tools.len() == 0 {
        Some("tools must contain at least one function"@)
    } else if tools.len() > 128 {
        Some("tools cannot contain more than 128 functions"@)
    } else {
        match first_tool_fault(tools, tools.len() as int) {
            Some(fault) => Some(fault),
            None => match choice_fault(req.tool_choice, tools) {
                Some(fault) => Some(fault),
                None => first_message_fault(req.messages@, req.messages@.len() as int),
            },
        }
    }
}

pub fn validate_tool_call_request(req: &ChatCompletionRequest) -> (result: Result<(), String>)
    ensures
        verdict(result, request_fault(*req)),
{
    if let Some(tools) = &req.tools {
        if tools.len() == 0 {
            return Err("tools must contain at least one function".to_owned());
        }
        if tools.len() > 128 {
            return Err("tools cannot contain more than 128 functions".to_owned());
        }
        let mut i: usize = 0;
        while i < tools.len()
            invariant
                i <= tools@.len(),
                req.tools == Some(*tools),
                0 < tools@.len() <= 128,
                first_tool_fault(tools@, i as int) is None,
            decreases tools@.len() - i,
        {
            if let Err(text) = check_tool(tools, i) {
                proof {
                    lemma_first_tool_fault(tools@, i as int + 1, tools@.len() as int);
                }
                return Err(text);
            }
            i = i + 1;
        }
    }
    if let Err(text) = check_choice(&req.tool_choice, &req.tools) {
        return Err(text);
    }
    let ghost tools = tool_list(req.tools);
    let mut k: usize = 0;
    while k < req.messages.len()
        invariant
            k <= req.messages@.len(),
            tools == tool_list(req.tools),
            !(req.tools is Some && tools.len() == 0),
            tools.len() <= 128,
            first_tool_fault(tools, tools.len() as int) is None,
            choice_fault(req.tool_choice, tools) is None,
            first_message_fault(req.messages@, k as int) is None,
        decreases req.messages@.len() - k,
    {
        if let Err(text) = validate_tool_message(&req.messages[k]) {
            proof {
                lemma_first_message_fault(
                    req.messages@,
                    k as int + 1,
                    req.messages@.len() as int,
                );
            }
            return Err(text);
        }
        k = k + 1;
    }
    Ok(())
}

/// A request that is accepted has tools with different names.
pub proof fn lemma_names_differ(req: ChatCompletionRequest, i: int, j: int)
    requires
        request_fault(req) is None,
        0 <= i < j < tool_list(req.tools).len(),
    ensures
        tool_list(req.tools)[i].function.name@ != tool_list(req.tools)[j].function.name@,
{
    lemma_no_tool_fault(tool_list(req.tools), j, tool_list(req.tools).len() as int);
}

proof fn lemma_no_tool_fault(tools: Seq<ChatCompletionTool>, i: int, n: int)
    requires
        0 <= i < n,
        first_tool_fault(tools, n) is None,
    ensures
        tool_fault(tools, i) is None,
    decreases n,
{
    if i < n - 1 {
        lemma_no_tool_fault(tools, i, n - 1);
    }
}

/// Object members in the order of their keys, optional ones left out where they are
/// not given.
pub open spec fn with_optional(
    pairs: Seq<(Seq<char>, JsonView)>,
    key: Seq<char>,
    value: Option<JsonView>,
) -> Seq<(Seq<char>, JsonView)> {
    match value {
        Some(json) => pairs.push((key, json)),
        None => pairs,
    }
}

pub open spec fn text_json(text: Option<String>) -> Option<JsonView> {
    match text {
        Some(s) => Some(JsonView::Text(s@)),
        None => None,
    }
}

/// A tool in JSON.
pub open spec fn tool_json(tool: ChatCompletionTool) -> JsonView {
    let f = tool.function;
    let described = with_optional(Seq::empty(), "description"@, text_json(f.description));
    let named = described.push(("name"@, JsonView::Text(f.name@)));
    let typed = with_optional(
        named,
        "parameters"@,
        match f.parameters {
            Some(json) => Some(json@),
            None => None,
        },
    );
    let whole = with_optional(
        typed,
        "strict"@,
        match f.strict {
            Some(strict) => Some(JsonView::Bool(strict)),
            None => None,
        },
    );
    JsonView::Object(
        seq![("function"@, JsonView::Object(whole)), ("type"@, JsonView::Text(tool.tool_type@))],
    )
}

/// What the members of an object hold.
pub open spec fn member_views(members: Seq<(String, Json)>) -> Seq<(Seq<char>, JsonView)> {
    Seq::new(members.len(), |i: int| (members[i].0@, members[i].1@))
}

fn add_member(members: &mut Vec<(String, Json)>, key: &str, value: Json)
    ensures
        member_views(final(members)@) == member_views(old(members)@).push((key@, value@)),
{
    members.push((key.to_owned(), value));
    assert(member_views(members@) =~= member_views(old(members)@).push((key@, value@)));
}

fn object_of(members: Vec<(String, Json)>) -> (json: Json)
    ensures
        json@ == JsonView::Object(member_views(members@)),
{
    let json = Json::Object(members);
    assert(json@->Object_0 =~= member_views(members@));
    json
}

fn no_members() -> (members: Vec<(String, Json)>)
    ensures
        member_views(members@) == Seq::<(Seq<char>, JsonView)>::empty(),
{
    let members: Vec<(String, Json)> = Vec::new();
    assert(member_views(members@) =~= Seq::<(Seq<char>, JsonView)>::empty());
    members
}

pub fn tool_to_json(tool: &ChatCompletionTool) -> (json: Json)
    ensures
        json@ == tool_json(*tool),
{
    let mut function = no_members();
    if let Some(text) = &tool.function.description {
        add_member(&mut function, "description", Json::Text(text.clone()));
    }
    add_member(&mut function, "name", Json::Text(tool.function.name.clone()));
    if let Some(parameters) = &tool.function.parameters {
        add_member(&mut function, "parameters", parameters.copy());
    }
    if let Some(strict) = tool.function.strict {
        add_member(&mut function, "strict", Json::Bool(strict));
    }
    let mut members = no_members();
    add_member(&mut members, "function", object_of(function));
    add_member(&mut members, "type", Json::Text(tool.tool_type.clone()));
    let json = object_of(members);
    assert(json@->Object_0 =~= tool_json(*tool)->Object_0);
    json
}

/// The name of the one tool that the choice allows, if it names one.
pub open spec fn chosen_name(choice: Option<ToolChoice>) -> Option<Seq<char>> {
    match choice {
        Some(ToolChoice::Named(named)) => Some(named.function.name@),
        _ => None,
    }
}

/// The tools that a model is told of: all of them, or the one that was chosen.
pub open spec fn offered(tools: Seq<ChatCompletionTool>, name: Option<Seq<char>>) -> Seq<JsonView>
    decreases tools.len(),
{
    if tools.len() == 0 {
        Seq::empty()
    } else {
        let front = offered(tools.drop_last(), name);
        if name is None || tools.last().function.name@ == name->0 {
            front.push(tool_json(tools.last()))
        } else {
            front
        }
    }
}

/// The tools for the chat template. None where the request has none, or where the
/// choice rules them out.
pub fn tools_for_chat_template(req: &ChatCompletionRequest) -> (result: Result<
    Option<Vec<Json>>,
    String,
>)
    ensures
        match result {
            Err(text) => request_fault(*req) == Some(text@),
            Ok(None) => {
                &&& request_fault(*req) is None
                &&& req.tools is None || req.tool_choice == Some(
                    ToolChoice::Mode(ToolChoiceMode::Disabled),
                )
            },
            Ok(Some(list)) => {
                &&& request_fault(*req) is None
                &&& req.tools is Some && req.tool_choice != Some(
                    ToolChoice::Mode(ToolChoiceMode::Disabled),
                )
                &&& json_views(list@) == offered(
                    tool_list(req.tools),
                    chosen_name(req.tool_choice),
                )
            },
        },
{
    if let Err(text) = validate_tool_call_request(req) {
        return Err(text);
    }
    let tools: &Vec<ChatCompletionTool> = match &req.tools {
        Some(tools) => tools,
        None => {
            return Ok(None);
        },
    };
    let mut name: Option<&str> = None;
    match &req.tool_choice {
        Some(ToolChoice::Mode(mode)) => {
            if *mode == ToolChoiceMode::Disabled {
                return Ok(None);
            }
        },
        Some(ToolChoice::Named(named)) => {
            name = Some(named.function.name.as_str());
        },
        None => {},
    }
    let ghost wanted = chosen_name(req.tool_choice);
    let mut list: Vec<Json> = Vec::new();
    let mut i: usize = 0;
    assert(tools@.take(0) =~= Seq::<ChatCompletionTool>::empty());
    assert(json_views(list@) =~= Seq::<JsonView>::empty());
    while i < tools.len()
        invariant
            i <= tools@.len(),
            match name {
                Some(text) => wanted == Some(text@),
                None => wanted is None,
            },
            json_views(list@) == offered(tools@.take(i as int), wanted),
        decreases tools@.len() - i,
    {
        let ghost before = json_views(list@);
        assert(tools@.take(i as int + 1).drop_last() =~= tools@.take(i as int));
        assert(tools@.take(i as int + 1).last() == tools@[i as int]);
        let keep = match name {
            Some(text) => text_eq(tools[i].function.name.as_str(), text),
            None => true,
        };
        if keep {
            let json = tool_to_json(&tools[i]);
            let ghost added = json@;
            list.push(json);
            assert(json_views(list@) =~= before.push(added));
        }
        i = i + 1;
    }
    assert(tools@.take(i as int) =~= tools@);
    Ok(Some(list))
}

/// A named choice among accepted tools leaves exactly the tool with the name.
pub proof fn lemma_named_choice_offers_one(req: ChatCompletionRequest)
    requires
        request_fault(req) is None,
        chosen_name(req.tool_choice) is Some,
    ensures
        offered(tool_list(req.tools), chosen_name(req.tool_choice)).len() == 1,
        exists|i: int|
            0 <= i < tool_list(req.tools).len() && #[trigger] tool_list(
                req.tools,
            )[i].function.name@ == chosen_name(req.tool_choice)->0 && offered(
                tool_list(req.tools),
                chosen_name(req.tool_choice),
            )[0] == tool_json(tool_list(req.tools)[i]),
{
    let tools = tool_list(req.tools);
    let name = chosen_name(req.tool_choice)->0;
    let i = choose|j: int| 0 <= j < tools.len() && (#[trigger] tools[j]).function.name@ == name;
    assert forall|j: int| 0 <= j < tools.len() && j != i implies (
    #[trigger] tools[j]).function.name@ != name by {
        if j < i {
            lemma_names_differ(req, j, i);
        } else {
            lemma_names_differ(req, i, j);
        }
    }
    lemma_offers_only(tools, name, i);
}

proof fn lemma_offers_only(tools: Seq<ChatCompletionTool>, name: Seq<char>, i: int)
    requires
        forall|j: int|
            0 <= j < tools.len() ==> ((#[trigger] tools[j]).function.name@ == name <==> j == i),
    ensures
        offered(tools, Some(name)) == if 0 <= i < tools.len() {
            seq![tool_json(tools[i])]
        } else {
            Seq::empty()
        },
    decreases tools.len(),
{
    if tools.len() > 0 {
        let front = tools.drop_last();
        assert forall|j: int| 0 <= j < front.len() implies ((
        #[trigger] front[j]).function.name@ == name <==> j == i) by {
            assert(front[j] == tools[j]);
        }
        lemma_offers_only(front, name, i);
        assert(tools.last() == tools[tools.len() - 1]);
        assert(offered(tools, Some(name)) =~= if 0 <= i < tools.len() {
            seq![tool_json(tools[i])]
        } else {
            Seq::empty()
        });
    }
}

/// A call in JSON, with its arguments read.
pub open spec fn call_json(call: ToolCall) -> JsonView {
    JsonView::Object(
        seq![
            (
                "function"@,
                JsonView::Object(
                    seq![
                        ("arguments"@, parsed_json(call.function.arguments@)->0),
                        ("name"@, JsonView::Text(call.function.name@)),
                    ],
                ),
            ),
            ("id"@, JsonView::Text(call.id@)),
            ("type"@, JsonView::Text(call.tool_type@)),
        ],
    )
}

/// A message in JSON, with the arguments of its calls read.
pub open spec fn message_json(message: ChatMessage) -> JsonView {
    let content = seq![
        (
            "content"@,
            match message.content {
                Some(text) => JsonView::Text(text@),
                None => JsonView::Null,
            },
        ),
    ];
    let named = with_optional(content, "name"@, text_json(message.name));
    let played = named.push(("role"@, JsonView::Text(message.role@)));
    let answering = with_optional(played, "tool_call_id"@, text_json(message.tool_call_id));
    JsonView::Object(
        with_optional(
            answering,
            "tool_calls"@,
            match message.tool_calls {
                Some(calls) => Some(
                    JsonView::Array(Seq::new(calls@.len(), |i: int| call_json(calls@[i]))),
                ),
                None => None,
            },
        ),
    )
}

fn call_to_json(call: &ToolCall) -> (result: Option<Json>)
    ensures
        match result {
            Some(json) => parsed_json(call.function.arguments@) is Some && json@ == call_json(
                *call,
            ),
            None => parsed_json(call.function.arguments@) is None,
        },
{
    let arguments = match parse_json(call.function.arguments.as_str()) {
        Some(arguments) => arguments,
        None => {
            return None;
        },
    };
    let mut function = no_members();
    add_member(&mut function, "arguments", arguments);
    add_member(&mut function, "name", Json::Text(call.function.name.clone()));
    let function = object_of(function);
    assert(function@->Object_0 =~= seq![
        ("arguments"@, parsed_json(call.function.arguments@)->0),
        ("name"@, JsonView::Text(call.function.name@)),
    ]);
    let mut members = no_members();
    add_member(&mut members, "function", function);
    add_member(&mut members, "id", Json::Text(call.id.clone()));
    add_member(&mut members, "type", Json::Text(call.tool_type.clone()));
    let json = object_of(members);
    assert(json@->Object_0 =~= call_json(*call)->Object_0);
    Some(json)
}

fn calls_to_json(calls: &Vec<ToolCall>) -> (json: Json)
    requires
        forall|i: int|
            0 <= i < calls@.len() ==> parsed_json((#[trigger] calls@[i]).function.arguments@) is Some,
    ensures
        json@ == JsonView::Array(Seq::new(calls@.len(), |i: int| call_json(calls@[i]))),
{
    let mut items: Vec<Json> = Vec::new();
    let mut i: usize = 0;
    while i < calls.len()
        invariant
            i <= calls@.len(),
            items@.len() == i,
            forall|k: int|
                0 <= k < calls@.len() ==> parsed_json(
                    (#[trigger] calls@[k]).function.arguments@,
                ) is Some,
            forall|k: int| 0 <= k < i ==> (#[trigger] items@[k])@ == call_json(calls@[k]),
        decreases calls@.len() - i,
    {
        assert(parsed_json(calls@[i as int].function.arguments@) is Some);
        if let Some(item) = call_to_json(&calls[i]) {
            items.push(item);
        }
        i = i + 1;
    }
    let json = Json::Array(items);
    assert(json@->Array_0 =~= Seq::new(calls@.len(), |i: int| call_json(calls@[i])));
    json
}

fn message_to_json(message: &ChatMessage) -> (json: Json)
    requires
        message_fault(*message) is None,
    ensures
        json@ == message_json(*message),
{
    let mut members = no_members();
    let content = match &message.content {
        Some(text) => Json::Text(text.clone()),
        None => Json::Null,
    };
    add_member(&mut members, "content", content);
    assert(member_views(members@) =~= seq![
        (
            "content"@,
            match message.content {
                Some(text) => JsonView::Text(text@),
                None => JsonView::Null,
            },
        ),
    ]);
    if let Some(name) = &message.name {
        add_member(&mut members, "name", Json::Text(name.clone()));
    }
    add_member(&mut members, "role", Json::Text(message.role.clone()));
    if let Some(id) = &message.tool_call_id {
        add_member(&mut members, "tool_call_id", Json::Text(id.clone()));
    }
    if let Some(calls) = &message.tool_calls {
        proof {
            reveal_strlit("system");
            reveal_strlit("user");
            reveal_strlit("assistant");
            reveal_strlit("tool");
            assert forall|i: int| 0 <= i < calls@.len() implies parsed_json(
                (#[trigger] calls@[i]).function.arguments@,
            ) is Some by {
                lemma_no_call_fault(calls@, i, calls@.len() as int);
            }
        }
        add_member(&mut members, "tool_calls", calls_to_json(calls));
    }
    object_of(members)
}

/// The messages for the chat template: calls of earlier turns have their arguments
/// as JSON values, not as text.
pub fn messages_for_chat_template(req: &ChatCompletionRequest) -> (result: Result<
    Vec<Json>,
    String,
>)
    ensures
        match result {
            Err(text) => request_fault(*req) == Some(text@),
            Ok(list) => {
                &&& request_fault(*req) is None
                &&& json_views(list@) == Seq::new(
                    req.messages@.len(),
                    |i: int| message_json(req.messages@[i]),
                )
            },
        },
{
    if let Err(text) = validate_tool_call_request(req) {
        return Err(text);
    }
    let mut list: Vec<Json> = Vec::new();
    let mut i: usize = 0;
    while i < req.messages.len()
        invariant
            i <= req.messages@.len(),
            list@.len() == i,
            first_message_fault(req.messages@, req.messages@.len() as int) is None,
            forall|k: int| 0 <= k < i ==> (#[trigger] list@[k])@ == message_json(req.messages@[k]),
        decreases req.messages@.len() - i,
    {
        proof {
            lemma_no_message_fault(req.messages@, i as int, req.messages@.len() as int);
        }
        list.push(message_to_json(&req.messages[i]));
        i = i + 1;
    }
    assert(json_views(list@) =~= Seq::new(
        req.messages@.len(),
        |i: int| message_json(req.messages@[i]),
    ));
    Ok(list)
}

/// A choice in JSON; automatic where the request makes none.
pub open spec fn choice_json(choice: Option<ToolChoice>) -> JsonView {
    match choice {
        Some(ToolChoice::Named(named)) => JsonView::Object(
            seq![
                (
                    "function"@,
                    JsonView::Object(seq![("name"@, JsonView::Text(named.function.name@))]),
                ),
                ("type"@, JsonView::Text(named.tool_type@)),
            ],
        ),
        Some(ToolChoice::Mode(ToolChoiceMode::Disabled)) => JsonView::Text("none"@),
        Some(ToolChoice::Mode(ToolChoiceMode::Required)) => JsonView::Text("required"@),
        _ => JsonView::Text("auto"@),
    }
}

/// The choice for the chat template. None where the request has no tools.
pub fn tool_choice_for_chat_template(req: &ChatCompletionRequest) -> (result: Result<
    Option<Json>,
    String,
>)
    ensures
        match result {
            Err(text) => request_fault(*req) == Some(text@),
            Ok(None) => request_fault(*req) is None && req.tools is None,
            Ok(Some(json)) => {
                &&& request_fault(*req) is None
                &&& req.tools is Some
                &&& json@ == choice_json(req.tool_choice)
            },
        },
{
    if let Err(text) = validate_tool_call_request(req) {
        return Err(text);
    }
    if req.tools.is_none() {
        return Ok(None);
    }
    match &req.tool_choice {
        Some(ToolChoice::Named(named)) => {
            let mut function = no_members();
            add_member(&mut function, "name", Json::Text(named.function.name.clone()));
            let function = object_of(function);
            assert(function@->Object_0 =~= seq![("name"@, JsonView::Text(named.function.name@))]);
            let mut members = no_members();
            add_member(&mut members, "function", function);
            add_member(&mut members, "type", Json::Text(named.tool_type.clone()));
            let json = object_of(members);
            assert(json@->Object_0 =~= choice_json(req.tool_choice)->Object_0);
            Ok(Some(json))
        },
        Some(ToolChoice::Mode(mode)) => {
            let text = match mode {
                ToolChoiceMode::Disabled => "none",
                ToolChoiceMode::Auto => "auto",
                ToolChoiceMode::Required => "required",
            };
            Ok(Some(Json::Text(text.to_owned())))
        },
        None => Ok(Some(Json::Text("auto".to_owned()))),
    }
}

proof fn lemma_plain_bytes(s: Seq<char>)
    requires
        forall|i: int| 0 <= i < s.len() ==> name_char(#[trigger] s[i]),
    ensures
        text_bytes(s) == s.len(),
    decreases s.len(),
{
    if s.len() > 0 {
        assert forall|i: int| 0 <= i < s.drop_last().len() implies name_char(
            #[trigger] s.drop_last()[i],
        ) by {
            assert(s.drop_last()[i] == s[i]);
        }
        lemma_plain_bytes(s.drop_last());
        assert(name_char(s[s.len() - 1]));
    }
}

proof fn lemma_bytes_at_least(s: Seq<char>)
    ensures
        text_bytes(s) >= s.len(),
    decreases s.len(),
{
    if s.len() > 0 {
        lemma_bytes_at_least(s.drop_last());
    }
}

/// A function name has from one to 64 characters, each a letter, a digit, an underscore or a
/// hyphen.
pub proof fn lemma_name_accepted(name: Seq<char>)
    ensures
        name_fault(name) is None <==> {
            &&& 1 <= name.len() <= 64
            &&& forall|i: int|
                0 <= i < name.len() ==> {
                    let c = (#[trigger] name[i]) as int;
                    0x61 <= c <= 0x7a || 0x41 <= c <= 0x5a || 0x30 <= c <= 0x39 || c == 0x5f || c
                        == 0x2d
                }
        },
{
    lemma_bytes_at_least(name);
    if forall|i: int| 0 <= i < name.len() ==> name_char(#[trigger] name[i]) {
        lemma_plain_bytes(name);
    }
    if name_fault(name) is None {
        assert forall|i: int| 0 <= i < name.len() implies ({
            let c = (#[trigger] name[i]) as int;
            0x61 <= c <= 0x7a || 0x41 <= c <= 0x5a || 0x30 <= c <= 0x39 || c == 0x5f || c == 0x2d
        }) by {
            assert(name_char(name[i]));
        }
    } else if 1 <= name.len() <= 64 && forall|i: int|
        0 <= i < name.len() ==> {
            let c = (#[trigger] name[i]) as int;
            0x61 <= c <= 0x7a || 0x41 <= c <= 0x5a || 0x30 <= c <= 0x39 || c == 0x5f || c == 0x2d
        } {
        assert forall|i: int| 0 <= i < name.len() implies name_char(#[trigger] name[i]) by {
            let c = name[i] as int;
        }
        lemma_plain_bytes(name);
    }
}

/// A tool that is accepted: a function with a name of its own and an object for parameters.
pub open spec fn tool_accepted(tools: Seq<ChatCompletionTool>, i: int) -> bool {
    &&& tools[i].tool_type@ == "function"@
    &&& name_fault(tools[i].function.name@) is None
    &&& forall|j: int|
        0 <= j < i ==> (#[trigger] tools[j]).function.name@ != tools[i].function.name@
    &&& tools[i].function.parameters is Some ==> (tools[i].function.parameters->0)@ is Object
}

/// Tools are accepted where each is.
pub proof fn lemma_tools_accepted(tools: Seq<ChatCompletionTool>, n: int)
    requires
        0 <= n <= tools.len(),
    ensures
        first_tool_fault(tools, n) is None <==> forall|i: int|
            0 <= i < n ==> #[trigger] tool_accepted(tools, i),
    decreases n,
{
    if n > 0 {
        lemma_tools_accepted(tools, n - 1);
        let name = tools[n - 1].function.name@;
        assert(tool_fault(tools, n - 1) is None <==> tool_accepted(tools, n - 1)) by {
            if !named_before(tools, n - 1, name) {
                assert forall|j: int| 0 <= j < n - 1 implies (#[trigger] tools[j]).function.name@
                    != name by {}
            }
        }
        if forall|i: int| 0 <= i < n ==> #[trigger] tool_accepted(tools, i) {
            assert(tool_accepted(tools, n - 1));
        }
    }
}

/// The calls that a message makes.
pub open spec fn calls_made(message: ChatMessage) -> Seq<ToolCall> {
    match message.tool_calls {
        Some(calls) => calls@,
        None => Seq::empty(),
    }
}

/// A message that is accepted, by its role: a system or user message has content and nothing
/// of a call; an assistant's has content or calls, each of them whole; and the answer of a
/// tool has content and says which call it answers.
pub open spec fn message_accepted(message: ChatMessage) -> bool {
    let role = message.role@;
    let calls = calls_made(message);
    ||| {
        &&& role == "system"@ || role == "user"@
        &&& message.content is Some
        &&& message.tool_calls is None
        &&& message.tool_call_id is None
    }
    ||| {
        &&& role == "assistant"@
        &&& message.content is Some || calls.len() > 0
        &&& message.tool_call_id is None
        &&& forall|i: int| 0 <= i < calls.len() ==> call_accepted(#[trigger] calls[i])
    }
    ||| {
        &&& role == "tool"@
        &&& message.content is Some
        &&& message.tool_call_id is Some && (message.tool_call_id->0)@.len() > 0
        &&& message.tool_calls is None
    }
}

/// A call that is accepted: a function by name, with an id and readable arguments.
pub open spec fn call_accepted(call: ToolCall) -> bool {
    &&& call.id@.len() > 0
    &&& call.tool_type@ == "function"@
    &&& name_fault(call.function.name@) is None
    &&& parsed_json(call.function.arguments@) is Some
}

proof fn lemma_calls_accepted(calls: Seq<ToolCall>, n: int)
    requires
        0 <= n <= calls.len(),
    ensures
        first_call_fault(calls, n) is None <==> forall|i: int|
            0 <= i < n ==> call_accepted(#[trigger] calls[i]),
    decreases n,
{
    if n > 0 {
        lemma_calls_accepted(calls, n - 1);
        if forall|i: int| 0 <= i < n ==> call_accepted(#[trigger] calls[i]) {
            assert(call_accepted(calls[n - 1]));
        }
    }
}

proof fn lemma_roles_differ()
    ensures
        "system"@ != "assistant"@,
        "user"@ != "assistant"@,
        "system"@ != "tool"@,
        "user"@ != "tool"@,
        "assistant"@ != "tool"@,
{
    reveal_strlit("system");
    reveal_strlit("user");
    reveal_strlit("assistant");
    reveal_strlit("tool");
    assert("system"@.len() == 6 && "user"@.len() == 4 && "assistant"@.len() == 9 && "tool"@.len()
        == 4);
    assert("user"@[0] == 'u' && "tool"@[0] == 't');
}

/// Which messages are accepted.
pub proof fn lemma_message_accepted(message: ChatMessage)
    ensures
        message_fault(message) is None <==> message_accepted(message),
{
    lemma_roles_differ();
    let calls = calls_made(message);
    lemma_calls_accepted(calls, calls.len() as int);
    if message.role@ == "assistant"@ {
        assert(assistant_message_fault(message) is None <==> message_accepted(message));
    } else if message.role@ == "tool"@ {
        assert(tool_message_fault(message) is None <==> message_accepted(message));
    }
}

proof fn lemma_messages_accepted(messages: Seq<ChatMessage>, n: int)
    requires
        0 <= n <= messages.len(),
    ensures
        first_message_fault(messages, n) is None <==> forall|i: int|
            0 <= i < n ==> message_accepted(#[trigger] messages[i]),
    decreases n,
{
    if n > 0 {
        lemma_messages_accepted(messages, n - 1);
        lemma_message_accepted(messages[n - 1]);
        if forall|i: int| 0 <= i < n ==> message_accepted(#[trigger] messages[i]) {
            assert(message_accepted(messages[n - 1]));
        }
    }
}

/// Which requests are accepted: tools, where they are given, are from one to 128 and each is
/// accepted; a choice of tools goes with tools, and a named choice names one of them; and
/// each message is accepted.
pub proof fn lemma_request_accepted(req: ChatCompletionRequest)
    ensures
        ({
            let tools = tool_list(req.tools);
            request_fault(req) is None <==> {
                &&& req.tools is Some ==> 1 <= tools.len() <= 128
                &&& forall|i: int| 0 <= i < tools.len() ==> #[trigger] tool_accepted(tools, i)
                &&& match req.tool_choice {
                    None => true,
                    Some(ToolChoice::Mode(ToolChoiceMode::Disabled)) => true,
                    Some(ToolChoice::Mode(_)) => tools.len() > 0,
                    Some(ToolChoice::Named(named)) => {
                        &&& named.tool_type@ == "function"@
                        &&& name_fault(named.function.name@) is None
                        &&& exists|i: int|
                            0 <= i < tools.len() && (#[trigger] tools[i]).function.name@
                                == named.function.name@
                    },
                }
                &&& forall|i: int|
                    0 <= i < req.messages@.len() ==> message_accepted(#[trigger] req.messages@[i])
            }
        }),
{
    let tools = tool_list(req.tools);
    lemma_tools_accepted(tools, tools.len() as int);
    lemma_messages_accepted(req.messages@, req.messages@.len() as int);
}

/// Where no tool is named, all are offered, in their order.
pub proof fn lemma_all_offered(tools: Seq<ChatCompletionTool>)
    ensures
        offered(tools, None).len() == tools.len(),
        forall|i: int|
            0 <= i < tools.len() ==> #[trigger] offered(tools, None)[i] == tool_json(tools[i]),
    decreases tools.len(),
{
    if tools.len() > 0 {
        let front = tools.drop_last();
        lemma_all_offered(front);
        assert forall|i: int| 0 <= i < tools.len() implies #[trigger] offered(tools, None)[i]
            == tool_json(tools[i]) by {
            if i < front.len() {
                assert(offered(front, None)[i] == tool_json(front[i]));
            }
        }
    }
}

proof fn lemma_member_of_push(
    pairs: Seq<(Seq<char>, JsonView)>,
    key: Seq<char>,
    value: JsonView,
    wanted: Seq<char>,
)
    ensures
        first_member(pairs.push((key, value)), wanted) == (if first_member(pairs, wanted) is Some {
            first_member(pairs, wanted)
        } else if wanted == key {
            Some(value)
        } else {
            None
        }),
    decreases pairs.len(),
{
    let all = pairs.push((key, value));
    if pairs.len() == 0 {
        assert(all.skip(1) =~= Seq::<(Seq<char>, JsonView)>::empty());
        reveal_with_fuel(first_member, 2);
    } else {
        assert(all.skip(1) =~= pairs.skip(1).push((key, value)));
        lemma_member_of_push(pairs.skip(1), key, value, wanted);
    }
}

proof fn lemma_member_of_optional(
    pairs: Seq<(Seq<char>, JsonView)>,
    key: Seq<char>,
    value: Option<JsonView>,
    wanted: Seq<char>,
)
    ensures
        first_member(with_optional(pairs, key, value), wanted) == (if first_member(pairs, wanted)
            is Some {
            first_member(pairs, wanted)
        } else if wanted == key {
            value
        } else {
            None
        }),
{
    if value is Some {
        lemma_member_of_push(pairs, key, value->0, wanted);
    }
}

/// A template sees of a message its content, or null, its role, and of the rest what is
/// there.
pub proof fn lemma_message_members(message: ChatMessage)
    ensures
        ({
            let json = message_json(message);
            &&& json.member("role"@) == Some(JsonView::Text(message.role@))
            &&& message.content is Some ==> json.member("content"@) == Some(
                JsonView::Text((message.content->0)@),
            )
            &&& message.content is None ==> json.member("content"@) == Some(JsonView::Null)
            &&& message.name is Some ==> json.member("name"@) == Some(
                JsonView::Text((message.name->0)@),
            )
            &&& message.name is None ==> json.member("name"@) is None
            &&& message.tool_call_id is Some ==> json.member("tool_call_id"@) == Some(
                JsonView::Text((message.tool_call_id->0)@),
            )
            &&& message.tool_call_id is None ==> json.member("tool_call_id"@) is None
            &&& message.tool_calls is None ==> json.member("tool_calls"@) is None
            &&& message.tool_calls is Some ==> json.member("tool_calls"@) is Some && json.member(
                "tool_calls"@,
            )->0 is Array && (json.member("tool_calls"@)->0->Array_0).len() == (
            message.tool_calls->0)@.len()
        }),
{
    reveal_strlit("content");
    reveal_strlit("name");
    reveal_strlit("role");
    reveal_strlit("tool_call_id");
    reveal_strlit("tool_calls");
    assert("content"@.len() == 7 && "name"@.len() == 4 && "role"@.len() == 4
        && "tool_call_id"@.len() == 12 && "tool_calls"@.len() == 10);
    assert("name"@[0] == 'n' && "role"@[0] == 'r');
    lemma_message_member(message, "content"@);
    lemma_message_member(message, "name"@);
    lemma_message_member(message, "role"@);
    lemma_message_member(message, "tool_call_id"@);
    lemma_message_member(message, "tool_calls"@);
}

proof fn lemma_message_member(message: ChatMessage, wanted: Seq<char>)
    requires
        "name"@ != "content"@,
        "role"@ != "content"@ && "role"@ != "name"@,
        "tool_call_id"@ != "content"@ && "tool_call_id"@ != "name"@ && "tool_call_id"@ != "role"@,
        "tool_calls"@ != "content"@ && "tool_calls"@ != "name"@ && "tool_calls"@ != "role"@
            && "tool_calls"@ != "tool_call_id"@,
    ensures
        message_json(message).member(wanted) == (if wanted == "content"@ {
            Some(
                if message.content is Some {
                    JsonView::Text((message.content->0)@)
                } else {
                    JsonView::Null
                },
            )
        } else if wanted == "name"@ {
            text_json(message.name)
        } else if wanted == "role"@ {
            Some(JsonView::Text(message.role@))
        } else if wanted == "tool_call_id"@ {
            text_json(message.tool_call_id)
        } else if wanted == "tool_calls"@ {
            match message.tool_calls {
                Some(calls) => Some(
                    JsonView::Array(Seq::new(calls@.len(), |i: int| call_json(calls@[i]))),
                ),
                None => None,
            }
        } else {
            None
        }),
{
    let content = seq![
        (
            "content"@,
            match message.content {
                Some(text) => JsonView::Text(text@),
                None => JsonView::Null,
            },
        ),
    ];
    reveal_with_fuel(first_member, 2);
    assert(content.skip(1) =~= Seq::<(Seq<char>, JsonView)>::empty());
    let named = with_optional(content, "name"@, text_json(message.name));
    lemma_member_of_optional(content, "name"@, text_json(message.name), wanted);
    let played = named.push(("role"@, JsonView::Text(message.role@)));
    lemma_member_of_push(named, "role"@, JsonView::Text(message.role@), wanted);
    let answering = with_optional(played, "tool_call_id"@, text_json(message.tool_call_id));
    lemma_member_of_optional(played, "tool_call_id"@, text_json(message.tool_call_id), wanted);
    let calls = match message.tool_calls {
        Some(calls) => Some(
            JsonView::Array(Seq::new(calls@.len(), |i: int| call_json(calls@[i]))),
        ),
        None => None,
    };
    lemma_member_of_optional(answering, "tool_calls"@, calls, wanted);
}

/// A template sees of a tool its type and its function's name, and of description,
/// parameters and strictness what is there.
pub proof fn lemma_tool_members(tool: ChatCompletionTool)
    ensures
        ({
            let f = tool.function;
            let json = tool_json(tool);
            &&& json.member("type"@) == Some(JsonView::Text(tool.tool_type@))
            &&& json.member("function"@) is Some
            &&& ({
                let inner = json.member("function"@)->0;
                &&& inner.member("name"@) == Some(JsonView::Text(f.name@))
                &&& inner.member("description"@) == text_json(f.description)
                &&& f.parameters is Some ==> inner.member("parameters"@) == Some(
                    (f.parameters->0)@,
                )
                &&& f.parameters is None ==> inner.member("parameters"@) is None
                &&& f.strict is Some ==> inner.member("strict"@) == Some(
                    JsonView::Bool(f.strict->0),
                )
                &&& f.strict is None ==> inner.member("strict"@) is None
            })
        }),
{
    reveal_strlit("type");
    reveal_strlit("function");
    reveal_strlit("name");
    reveal_strlit("description");
    reveal_strlit("parameters");
    reveal_strlit("strict");
    assert("type"@.len() == 4 && "function"@.len() == 8 && "name"@.len() == 4
        && "description"@.len() == 11 && "parameters"@.len() == 10 && "strict"@.len() == 6);
    lemma_tool_member(tool, "name"@);
    lemma_tool_member(tool, "description"@);
    lemma_tool_member(tool, "parameters"@);
    lemma_tool_member(tool, "strict"@);
    let pairs = tool_json(tool)->Object_0;
    reveal_with_fuel(first_member, 3);
    assert(pairs.skip(1)[0] == pairs[1]);
}

proof fn lemma_tool_member(tool: ChatCompletionTool, wanted: Seq<char>)
    requires
        "name"@ != "description"@,
        "parameters"@ != "description"@ && "parameters"@ != "name"@,
        "strict"@ != "description"@ && "strict"@ != "name"@ && "strict"@ != "parameters"@,
    ensures
        tool_json(tool)->Object_0[0].1.member(wanted) == (if wanted == "description"@ {
            text_json(tool.function.description)
        } else if wanted == "name"@ {
            Some(JsonView::Text(tool.function.name@))
        } else if wanted == "parameters"@ {
            match tool.function.parameters {
                Some(json) => Some(json@),
                None => None,
            }
        } else if wanted == "strict"@ {
            match tool.function.strict {
                Some(strict) => Some(JsonView::Bool(strict)),
                None => None,
            }
        } else {
            None
        }),
{
    let f = tool.function;
    let none = Seq::<(Seq<char>, JsonView)>::empty();
    lemma_member_of_optional(none, "description"@, text_json(f.description), wanted);
    let described = with_optional(none, "description"@, text_json(f.description));
    let named = described.push(("name"@, JsonView::Text(f.name@)));
    lemma_member_of_push(described, "name"@, JsonView::Text(f.name@), wanted);
    let parameters = match f.parameters {
        Some(json) => Some(json@),
        None => None,
    };
    lemma_member_of_optional(named, "parameters"@, parameters, wanted);
    let typed = with_optional(named, "parameters"@, parameters);
    let strict = match f.strict {
        Some(strict) => Some(JsonView::Bool(strict)),
        None => None,
    };
    lemma_member_of_optional(typed, "strict"@, strict, wanted);
}

} // verus!
