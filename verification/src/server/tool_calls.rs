use vstd::prelude::*;

use crate::json::{
    all_kept, first_member, in_key_order, json_text, json_views, kept_json, lemma_kept_items,
    lemma_kept_member, lemma_kept_members, parse_json, parse_json_values, parsed_json,
    parsed_json_values, write_json, Json, JsonView,
};
use crate::server::openai::{
    generate_tool_call_id, random_id, ChatCompletionTool, FunctionCall, ParsedChatOutput, ToolCall,
};
use crate::text::{
    chars_of, ends_with, find, find_from, lemma_find_at_end, lemma_find_in_rest, lemma_found, nonempty,
    nonempty_trimmed, starts_with,
    text_before, text_ends, text_eq, text_of, text_starts, text_view, texts, trim_text, trimmed,
};

verus! {

/// The bodies of the calls in a text, and what stands between them.
pub struct TaggedView {
    pub bodies: Seq<Seq<char>>,
    pub remaining: Seq<char>,
}

/// The tagged calls from a place on; `None` where a tag is left open.
pub open spec fn tagged(s: Seq<char>, from: int) -> Option<TaggedView>
    decreases s.len() - from,
{
    match find_from(s, "<tool_call>"@, from) {
        None => Some(TaggedView { bodies: Seq::empty(), remaining: s.skip(from) }),
        Some(start) => {
            let body = start + "<tool_call>"@.len();
            match find_from(s, "</tool_call>"@, body) {
                None => None,
                Some(end) => {
                    proof {
                        lemma_found(s, "<tool_call>"@, from);
                        lemma_found(s, "</tool_call>"@, body);
                        reveal_strlit("</tool_call>");
                    }
                    match tagged(s, end + "</tool_call>"@.len()) {
                        None => None,
                        Some(rest) => Some(
                            TaggedView {
                                bodies: seq![s.subrange(body, end)] + rest.bodies,
                                remaining: s.subrange(from, start) + rest.remaining,
                            },
                        ),
                    }
                },
            }
        },
    }
}

/// The text without the end of a code block.
pub open spec fn without_fence_end(s: Seq<char>) -> Seq<char> {
    if ends_with(s, "```"@) {
        s.take(s.len() - "```"@.len())
    } else {
        s
    }
}

/// What a code block holds; another text as it is.
pub open spec fn without_fence(s: Seq<char>) -> Seq<char> {
    if starts_with(s, "```json"@) {
        trimmed(without_fence_end(s.skip("```json"@.len() as int)))
    } else if starts_with(s, "```"@) {
        trimmed(without_fence_end(s.skip("```"@.len() as int)))
    } else {
        s
    }
}

/// The parts of a text that are to hold calls, and its ordinary content.
pub struct SectionsView {
    pub bodies: Seq<Seq<char>>,
    pub content: Option<Seq<char>>,
}

/// Where a text is to hold calls: between tags, behind the marker of a code
/// interpreter, or as a whole.
pub open spec fn sections(s: Seq<char>) -> Option<SectionsView> {
    if find_from(s, "<tool_call>"@, 0) is Some {
        match tagged(s, 0) {
            None => None,
            Some(found) => Some(
                SectionsView { bodies: found.bodies, content: nonempty(found.remaining) },
            ),
        }
    } else {
        match find_from(s, "<|python_tag|>"@, 0) {
            Some(start) => Some(
                SectionsView {
                    bodies: seq![s.skip(start + "<|python_tag|>"@.len())],
                    content: nonempty(s.take(start)),
                },
            ),
            None => Some(
                SectionsView { bodies: seq![without_fence(trimmed(s))], content: None },
            ),
        }
    }
}

/// The parts of a text that are to hold calls, and its ordinary content.
#[derive(Debug, Clone, PartialEq, Eq)]
pub struct Sections {
    pub bodies: Vec<String>,
    pub content: Option<String>,
}

impl Sections {
    pub open spec fn view(&self) -> SectionsView {
        SectionsView { bodies: texts(self.bodies@), content: text_view(self.content) }
    }
}

fn drop_front(s: &str, prefix: &str) -> (rest: String)
    requires
        starts_with(s@, prefix@),
    ensures
        rest@ == s@.skip(prefix@.len() as int),
{
    let chars = chars_of(s);
    let n: usize = chars_of(prefix).len();
    let rest = text_of(&chars, n, chars.len());
    assert(rest@ =~= s@.skip(prefix@.len() as int));
    rest
}

fn drop_fence_end(s: &str) -> (rest: String)
    ensures
        rest@ == without_fence_end(s@),
{
    if !text_ends(s, "```") {
        return s.to_owned();
    }
    let chars = chars_of(s);
    let n: usize = chars_of("```").len();
    let rest = text_of(&chars, 0, chars.len() - n);
    assert(rest@ =~= without_fence_end(s@));
    rest
}

/// What a code block holds; another text as it is.
pub fn strip_json_code_fence(text: &str) -> (r: String)
    ensures
        r@ == without_fence(text@),
{
    if text_starts(text, "```json") {
        trim_text(drop_fence_end(drop_front(text, "```json").as_str()).as_str())
    } else if text_starts(text, "```") {
        trim_text(drop_fence_end(drop_front(text, "```").as_str()).as_str())
    } else {
        text.to_owned()
    }
}

fn find_tagged(chars: &Vec<char>) -> (result: Option<(Vec<String>, String)>)
    ensures
        match result {
            None => tagged(chars@, 0) is None,
            Some((bodies, remaining)) => tagged(chars@, 0) == Some(
                TaggedView { bodies: texts(bodies@), remaining: remaining@ },
            ),
        },
{
    let open = chars_of("<tool_call>");
    let close = chars_of("</tool_call>");
    let n: usize = chars.len();
    let mut bodies: Vec<String> = Vec::new();
    let mut remaining = String::new();
    let mut cursor: usize = 0;
    let ghost whole = tagged(chars@, 0);
    assert(texts(bodies@) =~= Seq::<Seq<char>>::empty());
    proof {
        if whole is Some {
            assert(texts(bodies@) + whole->0.bodies =~= whole->0.bodies);
            assert(remaining@ + whole->0.remaining =~= whole->0.remaining);
        }
    }
    loop
        invariant
            n == chars@.len(),
            open@ == "<tool_call>"@,
            close@ == "</tool_call>"@,
            whole == tagged(chars@, 0),
            cursor <= n,
            match tagged(chars@, cursor as int) {
                None => whole is None,
                Some(rest) => {
                    &&& whole is Some
                    &&& whole->0.bodies == texts(bodies@) + rest.bodies
                    &&& whole->0.remaining == remaining@ + rest.remaining
                },
            },
        ensures
            find_from(chars@, "<tool_call>"@, cursor as int) is None,
        decreases n - cursor,
    {
        let start: usize = match find(chars, &open, cursor) {
            Some(start) => start,
            None => {
                break;
            },
        };
        proof {
            lemma_found(chars@, open@, cursor as int);
        }
        let body: usize = start + open.len();
        let end: usize = match find(chars, &close, body) {
            Some(end) => end,
            None => {
                return None;
            },
        };
        proof {
            lemma_found(chars@, close@, body as int);
            reveal_strlit("</tool_call>");
        }
        let ghost old_bodies = texts(bodies@);
        let ghost old_remaining = remaining@;
        let piece = text_of(chars, cursor, start);
        remaining.append(piece.as_str());
        let text = text_of(chars, body, end);
        let ghost added = text@;
        bodies.push(text);
        let next: usize = end + close.len();
        proof {
            assert(texts(bodies@) =~= old_bodies.push(added));
            match tagged(chars@, next as int) {
                None => {},
                Some(rest) => {
                    assert(old_bodies + (seq![added] + rest.bodies) =~= texts(bodies@)
                        + rest.bodies);
                    assert(old_remaining + (piece@ + rest.remaining) =~= remaining@
                        + rest.remaining);
                },
            }
        }
        cursor = next;
    }
    let tail = text_of(chars, cursor, n);
    assert(tail@ =~= chars@.skip(cursor as int));
    assert(texts(bodies@) + Seq::<Seq<char>>::empty() =~= texts(bodies@));
    remaining.append(tail.as_str());
    Some((bodies, remaining))
}

/// Where a text is to hold calls.
pub fn tool_call_sections(text: &str) -> (result: Option<Sections>)
    ensures
        match result {
            None => sections(text@) is None,
            Some(found) => sections(text@) == Some(found@),
        },
{
    let chars = chars_of(text);
    if find(&chars, &chars_of("<tool_call>"), 0).is_some() {
        return match find_tagged(&chars) {
            None => None,
            Some((bodies, remaining)) => Some(
                Sections { bodies, content: nonempty_trimmed(remaining.as_str()) },
            ),
        };
    }
    let marker = chars_of("<|python_tag|>");
    let mut bodies: Vec<String> = Vec::new();
    match find(&chars, &marker, 0) {
        Some(start) => {
            proof {
                lemma_found(chars@, marker@, 0);
            }
            let after: usize = start + marker.len();
            let body = text_of(&chars, after, chars.len());
            assert(body@ =~= text@.skip(after as int));
            let before = text_of(&chars, 0, start);
            assert(before@ =~= text@.take(start as int));
            let ghost shown = body@;
            bodies.push(body);
            assert(texts(bodies@) =~= seq![shown]);
            Some(Sections { bodies, content: nonempty_trimmed(before.as_str()) })
        },
        None => {
            let body = strip_json_code_fence(trim_text(text).as_str());
            let ghost shown = body@;
            bodies.push(body);
            assert(texts(bodies@) =~= seq![shown]);
            Some(Sections { bodies, content: None })
        },
    }
}

/// The values that the parts hold; `None` where one of them holds something else, or
/// nothing.
pub open spec fn body_values(bodies: Seq<Seq<char>>) -> Option<Seq<JsonView>>
    decreases bodies.len(),
{
    if bodies.len() == 0 {
        Some(Seq::empty())
    } else {
        match body_values(bodies.drop_last()) {
            None => None,
            Some(front) => match parsed_json_values(bodies.last()) {
                None => None,
                Some(values) => if values.len() == 0 {
                    None
                } else {
                    Some(front + values)
                },
            },
        }
    }
}

/// A part that cannot be read spoils the text.
proof fn lemma_unreadable(bodies: Seq<Seq<char>>, n: int)
    requires
        0 <= n <= bodies.len(),
        body_values(bodies.take(n)) is None,
    ensures
        body_values(bodies) is None,
    decreases bodies.len(),
{
    if n == bodies.len() {
        assert(bodies.take(n) =~= bodies);
    } else {
        assert(bodies.drop_last().take(n) =~= bodies.take(n));
        lemma_unreadable(bodies.drop_last(), n);
    }
}

/// The values that the parts of a text hold.
pub fn tool_call_json_values(bodies: &Vec<String>) -> (result: Option<Vec<Json>>)
    ensures
        match result {
            None => body_values(texts(bodies@)) is None,
            Some(values) => body_values(texts(bodies@)) == Some(json_views(values@)) && all_kept(
                json_views(values@),
            ),
        },
{
    let ghost all = texts(bodies@);
    let mut values: Vec<Json> = Vec::new();
    let mut i: usize = 0;
    assert(all.take(0) =~= Seq::<Seq<char>>::empty());
    assert(json_views(values@) =~= Seq::<JsonView>::empty());
    while i < bodies.len()
        invariant
            i <= bodies@.len(),
            all == texts(bodies@),
            body_values(all.take(i as int)) == Some(json_views(values@)),
            all_kept(json_views(values@)),
        decreases bodies@.len() - i,
    {
        let ghost before = json_views(values@);
        assert(all.take(i as int + 1).drop_last() =~= all.take(i as int));
        assert(all.take(i as int + 1).last() == bodies@[i as int]@);
        let mut more: Vec<Json> = match parse_json_values(bodies[i].as_str()) {
            Some(more) => more,
            None => {
                proof {
                    lemma_unreadable(all, i as int + 1);
                }
                return None;
            },
        };
        let ghost added = json_views(more@);
        if more.len() == 0 {
            proof {
                lemma_unreadable(all, i as int + 1);
            }
            return None;
        }
        values.append(&mut more);
        assert(json_views(values@) =~= before + added);
        i = i + 1;
    }
    assert(all.take(i as int) =~= all);
    Some(values)
}

/// The members without the first one with the key.
pub open spec fn without_member(pairs: Seq<(Seq<char>, JsonView)>, key: Seq<char>) -> Seq<
    (Seq<char>, JsonView),
>
    decreases pairs.len(),
{
    if pairs.len() == 0 {
        pairs
    } else if pairs[0].0 == key {
        pairs.skip(1)
    } else {
        seq![pairs[0]] + without_member(pairs.skip(1), key)
    }
}

/// The calls that one value stands for: the items of a list, those that an object
/// lists under `tool_calls`, or the object itself.
pub open spec fn calls_of(value: JsonView) -> Option<Seq<JsonView>> {
    match value {
        JsonView::Array(items) => Some(items),
        JsonView::Object(pairs) => match first_member(pairs, "tool_calls"@) {
            Some(JsonView::Array(items)) => Some(items),
            _ => Some(seq![JsonView::Object(without_member(pairs, "tool_calls"@))]),
        },
        _ => None,
    }
}

/// The calls that some values stand for; `None` where one of them stands for none.
pub open spec fn calls_in(values: Seq<JsonView>) -> Option<Seq<JsonView>>
    decreases values.len(),
{
    if values.len() == 0 {
        Some(Seq::empty())
    } else {
        match calls_in(values.drop_last()) {
            None => None,
            Some(front) => match calls_of(values.last()) {
                None => None,
                Some(calls) => Some(front + calls),
            },
        }
    }
}

proof fn lemma_not_calls(values: Seq<JsonView>, n: int)
    requires
        0 <= n <= values.len(),
        calls_in(values.take(n)) is None,
    ensures
        calls_in(values) is None,
    decreases values.len(),
{
    if n == values.len() {
        assert(values.take(n) =~= values);
    } else {
        assert(values.drop_last().take(n) =~= values.take(n));
        lemma_not_calls(values.drop_last(), n);
    }
}

fn take_member(members: Vec<(String, Json)>, key: &str) -> (taken: (
    Option<Json>,
    Vec<(String, Json)>,
))
    ensures
        ({
            let pairs = Json::Object(members)@->Object_0;
            &&& Json::Object(taken.1)@->Object_0 == without_member(pairs, key@)
            &&& match taken.0 {
                Some(json) => first_member(pairs, key@) == Some(json@),
                None => first_member(pairs, key@) is None,
            }
        }),
{
    let ghost pairs = Json::Object(members)@->Object_0;
    let n: usize = members.len();
    let mut i: usize = 0;
    let mut found = false;
    assert(pairs.skip(0) =~= pairs);
    assert(pairs.take(0) + without_member(pairs, key@) =~= without_member(pairs, key@));
    while i < n && !found
        invariant
            i <= n,
            n == members@.len(),
            pairs == Json::Object(members)@->Object_0,
            without_member(pairs, key@) == pairs.take(i as int) + without_member(
                pairs.skip(i as int),
                key@,
            ),
            first_member(pairs, key@) == first_member(pairs.skip(i as int), key@),
            found ==> i < n && pairs[i as int].0 == key@,
        decreases
                n - i,
                if found {
                    0int
                } else {
                    1
                },
    {
        assert(pairs[i as int].0 == members@[i as int].0@);
        assert(pairs.skip(i as int)[0] == pairs[i as int]);
        if text_eq(members[i].0.as_str(), key) {
            found = true;
        } else {
            proof {
                assert(pairs.skip(i as int).skip(1) =~= pairs.skip(i as int + 1));
                let tail = without_member(pairs.skip(i as int + 1), key@);
                assert(pairs.take(i as int) + (seq![pairs[i as int]] + tail) =~= pairs.take(
                    i as int + 1,
                ) + tail);
            }
            i = i + 1;
        }
    }
    let mut rest: Vec<(String, Json)> = members;
    if found {
        let (_, json): (String, Json) = rest.remove(i);
        proof {
            assert(pairs.skip(i as int)[0] == pairs[i as int]);
            assert(pairs[i as int] == (members@[i as int].0@, members@[i as int].1@));
            assert(pairs.skip(i as int).skip(1) =~= pairs.skip(i as int + 1));
            assert(Json::Object(rest)@->Object_0 =~= pairs.take(i as int) + pairs.skip(
                i as int + 1,
            ));
        }
        (Some(json), rest)
    } else {
        proof {
            assert(pairs.skip(i as int) =~= Seq::<(Seq<char>, JsonView)>::empty());
            assert(pairs.take(i as int) + Seq::<(Seq<char>, JsonView)>::empty() =~= pairs);
        }
        (None, rest)
    }
}

/// The calls that some values stand for; `None` where one of them stands for none, or
/// where there are none.
pub fn values_to_tool_calls(values: Vec<Json>) -> (result: Option<Vec<Json>>)
    ensures
        match calls_in(json_views(values@)) {
            Some(calls) => if calls.len() > 0 {
                result matches Some(list) && json_views(list@) == calls
            } else {
                result is None
            },
            None => result is None,
        },
{
    let ghost all = json_views(values@);
    let ghost given = values@;
    let mut calls: Vec<Json> = Vec::new();
    assert(all.take(0) =~= Seq::<JsonView>::empty());
    assert(json_views(calls@) =~= Seq::<JsonView>::empty());
    for value in it: values.into_iter()
        invariant
            it.seq() == given,
            all == json_views(given),
            calls_in(all.take(it.index())) == Some(json_views(calls@)),
    {
        let ghost before = json_views(calls@);
        let ghost shown = value@;
        let ghost at = it.index();
        assert(shown == all[at]);
        assert(all.take(at + 1).drop_last() =~= all.take(at));
        assert(all.take(at + 1).last() == shown);
        match value {
            Json::Array(items) => {
                let ghost added = json_views(items@);
                assert(shown->Array_0 =~= added);
                let mut items: Vec<Json> = items;
                calls.append(&mut items);
                assert(json_views(calls@) =~= before + added);
            },
            Json::Object(members) => {
                let (found, rest) = take_member(members, "tool_calls");
                match found {
                    Some(Json::Array(items)) => {
                        let ghost added = json_views(items@);
                        assert(Json::Array(items)@->Array_0 =~= added);
                        let mut items: Vec<Json> = items;
                        calls.append(&mut items);
                        assert(json_views(calls@) =~= before + added);
                    },
                    _ => {
                        let object = Json::Object(rest);
                        let ghost added = object@;
                        calls.push(object);
                        assert(json_views(calls@) =~= before + seq![added]);
                    },
                }
            },
            _ => {
                proof {
                    lemma_not_calls(all, at + 1);
                }
                return None;
            },
        }
    }
    assert(all.take(given.len() as int) =~= all);
    assert(json_views(calls@).len() == calls@.len());
    if calls.len() == 0 {
        return None;
    }
    Some(calls)
}

/// The arguments of a call: as the text that carries them, or as they are.
pub enum ArgumentsView {
    Encoded(Seq<char>),
    Tree(JsonView),
}

/// A call before its arguments are encoded.
pub struct RawCallView {
    pub id: Option<Seq<char>>,
    pub name: Seq<char>,
    pub arguments: ArgumentsView,
}

/// The text of a member, if it has one.
pub open spec fn text_member(value: JsonView, key: Seq<char>) -> Option<Seq<char>> {
    match value.member(key) {
        Some(JsonView::Text(text)) => Some(text),
        _ => None,
    }
}

/// The value with the name and the arguments of a call.
pub open spec fn callee(value: JsonView) -> JsonView {
    match value.member("function"@) {
        Some(JsonView::Object(pairs)) => JsonView::Object(pairs),
        _ => value,
    }
}

/// The arguments of a call; an empty object where it gives none.
pub open spec fn arguments_of(call: JsonView) -> JsonView {
    match call.member("arguments"@) {
        Some(value) => value,
        None => match call.member("parameters"@) {
            Some(value) => value,
            None => JsonView::Object(Seq::empty()),
        },
    }
}

/// The call that a value stands for: an object with a name, and with arguments that
/// are a text, an object or a list. Name and arguments may stand in a member
/// `function`.
pub open spec fn raw_call(value: JsonView) -> Option<RawCallView> {
    if !(value is Object) {
        None
    } else {
        match text_member(callee(value), "name"@) {
            None => None,
            Some(name) => {
                let id = match text_member(value, "id"@) {
                    Some(id) => if id.len() > 0 {
                        Some(id)
                    } else {
                        None
                    },
                    None => None,
                };
                let arguments = arguments_of(callee(value));
                match arguments {
                    JsonView::Text(text) => Some(
                        RawCallView { id, name, arguments: ArgumentsView::Encoded(text) },
                    ),
                    JsonView::Array(_) => Some(
                        RawCallView { id, name, arguments: ArgumentsView::Tree(arguments) },
                    ),
                    JsonView::Object(_) => Some(
                        RawCallView { id, name, arguments: ArgumentsView::Tree(arguments) },
                    ),
                    _ => None,
                }
            },
        }
    }
}

/// The arguments of a call: as the text that carries them, or as they are.
#[derive(Debug, PartialEq, Eq)]
pub enum RawArguments {
    Encoded(String),
    Tree(Json),
}

/// A call before its arguments are encoded.
#[derive(Debug, PartialEq, Eq)]
pub struct RawCall {
    pub id: Option<String>,
    pub name: String,
    pub arguments: RawArguments,
}

impl RawCall {
    pub open spec fn view(&self) -> RawCallView {
        RawCallView {
            id: text_view(self.id),
            name: self.name@,
            arguments: match self.arguments {
                RawArguments::Encoded(text) => ArgumentsView::Encoded(text@),
                RawArguments::Tree(json) => ArgumentsView::Tree(json@),
            },
        }
    }
}

fn get_text(value: &Json, key: &str) -> (text: Option<String>)
    ensures
        text_view(text) == text_member(value@, key@),
{
    match value.get(key) {
        Some(member) => match member.as_text() {
            Some(text) => Some(text.clone()),
            None => None,
        },
        None => None,
    }
}

fn copy_arguments(call: &Json) -> (arguments: Json)
    ensures
        arguments@ == arguments_of(call@),
{
    match call.get("arguments") {
        Some(value) => value.copy(),
        None => match call.get("parameters") {
            Some(value) => value.copy(),
            None => {
                let none: Vec<(String, Json)> = Vec::new();
                assert(Json::Object(none)@->Object_0 =~= Seq::<(Seq<char>, JsonView)>::empty());
                Json::Object(none)
            },
        },
    }
}

/// The call that a value stands for.
pub fn raw_tool_call(value: &Json) -> (result: Option<RawCall>)
    ensures
        match result {
            Some(call) => raw_call(value@) == Some(call@),
            None => raw_call(value@) is None,
        },
{
    if !value.is_object() {
        return None;
    }
    let call: &Json = match value.get("function") {
        Some(function) => if function.is_object() {
            function
        } else {
            value
        },
        None => value,
    };
    assert(call@ == callee(value@));
    let name = match get_text(call, "name") {
        Some(name) => name,
        None => {
            return None;
        },
    };
    let id: Option<String> = match get_text(value, "id") {
        Some(id) => if chars_of(id.as_str()).len() > 0 {
            Some(id)
        } else {
            None
        },
        None => None,
    };
    let arguments = copy_arguments(call);
    match arguments {
        Json::Text(text) => Some(RawCall { id, name, arguments: RawArguments::Encoded(text) }),
        Json::Array(items) => Some(
            RawCall { id, name, arguments: RawArguments::Tree(Json::Array(items)) },
        ),
        Json::Object(members) => Some(
            RawCall { id, name, arguments: RawArguments::Tree(Json::Object(members)) },
        ),
        _ => None,
    }
}

/// A call as it is found in a text.
pub struct CallView {
    pub id: Option<Seq<char>>,
    pub name: Seq<char>,
    pub arguments: Seq<char>,
}

/// The call with its arguments as JSON text. A text that carries arguments has to be
/// JSON itself.
pub open spec fn encoded_call(call: RawCallView) -> Option<CallView> {
    match call.arguments {
        ArgumentsView::Encoded(text) => if parsed_json(text) is Some {
            Some(CallView { id: call.id, name: call.name, arguments: text })
        } else {
            None
        },
        ArgumentsView::Tree(tree) => Some(
            CallView { id: call.id, name: call.name, arguments: json_text(kept_json(tree)) },
        ),
    }
}

/// The call that a value stands for, with encoded arguments.
pub open spec fn normalized(value: JsonView) -> Option<CallView> {
    match raw_call(value) {
        Some(call) => encoded_call(call),
        None => None,
    }
}

/// A call as it is found in a text.
#[derive(Debug, Clone, PartialEq, Eq)]
pub struct FoundCall {
    pub id: Option<String>,
    pub name: String,
    pub arguments: String,
}

impl FoundCall {
    pub open spec fn view(&self) -> CallView {
        CallView { id: text_view(self.id), name: self.name@, arguments: self.arguments@ }
    }
}

/// The call that a value stands for, with encoded arguments.
pub fn normalize_tool_call(value: &Json) -> (result: Option<FoundCall>)
    ensures
        match result {
            Some(call) => normalized(value@) == Some(call@),
            None => normalized(value@) is None,
        },
{
    let call = match raw_tool_call(value) {
        Some(call) => call,
        None => {
            return None;
        },
    };
    let arguments = match call.arguments {
        RawArguments::Encoded(text) => {
            if parse_json(text.as_str()).is_none() {
                return None;
            }
            text
        },
        RawArguments::Tree(tree) => write_json(&tree),
    };
    Some(FoundCall { id: call.id, name: call.name, arguments })
}

/// The calls that some values stand for, each of which has to name one of the tools.
pub open spec fn allowed_calls(values: Seq<JsonView>, names: Seq<Seq<char>>) -> Option<
    Seq<CallView>,
>
    decreases values.len(),
{
    if values.len() == 0 {
        Some(Seq::empty())
    } else {
        match allowed_calls(values.drop_last(), names) {
            None => None,
            Some(front) => match normalized(values.last()) {
                None => None,
                Some(call) => if names.contains(call.name) {
                    Some(front.push(call))
                } else {
                    None
                },
            },
        }
    }
}

proof fn lemma_refused(values: Seq<JsonView>, names: Seq<Seq<char>>, n: int)
    requires
        0 <= n <= values.len(),
        allowed_calls(values.take(n), names) is None,
    ensures
        allowed_calls(values, names) is None,
    decreases values.len(),
{
    if n == values.len() {
        assert(values.take(n) =~= values);
    } else {
        assert(values.drop_last().take(n) =~= values.take(n));
        lemma_refused(values.drop_last(), names, n);
    }
}

/// What some calls hold.
pub open spec fn call_views(list: Seq<FoundCall>) -> Seq<CallView> {
    Seq::new(list.len(), |i: int| list[i]@)
}

/// The names of the tools.
pub open spec fn tool_names(tools: Seq<ChatCompletionTool>) -> Seq<Seq<char>> {
    Seq::new(tools.len(), |i: int| tools[i].function.name@)
}

fn names_tool(tools: &[ChatCompletionTool], name: &str) -> (r: bool)
    ensures
        r == tool_names(tools@).contains(name@),
{
    let mut i: usize = 0;
    while i < tools.len()
        invariant
            i <= tools@.len(),
            forall|j: int| 0 <= j < i ==> #[trigger] tool_names(tools@)[j] != name@,
        decreases tools@.len() - i,
    {
        assert(tool_names(tools@)[i as int] == tools@[i as int].function.name@);
        if text_eq(tools[i].function.name.as_str(), name) {
            return true;
        }
        i = i + 1;
    }
    false
}

fn find_allowed(values: &Vec<Json>, tools: &[ChatCompletionTool]) -> (result: Option<
    Vec<FoundCall>,
>)
    ensures
        match result {
            Some(calls) => allowed_calls(json_views(values@), tool_names(tools@)) == Some(
                call_views(calls@),
            ),
            None => allowed_calls(json_views(values@), tool_names(tools@)) is None,
        },
{
    let ghost all = json_views(values@);
    let ghost names = tool_names(tools@);
    let mut calls: Vec<FoundCall> = Vec::new();
    let mut i: usize = 0;
    assert(all.take(0) =~= Seq::<JsonView>::empty());
    assert(call_views(calls@) =~= Seq::<CallView>::empty());
    while i < values.len()
        invariant
            i <= values@.len(),
            all == json_views(values@),
            names == tool_names(tools@),
            allowed_calls(all.take(i as int), names) == Some(call_views(calls@)),
        decreases values@.len() - i,
    {
        let ghost before = call_views(calls@);
        assert(all.take(i as int + 1).drop_last() =~= all.take(i as int));
        assert(all.take(i as int + 1).last() == values@[i as int]@);
        let call = match normalize_tool_call(&values[i]) {
            Some(call) => call,
            None => {
                proof {
                    lemma_refused(all, names, i as int + 1);
                }
                return None;
            },
        };
        if !names_tool(tools, call.name.as_str()) {
            proof {
                lemma_refused(all, names, i as int + 1);
            }
            return None;
        }
        let ghost added = call@;
        calls.push(call);
        assert(call_views(calls@) =~= before.push(added));
        i = i + 1;
    }
    assert(all.take(i as int) =~= all);
    Some(calls)
}

/// What is found in a model's text: its content, and its calls if it has any.
#[verifier::ext_equal]
pub struct OutputView {
    pub content: Option<Seq<char>>,
    pub calls: Option<Seq<CallView>>,
}

/// The text as plain content.
pub open spec fn plain(text: Seq<char>) -> OutputView {
    OutputView { content: Some(text), calls: None }
}

/// What some values, found in the text beside the content, come to.
pub open spec fn output_of(
    text: Seq<char>,
    content: Option<Seq<char>>,
    values: Seq<JsonView>,
    names: Seq<Seq<char>>,
) -> OutputView {
    match calls_in(values) {
        None => plain(text),
        Some(raw) => match allowed_calls(raw, names) {
            None => plain(text),
            Some(calls) => if calls.len() == 0 {
                plain(text)
            } else {
                OutputView { content, calls: Some(calls) }
            },
        },
    }
}

/// What is found in a model's text. Without tools, and where the text is not made of
/// calls to them, it is plain content.
pub open spec fn extracted(text: Seq<char>, names: Seq<Seq<char>>) -> OutputView {
    if names.len() == 0 {
        plain(text)
    } else {
        match sections(text) {
            None => plain(text),
            Some(found) => match body_values(found.bodies) {
                None => plain(text),
                Some(values) => output_of(text, found.content, values, names),
            },
        }
    }
}

/// The values that the parts of a text with calls hold.
pub open spec fn values_in(text: Seq<char>) -> Option<Seq<JsonView>> {
    match sections(text) {
        None => None,
        Some(found) => body_values(found.bodies),
    }
}

/// The call in the protocol's shape. One that came without an id has a random one.
pub open spec fn shaped(call: ToolCall, view: CallView) -> bool {
    &&& call.tool_type@ == "function"@
    &&& call.function.name@ == view.name
    &&& call.function.arguments@ == view.arguments
    &&& match view.id {
        Some(id) => call.id@ == id,
        None => random_id(call.id@, "call_"@),
    }
}

/// The calls in the protocol's shape.
pub open spec fn all_shaped(calls: Option<Vec<ToolCall>>, views: Option<Seq<CallView>>) -> bool {
    match (calls, views) {
        (Some(calls), Some(views)) => {
            &&& calls@.len() == views.len()
            &&& forall|i: int| 0 <= i < views.len() ==> shaped(#[trigger] calls@[i], views[i])
        },
        (None, None) => true,
        _ => false,
    }
}

/// The output in the protocol's shape.
pub open spec fn shows(output: ParsedChatOutput, view: OutputView) -> bool {
    text_view(output.content) == view.content && all_shaped(output.tool_calls, view.calls)
}

fn shape_calls(found: Vec<FoundCall>) -> (calls: Vec<ToolCall>)
    ensures
        calls@.len() == found@.len(),
        forall|i: int| 0 <= i < calls@.len() ==> shaped(#[trigger] calls@[i], found@[i]@),
{
    let mut calls: Vec<ToolCall> = Vec::new();
    let ghost given = found@;
    for call in it: found.into_iter()
        invariant
            it.seq() == given,
            calls@.len() == it.index(),
            forall|i: int| 0 <= i < calls@.len() ==> shaped(#[trigger] calls@[i], given[i]@),
    {
        assert(call == given[it.index()]);
        let id = match call.id {
            Some(id) => id,
            None => generate_tool_call_id(),
        };
        calls.push(
            ToolCall {
                id,
                tool_type: "function".to_owned(),
                function: FunctionCall { name: call.name, arguments: call.arguments },
            },
        );
    }
    calls
}

/// What some values, found in the text beside the content, come to.
pub fn output_from_values(
    text: &str,
    content: Option<String>,
    values: Vec<Json>,
    tools: &[ChatCompletionTool],
) -> (output: ParsedChatOutput)
    ensures
        shows(
            output,
            output_of(text@, text_view(content), json_views(values@), tool_names(tools@)),
        ),
{
    let raw = match values_to_tool_calls(values) {
        Some(raw) => raw,
        None => {
            proof {
                if calls_in(json_views(values@)) is Some {
                    assert(calls_in(json_views(values@))->0 =~= Seq::<JsonView>::empty());
                }
            }
            return ParsedChatOutput { content: Some(text.to_owned()), tool_calls: None };
        },
    };
    match find_allowed(&raw, tools) {
        Some(found) => {
            let ghost views = call_views(found@);
            assert(views.len() == found@.len());
            if found.len() == 0 {
                return ParsedChatOutput { content: Some(text.to_owned()), tool_calls: None };
            }
            let calls = shape_calls(found);
            assert forall|i: int| 0 <= i < views.len() implies shaped(
                #[trigger] calls@[i],
                views[i],
            ) by {
                assert(views[i] == found@[i]@);
            }
            ParsedChatOutput { content, tool_calls: Some(calls) }
        },
        None => ParsedChatOutput { content: Some(text.to_owned()), tool_calls: None },
    }
}

/// Find the calls in a model's text. Only calls to the given tools count: a text with
/// anything else is plain content, so that an ordinary JSON answer is not mistaken for
/// a call.
pub fn parse_chat_output(text: &str, tools: Option<&[ChatCompletionTool]>) -> (output:
    ParsedChatOutput)
    ensures
        shows(
            output,
            extracted(
                text@,
                match tools {
                    Some(list) => tool_names(list@),
                    None => Seq::empty(),
                },
            ),
        ),
        output.tool_calls is Some ==> values_in(text@) is Some && all_kept(values_in(text@)->0),
{
    let list: &[ChatCompletionTool] = match tools {
        Some(list) => list,
        None => {
            return ParsedChatOutput { content: Some(text.to_owned()), tool_calls: None };
        },
    };
    assert(tool_names(list@).len() == list@.len());
    if list.len() == 0 {
        return ParsedChatOutput { content: Some(text.to_owned()), tool_calls: None };
    }
    let found = match tool_call_sections(text) {
        Some(found) => found,
        None => {
            return ParsedChatOutput { content: Some(text.to_owned()), tool_calls: None };
        },
    };
    match tool_call_json_values(&found.bodies) {
        Some(values) => output_from_values(text, found.content, values, list),
        None => ParsedChatOutput { content: Some(text.to_owned()), tool_calls: None },
    }
}

/// Without tools every text is plain content.
pub proof fn lemma_no_tools(text: Seq<char>)
    ensures
        extracted(text, Seq::empty()) == plain(text),
{
}

/// A text with calls has at least one; every call names one of the tools.
pub proof fn lemma_only_given_tools(text: Seq<char>, names: Seq<Seq<char>>)
    requires
        extracted(text, names).calls is Some,
    ensures
        extracted(text, names).calls->0.len() > 0,
        forall|i: int|
            0 <= i < extracted(text, names).calls->0.len() ==> names.contains(
                (#[trigger] extracted(text, names).calls->0[i]).name,
            ),
{
    let found = sections(text)->0;
    let raw = calls_in(body_values(found.bodies)->0)->0;
    lemma_allowed(raw, names);
}

proof fn lemma_allowed(values: Seq<JsonView>, names: Seq<Seq<char>>)
    requires
        allowed_calls(values, names) is Some,
    ensures
        allowed_calls(values, names)->0.len() == values.len(),
        forall|i: int|
            0 <= i < values.len() ==> names.contains(
                (#[trigger] allowed_calls(values, names)->0[i]).name,
            ),
    decreases values.len(),
{
    if values.len() > 0 {
        lemma_allowed(values.drop_last(), names);
    }
}

/// A text without calls is kept whole.
pub proof fn lemma_content_kept(text: Seq<char>, names: Seq<Seq<char>>)
    requires
        extracted(text, names).calls is None,
    ensures
        extracted(text, names).content == Some(text),
{
}

/// Members without one of them are still kept as they are.
proof fn lemma_kept_without(pairs: Seq<(Seq<char>, JsonView)>, key: Seq<char>)
    requires
        kept_json(JsonView::Object(pairs)) == JsonView::Object(pairs),
    ensures
        kept_json(JsonView::Object(without_member(pairs, key))) == JsonView::Object(
            without_member(pairs, key),
        ),
{
    let rest = without_member(pairs, key);
    lemma_kept_members(pairs);
    let at = lemma_subsequence(pairs, key);
    assert(in_key_order(rest)) by {
        assert forall|i: int, j: int| 0 <= i < j < rest.len() implies text_before(
            (#[trigger] rest[i]).0,
            (#[trigger] rest[j]).0,
        ) by {
            let a = if i < at {
                i
            } else {
                i + 1
            };
            let b = if j < at {
                j
            } else {
                j + 1
            };
            assert(rest[i] == pairs[a] && rest[j] == pairs[b]);
        }
    }
    assert forall|i: int| 0 <= i < rest.len() implies kept_json((#[trigger] rest[i]).1)
        == rest[i].1 by {
        let a = if i < at {
            i
        } else {
            i + 1
        };
        assert(rest[i] == pairs[a]);
    }
    lemma_kept_members(rest);
}

/// What is left stands in the same order: everything before and after one place, or all.
proof fn lemma_subsequence(pairs: Seq<(Seq<char>, JsonView)>, key: Seq<char>) -> (at: int)
    ensures
        0 <= at <= pairs.len(),
        without_member(pairs, key) == if at < pairs.len() {
            pairs.remove(at)
        } else {
            pairs
        },
    decreases pairs.len(),
{
    if pairs.len() == 0 {
        0
    } else if pairs[0].0 == key {
        assert(pairs.remove(0) =~= pairs.skip(1));
        0
    } else {
        let rest = pairs.skip(1);
        let at = lemma_subsequence(rest, key);
        if at < rest.len() {
            assert(seq![pairs[0]] + rest.remove(at) =~= pairs.remove(at + 1));
        } else {
            assert(seq![pairs[0]] + rest =~= pairs);
        }
        at + 1
    }
}

/// The calls of values that are kept as they are are kept too.
proof fn lemma_kept_calls(values: Seq<JsonView>)
    requires
        all_kept(values),
        calls_in(values) is Some,
    ensures
        all_kept(calls_in(values)->0),
    decreases values.len(),
{
    if values.len() > 0 {
        let front = values.drop_last();
        assert(all_kept(front)) by {
            assert forall|i: int| 0 <= i < front.len() implies kept_json(#[trigger] front[i])
                == front[i] by {
                assert(values[i] == front[i]);
            }
        }
        lemma_kept_calls(front);
        let value = values.last();
        assert(kept_json(values[values.len() - 1]) == value);
        match value {
            JsonView::Array(items) => {
                lemma_kept_items(items);
            },
            JsonView::Object(pairs) => {
                if first_member(pairs, "tool_calls"@) is Some {
                    lemma_kept_member(value, "tool_calls"@);
                    if let JsonView::Array(items) = first_member(pairs, "tool_calls"@)->0 {
                        lemma_kept_items(items);
                    }
                }
                lemma_kept_without(pairs, "tool_calls"@);
            },
            _ => {},
        }
        let added = calls_of(value)->0;
        assert(all_kept(added));
        let all = calls_in(front)->0 + added;
        assert forall|i: int| 0 <= i < all.len() implies kept_json(#[trigger] all[i]) == all[i] by {
            if i < calls_in(front)->0.len() {
                assert(all[i] == calls_in(front)->0[i]);
            } else {
                assert(all[i] == added[i - calls_in(front)->0.len()]);
            }
        }
    }
}

proof fn lemma_each_normalized(values: Seq<JsonView>, names: Seq<Seq<char>>, i: int)
    requires
        allowed_calls(values, names) is Some,
        0 <= i < values.len(),
    ensures
        allowed_calls(values, names)->0.len() == values.len(),
        normalized(values[i]) == Some(allowed_calls(values, names)->0[i]),
    decreases values.len(),
{
    lemma_allowed(values, names);
    if i < values.len() - 1 {
        lemma_each_normalized(values.drop_last(), names, i);
        lemma_allowed(values.drop_last(), names);
    } else {
        lemma_allowed(values.drop_last(), names);
    }
}

/// Arguments that a model writes as a value are passed on as that value, unchanged: the
/// text of the arguments is the text of the value. What is read from a text is kept as
/// it is.
pub proof fn lemma_arguments_unchanged(text: Seq<char>, names: Seq<Seq<char>>, i: int)
    requires
        extracted(text, names).calls is Some,
        0 <= i < extracted(text, names).calls->0.len(),
        values_in(text) is Some,
        all_kept(values_in(text)->0),
    ensures
        ({
            let raw = calls_in(values_in(text)->0)->0;
            &&& i < raw.len()
            &&& raw_call(raw[i]) is Some
            &&& match raw_call(raw[i])->0.arguments {
                ArgumentsView::Encoded(given) => extracted(text, names).calls->0[i].arguments
                    == given,
                ArgumentsView::Tree(tree) => extracted(text, names).calls->0[i].arguments
                    == json_text(tree),
            }
        }),
{
    let values = values_in(text)->0;
    let raw = calls_in(values)->0;
    lemma_kept_calls(values);
    lemma_allowed(raw, names);
    lemma_each_normalized(raw, names, i);
    let value = raw[i];
    assert(kept_json(value) == value);
    let call = callee(value);
    if value.member("function"@) is Some {
        lemma_kept_member(value, "function"@);
    }
    assert(kept_json(call) == call);
    let arguments = arguments_of(call);
    if call.member("arguments"@) is Some {
        lemma_kept_member(call, "arguments"@);
    } else if call.member("parameters"@) is Some {
        lemma_kept_member(call, "parameters"@);
    } else {
        lemma_kept_members(Seq::empty());
    }
    assert(kept_json(arguments) == arguments);
}

proof fn lemma_tagged_in_rest(s: Seq<char>, from: int)
    requires
        0 <= from <= s.len(),
    ensures
        tagged(s, from) == tagged(s.skip(from), 0),
    decreases s.len() - from,
{
    let rest = s.skip(from);
    let open = "<tool_call>"@;
    let close = "</tool_call>"@;
    reveal_strlit("<tool_call>");
    reveal_strlit("</tool_call>");
    lemma_find_in_rest(s, open, from, 0);
    assert(rest.skip(0) =~= rest);
    match find_from(rest, open, 0) {
        None => {},
        Some(start) => {
            lemma_found(rest, open, 0);
            let body = start + open.len();
            lemma_find_in_rest(s, close, from, body);
            match find_from(rest, close, body) {
                None => {},
                Some(end) => {
                    lemma_found(rest, close, body);
                    let next = end + close.len();
                    lemma_tagged_in_rest(s, from + next);
                    lemma_tagged_in_rest(rest, next);
                    assert(s.skip(from + next) =~= rest.skip(next));
                    assert(s.subrange(from + body, from + end) =~= rest.subrange(body, end));
                    assert(s.subrange(from, from + start) =~= rest.subrange(0, start));
                },
            }
        },
    }
}

/// What stands between a pair of tags is the body of a call, and what stands around it is
/// kept; the rest of the text is read in the same way.
pub proof fn lemma_tagged_call(before: Seq<char>, body: Seq<char>, rest: Seq<char>)
    requires
        find_from(before + "<tool_call>"@, "<tool_call>"@, 0) == Some(before.len() as int),
        find_from(body + "</tool_call>"@, "</tool_call>"@, 0) == Some(body.len() as int),
    ensures
        ({
            let text = before + "<tool_call>"@ + body + "</tool_call>"@ + rest;
            &&& tagged(rest, 0) is None ==> tagged(text, 0) is None
            &&& tagged(rest, 0) is Some ==> {
                &&& tagged(text, 0) is Some
                &&& tagged(text, 0)->0.bodies == seq![body] + tagged(rest, 0)->0.bodies
                &&& tagged(text, 0)->0.remaining == before + tagged(rest, 0)->0.remaining
            }
        }),
{
    let open = "<tool_call>"@;
    let close = "</tool_call>"@;
    reveal_strlit("<tool_call>");
    reveal_strlit("</tool_call>");
    let text = before + open + body + close + rest;
    lemma_find_at_end(before, open, body + close + rest);
    assert(before + open + (body + close + rest) =~= text);
    let at = before.len() + open.len();
    lemma_find_at_end(body, close, rest);
    assert(text.skip(at as int) =~= body + close + rest);
    lemma_find_in_rest(text, close, at as int, 0);
    let end = at + body.len();
    let next = (end + close.len()) as int;
    lemma_tagged_in_rest(text, next);
    assert(text.skip(next) =~= rest);
    assert(text.subrange(at as int, end as int) =~= body);
    assert(text.subrange(0, before.len() as int) =~= before);
}

/// A text without an opening tag has no bodies, and is all kept. One whose opening tag is
/// not closed is not read at all.
pub proof fn lemma_untagged(text: Seq<char>)
    requires
        find_from(text, "<tool_call>"@, 0) is None,
    ensures
        tagged(text, 0) is Some,
        tagged(text, 0)->0.bodies.len() == 0,
        tagged(text, 0)->0.remaining == text,
{
    assert(text.skip(0) =~= text);
}

/// Behind a Python tag stands the call, and before it the content.
pub proof fn lemma_python_tag(before: Seq<char>, body: Seq<char>)
    requires
        find_from(before + "<|python_tag|>"@ + body, "<tool_call>"@, 0) is None,
        find_from(before + "<|python_tag|>"@, "<|python_tag|>"@, 0) == Some(before.len() as int),
    ensures
        ({
            let found = sections(before + "<|python_tag|>"@ + body);
            &&& found is Some
            &&& found->0.bodies == seq![body]
            &&& found->0.content == (if trimmed(before).len() > 0 {
                Some(trimmed(before))
            } else {
                None
            })
        }),
{
    let tag = "<|python_tag|>"@;
    let text = before + tag + body;
    lemma_find_at_end(before, tag, body);
    assert(text.skip((before.len() + tag.len()) as int) =~= body);
    assert(text.take(before.len() as int) =~= before);
}

/// A fence around the text is taken off, with the white space inside it.
pub proof fn lemma_fence(body: Seq<char>)
    ensures
        without_fence("```json"@ + body + "```"@) == trimmed(body),
        !starts_with(body + "```"@, "json"@) ==> without_fence("```"@ + body + "```"@) == trimmed(
            body,
        ),
        !starts_with(body, "```"@) ==> without_fence(body) == body,
{
    reveal_strlit("```json");
    reveal_strlit("```");
    reveal_strlit("json");
    let named = "```json"@ + body + "```"@;
    assert(named.take(7) =~= "```json"@);
    assert(named.skip(7) =~= body + "```"@);
    let fenced = body + "```"@;
    assert(fenced.skip(body.len() as int) =~= "```"@);
    assert(fenced.take(body.len() as int) =~= body);
    let short = "```"@ + body + "```"@;
    assert(short.take(3) =~= "```"@);
    assert(short.skip(3) =~= fenced);
    if starts_with(short, "```json"@) {
        assert(fenced.take(4) =~= "json"@) by {
            assert forall|i: int| 0 <= i < 4 implies fenced.take(4)[i] == "json"@[i] by {
                assert(short.take(7)[i + 3] == "```json"@[i + 3]);
            }
        }
    }
    if starts_with(body, "```json"@) {
        assert(body.take(3) =~= "```"@) by {
            assert forall|i: int| 0 <= i < 3 implies body.take(3)[i] == "```"@[i] by {
                assert(body.take(7)[i] == "```json"@[i]);
            }
        }
    }
}

/// A call is the same whether its name and arguments stand in the object itself or in a
/// member for the function.
pub proof fn lemma_nested_call(pairs: Seq<(Seq<char>, JsonView)>)
    requires
        first_member(pairs, "function"@) is None,
        first_member(pairs, "id"@) is None,
    ensures
        raw_call(JsonView::Object(seq![("function"@, JsonView::Object(pairs))])) == raw_call(
            JsonView::Object(pairs),
        ),
{
    reveal_strlit("function");
    reveal_strlit("id");
    let outer = seq![("function"@, JsonView::Object(pairs))];
    assert("function"@.len() != "id"@.len());
    reveal_with_fuel(first_member, 2);
    assert(outer.skip(1) =~= Seq::<(Seq<char>, JsonView)>::empty());
}

/// The arguments of a call are those under their own name, or else the parameters, or else
/// none; they are an object, a list, or encoded as text.
pub proof fn lemma_call_arguments(call: JsonView)
    ensures
        call.member("arguments"@) is Some ==> arguments_of(call) == call.member("arguments"@)->0,
        call.member("arguments"@) is None && call.member("parameters"@) is Some ==> arguments_of(
            call,
        ) == call.member("parameters"@)->0,
        call.member("arguments"@) is None && call.member("parameters"@) is None ==> arguments_of(
            call,
        ) == JsonView::Object(Seq::empty()),
        raw_call(call) is Some ==> match raw_call(call)->0.arguments {
            ArgumentsView::Encoded(text) => arguments_of(callee(call)) == JsonView::Text(text),
            ArgumentsView::Tree(tree) => arguments_of(callee(call)) == tree && (tree is Object
                || tree is Array),
        },
        raw_call(call) is Some ==> callee(call).member("name"@) == Some(
            JsonView::Text(raw_call(call)->0.name),
        ),
{
}

/// The calls of several values are those of each, one after the other. A list gives its
/// items, an object that lists calls those that it lists, and any other object itself.
pub proof fn lemma_calls_in(a: Seq<JsonView>, b: Seq<JsonView>, items: Seq<JsonView>)
    requires
        calls_in(a) is Some,
        calls_in(b) is Some,
    ensures
        calls_in(a + b) is Some,
        calls_in(a + b)->0 == calls_in(a)->0 + calls_in(b)->0,
        calls_of(JsonView::Array(items)) == Some(items),
        calls_of(JsonView::Object(seq![("tool_calls"@, JsonView::Array(items))])) == Some(items),
    decreases b.len(),
{
    if b.len() == 0 {
        assert(a + b =~= a);
        assert(calls_in(a)->0 + Seq::<JsonView>::empty() =~= calls_in(a)->0);
    } else {
        assert(calls_in(b.drop_last()) is Some);
        lemma_calls_in(a, b.drop_last(), items);
        assert((a + b).drop_last() =~= a + b.drop_last());
        assert(calls_in(a + b)->0 =~= calls_in(a)->0 + calls_in(b)->0);
    }
}

/// An object that lists no calls is a call itself.
pub proof fn lemma_single_call(pairs: Seq<(Seq<char>, JsonView)>)
    requires
        first_member(pairs, "tool_calls"@) is None,
    ensures
        calls_of(JsonView::Object(pairs)) == Some(seq![JsonView::Object(pairs)]),
{
    lemma_without_absent(pairs, "tool_calls"@);
}

proof fn lemma_without_absent(pairs: Seq<(Seq<char>, JsonView)>, key: Seq<char>)
    requires
        first_member(pairs, key) is None,
    ensures
        without_member(pairs, key) == pairs,
    decreases pairs.len(),
{
    if pairs.len() > 0 {
        lemma_without_absent(pairs.skip(1), key);
        assert(seq![pairs[0]] + pairs.skip(1) =~= pairs);
    }
}

/// Each call that is found is one that the text names, in the order of the text, and none is
/// found where one of them names no tool that is given.
pub proof fn lemma_all_or_none(values: Seq<JsonView>, names: Seq<Seq<char>>, i: int)
    requires
        0 <= i < values.len(),
        normalized(values[i]) is None || !names.contains(normalized(values[i])->0.name),
    ensures
        allowed_calls(values, names) is None,
{
    let some = values.take(i + 1);
    assert(some.drop_last() =~= values.take(i));
    assert(allowed_calls(some, names) is None);
    lemma_refused(values, names, i + 1);
}

} // verus!
