use vstd::prelude::*;

use crate::text::{
    chars_of, lemma_text_order, lemma_text_order_transitive, text_before, text_eq,
};

verus! {

/// A JSON value. A number that is no integer of 64 bits is held by its decimal
/// text. The members of an object stand in the order in which the parser gives
/// them.
#[derive(Debug, PartialEq, Eq)]
pub enum Json {
    Null,
    Bool(bool),
    Unsigned(u64),
    Negative(i64),
    Decimal(String),
    Text(String),
    Array(Vec<Json>),
    Object(Vec<(String, Json)>),
}

/// A JSON value as a mathematical value.
pub enum JsonView {
    Null,
    Bool(bool),
    Unsigned(u64),
    Negative(i64),
    Decimal(Seq<char>),
    Text(Seq<char>),
    Array(Seq<JsonView>),
    Object(Seq<(Seq<char>, JsonView)>),
}

/// `serde_json::Value`, a parsed JSON value.
#[verifier::external_type_specification]
#[verifier::external_body]
pub struct ExValue(serde_json::Value);

/// The tree that a parsed value holds.
pub uninterp spec fn value_view(value: serde_json::Value) -> JsonView;

/// Where a text stands between its values: outside of strings behind some digits, in a
/// string, or in one behind a backslash.
pub enum Place {
    Outside { digits: nat },
    InString,
    Escaped,
}

/// The place behind the first `n` characters of a text.
pub open spec fn place_at(text: Seq<char>, n: int) -> Place
    decreases n,
{
    if n <= 0 {
        Place::Outside { digits: 0 }
    } else {
        let c = text[n - 1];
        match place_at(text, n - 1) {
            Place::Outside { digits } => if c == '"' {
                Place::InString
            } else if '0' <= c <= '9' {
                Place::Outside { digits: digits + 1 }
            } else {
                Place::Outside { digits: 0 }
            },
            Place::InString => if c == '\\' {
                Place::Escaped
            } else if c == '"' {
                Place::Outside { digits: 0 }
            } else {
                Place::InString
            },
            Place::Escaped => Place::InString,
        }
    }
}

/// No number of a text has so many digits in a row that 31 bits cannot count them.
pub open spec fn short_numbers(text: Seq<char>) -> bool {
    forall|n: int|
        0 <= n <= text.len() ==> (#[trigger] place_at(text, n) matches Place::Outside { digits }
            ==> digits < i32::MAX)
}

/// Whether no number of a text has too many digits.
pub fn has_short_numbers(text: &str) -> (short: bool)
    ensures
        short == short_numbers(text@),
{
    let chars = chars_of(text);
    let mut in_string = false;
    let mut escaped = false;
    let mut digits: i32 = 0;
    let mut i: usize = 0;
    while i < chars.len()
        invariant
            i <= chars@.len(),
            chars@ == text@,
            0 <= digits < i32::MAX,
            place_at(text@, i as int) == if escaped {
                Place::Escaped
            } else if in_string {
                Place::InString
            } else {
                Place::Outside { digits: digits as nat }
            },
            forall|n: int|
                0 <= n <= i ==> (#[trigger] place_at(text@, n) matches Place::Outside { digits }
                    ==> digits < i32::MAX),
        decreases chars@.len() - i,
    {
        let c: char = chars[i];
        if escaped {
            escaped = false;
            in_string = true;
        } else if in_string {
            if c == '\\' {
                escaped = true;
            } else if c == '"' {
                in_string = false;
                digits = 0;
            }
        } else if c == '"' {
            in_string = true;
        } else if '0' <= c && c <= '9' {
            digits = digits + 1;
        } else {
            digits = 0;
        }
        i = i + 1;
        if digits == i32::MAX {
            assert(place_at(text@, i as int) is Outside);
            return false;
        }
    }
    true
}

/// What a JSON text with short numbers is read as: the tree that it stands for, or the
/// words in which it is refused.
pub uninterp spec fn value_reading(text: Seq<char>) -> Result<JsonView, Seq<char>>;

/// The tree that a JSON text stands for, or the words in which it is refused.
pub open spec fn json_reading(text: Seq<char>) -> Result<JsonView, Seq<char>> {
    if short_numbers(text) {
        value_reading(text)
    } else {
        Err("number has too many digits"@)
    }
}

/// The tree that a JSON text stands for, if it is one.
pub open spec fn parsed_json(text: Seq<char>) -> Option<JsonView> {
    match json_reading(text) {
        Ok(tree) => Some(tree),
        Err(_) => None,
    }
}

/// What a parsed value keeps of the text of a decimal number.
pub uninterp spec fn kept_decimal(text: Seq<char>) -> JsonView;

/// The members with one more, in the order of their keys. One with the same key goes.
pub open spec fn placed_member(
    pairs: Seq<(Seq<char>, JsonView)>,
    pair: (Seq<char>, JsonView),
) -> Seq<(Seq<char>, JsonView)>
    decreases pairs.len(),
{
    if pairs.len() == 0 {
        seq![pair]
    } else if pairs.last().0 == pair.0 {
        pairs.drop_last().push(pair)
    } else if text_before(pair.0, pairs.last().0) {
        placed_member(pairs.drop_last(), pair).push(pairs.last())
    } else {
        pairs.push(pair)
    }
}

/// The members in the order of their keys, the last of equal keys.
pub open spec fn by_key(pairs: Seq<(Seq<char>, JsonView)>) -> Seq<(Seq<char>, JsonView)>
    decreases pairs.len(),
{
    if pairs.len() == 0 {
        pairs
    } else {
        placed_member(by_key(pairs.drop_last()), pairs.last())
    }
}

/// What a parsed value keeps of a tree: object members in key order, the last of equal
/// keys, and of the text of a decimal number what that number is.
pub open spec fn kept_json(tree: JsonView) -> JsonView
    decreases tree,
{
    match tree {
        JsonView::Negative(n) => if n >= 0 {
            JsonView::Unsigned(n as u64)
        } else {
            tree
        },
        JsonView::Decimal(text) => kept_decimal(text),
        JsonView::Array(items) => JsonView::Array(
            Seq::new(
                items.len(),
                |i: int|
                    if 0 <= i < items.len() {
                        kept_json(items[i])
                    } else {
                        JsonView::Null
                    },
            ),
        ),
        JsonView::Object(pairs) => JsonView::Object(by_key(kept_values(pairs))),
        _ => tree,
    }
}

/// The members with what is kept of their values.
pub open spec fn kept_values(pairs: Seq<(Seq<char>, JsonView)>) -> Seq<(Seq<char>, JsonView)>
    decreases pairs,
{
    Seq::new(
        pairs.len(),
        |i: int|
            if 0 <= i < pairs.len() {
                (pairs[i].0, kept_json(pairs[i].1))
            } else {
                (Seq::empty(), JsonView::Null)
            },
    )
}

/// The compact JSON text of a tree.
pub uninterp spec fn json_text(tree: JsonView) -> Seq<char>;

/// `serde_json::from_str`: the value of a JSON text, or the words of the error where
/// the text is no JSON. Which is which, and what comes out, is left to the name. The
/// digits of a number are counted in 31 bits there.
#[verifier::external_body]
fn read_value(text: &str) -> (result: Result<serde_json::Value, String>)
    requires
        short_numbers(text@),
    ensures
        match result {
            Ok(value) => value_reading(text@) == Ok::<JsonView, Seq<char>>(value_view(value)),
            Err(words) => value_reading(text@) == Err::<JsonView, Seq<char>>(words@),
        },
{
    serde_json::from_str(text).map_err(|error: serde_json::Error| error.to_string())
}

/// The trees that the JSON values of a text with short numbers stand for, if it is made
/// of such values.
pub uninterp spec fn value_readings(text: Seq<char>) -> Option<Seq<JsonView>>;

/// The trees that the JSON values of a text stand for, if it is made of such
/// values.
pub open spec fn parsed_json_values(text: Seq<char>) -> Option<Seq<JsonView>> {
    if short_numbers(text) {
        value_readings(text)
    } else {
        None
    }
}

/// `serde_json::Deserializer::from_str`, read to its end: the values that stand one
/// after the other in a text, or nothing where one of them is no JSON. Which is
/// which, and what trees come out, is left to the name. The digits of a number are
/// counted in 31 bits there.
#[verifier::external_body]
fn read_values(text: &str) -> (result: Option<Vec<serde_json::Value>>)
    requires
        short_numbers(text@),
    ensures
        match result {
            Some(values) => value_readings(text@) == Some(
                Seq::new(values@.len(), |i: int| value_view(values@[i])),
            ),
            None => value_readings(text@) is None,
        },
{
    let values = serde_json::Deserializer::from_str(text).into_iter::<serde_json::Value>();
    values.collect::<Result<Vec<_>, _>>().ok()
}

/// Converts a `serde_json::Value` member by member. What comes out can go back into
/// one unchanged: a `serde_json::Map` has its members in key order and each key once, a
/// number that is an unsigned integer is given as one, and the text of any other number
/// stands for that number.
#[verifier::external_body]
fn json_of(value: serde_json::Value) -> (json: Json)
    ensures
        json@ == value_view(value),
        kept_json(json@) == json@,
{
    match value {
        serde_json::Value::Null => Json::Null,
        serde_json::Value::Bool(b) => Json::Bool(b),
        serde_json::Value::Number(n) => match (n.as_u64(), n.as_i64()) {
            (Some(u), _) => Json::Unsigned(u),
            (None, Some(i)) => Json::Negative(i),
            (None, None) => Json::Decimal(n.to_string()),
        },
        serde_json::Value::String(s) => Json::Text(s),
        serde_json::Value::Array(items) => Json::Array(items.into_iter().map(json_of).collect()),
        serde_json::Value::Object(members) => Json::Object(
            members.into_iter().map(|(key, item)| (key, json_of(item))).collect()),
    }
}

/// `serde_json::Number::from_f64` on a decimal text: the number that the text stands
/// for, or null where it stands for none. Which is which is left to the name.
#[verifier::external_body]
fn decimal_value(text: &String) -> (value: serde_json::Value)
    ensures
        value_view(value) == kept_decimal(text@),
{
    text.parse().ok().and_then(serde_json::Number::from_f64).into()
}

/// Converts a tree to a `serde_json::Value` member by member. A `serde_json::Map` puts
/// its members in key order and keeps the last of equal keys.
#[verifier::external_body]
fn value_of(json: &Json) -> (value: serde_json::Value)
    ensures
        value_view(value) == kept_json(json@),
{
    match json {
        Json::Null => serde_json::Value::Null,
        Json::Bool(b) => serde_json::Value::from(*b),
        Json::Unsigned(u) => serde_json::Value::from(*u),
        Json::Negative(i) => serde_json::Value::from(*i),
        Json::Decimal(t) => decimal_value(t),
        Json::Text(s) => serde_json::Value::from(s.as_str()),
        Json::Array(items) => items.iter().map(value_of).collect(),
        Json::Object(members) => members.iter().map(|(key, item)| (key.clone(), value_of(item))).collect(),
    }
}

/// `serde_json::Value`'s `to_string`: its compact JSON text.
#[verifier::external_body]
fn value_text(value: &serde_json::Value) -> (text: String)
    ensures
        text@ == json_text(value_view(*value)),
{
    value.to_string()
}

/// The JSON text of a tree, laid out over several lines.
pub uninterp spec fn pretty_json_text(tree: JsonView) -> Seq<char>;

/// `serde_json::Value`'s alternate `Display` form: its JSON text over several lines,
/// with the members of objects and arrays indented.
#[verifier::external_body]
fn pretty_value_text(value: &serde_json::Value) -> (text: String)
    ensures
        text@ == pretty_json_text(value_view(*value)),
{
    format!("{value:#}")
}

/// Parse a JSON text, or say why it is none.
pub fn read_json(text: &str) -> (result: Result<Json, String>)
    ensures
        match result {
            Ok(json) => json_reading(text@) == Ok::<JsonView, Seq<char>>(json@) && kept_json(json@)
                == json@,
            Err(words) => json_reading(text@) == Err::<JsonView, Seq<char>>(words@),
        },
{
    if !has_short_numbers(text) {
        return Err("number has too many digits".to_owned());
    }
    match read_value(text) {
        Ok(value) => Ok(json_of(value)),
        Err(words) => Err(words),
    }
}

/// Parse a JSON text.
pub fn parse_json(text: &str) -> (result: Option<Json>)
    ensures
        match result {
            Some(json) => parsed_json(text@) == Some(json@) && kept_json(json@) == json@,
            None => parsed_json(text@) is None,
        },
{
    if !has_short_numbers(text) {
        return None;
    }
    match read_value(text) {
        Ok(value) => Some(json_of(value)),
        Err(_) => None,
    }
}

/// What a list of values holds.
pub open spec fn json_views(list: Seq<Json>) -> Seq<JsonView> {
    Seq::new(list.len(), |i: int| list[i]@)
}

/// Each of the trees is kept as it is.
pub open spec fn all_kept(trees: Seq<JsonView>) -> bool {
    forall|i: int| 0 <= i < trees.len() ==> kept_json(#[trigger] trees[i]) == trees[i]
}

/// Parse a text that is made of JSON values, one after the other.
pub fn parse_json_values(text: &str) -> (result: Option<Vec<Json>>)
    ensures
        match result {
            Some(values) => parsed_json_values(text@) == Some(json_views(values@)) && all_kept(
                json_views(values@),
            ),
            None => parsed_json_values(text@) is None,
        },
{
    if !has_short_numbers(text) {
        return None;
    }
    match read_values(text) {
        Some(values) => {
            let ghost trees = Seq::new(values@.len(), |i: int| value_view(values@[i]));
            let ghost all = values@;
            let mut list: Vec<Json> = Vec::new();
            assert(json_views(list@) =~= trees.take(0));
            for value in it: values.into_iter()
                invariant
                    it.seq() == all,
                    trees == Seq::new(all.len(), |i: int| value_view(all[i])),
                    json_views(list@) == trees.take(it.index()),
                    all_kept(json_views(list@)),
            {
                let ghost before = json_views(list@);
                let json = json_of(value);
                assert(json@ == trees[it.index()]);
                list.push(json);
                assert(json_views(list@) =~= before.push(json@));
                assert(trees.take(it.index() + 1) =~= trees.take(it.index()).push(json@));
            }
            assert(trees.take(all.len() as int) =~= trees);
            Some(list)
        },
        None => None,
    }
}

/// The compact JSON text of a value.
pub fn write_json(json: &Json) -> (text: String)
    ensures
        text@ == json_text(kept_json(json@)),
{
    let value = value_of(json);
    value_text(&value)
}

/// The JSON text of a value, laid out over several lines.
pub fn write_pretty_json(json: &Json) -> (text: String)
    ensures
        text@ == pretty_json_text(kept_json(json@)),
{
    let value = value_of(json);
    pretty_value_text(&value)
}

impl Json {
    pub open spec fn view(&self) -> JsonView
        decreases self,
    {
        match self {
            Json::Null => JsonView::Null,
            Json::Bool(b) => JsonView::Bool(*b),
            Json::Unsigned(n) => JsonView::Unsigned(*n),
            Json::Negative(n) => JsonView::Negative(*n),
            Json::Decimal(t) => JsonView::Decimal(t@),
            Json::Text(s) => JsonView::Text(s@),
            Json::Array(items) => JsonView::Array(
                Seq::new(
                    items@.len(),
                    |i: int|
                        if 0 <= i < items@.len() {
                            items@[i].view()
                        } else {
                            JsonView::Null
                        },
                ),
            ),
            Json::Object(members) => JsonView::Object(
                Seq::new(
                    members@.len(),
                    |i: int|
                        if 0 <= i < members@.len() {
                            (members@[i].0@, members@[i].1.view())
                        } else {
                            (Seq::empty(), JsonView::Null)
                        },
                ),
            ),
        }
    }

    /// A copy of the value.
    pub fn copy(&self) -> (json: Json)
        ensures
            json@ == self@,
        decreases self,
    {
        match self {
            Json::Null => Json::Null,
            Json::Bool(b) => Json::Bool(*b),
            Json::Unsigned(n) => Json::Unsigned(*n),
            Json::Negative(n) => Json::Negative(*n),
            Json::Decimal(t) => Json::Decimal(t.clone()),
            Json::Text(s) => Json::Text(s.clone()),
            Json::Array(items) => {
                let mut copies: Vec<Json> = Vec::new();
                let mut i: usize = 0;
                while i < items.len()
                    invariant
                        i <= items@.len(),
                        copies@.len() == i,
                        forall|k: int| 0 <= k < i ==> (#[trigger] copies@[k])@ == items@[k]@,
                        decreases_to!(self => items@),
                    decreases items@.len() - i,
                {
                    let copy = items[i].copy();
                    copies.push(copy);
                    i = i + 1;
                }
                let json = Json::Array(copies);
                assert(json@->Array_0 =~= self@->Array_0);
                json
            },
            Json::Object(members) => {
                let mut copies: Vec<(String, Json)> = Vec::new();
                let mut i: usize = 0;
                while i < members.len()
                    invariant
                        i <= members@.len(),
                        copies@.len() == i,
                        forall|k: int|
                            0 <= k < i ==> (#[trigger] copies@[k]).0@ == members@[k].0@
                                && copies@[k].1@ == members@[k].1@,
                        decreases_to!(self => members@),
                    decreases members@.len() - i,
                {
                    let key = members[i].0.clone();
                    let copy = members[i].1.copy();
                    copies.push((key, copy));
                    i = i + 1;
                }
                let json = Json::Object(copies);
                assert(json@->Object_0 =~= self@->Object_0);
                json
            },
        }
    }

    /// The member of an object by its key.
    pub fn get(&self, key: &str) -> (found: Option<&Json>)
        ensures
            match found {
                Some(json) => self@.member(key@) == Some(json@),
                None => self@.member(key@) is None,
            },
    {
        match self {
            Json::Object(members) => {
                let mut i: usize = 0;
                let ghost pairs = self@->Object_0;
                assert(pairs.skip(0) =~= pairs);
                while i < members.len()
                    invariant
                        i <= members@.len(),
                        pairs == self@->Object_0,
                        self is Object,
                        members@ == self->Object_0@,
                        pairs.len() == members@.len(),
                        first_member(pairs, key@) == first_member(pairs.skip(i as int), key@),
                    decreases members@.len() - i,
                {
                    assert(pairs[i as int] == (members@[i as int].0@, members@[i as int].1@));
                    assert(pairs.skip(i as int)[0] == pairs[i as int]);
                    if text_eq(members[i].0.as_str(), key) {
                        return Some(&members[i].1);
                    }
                    assert(pairs.skip(i as int).skip(1) =~= pairs.skip(i as int + 1));
                    i = i + 1;
                }
                None
            },
            _ => None,
        }
    }

    /// The text of a string value.
    pub fn as_text(&self) -> (text: Option<&String>)
        ensures
            match text {
                Some(s) => self@ == JsonView::Text(s@),
                None => !(self@ is Text),
            },
    {
        match self {
            Json::Text(s) => Some(s),
            _ => None,
        }
    }

    pub fn is_object(&self) -> (r: bool)
        ensures
            r == (self@ is Object),
    {
        matches!(self, Json::Object(_))
    }
}

/// The value of the first member with the key.
pub open spec fn first_member(pairs: Seq<(Seq<char>, JsonView)>, key: Seq<char>) -> Option<JsonView>
    decreases pairs.len(),
{
    if pairs.len() == 0 {
        None
    } else if pairs[0].0 == key {
        Some(pairs[0].1)
    } else {
        first_member(pairs.skip(1), key)
    }
}

impl JsonView {
    /// The member of an object by its key.
    pub open spec fn member(self, key: Seq<char>) -> Option<JsonView> {
        match self {
            JsonView::Object(pairs) => first_member(pairs, key),
            _ => None,
        }
    }
}

/// The members stand in the order of their keys, each key once.
pub open spec fn in_key_order(pairs: Seq<(Seq<char>, JsonView)>) -> bool {
    forall|i: int, j: int|
        0 <= i < j < pairs.len() ==> text_before(
            (#[trigger] pairs[i]).0,
            (#[trigger] pairs[j]).0,
        )
}

proof fn lemma_placed_member(pairs: Seq<(Seq<char>, JsonView)>, pair: (Seq<char>, JsonView))
    requires
        in_key_order(pairs),
    ensures
        in_key_order(placed_member(pairs, pair)),
        forall|i: int|
            0 <= i < placed_member(pairs, pair).len() ==> {
                ||| (#[trigger] placed_member(pairs, pair)[i]).0 == pair.0
                ||| exists|j: int|
                    0 <= j < pairs.len() && (#[trigger] pairs[j]).0 == placed_member(
                        pairs,
                        pair,
                    )[i].0
            },
    decreases pairs.len(),
{
    let result = placed_member(pairs, pair);
    if pairs.len() > 0 {
        let last = pairs.last();
        let front = pairs.drop_last();
        assert(pairs[pairs.len() - 1] == last);
        assert(forall|i: int| 0 <= i < front.len() ==> pairs[i] == front[i]);
        lemma_text_order(last.0, pair.0);
        if last.0 != pair.0 && text_before(pair.0, last.0) {
            lemma_placed_member(front, pair);
            let before = placed_member(front, pair);
            assert forall|i: int, j: int| 0 <= i < j < result.len() implies text_before(
                (#[trigger] result[i]).0,
                (#[trigger] result[j]).0,
            ) by {
                if j < before.len() {
                    assert(result[i] == before[i] && result[j] == before[j]);
                } else {
                    assert(result[i] == before[i]);
                }
            }
            assert forall|i: int| 0 <= i < result.len() implies {
                ||| (#[trigger] result[i]).0 == pair.0
                ||| exists|j: int| 0 <= j < pairs.len() && (#[trigger] pairs[j]).0 == result[i].0
            } by {
                if i < before.len() {
                    assert(result[i] == before[i]);
                    if before[i].0 != pair.0 {
                        let j = choose|j: int|
                            0 <= j < front.len() && (#[trigger] front[j]).0 == before[i].0;
                        assert(pairs[j].0 == result[i].0);
                    }
                }
            }
        } else if last.0 != pair.0 {
            assert forall|i: int, j: int| 0 <= i < j < result.len() implies text_before(
                (#[trigger] result[i]).0,
                (#[trigger] result[j]).0,
            ) by {
                if j == pairs.len() && i < pairs.len() - 1 {
                    lemma_text_order_transitive(pairs[i].0, last.0, pair.0);
                }
            }
            assert(forall|i: int| 0 <= i < pairs.len() ==> result[i] == pairs[i]);
        }
    }
}

proof fn lemma_by_key(pairs: Seq<(Seq<char>, JsonView)>)
    ensures
        in_key_order(by_key(pairs)),
    decreases pairs.len(),
{
    if pairs.len() > 0 {
        lemma_by_key(pairs.drop_last());
        lemma_placed_member(by_key(pairs.drop_last()), pairs.last());
    }
}

proof fn lemma_ordered_already(pairs: Seq<(Seq<char>, JsonView)>)
    requires
        in_key_order(pairs),
    ensures
        by_key(pairs) == pairs,
    decreases pairs.len(),
{
    if pairs.len() > 0 {
        let front = pairs.drop_last();
        lemma_ordered_already(front);
        if front.len() > 0 {
            assert(text_before(pairs[front.len() - 1].0, pairs[front.len() as int].0));
            lemma_text_order(front.last().0, pairs.last().0);
        }
        assert(front.push(pairs.last()) =~= pairs);
    }
}

/// A list that is kept as it is has only items that are.
pub proof fn lemma_kept_items(items: Seq<JsonView>)
    ensures
        kept_json(JsonView::Array(items)) == JsonView::Array(items) <==> all_kept(items),
{
    let kept = kept_json(JsonView::Array(items))->Array_0;
    if all_kept(items) {
        assert(kept =~= items);
    }
    if kept == items {
        assert forall|i: int| 0 <= i < items.len() implies kept_json(#[trigger] items[i])
            == items[i] by {
            assert(kept[i] == kept_json(items[i]));
        }
    }
}

/// An object that is kept as it is has its members in key order, and only members that
/// are kept.
pub proof fn lemma_kept_members(pairs: Seq<(Seq<char>, JsonView)>)
    ensures
        kept_json(JsonView::Object(pairs)) == JsonView::Object(pairs) <==> in_key_order(pairs)
            && forall|i: int|
            0 <= i < pairs.len() ==> kept_json((#[trigger] pairs[i]).1) == pairs[i].1,
{
    let mapped = kept_values(pairs);
    let kept = kept_json(JsonView::Object(pairs));
    assert(kept == JsonView::Object(by_key(mapped)));
    if kept == JsonView::Object(pairs) {
        lemma_by_key(mapped);
        assert(in_key_order(mapped)) by {
            assert forall|i: int, j: int| 0 <= i < j < mapped.len() implies text_before(
                (#[trigger] mapped[i]).0,
                (#[trigger] mapped[j]).0,
            ) by {
                assert(text_before(pairs[i].0, pairs[j].0));
            }
        }
        lemma_ordered_already(mapped);
        assert forall|i: int| 0 <= i < pairs.len() implies kept_json((#[trigger] pairs[i]).1)
            == pairs[i].1 by {
            assert(mapped[i] == pairs[i]);
        }
    }
    if in_key_order(pairs) && forall|i: int|
        0 <= i < pairs.len() ==> kept_json((#[trigger] pairs[i]).1) == pairs[i].1 {
        assert(mapped =~= pairs);
        lemma_ordered_already(pairs);
    }
}

/// A member of a value that is kept as it is is kept too.
pub proof fn lemma_kept_member(tree: JsonView, key: Seq<char>)
    requires
        kept_json(tree) == tree,
        tree.member(key) is Some,
    ensures
        kept_json(tree.member(key)->0) == tree.member(key)->0,
{
    if let JsonView::Object(pairs) = tree {
        lemma_kept_members(pairs);
        lemma_first_member(pairs, key);
    }
}

/// A member that is found stands among the members.
pub proof fn lemma_first_member(pairs: Seq<(Seq<char>, JsonView)>, key: Seq<char>)
    requires
        first_member(pairs, key) is Some,
    ensures
        exists|i: int|
            0 <= i < pairs.len() && (#[trigger] pairs[i]) == (key, first_member(pairs, key)->0),
    decreases pairs.len(),
{
    if pairs[0].0 == key {
        assert(pairs[0] == (key, first_member(pairs, key)->0));
    } else {
        let rest = pairs.skip(1);
        lemma_first_member(rest, key);
        let i = choose|i: int|
            0 <= i < rest.len() && (#[trigger] rest[i]) == (key, first_member(rest, key)->0);
        assert(pairs[i + 1] == rest[i]);
    }
}

} // verus!
