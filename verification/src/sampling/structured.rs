use std::collections::HashSet;

use vstd::prelude::*;

use crate::float_bits::{finite, is_finite, F32Bits, NEG_INFINITY};
use crate::ids::RequestId;
use crate::json::{json_text, kept_json, write_json, Json, JsonView};
use crate::sampling::logits::masked;
use crate::sampling::params::StructuredOutputParams;
use crate::text::{chars_of, decimal, decimal_digits, join2, join3};

verus! {

broadcast use vstd::std_specs::hash::group_hash_axioms;

/// The character has a meaning of its own in a regular expression.
pub open spec fn regex_special(c: char) -> bool {
    c == '\\' || c == '.' || c == '+' || c == '*' || c == '?' || c == '(' || c == ')' || c == '|'
        || c == '[' || c == ']' || c == '{' || c == '}' || c == '^' || c == '$'
}

/// The text with a backslash before each special character.
pub open spec fn escaped(s: Seq<char>) -> Seq<char>
    decreases s.len(),
{
    if s.len() == 0 {
        s
    } else if regex_special(s.last()) {
        escaped(s.drop_last()).push('\\').push(s.last())
    } else {
        escaped(s.drop_last()).push(s.last())
    }
}

pub fn regex_escape(value: &str) -> (result: String)
    ensures
        result@ == escaped(value@),
{
    let chars = chars_of(value);
    let mut result = String::new();
    let mut i: usize = 0;
    assert(chars@.take(0) =~= Seq::<char>::empty());
    while i < chars.len()
        invariant
            i <= chars@.len(),
            result@ == escaped(chars@.take(i as int)),
        decreases chars@.len() - i,
    {
        let c: char = chars[i];
        assert(chars@.take(i as int + 1).drop_last() =~= chars@.take(i as int));
        if c == '\\' || c == '.' || c == '+' || c == '*' || c == '?' || c == '(' || c == ')' || c
            == '|' || c == '[' || c == ']' || c == '{' || c == '}' || c == '^' || c == '$' {
            result.push('\\');
        }
        result.push(c);
        i = i + 1;
    }
    assert(chars@.take(i as int) =~= chars@);
    result
}

/// The escaped choices, with bars between them.
pub open spec fn alternatives(choices: Seq<String>) -> Seq<char>
    decreases choices.len(),
{
    if choices.len() == 0 {
        Seq::empty()
    } else if choices.len() == 1 {
        escaped(choices[0]@)
    } else {
        alternatives(choices.drop_last()) + "|"@ + escaped(choices.last()@)
    }
}

/// A regular expression that matches exactly the choices.
pub open spec fn choice_regex(choices: Seq<String>) -> Seq<char> {
    "(?:"@ + alternatives(choices) + ")"@
}

pub fn choice_pattern(choices: &Vec<String>) -> (pattern: String)
    ensures
        pattern@ == choice_regex(choices@),
{
    let mut inner = String::new();
    let mut i: usize = 0;
    while i < choices.len()
        invariant
            i <= choices@.len(),
            inner@ == alternatives(choices@.take(i as int)),
        decreases choices@.len() - i,
    {
        let one = regex_escape(choices[i].as_str());
        assert(choices@.take(i as int + 1).drop_last() =~= choices@.take(i as int));
        if i > 0 {
            inner.append("|");
        }
        inner.append(one.as_str());
        proof {
            if i == 0 {
                assert(choices@.take(1)[0] == choices@[0]);
                assert(inner@ =~= escaped(choices@[0]@));
            }
        }
        i = i + 1;
    }
    assert(choices@.take(i as int) =~= choices@);
    join3("(?:", inner.as_str(), ")")
}

/// Escaping goes character by character: a character that means something in a regular
/// expression gets a backslash before it, and any other stands for itself.
pub proof fn lemma_escaped(a: Seq<char>, b: Seq<char>, c: char)
    ensures
        escaped(a + b) == escaped(a) + escaped(b),
        escaped(seq![c]) == if "\\.+*?()|[]{}^$"@.contains(c) {
            seq!['\\', c]
        } else {
            seq![c]
        },
    decreases b.len(),
{
    lemma_escaped_concat(a, b);
    reveal_strlit("\\.+*?()|[]{}^$");
    let specials = "\\.+*?()|[]{}^$"@;
    assert(seq![c].drop_last() =~= Seq::<char>::empty());
    assert(regex_special(c) <==> specials.contains(c)) by {
        if regex_special(c) {
            assert(specials[0] == '\\' && specials[1] == '.' && specials[2] == '+' && specials[3]
                == '*' && specials[4] == '?' && specials[5] == '(' && specials[6] == ')'
                && specials[7] == '|' && specials[8] == '[' && specials[9] == ']' && specials[10]
                == '{' && specials[11] == '}' && specials[12] == '^' && specials[13] == '$');
        }
    }
    assert(escaped(Seq::<char>::empty()) =~= Seq::<char>::empty());
    if regex_special(c) {
        assert(Seq::<char>::empty().push('\\').push(c) =~= seq!['\\', c]);
    } else {
        assert(Seq::<char>::empty().push(c) =~= seq![c]);
    }
}

proof fn lemma_escaped_concat(a: Seq<char>, b: Seq<char>)
    ensures
        escaped(a + b) == escaped(a) + escaped(b),
    decreases b.len(),
{
    if b.len() == 0 {
        assert(a + b =~= a);
        assert(escaped(a) + b =~= escaped(a));
    } else {
        lemma_escaped_concat(a, b.drop_last());
        assert((a + b).drop_last() =~= a + b.drop_last());
        assert(escaped(a + b) =~= escaped(a) + escaped(b));
    }
}

/// The alternatives of two lists are those of the one, a bar, and those of the other, and a
/// single alternative is the escaped choice.
pub proof fn lemma_alternatives(a: Seq<String>, b: Seq<String>)
    requires
        a.len() > 0,
        b.len() > 0,
    ensures
        alternatives(a + b) == alternatives(a) + "|"@ + alternatives(b),
        a.len() == 1 ==> alternatives(a) == escaped(a[0]@),
    decreases b.len(),
{
    assert((a + b).drop_last() =~= a + b.drop_last());
    if b.len() == 1 {
        assert(a + b.drop_last() =~= a);
    } else {
        lemma_alternatives(a, b.drop_last());
        assert(alternatives(a + b) =~= alternatives(a) + "|"@ + alternatives(b));
    }
}

/// What the grammar engine is asked to compile.
#[derive(Debug)]
pub enum Constraint {
    JsonSchema(String),
    AnyJson,
    Regex(String),
    Ebnf { xml: bool, grammar: String },
}

pub enum ConstraintView {
    JsonSchema(Seq<char>),
    AnyJson,
    Regex(Seq<char>),
    Ebnf { xml: bool, grammar: Seq<char> },
}

impl Constraint {
    pub open spec fn view(&self) -> ConstraintView {
        match self {
            Constraint::JsonSchema(s) => ConstraintView::JsonSchema(s@),
            Constraint::AnyJson => ConstraintView::AnyJson,
            Constraint::Regex(s) => ConstraintView::Regex(s@),
            Constraint::Ebnf { xml, grammar } => ConstraintView::Ebnf {
                xml: *xml,
                grammar: grammar@,
            },
        }
    }
}

/// A schema as text: a string value is the text itself.
pub open spec fn schema_text(schema: JsonView) -> Seq<char> {
    match schema {
        JsonView::Text(s) => s,
        other => json_text(kept_json(other)),
    }
}

fn text_of_schema(schema: &Json) -> (text: String)
    ensures
        text@ == schema_text(schema@),
{
    match schema {
        Json::Text(s) => s.clone(),
        _ => write_json(schema),
    }
}

/// The constraint that parameters ask for: the first that is set, in this
/// order.
pub open spec fn constraint_of(params: StructuredOutputParams) -> Option<ConstraintView> {
    if params.json_schema is Some {
        Some(ConstraintView::JsonSchema(schema_text(params.json_schema->0@)))
    } else if params.json_object == Some(true) {
        Some(ConstraintView::AnyJson)
    } else if params.regex is Some {
        Some(ConstraintView::Regex(params.regex->0@))
    } else if params.choice is Some {
        Some(ConstraintView::Regex(choice_regex(params.choice->0@)))
    } else if params.xml is Some {
        Some(ConstraintView::Ebnf { xml: true, grammar: params.xml->0@ })
    } else if params.grammar is Some {
        Some(ConstraintView::Ebnf { xml: false, grammar: params.grammar->0@ })
    } else {
        None
    }
}

/// The constraint to compile for a request.
pub fn select_constraint(params: &StructuredOutputParams) -> (result: Result<
    Constraint,
    StructuredOutputError,
>)
    ensures
        match constraint_of(*params) {
            Some(c) => result matches Ok(constraint) && constraint@ == c,
            None => result == Err::<Constraint, StructuredOutputError>(
                StructuredOutputError::NoConstraint,
            ),
        },
{
    if let Some(schema) = &params.json_schema {
        return Ok(Constraint::JsonSchema(text_of_schema(schema)));
    }
    if let Some(wanted) = params.json_object {
        if wanted {
            return Ok(Constraint::AnyJson);
        }
    }
    if let Some(regex) = &params.regex {
        return Ok(Constraint::Regex(regex.clone()));
    }
    if let Some(choices) = &params.choice {
        return Ok(Constraint::Regex(choice_pattern(choices)));
    }
    if let Some(xml) = &params.xml {
        return Ok(Constraint::Ebnf { xml: true, grammar: xml.clone() });
    }
    if let Some(grammar) = &params.grammar {
        return Ok(Constraint::Ebnf { xml: false, grammar: grammar.clone() });
    }
    Err(StructuredOutputError::NoConstraint)
}

/// The constraint whose syntax is checked when a request comes in. A plain
/// demand for JSON needs no check.
pub open spec fn checked_constraint(params: StructuredOutputParams) -> Option<ConstraintView> {
    match constraint_of(StructuredOutputParams { json_object: None, ..params }) {
        Some(c) => Some(c),
        None => None,
    }
}

pub fn constraint_to_check(params: &StructuredOutputParams) -> (result: Option<Constraint>)
    ensures
        match checked_constraint(*params) {
            Some(c) => result matches Some(constraint) && constraint@ == c,
            None => result is None,
        },
{
    if let Some(schema) = &params.json_schema {
        return Some(Constraint::JsonSchema(text_of_schema(schema)));
    }
    if let Some(regex) = &params.regex {
        return Some(Constraint::Regex(regex.clone()));
    }
    if let Some(choices) = &params.choice {
        return Some(Constraint::Regex(choice_pattern(choices)));
    }
    if let Some(xml) = &params.xml {
        return Some(Constraint::Ebnf { xml: true, grammar: xml.clone() });
    }
    if let Some(grammar) = &params.grammar {
        return Some(Constraint::Ebnf { xml: false, grammar: grammar.clone() });
    }
    None
}

/// What parameters with a single demand ask for, and which demand comes first of several.
/// A request without any is not constrained, nor is one that says it wants no JSON object.
pub proof fn lemma_constraint_order(params: StructuredOutputParams)
    ensures
        ({
            let wanted = constraint_of(params);
            let object = params.json_object == Some(true);
            let none = params.json_schema is None && !object;
            &&& params.json_schema is Some <==> wanted is Some && wanted->0 is JsonSchema
            &&& params.json_schema is None && object <==> wanted is Some && wanted->0 is AnyJson
            &&& none && params.regex is Some ==> wanted == Some(
                ConstraintView::Regex(params.regex->0@),
            )
            &&& none && params.regex is None && params.choice is Some ==> wanted == Some(
                ConstraintView::Regex("(?:"@ + alternatives(params.choice->0@) + ")"@),
            )
            &&& none && params.regex is None && params.choice is None && params.xml is Some
                ==> wanted == Some(ConstraintView::Ebnf { xml: true, grammar: params.xml->0@ })
            &&& none && params.regex is None && params.choice is None && params.xml is None
                && params.grammar is Some ==> wanted == Some(
                ConstraintView::Ebnf { xml: false, grammar: params.grammar->0@ },
            )
            &&& wanted is None <==> none && params.regex is None && params.choice is None
                && params.xml is None && params.grammar is None
        }),
        params.json_object != Some(true) ==> checked_constraint(params) == constraint_of(params),
        checked_constraint(params) is None || !(checked_constraint(params)->0 is AnyJson),
{
}

/// Why constrained decoding cannot go on.
#[derive(Debug, Clone, Copy, PartialEq, Eq, Structural)]
pub enum StructuredOutputError {
    VocabularyTooLarge,
    InvalidEos { eos_token_id: u32, vocab_size: usize },
    NoConstraint,
    LogitsTooShort { logits: usize, vocab_size: usize },
    EveryTokenRejected,
    TokenTooLarge,
    TokenRejected { token_id: u32 },
}

/// The words of an error.
pub open spec fn error_text(e: StructuredOutputError) -> Seq<char> {
    match e {
        StructuredOutputError::VocabularyTooLarge => "tokenizer vocabulary is too large"@,
        StructuredOutputError::InvalidEos { eos_token_id, vocab_size } =>
            "structured outputs require a valid EOS token ID, got "@ + decimal_digits(
            eos_token_id as nat,
        ) + " for vocabulary size "@ + decimal_digits(vocab_size as nat),
        StructuredOutputError::NoConstraint =>
            "structured output parameters did not contain a constraint"@,
        StructuredOutputError::LogitsTooShort { logits, vocab_size } => "logits vocabulary size "@
            + decimal_digits(logits as nat) + " is smaller than tokenizer vocabulary size "@
            + decimal_digits(vocab_size as nat),
        StructuredOutputError::EveryTokenRejected =>
            "structured output constraint rejected every token"@,
        StructuredOutputError::TokenTooLarge => "sampled token ID is too large"@,
        StructuredOutputError::TokenRejected { token_id } => "XGrammar rejected sampled token "@
            + decimal_digits(token_id as nat),
    }
}

impl StructuredOutputError {
    /// The error in words.
    pub fn message(&self) -> (text: String)
        ensures
            text@ == error_text(*self),
    {
        match self {
            StructuredOutputError::VocabularyTooLarge =>
                "tokenizer vocabulary is too large".to_owned(),
            StructuredOutputError::InvalidEos { eos_token_id, vocab_size } => {
                let head = join3(
                    "structured outputs require a valid EOS token ID, got ",
                    decimal(*eos_token_id as u64).as_str(),
                    " for vocabulary size ",
                );
                join2(head.as_str(), decimal(*vocab_size as u64).as_str())
            },
            StructuredOutputError::NoConstraint =>
                "structured output parameters did not contain a constraint".to_owned(),
            StructuredOutputError::LogitsTooShort { logits, vocab_size } => {
                let head = join3(
                    "logits vocabulary size ",
                    decimal(*logits as u64).as_str(),
                    " is smaller than tokenizer vocabulary size ",
                );
                join2(head.as_str(), decimal(*vocab_size as u64).as_str())
            },
            StructuredOutputError::EveryTokenRejected =>
                "structured output constraint rejected every token".to_owned(),
            StructuredOutputError::TokenTooLarge => "sampled token ID is too large".to_owned(),
            StructuredOutputError::TokenRejected { token_id } => join2(
                "XGrammar rejected sampled token ",
                decimal(*token_id as u64).as_str(),
            ),
        }
    }
}

/// The bit of a token in a bitmask of 32-bit words.
pub open spec fn token_bit(words: Seq<i32>, token: int) -> bool {
    (words[token / 32] as u32) & (1u32 << ((token % 32) as u32)) != 0
}

/// Each token has a bit of its own: word `w` holds those of the tokens `32w` to
/// `32w + 31`, the lowest bit first.
pub proof fn lemma_token_bits(words: Seq<i32>, w: int, b: u32)
    requires
        0 <= w,
        b < 32,
    ensures
        token_bit(words, 32 * w + b) <==> (words[w] as u32) & (1u32 << b) != 0,
{
    assert((32 * w + b) / 32 == w && (32 * w + b) % 32 == b);
}

/// The bits of a mask that allows a set of tokens: those of the set, and no other.
pub proof fn lemma_mask_of_set(words: Seq<i32>, allowed: Set<int>, vocab_size: int)
    requires
        vocab_size <= 32 * words.len(),
        forall|w: int, b: u32|
            #![trigger words[w], 1u32 << b]
            0 <= w < words.len() && b < 32 ==> ((words[w] as u32) & (1u32 << b) != 0
                <==> allowed.contains(32 * w + b)),
    ensures
        forall|t: int|
            0 <= t < vocab_size ==> (#[trigger] token_bit(words, t) <==> allowed.contains(t)),
{
    assert forall|t: int| 0 <= t < vocab_size implies (#[trigger] token_bit(words, t)
        <==> allowed.contains(t)) by {
        let w = t / 32;
        let b = (t % 32) as u32;
        assert(t == 32 * w + b);
        lemma_token_bits(words, w, b);
        assert((words[w] as u32) & (1u32 << b) != 0 <==> allowed.contains(32 * w + b));
    }
}

/// Whether some of the first `n` logits is finite.
fn any_finite(logits: &Vec<F32Bits>, n: usize) -> (found: bool)
    requires
        n <= logits@.len(),
    ensures
        found == exists|i: int| 0 <= i < n && finite(#[trigger] logits@[i]),
{
    let mut k: usize = 0;
    while k < n
        invariant
            k <= n <= logits@.len(),
            forall|j: int| 0 <= j < k ==> !finite(#[trigger] logits@[j]),
        decreases n - k,
    {
        if is_finite(logits[k]) {
            return true;
        }
        k = k + 1;
    }
    false
}

/// Which requests decode under a constraint, and for which vocabulary.
pub struct StructuredOutputManager {
    vocab_size: usize,
    constrained: HashSet<RequestId>,
}

impl StructuredOutputManager {
    pub closed spec fn spec_vocab_size(&self) -> usize {
        self.vocab_size
    }

    pub closed spec fn view(&self) -> Set<RequestId> {
        self.constrained@
    }

    /// A manager without constrained requests. The vocabulary size and the EOS
    /// token must be usable by the grammar engine, whose numbers have 31 bits.
    pub fn new(vocab_size: usize, eos_token_id: u32) -> (result: Result<
        Self,
        StructuredOutputError,
    >)
        ensures
            if vocab_size > i32::MAX {
                result matches Err(StructuredOutputError::VocabularyTooLarge)
            } else if eos_token_id >= vocab_size {
                result matches Err(
                    StructuredOutputError::InvalidEos { eos_token_id: e, vocab_size: v },
                ) && e == eos_token_id && v == vocab_size
            } else {
                result matches Ok(manager) && manager.spec_vocab_size() == vocab_size && manager@
                    == Set::<RequestId>::empty()
            },
    {
        if vocab_size as u64 > 0x7fff_ffff {
            return Err(StructuredOutputError::VocabularyTooLarge);
        }
        if eos_token_id as u64 >= vocab_size as u64 {
            return Err(StructuredOutputError::InvalidEos { eos_token_id, vocab_size });
        }
        Ok(StructuredOutputManager { vocab_size, constrained: HashSet::new() })
    }

    /// Note that the constraint of a request was compiled.
    pub fn register(&mut self, request_id: RequestId)
        ensures
            final(self)@ == old(self)@.insert(request_id),
            final(self).spec_vocab_size() == old(self).spec_vocab_size(),
    {
        self.constrained.insert(request_id);
    }

    pub fn is_constrained(&self, request_id: RequestId) -> (r: bool)
        ensures
            r == self@.contains(request_id),
    {
        self.constrained.contains(&request_id)
    }

    /// Apply the grammar's bitmask to the logits of a request. `words` is the
    /// mask, where the grammar bars anything.
    ///
    /// Requests without a constraint keep their logits.
    pub fn mask_logits(
        &self,
        request_id: RequestId,
        logits: &mut Vec<F32Bits>,
        words: &Option<Vec<i32>>,
    ) -> (result: Result<(), StructuredOutputError>)
        requires
            words is Some ==> words->0@.len() * 32 >= self.spec_vocab_size(),
        ensures
            ({
                let n = self.spec_vocab_size();
                if !self@.contains(request_id) {
                    result is Ok && final(logits)@ == old(logits)@
                } else if old(logits)@.len() < n {
                    result == Err::<(), StructuredOutputError>(
                        StructuredOutputError::LogitsTooShort {
                            logits: old(logits)@.len() as usize,
                            vocab_size: n,
                        },
                    ) && final(logits)@ == old(logits)@
                } else {
                    let allowed = masked(
                        old(logits)@,
                        |i: int| words is Some && i < n && !token_bit(words->0@, i),
                    );
                    &&& final(logits)@ == allowed
                    &&& if exists|i: int| 0 <= i < n && finite(#[trigger] allowed[i]) {
                        result is Ok
                    } else {
                        result == Err::<(), StructuredOutputError>(
                            StructuredOutputError::EveryTokenRejected,
                        )
                    }
                }
            }),
            final(logits)@.len() == old(logits)@.len(),
            self@.contains(request_id) && old(logits)@.len() >= self.spec_vocab_size()
                && words is Some ==> forall|w: int, b: u32|
                #![trigger words->0@[w], 1u32 << b]
                0 <= w && b < 32 && 32 * w + b < self.spec_vocab_size() ==> final(logits)@[32 * w
                    + b] == if (words->0@[w] as u32) & (1u32 << b) != 0 {
                    old(logits)@[32 * w + b]
                } else {
                    NEG_INFINITY
                },
            forall|i: int|
                self.spec_vocab_size() <= i < old(logits)@.len() ==> #[trigger] final(logits)@[i]
                    == old(logits)@[i],
    {
        let n: usize = self.vocab_size;
        let ghost all = logits@;
        if !self.constrained.contains(&request_id) {
            return Ok(());
        }
        if logits.len() < n {
            return Err(
                StructuredOutputError::LogitsTooShort { logits: logits.len(), vocab_size: n },
            );
        }
        let ghost bars = |i: int| words is Some && i < n && !token_bit(words->0@, i);
        if let Some(mask) = words {
            let mut i: usize = 0;
            while i < n
                invariant
                    i <= n,
                    n <= logits@.len(),
                    logits@.len() == all.len(),
                    *words == Some(*mask),
                    mask@.len() * 32 >= n,
                    bars == (|i: int| words is Some && i < n && !token_bit(words->0@, i)),
                    forall|j: int| i <= j < all.len() ==> logits@[j] == all[j],
                    forall|j: int| 0 <= j < i ==> #[trigger] logits@[j] == masked(all, bars)[j],
                decreases n - i,
            {
                let word: u32 = mask[i / 32] as u32;
                if word & (1u32 << ((i % 32) as u32)) == 0 {
                    logits.set(i, NEG_INFINITY);
                }
                i = i + 1;
            }
        }
        assert(logits@ =~= masked(all, bars));
        proof {
            if let Some(mask) = words {
                assert forall|w: int, b: u32|
                    #![trigger mask@[w], 1u32 << b]
                    0 <= w && b < 32 && 32 * w + b < n implies logits@[32 * w + b] == if (
                mask@[w] as u32) & (1u32 << b) != 0 {
                    all[32 * w + b]
                } else {
                    NEG_INFINITY
                } by {
                    lemma_token_bits(mask@, w, b);
                }
            }
        }
        if any_finite(logits, n) {
            Ok(())
        } else {
            Err(StructuredOutputError::EveryTokenRejected)
        }
    }

    /// The number by which the grammar engine is told of a sampled token. `None`
    /// where the request is not constrained.
    pub fn token_to_accept(&self, request_id: RequestId, token_id: u32) -> (result: Result<
        Option<i32>,
        StructuredOutputError,
    >)
        ensures
            if !self@.contains(request_id) {
                result matches Ok(None)
            } else if token_id > i32::MAX {
                result matches Err(StructuredOutputError::TokenTooLarge)
            } else {
                result matches Ok(Some(t)) && t == token_id
            },
    {
        if !self.constrained.contains(&request_id) {
            return Ok(None);
        }
        if token_id > 0x7fff_ffff {
            return Err(StructuredOutputError::TokenTooLarge);
        }
        Ok(Some(token_id as i32))
    }

    /// What the engine's answer to a sampled token comes to.
    pub fn token_accepted(&self, token_id: u32, accepted: bool) -> (result: Result<
        (),
        StructuredOutputError,
    >)
        ensures
            accepted ==> result is Ok,
            !accepted ==> result == Err::<(), StructuredOutputError>(
                StructuredOutputError::TokenRejected { token_id },
            ),
    {
        if accepted {
            Ok(())
        } else {
            Err(StructuredOutputError::TokenRejected { token_id })
        }
    }

    /// Forget the constraint of a request.
    pub fn remove(&mut self, request_id: RequestId)
        ensures
            final(self)@ == old(self)@.remove(request_id),
            final(self).spec_vocab_size() == old(self).spec_vocab_size(),
    {
        self.constrained.remove(&request_id);
    }
}

} // verus!
