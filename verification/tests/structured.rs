use rllm::sampling::params::StructuredOutputParams;
use rllm::sampling::structured::{
    choice_pattern, constraint_to_check, regex_escape, select_constraint, Constraint,
    StructuredOutputError, StructuredOutputManager,
};
use rllm::json::{parse_json, Json};

fn bits(values: &[f32]) -> Vec<u32> {
    values.iter().map(|x| x.to_bits()).collect()
}

fn unconstrained() -> StructuredOutputParams {
    StructuredOutputParams {
        json_schema: None,
        json_object: None,
        xml: None,
        regex: None,
        grammar: None,
        choice: None,
    }
}

#[test]
fn unconstrained_request_is_a_noop() {
    let manager = StructuredOutputManager::new(3, 2).ok().unwrap();
    let mut logits = bits(&[1.0, 2.0, 3.0]);
    assert!(manager.mask_logits(7, &mut logits, &None).is_ok());
    assert_eq!(logits, bits(&[1.0, 2.0, 3.0]));
}

#[test]
fn mask_bars_tokens() {
    let mut manager = StructuredOutputManager::new(3, 2).ok().unwrap();
    manager.register(7);
    assert!(manager.is_constrained(7));
    let mut logits = bits(&[1.0, 2.0, 3.0]);
    assert!(manager.mask_logits(7, &mut logits, &Some(vec![0b101])).is_ok());
    assert_eq!(logits, bits(&[1.0, f32::NEG_INFINITY, 3.0]));
    let mut logits = bits(&[1.0, 2.0, 3.0]);
    let error = manager.mask_logits(7, &mut logits, &Some(vec![0]));
    assert_eq!(error, Err(StructuredOutputError::EveryTokenRejected));
    let mut short = bits(&[1.0]);
    assert_eq!(
        manager.mask_logits(7, &mut short, &None),
        Err(StructuredOutputError::LogitsTooShort { logits: 1, vocab_size: 3 })
    );
    manager.remove(7);
    assert!(!manager.is_constrained(7));
}

#[test]
fn tokens_are_handed_to_the_engine() {
    let mut manager = StructuredOutputManager::new(3, 2).ok().unwrap();
    assert_eq!(manager.token_to_accept(7, 1), Ok(None));
    manager.register(7);
    assert_eq!(manager.token_to_accept(7, 1), Ok(Some(1)));
    assert_eq!(manager.token_to_accept(7, u32::MAX), Err(StructuredOutputError::TokenTooLarge));
    assert_eq!(
        manager.token_accepted(5, false),
        Err(StructuredOutputError::TokenRejected { token_id: 5 })
    );
    assert!(manager.token_accepted(5, true).is_ok());
}

#[test]
fn manager_refuses_unusable_vocabularies() {
    assert!(matches!(
        StructuredOutputManager::new(1 << 31, 2),
        Err(StructuredOutputError::VocabularyTooLarge)
    ));
    assert!(matches!(
        StructuredOutputManager::new(3, 3),
        Err(StructuredOutputError::InvalidEos { eos_token_id: 3, vocab_size: 3 })
    ));
}

#[test]
fn choices_become_a_regex() {
    assert_eq!(regex_escape("a.b"), "a\\.b");
    let choices = vec!["yes".to_string(), "no?".to_string()];
    assert_eq!(choice_pattern(&choices), "(?:yes|no\\?)");
    let params = StructuredOutputParams { choice: Some(choices), ..unconstrained() };
    assert!(matches!(
        select_constraint(&params),
        Ok(Constraint::Regex(pattern)) if pattern == "(?:yes|no\\?)"
    ));
}

#[test]
fn schema_is_written_out() {
    let schema = parse_json("{\"type\": \"object\"}");
    let params = StructuredOutputParams { json_schema: schema, ..unconstrained() };
    assert!(matches!(
        select_constraint(&params),
        Ok(Constraint::JsonSchema(text)) if text == "{\"type\":\"object\"}"
    ));
    let text = Some(Json::Text("as it is".to_string()));
    let params = StructuredOutputParams { json_schema: text, ..unconstrained() };
    assert!(matches!(
        constraint_to_check(&params),
        Some(Constraint::JsonSchema(text)) if text == "as it is"
    ));
}

#[test]
fn no_constraint_is_an_error() {
    assert!(matches!(
        select_constraint(&unconstrained()),
        Err(StructuredOutputError::NoConstraint)
    ));
    assert!(constraint_to_check(&unconstrained()).is_none());
    let any = StructuredOutputParams { json_object: Some(true), ..unconstrained() };
    assert!(matches!(select_constraint(&any), Ok(Constraint::AnyJson)));
    assert!(constraint_to_check(&any).is_none());
    let xml = StructuredOutputParams { xml: Some("root".to_string()), ..unconstrained() };
    assert!(matches!(select_constraint(&xml), Ok(Constraint::Ebnf { xml: true, .. })));
}
