use rllm::sampling::speculative::{accept_matching_prefix, NGramProposer, SpeculativeProposer};

#[test]
fn ngram_proposer_reuses_prior_continuation() {
    let proposer = NGramProposer::new(2, 3);
    let proposal = proposer.propose(&[1, 2, 3, 4, 2, 3], 2);
    assert_eq!(proposal.token_ids, vec![4, 2]);
}

#[test]
fn ngram_proposer_needs_a_repeat() {
    let proposer = NGramProposer::new(2, 3);
    assert!(proposer.propose(&[1, 2, 3, 4], 2).token_ids.is_empty());
    assert!(proposer.propose(&[], 2).token_ids.is_empty());
    assert!(proposer.propose(&[1, 2, 3, 4, 2, 3], 0).token_ids.is_empty());
}

#[test]
fn accepts_only_matching_prefix() {
    assert_eq!(accept_matching_prefix(&[1, 2, 3], &[1, 2, 9]), vec![1, 2]);
}

#[test]
fn accepts_nothing_after_a_first_mismatch() {
    assert!(accept_matching_prefix(&[5, 2, 3], &[1, 2, 3]).is_empty());
    assert_eq!(accept_matching_prefix(&[1, 2], &[1, 2, 3]), vec![1, 2]);
}
