use karukan::candidates::{learning_record, Candidate, CandidateSource};

#[test]
fn records_learning_by_source() {
    for explicit in [true, false] {
        assert!(!CandidateSource::Fallback.records_learning(explicit));
        assert_eq!(CandidateSource::Model.records_learning(explicit), explicit);
        assert_eq!(CandidateSource::Rewriter.records_learning(explicit), explicit);
        assert!(CandidateSource::Learning.records_learning(explicit));
        assert!(CandidateSource::UserDictionary.records_learning(explicit));
        assert!(CandidateSource::Dictionary.records_learning(explicit));
    }
}

fn candidate(source: Option<CandidateSource>) -> Candidate {
    Candidate { text: "天気".to_string(), reading: Some("てんき".to_string()), source, description: None }
}

#[test]
fn live_conversion_commit_does_not_learn_model_output() {
    // Accepting the model's live conversion as shown is no choice: it is
    // not learned, so a wrong first candidate does not reinforce itself.
    assert!(learning_record(&candidate(Some(CandidateSource::Model)), false).is_none());
    let learned = learning_record(&candidate(Some(CandidateSource::Model)), true).unwrap();
    assert_eq!((learned.reading.as_str(), learned.text.as_str()), ("てんき", "天気"));
}

#[test]
fn kana_commits_without_a_source_are_learned() {
    let kana = Candidate { text: "てんき".to_string(), reading: Some("てんき".to_string()), source: None, description: None };
    let learned = learning_record(&kana, false).unwrap();
    assert_eq!(learned.text, "てんき");
    assert!(learning_record(&candidate(Some(CandidateSource::Fallback)), true).is_none());
}
