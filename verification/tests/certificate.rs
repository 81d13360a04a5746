use greppy::certificate::Status;

#[test]
fn exit_codes_match_registered_contract() {
    assert_eq!(Status::Applied.exit_code(), 0);
    assert_eq!(Status::AlreadySatisfied.exit_code(), 0);
    assert_eq!(Status::NotFound.exit_code(), 10);
    assert_eq!(Status::Ambiguous.exit_code(), 11);
    assert_eq!(Status::Stale.exit_code(), 12);
    assert_eq!(Status::InvalidResult.exit_code(), 13);
    assert_eq!(Status::ValidationFailed.exit_code(), 14);
    assert_eq!(Status::PublishFailed.exit_code(), 16);
}

#[test]
fn status_serializes_kebab_case() {
    assert_eq!(
        format!("\"{}\"", Status::AlreadySatisfied.wire_name()),
        "\"already-satisfied\""
    );
}

#[test]
fn every_status_has_a_distinct_wire_name() {
    let all = [
        Status::Applied,
        Status::AlreadySatisfied,
        Status::NotFound,
        Status::Ambiguous,
        Status::Stale,
        Status::InvalidResult,
        Status::ValidationFailed,
        Status::PublishFailed,
    ];
    for (i, a) in all.iter().enumerate() {
        for b in &all[i + 1..] {
            assert_ne!(a.wire_name(), b.wire_name());
        }
    }
    assert_eq!(Status::PublishFailed.wire_name(), "publish-failed");
}
