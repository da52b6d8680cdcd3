use fero::database::{AuthenticatedConnection, Configuration, SignatureCheck, UserKey};
use fero::error::FeroError;

/// Build a store with one key (external id 42, hardware id 5) and two
/// registered approvers A (id 100, weight 2) and B (id 200, weight 2),
/// returning a privileged session over it with the key's threshold set
/// as asked.
fn store_with_two_approvers(threshold: i32) -> AuthenticatedConnection {
    let mut cfg = Configuration::new();
    cfg.insert_secret_key(5, 42, 0).unwrap();
    let payload: Vec<u8> = vec![];
    let checks: Vec<SignatureCheck> = vec![];
    let (mut session, _) = cfg.authenticate(42, &payload, &checks).unwrap();
    let a = session.upsert_user_key(100).unwrap();
    let b = session.upsert_user_key(200).unwrap();
    session.upsert_user_key_weight(42, a, 2).unwrap();
    session.upsert_user_key_weight(42, b, 2).unwrap();
    session.set_secret_key_threshold(42, threshold).unwrap();
    session
}

fn valid(content: &[u8], ids: &[u64]) -> SignatureCheck {
    SignatureCheck::Valid { content: content.to_vec(), signer_ids: ids.to_vec() }
}

#[test]
fn threshold_zero_authorizes_with_no_signatures() {
    let mut cfg = Configuration::new();
    cfg.insert_secret_key(7, 1, 0).unwrap();
    let payload = b"anything".to_vec();
    let checks: Vec<SignatureCheck> = vec![];
    let (session, echo) = cfg.authenticate(1, &payload, &checks).unwrap();
    assert_eq!(echo, payload);
    assert_eq!(session.secret_key, 1);
}

#[test]
fn unknown_key_is_not_found() {
    let cfg = Configuration::new();
    let payload = b"p".to_vec();
    let checks: Vec<SignatureCheck> = vec![];
    assert_eq!(cfg.authenticate(9, &payload, &checks).unwrap_err(), FeroError::NotFound);
}

#[test]
fn two_approvers_meet_threshold_three() {
    let session = store_with_two_approvers(3);
    let payload = b"release v1".to_vec();
    let checks = vec![valid(&payload, &[100]), valid(&payload, &[200])];
    let (_, echo) = session.connection.authenticate(42, &payload, &checks).unwrap();
    assert_eq!(echo, payload);
}

#[test]
fn one_approver_fails_threshold_three() {
    let session = store_with_two_approvers(3);
    let payload = b"release v1".to_vec();
    let checks = vec![valid(&payload, &[100])];
    assert_eq!(
        session.connection.authenticate(42, &payload, &checks).unwrap_err(),
        FeroError::QuorumNotMet
    );
}

#[test]
fn weight_equal_to_threshold_authorizes() {
    let session = store_with_two_approvers(4);
    let payload = b"exact".to_vec();
    let checks = vec![valid(&payload, &[100]), valid(&payload, &[200])];
    assert!(session.connection.authenticate(42, &payload, &checks).is_ok());
}

#[test]
fn duplicate_signatures_count_once() {
    let session = store_with_two_approvers(3);
    let payload = b"dup".to_vec();
    let checks = vec![
        valid(&payload, &[100]),
        valid(&payload, &[100]),
        valid(&payload, &[100]),
    ];
    assert_eq!(
        session.connection.authenticate(42, &payload, &checks).unwrap_err(),
        FeroError::QuorumNotMet
    );
}

#[test]
fn duplicate_signer_still_meets_lower_threshold() {
    let session = store_with_two_approvers(2);
    let payload = b"dup".to_vec();
    let checks = vec![valid(&payload, &[100]), valid(&payload, &[100])];
    assert!(session.connection.authenticate(42, &payload, &checks).is_ok());
}

#[test]
fn counter_signed_signature_carries_both_approvers() {
    let session = store_with_two_approvers(4);
    let payload = b"joint".to_vec();
    let checks = vec![valid(&payload, &[100, 200])];
    assert!(session.connection.authenticate(42, &payload, &checks).is_ok());
}

#[test]
fn mismatched_payload_contributes_nothing_but_does_not_abort() {
    let session = store_with_two_approvers(3);
    let payload = b"real payload".to_vec();
    let other = b"other payload".to_vec();
    let checks = vec![valid(&other, &[100]), valid(&payload, &[200])];
    assert_eq!(
        session.connection.authenticate(42, &payload, &checks).unwrap_err(),
        FeroError::QuorumNotMet
    );
}

#[test]
fn invalid_signature_aborts_even_with_quorum_present() {
    let session = store_with_two_approvers(3);
    let payload = b"abort".to_vec();
    let checks = vec![
        valid(&payload, &[100]),
        SignatureCheck::Invalid,
        valid(&payload, &[200]),
    ];
    assert_eq!(
        session.connection.authenticate(42, &payload, &checks).unwrap_err(),
        FeroError::VerificationFailure
    );
}

#[test]
fn unregistered_signer_contributes_zero() {
    let session = store_with_two_approvers(3);
    let payload = b"stranger".to_vec();
    let checks = vec![valid(&payload, &[999]), valid(&payload, &[100])];
    assert_eq!(
        session.connection.authenticate(42, &payload, &checks).unwrap_err(),
        FeroError::QuorumNotMet
    );
}

#[test]
fn end_to_end_quorum_scenario() {
    let session = store_with_two_approvers(3);
    let payload = b"P".to_vec();
    let both = vec![valid(&payload, &[100]), valid(&payload, &[200])];
    assert!(session.connection.authenticate(42, &payload, &both).is_ok());

    let only_a = vec![valid(&payload, &[100])];
    assert_eq!(
        session.connection.authenticate(42, &payload, &only_a).unwrap_err(),
        FeroError::QuorumNotMet
    );

    let other = b"P-prime".to_vec();
    let wrong_payload = vec![valid(&other, &[100]), valid(&payload, &[200])];
    assert_eq!(
        session.connection.authenticate(42, &payload, &wrong_payload).unwrap_err(),
        FeroError::QuorumNotMet
    );
}

#[test]
fn duplicate_key_registration_is_a_constraint_violation() {
    let mut cfg = Configuration::new();
    cfg.insert_secret_key(5, 42, 1).unwrap();
    assert_eq!(cfg.insert_secret_key(6, 42, 2).unwrap_err(), FeroError::StorageFailure);
    assert_eq!(cfg.secrets.len(), 1);
}

#[test]
fn upsert_approver_is_idempotent() {
    let mut session = store_with_two_approvers(3);
    let first = session.upsert_user_key(300).unwrap();
    let again = session.upsert_user_key(300).unwrap();
    assert_eq!(first.id, again.id);
    assert_eq!(first.key_id, again.key_id);
    assert_eq!(session.connection.users.len(), 3);
    let rows = session.connection.users.iter().filter(|u| u.key_id == 300).count();
    assert_eq!(rows, 1);
}

#[test]
fn upsert_weight_is_idempotent() {
    let mut session = store_with_two_approvers(3);
    let a = session.upsert_user_key(100).unwrap();
    session.upsert_user_key_weight(42, a, 2).unwrap();
    session.upsert_user_key_weight(42, a, 2).unwrap();
    assert_eq!(session.connection.weights.len(), 2);
    assert_eq!(session.connection.weights[0].weight, 2);
}

#[test]
fn upsert_weight_updates_in_place() {
    let mut session = store_with_two_approvers(3);
    let a = session.upsert_user_key(100).unwrap();
    session.upsert_user_key_weight(42, a, 7).unwrap();
    assert_eq!(session.connection.weights.len(), 2);
    assert_eq!(session.connection.weights[0].weight, 7);
    let payload = b"heavier".to_vec();
    let checks = vec![valid(&payload, &[100])];
    assert!(session.connection.authenticate(42, &payload, &checks).is_ok());
}

#[test]
fn weight_for_missing_key_is_not_found() {
    let mut session = store_with_two_approvers(3);
    let ghost_user = UserKey { id: 1, key_id: 100 };
    assert_eq!(
        session.upsert_user_key_weight(77, ghost_user, 1).unwrap_err(),
        FeroError::NotFound
    );
}

#[test]
fn set_threshold_for_missing_key_is_not_found() {
    let mut session = store_with_two_approvers(3);
    assert_eq!(session.set_secret_key_threshold(77, 1).unwrap_err(), FeroError::NotFound);
}

#[test]
fn get_hsm_key_id_reads_the_bound_record() {
    let session = store_with_two_approvers(3);
    assert_eq!(session.get_hsm_key_id().unwrap(), 5);
}

#[test]
fn get_hsm_key_id_reports_a_vanished_record() {
    let mut session = store_with_two_approvers(3);
    session.connection.secrets.clear();
    assert_eq!(session.get_hsm_key_id().unwrap_err(), FeroError::NotFound);
}
