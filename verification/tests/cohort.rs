use crm_migration::error::MigrationError;
use crm_migration::family_refresh::cohort::{
    cohort_step, freeze_request_ok, holds_lease, CohortRow, LeaseFacts,
};

fn row(id: &str, disposition: &str) -> CohortRow {
    CohortRow { source_id: id.to_string(), disposition: disposition.to_string() }
}

fn counter(key: &str, value: &str) -> (String, Option<Vec<u8>>) {
    (key.to_string(), Some(value.as_bytes().to_vec()))
}

fn value<'a>(c: &'a [(String, Option<Vec<u8>>)], key: &str) -> Option<&'a [u8]> {
    c.iter().find(|(k, _)| k == key).and_then(|(_, v)| v.as_deref())
}

#[test]
fn a_page_holds_one_to_fifty_proofs_under_a_positive_epoch() {
    assert!(freeze_request_ok(1, 1));
    assert!(freeze_request_ok(50, 3));
    assert!(!freeze_request_ok(0, 1));
    assert!(!freeze_request_ok(51, 1));
    assert!(!freeze_request_ok(10, 0));
}

fn facts() -> LeaseFacts {
    LeaseFacts {
        bundle_executor: 1,
        executor: 1,
        bundle_state: "preparing".to_string(),
        payer_plan: Some(2),
        bundle_confirmed: false,
        plan_state: "preparing".to_string(),
        plan_confirmed: false,
        lease_token: Some(3),
        lease_epoch: 4,
        live_lease: Some(true),
    }
}

#[test]
fn only_the_live_lease_of_the_paying_plan_freezes() {
    assert!(holds_lease(2, 3, 4, &facts()));
    assert!(!holds_lease(2, 3, 5, &facts()));
    assert!(!holds_lease(9, 3, 4, &facts()));
    let mut expired = facts();
    expired.live_lease = None;
    assert!(!holds_lease(2, 3, 4, &expired));
    let mut confirmed = facts();
    confirmed.bundle_confirmed = true;
    assert!(!holds_lease(2, 3, 4, &confirmed));
}

#[test]
fn a_page_counts_every_proof_and_keeps_those_that_join() {
    let rows = vec![row("10", "original"), row("11", "excluded_deleted"), row("12", "recovery"), row("13", "admitted")];
    let s = cohort_step(3, &"9".to_string(), vec![counter("original", "4")], &rows).unwrap();
    assert_eq!((s.examined, s.finished), (3, false));
    assert_eq!(s.last, "12");
    assert_eq!(s.included, vec![0, 2]);
    assert_eq!(value(&s.counters, "original"), Some(&b"5"[..]));
    assert_eq!(value(&s.counters, "excluded_deleted"), Some(&b"1"[..]));
    assert_eq!(value(&s.counters, "recovery"), Some(&b"1"[..]));
    assert_eq!(value(&s.counters, "admitted"), None);
    let end = cohort_step(5, &"12".to_string(), vec![], &vec![row("13", "admitted")]).unwrap();
    assert_eq!((end.examined, end.finished, end.last.as_str()), (1, true, "13"));
    let empty = cohort_step(5, &"13".to_string(), vec![], &vec![]).unwrap();
    assert_eq!((empty.examined, empty.finished, empty.last.as_str()), (0, true, "13"));
}

#[test]
fn counters_stay_exact_and_within_range() {
    let rows = vec![row("10", "original")];
    let plus = cohort_step(5, &"9".to_string(), vec![counter("original", "+7")], &rows).unwrap();
    assert_eq!(value(&plus.counters, "original"), Some(&b"8"[..]));
    assert_eq!(
        cohort_step(5, &"9".to_string(), vec![counter("original", "seven")], &rows).err(),
        Some(MigrationError::Crypto)
    );
    assert_eq!(
        cohort_step(5, &"9".to_string(), vec![("original".to_string(), None)], &rows).err(),
        Some(MigrationError::Crypto)
    );
    assert_eq!(
        cohort_step(5, &"9".to_string(), vec![counter("original", "9223372036854775807")], &rows).err(),
        Some(MigrationError::StorageLimit)
    );
}
