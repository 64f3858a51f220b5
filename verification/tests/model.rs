use crm_migration::family_refresh::model::{
    compare_history, compare_native, decode_count, encode_count, removable_tag, Baseline,
    CountError, Counts, Current, Family, HistoryChange, Hold, Kind, Outcome, TagState,
};
use uuid::Uuid;

fn id() -> u128 {
    Uuid::new_v4().as_u128()
}

fn records() -> (Baseline<Vec<u8>>, Current<Vec<u8>>) {
    let b = Baseline {
        result_id: id(),
        person_id: id(),
        target_id: id(),
        revision: 1,
        native: br#"{"value":500}"#.to_vec(),
        owned: true,
        head_id: None,
    };
    let c = Current {
        person_id: b.person_id,
        target_id: b.target_id,
        revision: b.revision,
        native: b.native.clone(),
        deleted: false,
        head_id: None,
    };
    (b, c)
}

#[test]
fn edit_and_revert_and_equal_source_cannot_erase_local_mutation() {
    let (b, mut c) = records();
    c.revision += 1;
    let desired = c.native.clone();
    assert_eq!(
        compare_native(Some(&b), Some(&c), &desired, true, true),
        Outcome::Held(Hold::LocalChange)
    );
}

#[test]
fn qualified_updates_require_positive_ownership_and_exact_baseline() {
    let (mut b, mut c) = records();
    let desired = br#"{"value":550}"#.to_vec();
    assert_eq!(compare_native(Some(&b), Some(&c), &desired, true, true), Outcome::Update);
    b.owned = false;
    assert_eq!(
        compare_native(Some(&b), Some(&c), &desired, true, true),
        Outcome::Held(Hold::BaselineUnproven)
    );
    let same = c.native.clone();
    assert_eq!(compare_native(Some(&b), Some(&c), &same, true, true), Outcome::AlreadyCurrent);
    c.native = br#"{"value":525}"#.to_vec();
    assert_eq!(
        compare_native(Some(&b), Some(&c), &desired, true, true),
        Outcome::Held(Hold::LocalChange)
    );
}

#[test]
fn consumed_or_deleted_identity_never_becomes_new() {
    let (b, mut c) = records();
    let empty = b"{}".to_vec();
    assert_eq!(
        compare_native(None, None, &empty, true, true),
        Outcome::Held(Hold::BaselineUnproven)
    );
    assert_eq!(
        compare_native(Some(&b), None, &empty, true, true),
        Outcome::Held(Hold::TargetErased)
    );
    c.deleted = true;
    assert_eq!(
        compare_native(Some(&b), Some(&c), &empty, true, true),
        Outcome::Held(Hold::TargetErased)
    );
    assert_eq!(compare_native(None, None, &empty, false, true), Outcome::Insert);
    assert_eq!(
        compare_native(None, None, &empty, false, false),
        Outcome::Held(Hold::FirstCoverageRequired)
    );
}

#[test]
fn newer_heads_and_other_people_cannot_be_reversed_by_remainder() {
    let (b, mut c) = records();
    let empty = b"{}".to_vec();
    c.head_id = Some(id());
    assert_eq!(
        compare_native(Some(&b), Some(&c), &empty, true, true),
        Outcome::Held(Hold::StaleHead)
    );
    c.person_id = id();
    assert_eq!(
        compare_native(Some(&b), Some(&c), &empty, true, true),
        Outcome::Held(Hold::IdentityMismatch)
    );
}

#[test]
fn tag_absence_needs_complete_list_all_aliases_and_owned_unchanged_link() {
    let (mut b, c) = records();
    assert!(removable_tag(TagState::Complete, false, &b, &c));
    for state in [TagState::Missing, TagState::Null, TagState::Invalid] {
        assert!(!removable_tag(state, false, &b, &c));
    }
    assert!(!removable_tag(TagState::Complete, true, &b, &c));
    b.owned = false;
    assert!(!removable_tag(TagState::Complete, false, &b, &c));
}

#[test]
fn history_versions_require_later_unambiguous_same_person_source() {
    let p = id();
    let old = [1u8; 32];
    let new = [2u8; 32];
    assert_eq!(
        compare_history(Some((&old[..], p)), &new, p, true, false, false),
        HistoryChange::Correction
    );
    assert_eq!(
        compare_history(Some((&old[..], p)), &old, p, true, false, false),
        HistoryChange::AlreadyCurrent
    );
    assert_eq!(
        compare_history(Some((&old[..], p)), &new, p, false, false, false),
        HistoryChange::Held(Hold::SourceNotNewer)
    );
    assert_eq!(
        compare_history(Some((&old[..], p)), &new, p, true, true, false),
        HistoryChange::Held(Hold::SourceConflict)
    );
    assert_eq!(
        compare_history(Some((&old[..], p)), &new, id(), true, false, false),
        HistoryChange::Held(Hold::IdentityMismatch)
    );
    assert_eq!(
        compare_history(None, &new, p, true, false, true),
        HistoryChange::Held(Hold::TargetErased)
    );
}

#[test]
fn accumulating_counts_checks_every_action_and_wire_overflow() {
    let a = Counts { units: 1, inserts: 1, ..Counts::default() };
    let b = Counts { units: 1, history_corrections: 1, ..Counts::default() };
    let sum = a.checked_add(&b).unwrap();
    assert_eq!(sum.units, 2);
    assert_eq!(sum.inserts, 1);
    assert_eq!(sum.history_corrections, 1);
    assert!(sum.reconciles());
    assert!(Counts { units: i64::MAX as u64, ..Counts::default() }.checked_add(&a).is_none());
    assert!(Counts { source_only: u64::MAX, ..Counts::default() }.checked_add(&a).is_none());
}

#[test]
fn count_wire_contract_is_exact_and_strict() {
    let counts = Counts {
        units: 9_007_199_254_740_993,
        held: 9_007_199_254_740_993,
        ..Counts::default()
    };
    let units = encode_count(counts.units).unwrap();
    assert_eq!(units, b"9007199254740993".to_vec());
    let decoded = Counts {
        units: decode_count(std::str::from_utf8(&units).unwrap()).unwrap(),
        held: decode_count(std::str::from_utf8(&encode_count(counts.held).unwrap()).unwrap())
            .unwrap(),
        ..Counts::default()
    };
    assert!(decoded.reconciles());
    for bad in ["01", "-1", "1e3"] {
        assert_eq!(decode_count(bad), Err(CountError::InvalidDecimal));
    }
    assert_eq!(decode_count("9223372036854775808"), Err(CountError::OutOfRange));
    assert!(!Counts { units: 1, inserts: u64::MAX, updates: 2, ..Counts::default() }.reconciles());
}

#[test]
fn count_wire_round_trips_and_rejects_empty_text() {
    for value in [0u64, 7, 10, 9_007_199_254_740_993, i64::MAX as u64] {
        let text = encode_count(value).unwrap();
        assert_eq!(decode_count(std::str::from_utf8(&text).unwrap()), Ok(value));
    }
    assert_eq!(encode_count(i64::MAX as u64 + 1), Err(CountError::OutOfRange));
    assert_eq!(decode_count(""), Err(CountError::InvalidDecimal));
    assert_eq!(decode_count("12345678901234567890"), Err(CountError::InvalidDecimal));
}

#[test]
fn accumulation_is_commutative_and_zero_is_neutral() {
    let a = Counts { units: 3, updates: 2, already_current: 1, tag_removals: 4, ..Counts::default() };
    let b = Counts { units: 2, held: 2, field_clears: 1, ..Counts::default() };
    let ab = a.checked_add(&b).unwrap();
    let ba = b.checked_add(&a).unwrap();
    assert_eq!(ab, ba);
    assert_eq!(ab.units, 5);
    assert_eq!(ab.tag_removals, 4);
    assert!(ab.reconciles());
    assert_eq!(a.checked_add(&Counts::default()).unwrap(), a);
    assert!(!Counts::default().useful());
    assert!(a.useful());
}

#[test]
fn wire_names_are_stable() {
    assert_eq!(Hold::FirstCoverageRequired.as_str(), "first_coverage_required");
    assert_eq!(Hold::UnitTooLarge.as_str(), "unit_too_large");
    assert_eq!(Family::Metadata.as_str(), "metadata");
    assert_eq!(Kind::Note.family(), Family::Activity);
}
