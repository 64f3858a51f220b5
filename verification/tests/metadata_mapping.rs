use crm_migration::error::MigrationError;
use crm_migration::family_refresh::metadata_delta::{CustomFieldValue, FieldIntent, FieldType, Tags};
use crm_migration::family_refresh::metadata_mapping::{
    convert_person, option_lookup_text, CatalogUnit, Converted, Definition, FieldUnit, NativeValue,
    OptionUnit, PersonRecord, TagRow,
};
use crm_migration::family_refresh::model::Hold;
use chrono::Datelike;

fn tag(raw: &str, label: &str, key: u8) -> TagRow {
    TagRow { clean: true, raw: Some(raw.into()), label: Some(label.into()), alias_key: vec![key; 32] }
}

fn person(tags: Vec<TagRow>, fields: Vec<Result<FieldUnit, Hold>>) -> PersonRecord {
    PersonRecord {
        clean: true,
        tags_state: "present".into(),
        tags,
        tag_units: vec![
            ("Hot".into(), Ok(CatalogUnit { unit: 1, target: 100 })),
            ("Gone".into(), Err(Hold::MappingRequired)),
        ],
        supplied_fields: 1,
        selected_fields: 1,
        fields,
    }
}

fn field(target: u128, kind: &str, disposition: &str, value: Option<NativeValue>) -> FieldUnit {
    FieldUnit {
        unit: CatalogUnit { unit: target + 1000, target },
        definition: Some(Definition { field_type: Some(kind.into()), source_id: "7".into() }),
        disposition: disposition.into(),
        value,
        native_valid: true,
        number: None,
        option: None,
    }
}

fn ready(r: Result<Result<Converted, Hold>, MigrationError>) -> Converted {
    match r {
        Ok(Ok(c)) => c,
        _ => panic!("expected a conversion"),
    }
}

fn held(r: Result<Result<Converted, Hold>, MigrationError>) -> Option<Hold> {
    match r {
        Ok(Err(h)) => Some(h),
        _ => None,
    }
}

#[test]
fn tags_map_through_their_catalog_groups() {
    let c = ready(convert_person(&person(vec![tag("hot", "Hot", 1), tag("HOT", "Hot", 2)], vec![]), &vec![5], &vec![], 100));
    match &c.source.tags {
        Tags::Complete(v) => {
            assert_eq!(v.len(), 2);
            assert_eq!((v[0].1, v[1].1), (100, 100));
            assert!(v[0].0 != v[1].0);
        }
        _ => panic!("complete tags"),
    }
    assert!(c.catalog.live_tags.contains(&5) && c.catalog.live_tags.contains(&100));
    assert!(c.units.contains(&1));
    assert_eq!(c.catalog.tag_limit, 100);
    assert_eq!(held(convert_person(&person(vec![tag("x", "Gone", 1)], vec![]), &vec![], &vec![], 100)), Some(Hold::MappingRequired));
    let mut dirty = tag("hot", "Hot", 1);
    dirty.clean = false;
    assert_eq!(held(convert_person(&person(vec![dirty], vec![]), &vec![], &vec![], 100)), Some(Hold::UnsupportedSource));
    assert_eq!(convert_person(&person(vec![tag("x", "Unknown", 1)], vec![]), &vec![], &vec![], 100).err(), Some(MigrationError::Crypto));
    let mut short = tag("hot", "Hot", 1);
    short.alias_key = vec![1; 31];
    assert_eq!(convert_person(&person(vec![short], vec![]), &vec![], &vec![], 100).err(), Some(MigrationError::Crypto));
}

#[test]
fn missing_and_null_tag_lists_and_limits() {
    let mut p = person(vec![], vec![]);
    p.tags_state = "not_supplied".into();
    assert!(matches!(ready(convert_person(&p, &vec![], &vec![], 100)).source.tags, Tags::Missing));
    p.tags_state = "source_null".into();
    assert!(matches!(ready(convert_person(&p, &vec![], &vec![], 100)).source.tags, Tags::Null));
    p.tags_state = "odd".into();
    assert_eq!(held(convert_person(&p, &vec![], &vec![], 100)), Some(Hold::UnsupportedSource));
    let many: Vec<u128> = (0..201).collect();
    assert_eq!(held(convert_person(&person(vec![], vec![]), &many, &vec![], 100)), Some(Hold::TargetUnavailable));
    let mut wide = person(vec![], vec![]);
    wide.supplied_fields = 51;
    assert_eq!(held(convert_person(&wide, &vec![], &vec![], 100)), Some(Hold::UnitTooLarge));
    let mut unclean = person(vec![], vec![]);
    unclean.clean = false;
    assert_eq!(held(convert_person(&unclean, &vec![], &vec![], 100)), Some(Hold::UnsupportedSource));
}

#[test]
fn fields_convert_to_intents_and_owned_omissions_stay_missing() {
    let day = chrono::NaiveDate::from_ymd_opt(2024, 3, 5).unwrap().num_days_from_ce();
    let mut number = field(20, "number", "eligible", Some(NativeValue::Number("1.25".into())));
    number.number = Some("1.2500".into());
    let fields = vec![
        Ok(field(10, "text", "eligible", Some(NativeValue::Text("hi".into())))),
        Ok(number),
        Ok(field(30, "date", "eligible", Some(NativeValue::Date("2024-03-05".into())))),
        Ok(field(40, "text", "source_null", None)),
        Ok(field(50, "text", "not_supplied", None)),
    ];
    let c = ready(convert_person(&person(vec![], fields), &vec![], &vec![90, 10, 60], 100));
    let f = &c.source.fields;
    assert_eq!(f.len(), 7);
    assert!(matches!(&f[0], (10, FieldIntent::SetValue(v)) if matches!(&v.value, CustomFieldValue::Text(s) if s == "hi")));
    assert!(matches!(&f[1], (20, FieldIntent::SetValue(v)) if matches!(&v.value, CustomFieldValue::Number(s) if s == "1.2500")));
    assert!(matches!(&f[2], (30, FieldIntent::SetValue(v)) if matches!(v.value, CustomFieldValue::Date(d) if d == day)));
    assert!(matches!(f[3], (40, FieldIntent::UnknownNull)));
    assert!(matches!(f[4], (50, FieldIntent::Missing)));
    assert!(matches!(f[5], (60, FieldIntent::Missing)));
    assert!(matches!(f[6], (90, FieldIntent::Missing)));
    assert_eq!(c.catalog.live_fields.len(), 5);
    assert!(c.catalog.live_fields.iter().any(|(k, fl)| *k == 20 && fl.kind == FieldType::Number));
    assert!(c.units.contains(&1010));
}

#[test]
fn choices_need_their_option_unit_on_the_same_field() {
    let mut choice = field(10, "choice", "eligible", Some(NativeValue::Choice("gold".into())));
    choice.option = Some(Ok(OptionUnit { unit: 7, target: 70, field: Some(10) }));
    let c = ready(convert_person(&person(vec![], vec![Ok(choice.clone())]), &vec![], &vec![], 100));
    assert!(matches!(&c.source.fields[0], (10, FieldIntent::SetValue(v)) if matches!(v.value, CustomFieldValue::Choice(70))));
    let (_, live) = &c.catalog.live_fields[0];
    assert_eq!((live.kind, live.live_options.clone()), (FieldType::Choice, vec![70]));
    assert!(c.units.contains(&7));
    let mut foreign = choice.clone();
    foreign.option = Some(Ok(OptionUnit { unit: 7, target: 70, field: Some(11) }));
    assert_eq!(convert_person(&person(vec![], vec![Ok(foreign)]), &vec![], &vec![], 100).err(), Some(MigrationError::Crypto));
    let mut unmapped = choice;
    unmapped.option = Some(Err(Hold::MappingRequired));
    assert_eq!(held(convert_person(&person(vec![], vec![Ok(unmapped)]), &vec![], &vec![], 100)), Some(Hold::MappingRequired));
    assert_eq!(option_lookup_text(&"7".to_string(), &"gold".to_string()), Ok(b"[\"7\",\"gold\"]".to_vec()));
}

#[test]
fn inconsistent_field_evidence_is_refused() {
    let bad_date = field(30, "date", "eligible", Some(NativeValue::Date("2024-13-01".into())));
    assert_eq!(convert_person(&person(vec![], vec![Ok(bad_date)]), &vec![], &vec![], 100).err(), Some(MigrationError::Crypto));
    let mut undefined = field(30, "text", "eligible", Some(NativeValue::Text("x".into())));
    undefined.definition = None;
    assert_eq!(convert_person(&person(vec![], vec![Ok(undefined)]), &vec![], &vec![], 100).err(), Some(MigrationError::Crypto));
    let odd_kind = field(30, "money", "eligible", Some(NativeValue::Text("x".into())));
    assert_eq!(convert_person(&person(vec![], vec![Ok(odd_kind)]), &vec![], &vec![], 100).err(), Some(MigrationError::Crypto));
    let odd = field(30, "text", "weird", None);
    assert_eq!(held(convert_person(&person(vec![], vec![Ok(odd)]), &vec![], &vec![], 100)), Some(Hold::UnsupportedSource));
    assert_eq!(held(convert_person(&person(vec![], vec![Err(Hold::MappingRequired)]), &vec![], &vec![], 100)), Some(Hold::MappingRequired));
}
