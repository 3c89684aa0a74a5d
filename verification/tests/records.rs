use dataclass_serializer::dataclass::DataclassFallbackSerializer;
use dataclass_serializer::dataclass::DataclassFastSerializer;
use dataclass_serializer::dataclass::DataclassGenericSerializer;
use dataclass_serializer::dataclass::Routed;
use dataclass_serializer::dataclass::Step;
use dataclass_serializer::error::SerializeError;
use dataclass_serializer::record::Field;
use dataclass_serializer::record::FieldKind;
use dataclass_serializer::record::Record;
use dataclass_serializer::record::Route;
use dataclass_serializer::record::StoreEntry;
use dataclass_serializer::record::StoreKey;
use dataclass_serializer::state::HookRef;
use dataclass_serializer::state::RecordState;
use dataclass_serializer::text::Text;
use dataclass_serializer::value::EmptyMapEmitter;
use dataclass_serializer::value::Member;
use dataclass_serializer::value::ValueSerializer;

#[derive(Clone, Debug, PartialEq)]
enum Val {
    Int(i64),
    Str(String),
    List(Vec<Val>),
    Rec(Record<Val>),
}

#[derive(Debug, PartialEq)]
enum Doc {
    Int(i64),
    Str(String),
    List(Vec<Doc>),
    Mapping(Vec<(String, Doc)>),
}

fn text(s: &str) -> Text {
    Text::new(s.chars().map(|c| c as u32).collect())
}

fn entry(key: &str, value: Val) -> StoreEntry<Val> {
    StoreEntry { key: StoreKey::Text(text(key)), value }
}

fn field(name: &str, kind: FieldKind, value: Val) -> Field<Val> {
    Field { name: text(name), kind, value: Some(value) }
}

fn ints(items: &[i64]) -> Val {
    Val::List(items.iter().map(|i| Val::Int(*i)).collect())
}

fn top(limit: usize) -> RecordState {
    RecordState::new(limit, None)
}

fn write_members(members: Vec<Member<Val>>) -> Result<Doc, SerializeError> {
    let mut out = Vec::new();
    for member in members {
        out.push((member.key, write_value(&member.value)?));
    }
    Ok(Doc::Mapping(out))
}

fn write_value(v: &ValueSerializer<Val>) -> Result<Doc, SerializeError> {
    match v.value {
        Val::Int(i) => Ok(Doc::Int(*i)),
        Val::Str(s) => Ok(Doc::Str(s.clone())),
        Val::List(items) => {
            let mut out = Vec::new();
            for item in items {
                out.push(write_value(&ValueSerializer::new(item, v.state, v.default))?);
            }
            Ok(Doc::List(out))
        }
        Val::Rec(record) => {
            let previous = ValueSerializer::new(record, v.state, v.default);
            write_members(DataclassGenericSerializer::new(&previous).serialize()?)
        }
    }
}

fn store_record(entries: Vec<StoreEntry<Val>>) -> Record<Val> {
    Record { store: Some(entries), fixed_layout: false, fields: Vec::new() }
}

fn nested(levels: usize) -> Val {
    let mut value = Val::Int(7);
    for _ in 0..levels {
        value = Val::Rec(store_record(vec![entry("inner", value)]));
    }
    value
}

fn keys(members: &[Member<Val>]) -> Vec<String> {
    members.iter().map(|m| m.key.clone()).collect()
}

#[test]
fn fast_path_elides_private_key() {
    let store = vec![entry("a", Val::Int(1)), entry("_b", Val::Int(2)), entry("c", ints(&[1, 2]))];
    let members = DataclassFastSerializer::new(&store, top(255), None).serialize().unwrap();
    assert_eq!(
        write_members(members),
        Ok(Doc::Mapping(vec![
            ("a".to_string(), Doc::Int(1)),
            ("c".to_string(), Doc::List(vec![Doc::Int(1), Doc::Int(2)])),
        ]))
    );
}

#[test]
fn fast_path_members_carry_advanced_state_and_hook() {
    let store = vec![entry("a", Val::Int(1))];
    let hook = Some(HookRef { id: 9 });
    let state = RecordState { depth: 4, limit: 255, fallback_hook: hook };
    let members = DataclassFastSerializer::new(&store, state, hook).serialize().unwrap();
    assert_eq!(members.len(), 1);
    assert_eq!(members[0].key, "a");
    assert_eq!(members[0].value.value, &Val::Int(1));
    assert_eq!(members[0].value.state, RecordState { depth: 5, limit: 255, fallback_hook: hook });
    assert_eq!(members[0].value.default, hook);
}

#[test]
fn fixed_layout_record_elides_derived_field() {
    let record = Record {
        store: None,
        fixed_layout: true,
        fields: vec![
            field("name", FieldKind::Ordinary, Val::Str("x".to_string())),
            field("computed_total", FieldKind::Derived, Val::Int(10)),
        ],
    };
    let previous = ValueSerializer::new(&record, top(255), None);
    let members = DataclassGenericSerializer::new(&previous).serialize().unwrap();
    assert_eq!(
        write_members(members),
        Ok(Doc::Mapping(vec![("name".to_string(), Doc::Str("x".to_string()))]))
    );
}

#[test]
fn fixed_layout_takes_precedence_over_store() {
    let record = Record {
        store: Some(vec![entry("stale", Val::Int(0))]),
        fixed_layout: true,
        fields: vec![field("name", FieldKind::Ordinary, Val::Int(1))],
    };
    assert_eq!(record.route(), Route::Fallback);
    let previous = ValueSerializer::new(&record, top(255), None);
    let members = DataclassGenericSerializer::new(&previous).serialize().unwrap();
    assert_eq!(keys(&members), vec!["name".to_string()]);
}

#[test]
fn store_without_fixed_layout_goes_fast() {
    let record = Record {
        store: Some(vec![entry("live", Val::Int(0))]),
        fixed_layout: false,
        fields: vec![field("declared", FieldKind::Ordinary, Val::Int(1))],
    };
    assert_eq!(record.route(), Route::Fast);
    let previous = ValueSerializer::new(&record, top(255), None);
    let members = DataclassGenericSerializer::new(&previous).serialize().unwrap();
    assert_eq!(keys(&members), vec!["live".to_string()]);
}

#[test]
fn missing_store_falls_back_to_fields_with_same_output() {
    let with_store = store_record(vec![
        entry("a", Val::Int(1)),
        entry("_b", Val::Int(2)),
        entry("c", ints(&[1, 2])),
    ]);
    let without_store = Record {
        store: None,
        fixed_layout: false,
        fields: vec![
            field("a", FieldKind::Ordinary, Val::Int(1)),
            field("_b", FieldKind::Ordinary, Val::Int(2)),
            field("c", FieldKind::Ordinary, ints(&[1, 2])),
        ],
    };
    assert_eq!(without_store.route(), Route::Fallback);
    let fast_prev = ValueSerializer::new(&with_store, top(255), None);
    let slow_prev = ValueSerializer::new(&without_store, top(255), None);
    let fast = DataclassGenericSerializer::new(&fast_prev).serialize().unwrap();
    let slow = DataclassGenericSerializer::new(&slow_prev).serialize().unwrap();
    assert_eq!(fast, slow);
    assert_eq!(keys(&slow), vec!["a".to_string(), "c".to_string()]);
}

#[test]
fn fast_and_fallback_agree_on_matching_store_and_schema() {
    let record = Record {
        store: Some(vec![entry("x", Val::Int(1)), entry("_y", Val::Int(2)), entry("z", Val::Int(3))]),
        fixed_layout: false,
        fields: vec![
            field("x", FieldKind::Ordinary, Val::Int(1)),
            field("_y", FieldKind::Ordinary, Val::Int(2)),
            field("z", FieldKind::Ordinary, Val::Int(3)),
        ],
    };
    let store = record.store.as_ref().unwrap();
    let fast = DataclassFastSerializer::new(store, top(8), None).serialize();
    let slow = DataclassFallbackSerializer::new(&record, top(8), None).serialize();
    assert_eq!(fast, slow);
    assert_eq!(keys(&fast.unwrap()), vec!["x".to_string(), "z".to_string()]);
}

#[test]
fn empty_store_gives_empty_mapping() {
    let store: Vec<StoreEntry<Val>> = Vec::new();
    let members = DataclassFastSerializer::new(&store, top(255), None).serialize().unwrap();
    assert!(members.is_empty());
}

#[test]
fn empty_schema_gives_empty_mapping() {
    let record: Record<Val> = Record { store: None, fixed_layout: false, fields: Vec::new() };
    let members = DataclassFallbackSerializer::new(&record, top(255), None).serialize().unwrap();
    assert!(members.is_empty());
}

#[test]
fn empty_map_emitter_emits_nothing() {
    let members: Vec<Member<Val>> = EmptyMapEmitter::new().serialize();
    assert!(members.is_empty());
}

#[test]
fn store_of_private_keys_only_gives_empty_mapping() {
    let store = vec![entry("_a", Val::Int(1)), entry("__b", Val::Int(2))];
    let members = DataclassFastSerializer::new(&store, top(255), None).serialize().unwrap();
    assert!(members.is_empty());
}

#[test]
fn non_text_key_is_key_must_be_str() {
    let store = vec![entry("a", Val::Int(1)), StoreEntry { key: StoreKey::NonText, value: Val::Int(2) }];
    let result = DataclassFastSerializer::new(&store, top(255), None).serialize();
    assert_eq!(result, Err(SerializeError::KeyMustBeStr));
}

#[test]
fn undecodable_key_is_invalid_str() {
    let lone_surrogate = Text::new(vec![0x61, 0xD800]);
    let store = vec![StoreEntry { key: StoreKey::Text(lone_surrogate), value: Val::Int(1) }];
    let result = DataclassFastSerializer::new(&store, top(255), None).serialize();
    assert_eq!(result, Err(SerializeError::InvalidStr));
}

#[test]
fn code_point_above_range_is_invalid_str() {
    let store = vec![StoreEntry { key: StoreKey::Text(Text::new(vec![0x110000])), value: Val::Int(1) }];
    let result = DataclassFastSerializer::new(&store, top(255), None).serialize();
    assert_eq!(result, Err(SerializeError::InvalidStr));
}

#[test]
fn undecodable_private_key_is_still_invalid_str() {
    let store = vec![StoreEntry { key: StoreKey::Text(Text::new(vec![0x5F, 0xDFFF])), value: Val::Int(1) }];
    let result = DataclassFastSerializer::new(&store, top(255), None).serialize();
    assert_eq!(result, Err(SerializeError::InvalidStr));
}

#[test]
fn first_fault_wins() {
    let store = vec![
        entry("ok", Val::Int(0)),
        StoreEntry { key: StoreKey::Text(Text::new(vec![0xD800])), value: Val::Int(1) },
        StoreEntry { key: StoreKey::NonText, value: Val::Int(2) },
    ];
    let result = DataclassFastSerializer::new(&store, top(255), None).serialize();
    assert_eq!(result, Err(SerializeError::InvalidStr));
}

#[test]
fn undecodable_field_name_is_invalid_str() {
    let record = Record {
        store: None,
        fixed_layout: false,
        fields: vec![Field { name: Text::new(vec![0xDC00]), kind: FieldKind::Ordinary, value: Some(Val::Int(1)) }],
    };
    let result = DataclassFallbackSerializer::new(&record, top(255), None).serialize();
    assert_eq!(result, Err(SerializeError::InvalidStr));
}

#[test]
fn derived_field_is_passed_over_before_its_name_is_decoded() {
    let record: Record<Val> = Record {
        store: None,
        fixed_layout: false,
        fields: vec![
            Field { name: Text::new(vec![0xDC00]), kind: FieldKind::Derived, value: None },
            field("kept", FieldKind::Ordinary, Val::Int(3)),
        ],
    };
    let members = DataclassFallbackSerializer::new(&record, top(255), None).serialize().unwrap();
    assert_eq!(keys(&members), vec!["kept".to_string()]);
}

#[test]
fn private_field_needs_no_attribute() {
    let record: Record<Val> = Record {
        store: None,
        fixed_layout: false,
        fields: vec![Field { name: text("_hidden"), kind: FieldKind::Ordinary, value: None }],
    };
    let members = DataclassFallbackSerializer::new(&record, top(255), None).serialize().unwrap();
    assert!(members.is_empty());
}

#[test]
fn empty_name_is_not_private() {
    let store = vec![entry("", Val::Int(1))];
    let members = DataclassFastSerializer::new(&store, top(255), None).serialize().unwrap();
    assert_eq!(keys(&members), vec!["".to_string()]);
}

#[test]
fn non_ascii_key_decodes() {
    let store = vec![entry("h\u{e9}\u{1F600}", Val::Int(1))];
    let members = DataclassFastSerializer::new(&store, top(255), None).serialize().unwrap();
    assert_eq!(keys(&members), vec!["h\u{e9}\u{1F600}".to_string()]);
}

#[test]
fn text_to_str_and_is_private() {
    assert_eq!(text("abc").to_str(), Some("abc".to_string()));
    assert_eq!(Text::new(vec![0x61, 0xD800]).to_str(), None);
    assert!(text("_x").is_private());
    assert!(!text("x_").is_private());
    assert!(!text("").is_private());
}

#[test]
fn advance_adds_one_and_keeps_the_rest() {
    let hook = Some(HookRef { id: 3 });
    let state = RecordState::new(10, hook);
    assert_eq!(state, RecordState { depth: 0, limit: 10, fallback_hook: hook });
    let next = state.advance();
    assert_eq!(next, RecordState { depth: 1, limit: 10, fallback_hook: hook });
    assert_eq!(state.depth, 0);
    assert_eq!(next.advance().depth, 2);
}

#[test]
fn recursion_limit_is_reached_at_the_limit() {
    assert!(!RecordState { depth: 2, limit: 3, fallback_hook: None }.recursion_limit());
    assert!(RecordState { depth: 3, limit: 3, fallback_hook: None }.recursion_limit());
    assert!(RecordState { depth: 4, limit: 3, fallback_hook: None }.recursion_limit());
    assert!(RecordState::new(0, None).recursion_limit());
}

#[test]
fn dispatcher_fails_at_the_limit_before_looking_at_keys() {
    let record = store_record(vec![StoreEntry { key: StoreKey::NonText, value: Val::Int(1) }]);
    let at_limit = RecordState { depth: 3, limit: 3, fallback_hook: None };
    let previous = ValueSerializer::new(&record, at_limit, None);
    assert_eq!(
        DataclassGenericSerializer::new(&previous).serialize(),
        Err(SerializeError::RecursionLimit)
    );
    let below = RecordState { depth: 2, limit: 3, fallback_hook: None };
    let previous = ValueSerializer::new(&record, below, None);
    assert_eq!(
        DataclassGenericSerializer::new(&previous).serialize(),
        Err(SerializeError::KeyMustBeStr)
    );
}

#[test]
fn nesting_below_the_limit_succeeds() {
    let value = nested(3);
    let doc = write_value(&ValueSerializer::new(&value, top(3), None)).unwrap();
    let expected = Doc::Mapping(vec![(
        "inner".to_string(),
        Doc::Mapping(vec![("inner".to_string(), Doc::Mapping(vec![("inner".to_string(), Doc::Int(7))]))]),
    )]);
    assert_eq!(doc, expected);
}

#[test]
fn nesting_at_the_limit_fails() {
    let value = nested(4);
    assert_eq!(
        write_value(&ValueSerializer::new(&value, top(3), None)),
        Err(SerializeError::RecursionLimit)
    );
}

#[test]
fn siblings_do_not_share_depth() {
    let record = store_record(vec![
        entry("left", nested(2)),
        entry("right", nested(2)),
    ]);
    let value = Val::Rec(record);
    assert!(write_value(&ValueSerializer::new(&value, top(3), None)).is_ok());
}

#[test]
fn steps_walk_the_store_in_order() {
    let store = vec![
        entry("_skip", Val::Int(0)),
        entry("a", Val::Int(1)),
        entry("_b", Val::Int(2)),
        entry("c", Val::Int(3)),
        entry("_tail", Val::Int(4)),
    ];
    let walk = DataclassFastSerializer::new(&store, top(255), None);
    match walk.step(0) {
        Step::Emit { member, next } => {
            assert_eq!(member.key, "a");
            assert_eq!(member.value.value, &Val::Int(1));
            assert_eq!(member.value.state.depth, 1);
            assert_eq!(next, 2);
        }
        other => panic!("unexpected step {:?}", other),
    }
    match walk.step(2) {
        Step::Emit { member, next } => {
            assert_eq!(member.key, "c");
            assert_eq!(next, 4);
        }
        other => panic!("unexpected step {:?}", other),
    }
    assert_eq!(walk.step(4), Step::End);
    assert_eq!(walk.step(5), Step::End);
    assert_eq!(walk.step(99), Step::End);
}

#[test]
fn step_reports_the_fault_it_comes_to() {
    let store = vec![
        entry("a", Val::Int(1)),
        entry("_b", Val::Int(2)),
        StoreEntry { key: StoreKey::NonText, value: Val::Int(3) },
        entry("d", Val::Int(4)),
    ];
    let walk = DataclassFastSerializer::new(&store, top(255), None);
    assert!(matches!(walk.step(0), Step::Emit { next: 1, .. }));
    assert_eq!(walk.step(1), Step::Fault { error: SerializeError::KeyMustBeStr });
    assert_eq!(walk.serialize(), Err(SerializeError::KeyMustBeStr));
}

#[test]
fn steps_add_up_to_serialize() {
    let record: Record<Val> = Record {
        store: None,
        fixed_layout: true,
        fields: vec![
            field("x", FieldKind::Ordinary, Val::Int(1)),
            field("total", FieldKind::Derived, Val::Int(2)),
            field("_y", FieldKind::Ordinary, Val::Int(3)),
            field("z", FieldKind::Ordinary, Val::Int(4)),
        ],
    };
    let walk = DataclassFallbackSerializer::new(&record, top(255), None);
    let mut stepped = Vec::new();
    let mut cursor = 0;
    loop {
        match walk.step(cursor) {
            Step::Emit { member, next } => {
                stepped.push(member);
                cursor = next;
            }
            Step::End => break,
            Step::Fault { error } => panic!("unexpected fault {:?}", error),
        }
    }
    assert_eq!(Ok(stepped), walk.serialize());
}

#[test]
fn dispatch_sets_up_the_routed_serializer() {
    let hook = Some(HookRef { id: 5 });
    let state = RecordState { depth: 1, limit: 4, fallback_hook: hook };
    let record = store_record(vec![entry("a", Val::Int(1))]);
    let previous = ValueSerializer::new(&record, state, hook);
    match DataclassGenericSerializer::new(&previous).dispatch() {
        Ok(Routed::Fast(fast)) => {
            assert_eq!(fast.store, record.store.as_ref().unwrap());
            assert_eq!(fast.state, RecordState { depth: 2, limit: 4, fallback_hook: hook });
            assert_eq!(fast.default, hook);
        }
        _ => panic!("expected the store serializer"),
    }
    let slotted = Record { store: None, fixed_layout: true, fields: vec![field("a", FieldKind::Ordinary, Val::Int(1))] };
    let previous = ValueSerializer::new(&slotted, state, hook);
    match DataclassGenericSerializer::new(&previous).dispatch() {
        Ok(Routed::Fallback(fallback)) => {
            assert_eq!(fallback.record, &slotted);
            assert_eq!(fallback.state.depth, 2);
            assert_eq!(fallback.default, hook);
        }
        _ => panic!("expected the field serializer"),
    }
    let spent = RecordState { depth: 4, limit: 4, fallback_hook: hook };
    let previous = ValueSerializer::new(&slotted, spent, hook);
    assert!(matches!(
        DataclassGenericSerializer::new(&previous).dispatch(),
        Err(SerializeError::RecursionLimit)
    ));
}

#[test]
fn removing_a_private_entry_changes_nothing() {
    let with = vec![entry("a", Val::Int(1)), entry("_b", Val::Int(2)), entry("c", Val::Int(3))];
    let other_value = vec![entry("a", Val::Int(1)), entry("_b", ints(&[9, 9])), entry("c", Val::Int(3))];
    let without = vec![entry("a", Val::Int(1)), entry("c", Val::Int(3))];
    let a = DataclassFastSerializer::new(&with, top(255), None).serialize();
    let b = DataclassFastSerializer::new(&other_value, top(255), None).serialize();
    let c = DataclassFastSerializer::new(&without, top(255), None).serialize();
    assert_eq!(a, c);
    assert_eq!(b, c);
}
