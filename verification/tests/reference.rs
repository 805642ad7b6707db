use cheese_paper::reference::{longest_common_prefix, ObjectEntry, ObjectReference, UnknownReference};
use cheese_paper::schema::{character_type, place_type, scene_type};
use icu_casemap::CaseMapper;

#[test]
fn test_largest_common_prefix() {
    let s1 = "👋🏻"; // U+1F44B U+1F3FB
    let s2 = "👋🏿"; // U+1F44B U+1F3FF
    let s3 = "🤚🏻"; // U+1F91A U+1F3FB

    assert_eq!(longest_common_prefix(s1, s1), s1);
    assert_eq!(longest_common_prefix("value", "val1"), "val");
    assert_eq!(longest_common_prefix("value", ""), "");
    assert_eq!(longest_common_prefix("1value", "2value"), "");

    assert_eq!(longest_common_prefix(s1, s3), "");

    assert_eq!(longest_common_prefix(s1, s2), "👋");
    assert_eq!(longest_common_prefix("test👋🏻", "test👋🏿"), "test👋");

    assert_eq!(longest_common_prefix("😶‍🌫️", "😶"), "😶");
    assert_eq!(longest_common_prefix("🏳️‍🌈", "🏳️"), "🏳️");
    assert_eq!(longest_common_prefix("🙂‍↔️", "🙂‍↕️"), "🙂\u{200d}");
    assert_eq!(longest_common_prefix("🏳️‍🌈", "🏳️‍⚧️"), "🏳️\u{200d}");
}

#[test]
fn test_case_mapping() {
    let cm = CaseMapper::new();

    assert_eq!(cm.fold_string("val"), cm.fold_string("val"));
    assert_eq!(cm.fold_string("Val"), cm.fold_string("val"));
    assert_eq!(cm.fold_string("val"), cm.fold_string("VAL"));
    assert_eq!(cm.fold_string("Straße"), cm.fold_string("strasse"));
    assert_eq!(cm.fold_string("Привет мир"), cm.fold_string("привет мир"));
    assert_eq!(
        cm.fold_string("Γειά σου Κόσμε"),
        cm.fold_string("γειά σου κόσμε")
    );
}

fn entry(id: &str, name: &str, scene: bool) -> ObjectEntry {
    ObjectEntry {
        id: id.to_string(),
        name: name.to_string(),
        file_type: if scene { scene_type() } else { character_type() },
    }
}

fn unknown(r: &ObjectReference) -> (String, String) {
    match r {
        ObjectReference::Unknown(u) => (u.name.clone(), u.id.clone()),
        _ => panic!("expected an unknown reference"),
    }
}

#[test]
fn parse_reference_forms() {
    assert!(matches!(ObjectReference::new(String::new(), None), ObjectReference::NoReference));
    assert!(matches!(ObjectReference::new("[]".to_string(), None), ObjectReference::NoReference));
    assert!(matches!(ObjectReference::new("[|]".to_string(), None), ObjectReference::NoReference));
    assert_eq!(unknown(&ObjectReference::new("[Bob|42]".to_string(), None)), ("Bob".to_string(), "42".to_string()));
    assert_eq!(unknown(&ObjectReference::new("Bob".to_string(), None)), ("Bob".to_string(), String::new()));
    assert_eq!(unknown(&ObjectReference::new("[Bob|]".to_string(), None)), ("Bob".to_string(), String::new()));
    assert_eq!(unknown(&ObjectReference::new("a|b|c".to_string(), None)), ("a".to_string(), "b|c".to_string()));
}

#[test]
fn reference_written_form() {
    let objects = vec![entry("1", "Al[i]ce|x", false)];
    assert_eq!(ObjectReference::Known("1".to_string()).to_string(&objects), "[Alicex|1]");
    assert_eq!(ObjectReference::NoReference.to_string(&objects), "[]");
    let r = ObjectReference::new("[Bob|42]".to_string(), None);
    assert_eq!(r.to_string(&objects), "[Bob|42]");
}

#[test]
fn reference_round_trip_through_text() {
    let r = ObjectReference::new("[Carol|7]".to_string(), Some(character_type()));
    let written = r.to_string(&vec![]);
    assert_eq!(unknown(&ObjectReference::new(written, None)), ("Carol".to_string(), "7".to_string()));
}

#[test]
fn resolve_by_id_then_by_name() {
    let objects = vec![entry("1", "Alice", false), entry("2", "Bob", false), entry("3", "Alice scene", true)];
    let by_id = UnknownReference { name: "whatever".to_string(), id: "2".to_string(), file_type: None };
    assert_eq!(by_id.resolve(&objects), Some("2".to_string()));
    let by_name = UnknownReference { name: "bob".to_string(), id: String::new(), file_type: Some(character_type()) };
    assert_eq!(by_name.resolve(&objects), Some("2".to_string()));
    let missing = UnknownReference { name: "Zed".to_string(), id: String::new(), file_type: None };
    assert_eq!(missing.resolve(&objects), None);
    let wrong_type = UnknownReference { name: "Alice".to_string(), id: "1".to_string(), file_type: Some(place_type()) };
    assert_eq!(wrong_type.resolve(&objects), None);
    let ambiguous_prefix = UnknownReference { name: "ali".to_string(), id: String::new(), file_type: None };
    assert_eq!(ambiguous_prefix.resolve(&objects), None);
    let unique_prefix = UnknownReference { name: "ali".to_string(), id: String::new(), file_type: Some(scene_type()) };
    assert_eq!(unique_prefix.resolve(&objects), Some("3".to_string()));
}

#[test]
fn exact_name_wins_over_prefixes() {
    let before = vec![entry("1", "Ann", false), entry("2", "Anna", false)];
    let after = vec![entry("2", "Anna", false), entry("1", "Ann", false)];
    let by_name = UnknownReference { name: "ann".to_string(), id: String::new(), file_type: None };
    assert_eq!(by_name.resolve(&before), Some("1".to_string()));
    assert_eq!(by_name.resolve(&after), Some("1".to_string()));
}
