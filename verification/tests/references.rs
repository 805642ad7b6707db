use cheese_paper::reference::ObjectEntry;
use cheese_paper::references::{str_less, References};
use cheese_paper::schema::{character_type, folder_type, place_type, scene_type, DefaultSchema, FileTypeInfo};

fn entry(id: &str, name: &str, file_type: FileTypeInfo) -> ObjectEntry {
    ObjectEntry { id: id.to_string(), name: name.to_string(), file_type }
}

fn listing(refs: &References, file_type: &FileTypeInfo) -> Vec<(String, String)> {
    refs.for_type(file_type).clone()
}

#[test]
fn references_order_strings() {
    assert!(str_less("a", "b"));
    assert!(str_less("ab", "abc"));
    assert!(str_less("", "a"));
    assert!(!str_less("abc", "ab"));
    assert!(!str_less("same", "same"));
    assert!(str_less("B", "a"));
}

#[test]
fn references_new_groups_objects_by_type_in_id_order() {
    let objects = vec![
        entry("c2", "Bob", character_type()),
        entry("s1", "Opening", scene_type()),
        entry("c1", "Alice", character_type()),
        entry("p1", "", place_type()),
    ];
    let refs = References::new(&DefaultSchema, &objects);

    assert_eq!(refs.file_types.len(), 4);
    assert_eq!(
        listing(&refs, &character_type()),
        vec![("c1".to_string(), "Alice".to_string()), ("c2".to_string(), "Bob".to_string())]
    );
    assert_eq!(listing(&refs, &scene_type()), vec![("s1".to_string(), "Opening".to_string())]);
    assert_eq!(listing(&refs, &place_type()), vec![("p1".to_string(), "New Place".to_string())]);
    assert!(listing(&refs, &folder_type()).is_empty());
}

#[test]
fn references_update_replaces_the_lists() {
    let objects = vec![entry("c1", "Alice", character_type()), entry("f1", "Part One", folder_type())];
    let mut refs = References::new(&DefaultSchema, &objects);

    let renamed = vec![entry("c1", "Alicia", character_type()), entry("c3", "", character_type())];
    refs.update(&renamed);

    assert_eq!(
        listing(&refs, &character_type()),
        vec![("c1".to_string(), "Alicia".to_string()), ("c3".to_string(), "New Character".to_string())]
    );
    assert!(listing(&refs, &folder_type()).is_empty());
}

#[test]
fn references_update_with_the_same_objects_changes_nothing() {
    let objects = vec![entry("s2", "End", scene_type()), entry("s1", "Start", scene_type())];
    let mut refs = References::new(&DefaultSchema, &objects);
    let before = listing(&refs, &scene_type());
    refs.update(&objects);
    assert_eq!(listing(&refs, &scene_type()), before);
    assert_eq!(before, vec![("s1".to_string(), "Start".to_string()), ("s2".to_string(), "End".to_string())]);
}

#[test]
fn empty_names_show_the_type_name() {
    let objects = vec![entry("p1", "", place_type()), entry("p2", "Harbor", place_type())];
    let mut refs = References::new(&DefaultSchema, &objects);
    refs.update(&objects);
    refs.update(&vec![entry("p1", "", place_type()), entry("p2", "", place_type())]);
    assert_eq!(
        listing(&refs, &place_type()),
        vec![("p1".to_string(), "New Place".to_string()), ("p2".to_string(), "New Place".to_string())]
    );
}
