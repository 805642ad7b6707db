use cheese_paper::naming::{filename_is_computable, is_truncatable};
use cheese_paper::saving::{save_plan, SavePlan};
use cheese_paper::naming::{
    add_index_to_name, calculate_filename, get_index_from_name, name_from_file_stem,
    process_name_for_filename, truncate_name,
};
use cheese_paper::schema::{character_type, folder_type, scene_type};

#[test]
fn test_truncate_name() {
    assert_eq!(truncate_name("Hello World", 30), "Hello World");
    assert_eq!(truncate_name("Hello World", 9), "Hello");
    assert_eq!(truncate_name("Hello World", 11), "Hello World");
    assert_eq!(truncate_name("Hello World", 5), "Hello");
    assert_eq!(truncate_name("Hello World", 4), "Hell");
    assert_eq!(truncate_name(" Hello World", 2), "He");
    assert_eq!(truncate_name("Hello World   ", 30), "Hello World");
}

#[test]
fn test_process_name_for_filename() {
    assert_eq!(process_name_for_filename(r"hello world"), "hello_world");
    assert_eq!(process_name_for_filename(r"possessive's"), "possessives");
    assert_eq!(process_name_for_filename(r"asdf?'?s"), "asdf--s");
}

#[test]
fn filename_filter_replaces_control_characters() {
    assert_eq!(process_name_for_filename("a/b:c\u{1}d\u{7f}"), "a-b-c-d-");
    assert_eq!(process_name_for_filename("plain"), "plain");
}

#[test]
fn index_prefix_round_trip() {
    assert_eq!(add_index_to_name("scene", 7), "007-scene");
    assert_eq!(add_index_to_name("scene", 1234), "1234-scene");
    assert_eq!(get_index_from_name("007-scene"), Some(7));
    assert_eq!(get_index_from_name(&add_index_to_name("x-y", 42)), Some(42));
    assert_eq!(get_index_from_name("scene"), None);
    assert_eq!(get_index_from_name("abc-scene"), None);
    assert_eq!(get_index_from_name("-1-scene"), None);
    assert_eq!(get_index_from_name("+5-scene"), Some(5));
}

#[test]
fn name_from_stem_drops_index_and_underscores() {
    assert_eq!(name_from_file_stem("003-my_scene"), "my scene");
    assert_eq!(name_from_file_stem("4-scene2"), "scene2");
    assert_eq!(name_from_file_stem("-4-scene2"), "-4-scene2");
    assert_eq!(name_from_file_stem("abc-def"), "abc-def");
    assert_eq!(name_from_file_stem("_padded_"), "padded");
}

#[test]
fn filenames_for_each_type() {
    assert_eq!(calculate_filename("", Some(0), &scene_type()), "000-New_Scene.md");
    assert_eq!(calculate_filename("", Some(0), &character_type()), "000-New_Character.toml");
    assert_eq!(calculate_filename("", Some(0), &folder_type()), "000-New_Folder");
    assert_eq!(
        calculate_filename("This is a really long scene name that will have to be shortened", Some(0), &scene_type()),
        "000-This_is_a_really_long_scene.md"
    );
    assert_eq!(
        calculate_filename("Difficult(to)ParseName/Bad_ ", Some(0), &scene_type()),
        "000-Difficult(to)ParseName-Bad_.md"
    );
    assert_eq!(calculate_filename("", Some(1), &scene_type()), "001-New_Scene.md");
    assert_eq!(calculate_filename("Text", None, &folder_type()), "Text");
}

#[test]
fn truncation_possible_or_not() {
    assert!(is_truncatable("short", 30));
    assert!(is_truncatable("Hello World", 4));
    assert!(is_truncatable("Hello World", 9));
    // "é" takes two bytes: a cut after one byte would split it
    assert!(!is_truncatable("é", 1));
    assert!(is_truncatable("é", 2));
    assert!(filename_is_computable("", Some(3), &scene_type()));
    assert!(filename_is_computable("ééééééééééééééééééé", None, &scene_type()));
}

#[test]
fn save_plans() {
    assert!(matches!(save_plan(false, Some(0), "x", "y", &scene_type()), SavePlan::NothingToWrite));
    match save_plan(true, Some(2), "000-old.md", "New name", &scene_type()) {
        SavePlan::Write { rename_to: Some(n) } => assert_eq!(n, "002-New_name.md"),
        _ => panic!("expected a rename"),
    }
    assert!(matches!(
        save_plan(true, Some(2), "002-New_name.md", "New name", &scene_type()),
        SavePlan::Write { rename_to: None }
    ));
    assert!(matches!(save_plan(true, None, "text", "Text", &folder_type()), SavePlan::Write { rename_to: None }));
}
