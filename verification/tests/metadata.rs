use cheese_paper::compile::CompileStatus;
use cheese_paper::loading::{read_object_header, split_file_contents, LoadError};
use cheese_paper::metadata::{
    load_base_metadata, metadata_extract_bool, metadata_extract_string, metadata_extract_u64,
    CharacterMetadata, FileObjectMetadata, FolderMetadata, ProjectMetadata, SceneMetadata,
    TomlEntry, TomlValue, ValueKind,
};
use cheese_paper::reference::ObjectReference;
use cheese_paper::textbox::{Text, UidCounter};

fn text(key: &str, value: &str) -> TomlEntry {
    TomlEntry { key: key.to_string(), value: TomlValue::Text(value.to_string()) }
}

fn integer(key: &str, value: i64) -> TomlEntry {
    TomlEntry { key: key.to_string(), value: TomlValue::Integer(value) }
}

fn boolean(key: &str, value: bool) -> TomlEntry {
    TomlEntry { key: key.to_string(), value: TomlValue::Boolean(value) }
}

#[test]
fn extract_fields_by_kind() {
    let table = vec![integer("n", 5), boolean("b", true), text("s", "hi")];
    assert_eq!(metadata_extract_u64(&table, "n", false).unwrap(), Some(5));
    assert_eq!(metadata_extract_u64(&table, "b", true).unwrap(), Some(1));
    assert!(metadata_extract_u64(&table, "b", false).is_err());
    assert_eq!(metadata_extract_u64(&table, "missing", false).unwrap(), None);
    assert_eq!(metadata_extract_bool(&table, "b").unwrap(), Some(true));
    assert_eq!(metadata_extract_string(&table, "s").unwrap(), Some("hi".to_string()));
    let err = metadata_extract_string(&table, "n").unwrap_err();
    assert_eq!(err.field, "n");
    assert_eq!(err.expected, ValueKind::Text);
    assert_eq!(metadata_extract_u64(&vec![integer("n", -1)], "n", false).unwrap(), Some(u64::MAX));
}

#[test]
fn base_metadata_loads_and_marks_missing() {
    let mut uids = UidCounter::new();
    let _ = &mut uids;
    let mut meta = FileObjectMetadata { version: 1, name: String::new(), id: "old".to_string() };
    let mut modified = false;
    let table = vec![integer("file_format_version", 3), text("name", "Scene one")];
    load_base_metadata(&table, &mut meta, &mut modified).unwrap();
    assert_eq!(meta.version, 3);
    assert_eq!(meta.name, "Scene one");
    assert_eq!(meta.id, "old");
    assert!(modified);

    let mut modified = false;
    let full = vec![integer("file_format_version", 1), text("name", "a"), text("id", "xyz")];
    load_base_metadata(&full, &mut meta, &mut modified).unwrap();
    assert_eq!(meta.id, "xyz");
    assert!(!modified);

    let bad = vec![text("file_format_version", "one")];
    let err = load_base_metadata(&bad, &mut meta, &mut modified).unwrap_err();
    assert_eq!(err.field, "file_format_version");
    assert_eq!(err.expected, ValueKind::Integer);
}

#[test]
fn default_object_metadata_has_fresh_id() {
    let a = FileObjectMetadata::default();
    let b = FileObjectMetadata::default();
    assert_eq!(a.version, 1);
    assert_eq!(a.id.len(), 36);
    assert_ne!(a.id, b.id);
}

#[test]
fn character_metadata_stops_at_first_bad_field() {
    let mut uids = UidCounter::new();
    let mut c = CharacterMetadata::new(&mut uids);
    let table = vec![text("summary", "s"), integer("notes", 3), integer("goal", 4)];
    let err = c.load_metadata(&table, &mut uids).unwrap_err();
    assert_eq!(err.field, "notes");

    let table = vec![
        text("summary", "s"), text("notes", "n"), text("appearance", "a"), text("personality", "p"),
        text("goal", "g"), text("conflict", "c"), text("habits", "h"),
    ];
    assert_eq!(c.load_metadata(&table, &mut uids).unwrap(), false);
    assert_eq!(c.goal.as_str(), "g");
    assert_eq!(c.habits.as_str(), "h");

    let partial = vec![text("summary", "only")];
    assert_eq!(c.load_metadata(&partial, &mut uids).unwrap(), true);
    assert_eq!(c.summary.as_str(), "only");
    assert_eq!(c.goal.as_str(), "g");
}

#[test]
fn folder_compile_status_accepts_booleans() {
    let mut uids = UidCounter::new();
    let mut f = FolderMetadata {
        summary: Text::new(uids.fresh()),
        notes: Text::new(uids.fresh()),
        compile_status: CompileStatus::from_bits_retain(1),
    };
    let table = vec![text("summary", "x"), text("notes", "y"), boolean("compile_status", false)];
    assert_eq!(f.load_metadata(&table, &mut uids).unwrap(), false);
    assert_eq!(f.compile_status.bits(), 0);
    let table = vec![text("summary", "x"), text("notes", "y"), text("compile_status", "yes")];
    assert_eq!(f.load_metadata(&table, &mut uids).unwrap_err().field, "compile_status");
}

#[test]
fn scene_pov_is_a_character_reference() {
    let mut uids = UidCounter::new();
    let mut s = SceneMetadata {
        summary: Text::new(uids.fresh()),
        notes: Text::new(uids.fresh()),
        pov: ObjectReference::NoReference,
        compile_status: CompileStatus::from_bits_retain(1),
    };
    let table = vec![text("pov", "[Ann|9]"), integer("compile_status", 5)];
    assert_eq!(s.load_metadata(&table, &mut uids).unwrap(), true);
    match &s.pov {
        ObjectReference::Unknown(u) => {
            assert_eq!(u.name, "Ann");
            assert_eq!(u.id, "9");
            assert_eq!(u.file_type.as_ref().unwrap().get_identifier(), "character");
        }
        _ => panic!("expected an unknown reference"),
    }
    assert_eq!(s.compile_status.bits(), 5);
}

#[test]
fn project_export_settings_load() {
    let mut uids = UidCounter::new();
    let mut p = ProjectMetadata::new(&mut uids);
    let export = TomlEntry {
        key: "export".to_string(),
        value: TomlValue::Table(vec![
            boolean("include_all_folder_titles", true),
            integer("include_folder_title_depth", 3),
            boolean("include_all_scene_files", true),
            integer("include_scene_title_depth", 2),
            boolean("insert_break_at_end", false),
        ]),
    };
    let table = vec![
        text("summary", "s"), text("notes", "n"), text("genre", "g"), text("author", "a"),
        text("email", "e"), export,
    ];
    assert_eq!(p.load_metadata(&table, &mut uids).unwrap(), false);
    assert!(p.export.include_all_folder_titles);
    assert_eq!(p.export.include_folder_title_depth, 3);
    assert!(p.export.include_all_scene_titles);
    assert_eq!(p.export.include_scene_title_depth, 2);
    assert!(!p.export.insert_break_at_end);
    assert_eq!(p.author, "a");

    let bad = vec![integer("export", 1)];
    let err = p.load_metadata(&bad, &mut uids).unwrap_err();
    assert_eq!(err.field, "export");
    assert_eq!(err.expected, ValueKind::Table);
    assert_eq!(p.load_metadata(&vec![], &mut uids).unwrap(), true);
}

#[test]
fn split_markdown_header_and_body() {
    let (head, body) = split_file_contents("id = \"1\"\n++++++++\n  body text \n", true);
    assert_eq!(head, "id = \"1\"\n");
    assert_eq!(body.unwrap(), "body text");
    let (head, body) = split_file_contents("no header here", true);
    assert_eq!(head, "");
    assert_eq!(body.unwrap(), "no header here");
    let (head, body) = split_file_contents("name = \"x\"", false);
    assert_eq!(head, "name = \"x\"");
    assert!(body.is_none());
    let (head, body) = split_file_contents("a+++++++b++++++++c", true);
    assert_eq!(head, "a+++++++b");
    assert_eq!(body.unwrap(), "c");
}

#[test]
fn header_read_through_toml_parser() {
    let data = "id = \"1-0\"\nfile_type = \"scene\"\n[export]\ninsert_break_at_end = true\n++++++++\ncontents123";
    let h = read_object_header(data, true, "4-scene2").unwrap();
    assert_eq!(h.body.as_deref(), Some("contents123"));
    assert_eq!(h.info.id.as_deref(), Some("1-0"));
    assert_eq!(h.info.file_type.as_deref(), Some("scene"));
    assert_eq!(h.info.name_from_file.as_deref(), Some("scene2"));
    assert!(h.info.modified);
    assert_eq!(h.entries.len(), 3);
    match &h.entries[2].value {
        TomlValue::Table(t) => {
            assert_eq!(t[0].key, "insert_break_at_end");
            assert!(matches!(t[0].value, TomlValue::Boolean(true)));
        }
        _ => panic!("expected a table"),
    }

    let named = read_object_header("name = \"x\"\n", false, "000-other").unwrap();
    assert!(named.info.name_from_file.is_none());
    assert!(!named.info.modified);

    assert_eq!(read_object_header("= broken", false, "a").unwrap_err(), LoadError::InvalidHeader);
    assert_eq!(read_object_header("file_type = 3", false, "a").unwrap_err(), LoadError::NonStringFileType);
}
