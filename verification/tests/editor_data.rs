use cheese_paper::dictionary::DictionaryState;
use cheese_paper::editor_data::Data;
use cheese_paper::loading::parse_toml_table;
use cheese_paper::saving::{entries_writable, saved_file, updated_header};
use cheese_paper::metadata::{TomlEntry, TomlValue};
use spellbook::Dictionary;

fn strings(v: &[&str]) -> Vec<String> {
    v.iter().map(|s| s.to_string()).collect()
}

fn text(s: &str) -> TomlValue {
    TomlValue::Text(s.to_string())
}

fn entry(key: &str, value: TomlValue) -> TomlEntry {
    TomlEntry { key: key.to_string(), value }
}

#[test]
fn data_starts_at_home() {
    let data = Data::new("/home/writer");
    assert!(data.recent_projects.is_empty());
    assert_eq!(data.last_project_parent_folder, "/home/writer");
    assert_eq!(data.last_export_folder, "/home/writer");
    assert!(data.last_open_file_ids.is_empty());
    assert!(data.custom_dictionary.is_empty());
}

#[test]
fn data_load_reads_each_field() {
    let mut data = Data::new("/home");
    data.custom_dictionary = strings(&["known"]);
    let table = vec![
        entry("recent_projects", TomlValue::Array(vec![text("/a"), TomlValue::Integer(3), text("/b")])),
        entry("last_project_parent_folder", text("/projects")),
        entry("last_export_folder", TomlValue::Integer(1)),
        entry(
            "last_open_file_ids",
            TomlValue::Table(vec![
                entry("p1", TomlValue::Array(vec![text("x"), text("y")])),
                entry("p2", text("not a list")),
            ]),
        ),
        entry("custom_dictionary", TomlValue::Array(vec![text("zorp")])),
    ];
    data.load(&table);
    assert_eq!(data.recent_projects, strings(&["/a", "/b"]));
    assert_eq!(data.last_project_parent_folder, "/projects");
    assert_eq!(data.last_export_folder, "/home");
    assert_eq!(data.open_tabs("p1"), strings(&["x", "y"]));
    assert!(data.open_tabs("p2").is_empty());
    assert_eq!(data.custom_dictionary, strings(&["known", "zorp"]));
}

#[test]
fn data_file_written_and_read_back() {
    let mut data = Data::new("/home");
    data.project_opened("/w/novel", Some("/w"));
    data.update_open_tabs("id-1", strings(&["scene-a", "project_metadata"]));
    data.custom_dictionary = strings(&["frell"]);
    let saved = data.save();
    assert_eq!(saved.len(), 5);
    assert_eq!(saved[0].key, "recent_projects");
    assert_eq!(saved[3].key, "last_open_file_ids");

    let mut read = Data::new("/elsewhere");
    read.load(&saved);
    assert_eq!(read.recent_projects, data.recent_projects);
    assert_eq!(read.last_project_parent_folder, "/w");
    assert_eq!(read.last_export_folder, "/home");
    assert_eq!(read.open_tabs("id-1"), strings(&["scene-a", "project_metadata"]));
    assert_eq!(read.custom_dictionary, strings(&["frell"]));
}

#[test]
fn data_file_parsed_from_toml() {
    let contents = "recent_projects = [\"/p/one\", \"/p/two\"]\n\
                    last_export_folder = \"/out\"\n\
                    custom_dictionary = [\"blep\"]\n\
                    [last_open_file_ids]\n\
                    abc = [\"t1\"]\n";
    let table = parse_toml_table(contents).unwrap();
    let mut data = Data::new("/home");
    data.load(&table);
    assert_eq!(data.recent_projects, strings(&["/p/one", "/p/two"]));
    assert_eq!(data.last_export_folder, "/out");
    assert_eq!(data.open_tabs("abc"), strings(&["t1"]));
    assert_eq!(data.custom_dictionary, strings(&["blep"]));
    assert!(parse_toml_table("not = = toml").is_none());
}

#[test]
fn opening_a_project_moves_it_first() {
    let mut data = Data::new("/home");
    data.recent_projects = strings(&["/a", "/b", "/c"]);
    assert!(data.project_opened("/c", Some("/home")));
    assert_eq!(data.recent_projects, strings(&["/c", "/a", "/b"]));
    assert!(!data.project_opened("/c", Some("/home")));
    assert!(data.project_opened("/d", None));
    assert_eq!(data.recent_projects, strings(&["/d", "/c", "/a", "/b"]));
    assert_eq!(data.last_project_parent_folder, "/home");
    assert!(data.project_opened("/d", Some("/work")));
    assert_eq!(data.last_project_parent_folder, "/work");
}

#[test]
fn open_tabs_are_noted_when_they_change() {
    let mut data = Data::new("/home");
    assert!(data.update_open_tabs("p", strings(&["a"])));
    assert!(!data.update_open_tabs("p", strings(&["a"])));
    assert!(data.update_open_tabs("p", strings(&["a", "b"])));
    assert_eq!(data.last_open_file_ids.len(), 1);
    assert_eq!(data.open_tabs("p"), strings(&["a", "b"]));
    assert!(data.open_tabs("q").is_empty());
}

#[test]
fn ignored_words_are_taken_when_updated() {
    let mut data = Data::new("/home");
    data.custom_dictionary = strings(&["old"]);
    let mut state = DictionaryState::new(Some(Dictionary::new("SET UTF-8\n", "1\nword\n").unwrap()));
    assert!(!data.update_custom_dictionary(&state));
    assert_eq!(data.custom_dictionary, strings(&["old"]));
    state.add_ignored("glorp");
    assert!(data.update_custom_dictionary(&state));
    assert_eq!(data.custom_dictionary, strings(&["glorp"]));
}

#[test]
fn toml_values_are_read_back_variant_for_variant() {
    let contents = "count = 7\n\
                    flag = true\n\
                    name = \"Ann\"\n\
                    list = [1, \"two\", [false]]\n\
                    ratio = 1.5\n\
                    [inner]\n\
                    deep = \"yes\"\n";
    let table = parse_toml_table(contents).unwrap();
    let keys: Vec<&str> = table.iter().map(|e| e.key.as_str()).collect();
    assert_eq!(keys, vec!["count", "flag", "name", "list", "ratio", "inner"]);
    assert!(matches!(table[0].value, TomlValue::Integer(7)));
    assert!(matches!(table[1].value, TomlValue::Boolean(true)));
    assert!(matches!(&table[2].value, TomlValue::Text(s) if s == "Ann"));
    match &table[3].value {
        TomlValue::Array(items) => {
            assert_eq!(items.len(), 3);
            assert!(matches!(items[0], TomlValue::Integer(1)));
            assert!(matches!(&items[1], TomlValue::Text(s) if s == "two"));
            match &items[2] {
                TomlValue::Array(inner) => {
                    assert_eq!(inner.len(), 1);
                    assert!(matches!(inner[0], TomlValue::Boolean(false)));
                }
                other => panic!("expected an array, got {:?}", other),
            }
        }
        other => panic!("expected an array, got {:?}", other),
    }
    assert!(matches!(table[4].value, TomlValue::Other));
    match &table[5].value {
        TomlValue::Table(entries) => {
            assert_eq!(entries.len(), 1);
            assert_eq!(entries[0].key, "deep");
            assert!(matches!(&entries[0].value, TomlValue::Text(s) if s == "yes"));
        }
        other => panic!("expected a table, got {:?}", other),
    }
}

#[test]
fn ignoring_a_word_adds_it_to_the_dictionary() {
    let mut state = DictionaryState::new(Some(Dictionary::new("SET UTF-8\n", "1\nword\n").unwrap()));
    assert!(!state.dictionary.as_ref().unwrap().check("snorkel"));
    assert!(state.add_ignored("snorkel"));
    assert!(state.dictionary.as_ref().unwrap().check("snorkel"));
    assert!(state.add_ignored_startup("wibble"));
    assert!(state.dictionary.as_ref().unwrap().check("wibble"));
    assert!(state.dictionary.as_ref().unwrap().check("word"));
}

#[test]
fn updated_header_sets_entries_and_keeps_the_rest() {
    let old = "# written by hand\nname = \"old\"\nextra = 1.5\n";
    let entries = vec![
        entry("name", text("new")),
        entry("id", text("abc")),
        entry("count", TomlValue::Integer(3)),
        entry("list", TomlValue::Array(vec![text("a"), TomlValue::Boolean(true)])),
    ];
    let header = updated_header(old, &entries).unwrap();
    assert!(header.contains("# written by hand"));
    assert!(header.contains("extra = 1.5"));
    let table = parse_toml_table(&header).unwrap();
    let keys: Vec<&str> = table.iter().map(|e| e.key.as_str()).collect();
    assert_eq!(keys, vec!["name", "extra", "id", "count", "list"]);
    assert!(matches!(&table[0].value, TomlValue::Text(s) if s == "new"));
    assert!(matches!(&table[2].value, TomlValue::Text(s) if s == "abc"));
    assert!(matches!(table[3].value, TomlValue::Integer(3)));
    match &table[4].value {
        TomlValue::Array(items) => {
            assert_eq!(items.len(), 2);
            assert!(matches!(&items[0], TomlValue::Text(s) if s == "a"));
            assert!(matches!(items[1], TomlValue::Boolean(true)));
        }
        other => panic!("expected an array, got {:?}", other),
    }
    assert!(updated_header("not = = toml", &entries).is_none());
    let unwritable = vec![entry("x", TomlValue::Table(vec![entry("y", TomlValue::Other)]))];
    assert!(!entries_writable(&unwritable));
    assert!(updated_header(old, &unwritable).is_none());
}

#[test]
fn saved_file_puts_the_body_after_the_header() {
    let entries = vec![entry("name", text("scene"))];
    let file = saved_file("", &entries, Some("the body")).unwrap();
    assert_eq!(file, "name = \"scene\"\n++++++++\n\nthe body");
    let folder = saved_file("id = \"f\"\n", &entries, None).unwrap();
    assert_eq!(folder, "id = \"f\"\nname = \"scene\"\n");
}
