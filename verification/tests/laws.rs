use cheese_paper::export::ProjectExportSettings;
use cheese_paper::indexing::rescan_order;
use cheese_paper::metadata::{
    load_base_metadata, CharacterMetadata, FileObjectMetadata, ProjectMetadata, TomlValue,
};
use cheese_paper::naming::{calculate_filename, get_index_from_name};
use cheese_paper::schema::{folder_type, scene_type};
use cheese_paper::search::{search, Page};
use cheese_paper::textbox::{Text, UidCounter};

#[test]
fn file_name_carries_its_index() {
    for i in [0usize, 7, 999, 1000, 123456] {
        let name = calculate_filename("a-b c", Some(i), &scene_type());
        assert_eq!(get_index_from_name(&name), Some(i));
        let folder = calculate_filename("", Some(i), &folder_type());
        assert_eq!(get_index_from_name(&folder), Some(i));
    }
}

#[test]
fn rescan_keeps_numbered_children_in_place() {
    let names: Vec<String> = (0..5).map(|i| calculate_filename("x", Some(i), &scene_type())).collect();
    assert_eq!(rescan_order(&names), vec![0, 1, 2, 3, 4]);
}

#[test]
fn character_fields_survive_save_and_load() {
    let mut uids = UidCounter::new();
    let mut c = CharacterMetadata::new(&mut uids);
    c.summary = Text::from_string("s".to_string(), uids.fresh());
    c.habits = Text::from_string("h".to_string(), uids.fresh());
    let entries = c.header_updates();
    assert_eq!(entries.len(), 8);
    let mut d = CharacterMetadata::new(&mut uids);
    assert_eq!(d.load_metadata(&entries, &mut uids).unwrap(), false);
    assert_eq!(d.summary.as_str(), "s");
    assert_eq!(d.habits.as_str(), "h");
    assert_eq!(d.goal.as_str(), "");
}

#[test]
fn base_metadata_survives_save_and_load() {
    let m = FileObjectMetadata { version: u64::MAX, name: "n".to_string(), id: "i".to_string() };
    let entries = m.header_updates();
    let mut back = FileObjectMetadata { version: 0, name: String::new(), id: String::new() };
    let mut modified = false;
    load_base_metadata(&entries, &mut back, &mut modified).unwrap();
    assert_eq!(back.version, u64::MAX);
    assert_eq!(back.name, "n");
    assert_eq!(back.id, "i");
    assert!(!modified);
}

#[test]
fn export_settings_survive_save_and_load() {
    let mut uids = UidCounter::new();
    let mut p = ProjectMetadata::new(&mut uids);
    p.export = ProjectExportSettings {
        include_all_folder_titles: true,
        include_folder_title_depth: 4,
        include_all_scene_titles: false,
        include_scene_title_depth: 1u64 << 63,
        insert_break_at_end: false,
    };
    let entries = p.header_updates();
    let mut q = ProjectMetadata::new(&mut uids);
    assert_eq!(q.load_metadata(&entries, &mut uids).unwrap(), false);
    assert!(q.export.include_all_folder_titles);
    assert_eq!(q.export.include_folder_title_depth, 4);
    assert!(!q.export.insert_break_at_end);
    // the top bit is dropped on saving
    assert_eq!(q.export.include_scene_title_depth, 0);
    match &entries[5].value {
        TomlValue::Table(t) => assert_eq!(t.len(), 5),
        _ => panic!("expected a table"),
    }
}

#[test]
fn every_find_covers_the_search_term() {
    let text = Text::from_string("ça va\nça va bien, ça".to_string(), 0);
    let r = search(&text, &Page::Export, "t", "ça");
    assert_eq!(r.finds.len(), 3);
    for f in &r.finds {
        assert_eq!(&text.as_str()[f.start..f.end], "ça");
        assert_eq!(&f.preview.context[f.preview.word_start..f.preview.word_end], "ça");
    }
}

#[test]
fn finds_are_the_matches_in_the_whole_text() {
    let body = "aaa\néaaaa\n\naa é aa\naaa";
    let text = Text::from_string(body.to_string(), 0);
    for term in ["a", "aa", "é a", "aaa"] {
        let r = search(&text, &Page::Export, "t", term);
        let spans: Vec<(usize, usize)> = r.finds.iter().map(|f| (f.start, f.end)).collect();
        let expected: Vec<(usize, usize)> = body.match_indices(term).map(|(i, m)| (i, i + m.len())).collect();
        assert_eq!(spans, expected);
    }
}

#[test]
fn trim_takes_off_what_std_calls_white_space() {
    for code in 0u32..=0x10FFFF {
        if let Some(c) = char::from_u32(code) {
            let s = format!("{c}x{c}");
            assert_eq!(cheese_paper::text::trim(&s), s.trim(), "character {code:#x}");
        }
    }
}
