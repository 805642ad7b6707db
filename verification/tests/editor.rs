use cheese_paper::compile::CompileStatus;
use cheese_paper::dictionary::DictionaryState;
use cheese_paper::filetree::{add_target, plan_tree_move, DropPosition};
use cheese_paper::indexing::InsertPosition;
use cheese_paper::tree::ObjectRecord;
use cheese_paper::metadata::{CharacterMetadata, FolderMetadata, ProjectMetadata};
use cheese_paper::metrics::{Metrics, REFRESH_PERIOD_NANOS};
use cheese_paper::reference::ObjectEntry;
use cheese_paper::schema::{character_type, folder_type, note_type, place_type, scene_type, OVERTHINKER_SCHEMA};
use cheese_paper::search::{Page, Search};
use cheese_paper::tabs::{keep_editor_tab, move_tab, set_editor_tab, shift_focus, OpenPage, TabAction, TabMove};
use cheese_paper::textbox::{Text, UidCounter};
use spellbook::Dictionary;
use std::time::SystemTime;

const AFF: &str = "SET UTF-8\n";
const DIC: &str = "3\nhello\nworld\nstory\n";

fn small_dictionary() -> Dictionary {
    Dictionary::new(AFF, DIC).unwrap()
}

#[test]
fn tab_moves_cycle_at_the_ends() {
    assert_eq!(move_tab(TabMove::Next, 3, Some(0)), Some(1));
    assert_eq!(move_tab(TabMove::Next, 3, Some(2)), Some(0));
    assert_eq!(move_tab(TabMove::Previous, 3, Some(0)), Some(2));
    assert_eq!(move_tab(TabMove::Previous, 3, Some(2)), Some(1));
}

#[test]
fn tab_moves_need_two_tabs_and_a_focused_one() {
    assert_eq!(move_tab(TabMove::Next, 1, Some(0)), None);
    assert_eq!(move_tab(TabMove::Previous, 0, None), None);
    assert_eq!(move_tab(TabMove::Next, 4, None), None);
}

#[test]
fn tab_moves_next_then_previous_return() {
    for count in 2..6usize {
        for current in 0..count {
            let next = move_tab(TabMove::Next, count, Some(current)).unwrap();
            assert_eq!(move_tab(TabMove::Previous, count, Some(next)), Some(current));
        }
    }
}

#[test]
fn project_textboxes_in_order() {
    let mut uids = UidCounter::new();
    let mut meta = ProjectMetadata::new(&mut uids);
    meta.summary.text = "a summary".to_string();
    let boxes = meta.for_each_textbox();
    let names: Vec<&str> = boxes.iter().map(|(_, n)| *n).collect();
    assert_eq!(names, vec!["summary", "notes"]);
    assert_eq!(boxes[0].0.as_str(), "a summary");
}

#[test]
fn project_textboxes_can_be_edited() {
    let mut uids = UidCounter::new();
    let mut meta = ProjectMetadata::new(&mut uids);
    for (text, name) in meta.for_each_textbox_mut() {
        text.text = format!("{name} text");
    }
    assert_eq!(meta.summary.as_str(), "summary text");
    assert_eq!(meta.notes.as_str(), "notes text");
}

#[test]
fn object_textboxes_in_order() {
    let mut uids = UidCounter::new();
    let character = CharacterMetadata::new(&mut uids);
    let names: Vec<&str> = character.for_each_textbox().iter().map(|(_, n)| *n).collect();
    assert_eq!(names, vec!["summary", "notes", "appearance", "personality", "goal", "conflict", "habits"]);

    let mut folder = FolderMetadata {
        summary: Text::new(uids.fresh()),
        notes: Text::new(uids.fresh()),
        compile_status: CompileStatus::default(),
    };
    folder.summary.text = "x".to_string();
    let names: Vec<&str> = folder.for_each_textbox().iter().map(|(_, n)| *n).collect();
    assert_eq!(names, vec!["Summary", "Notes"]);
}

#[test]
fn search_textboxes_records_each_box() {
    let mut uids = UidCounter::new();
    let mut meta = ProjectMetadata::new(&mut uids);
    meta.summary.text = "one cat\ntwo cats".to_string();
    meta.notes.text = "no match".to_string();
    let mut search = Search::default();
    search.find_text = "cat".to_string();
    search.search_results = Some(Vec::new());
    let boxes = meta.for_each_textbox();
    search.search_textboxes(&Page::ProjectMetadata, &boxes);
    let results = search.search_results.as_ref().unwrap();
    assert_eq!(results.len(), 2);
    assert_eq!(results[0].0, meta.summary.id());
    assert_eq!(results[0].1.box_name, "summary");
    assert_eq!(results[0].1.finds.len(), 2);
    assert_eq!(results[1].0, meta.notes.id());
    assert!(results[1].1.finds.is_empty());
}

#[test]
fn metrics_report_after_a_refresh_period() {
    let mut metrics = Metrics::default();
    let now = SystemTime::now();
    assert_eq!(metrics.record_frame(10, 0, now), REFRESH_PERIOD_NANOS);
    assert!(metrics.report().is_none());
    assert_eq!(metrics.record_frame(20, 400, now), REFRESH_PERIOD_NANOS - 400);
    assert!(metrics.report().is_none());
    assert_eq!(metrics.record_frame(30, REFRESH_PERIOD_NANOS, now), REFRESH_PERIOD_NANOS);
    let report = metrics.report().unwrap();
    assert_eq!(report.frames_since_last_update, 3);
    assert_eq!(report.avg_frame_nanos, 20);
    // the frames were forgotten with the report
    metrics.record_frame(7, REFRESH_PERIOD_NANOS + 5, now);
    let report = metrics.report().unwrap();
    assert_eq!(report.frames_since_last_update, 1);
    assert_eq!(report.avg_frame_nanos, 7);
}

#[test]
fn metrics_time_a_frame() {
    let mut metrics = Metrics::default();
    metrics.frame_start();
    let wait = metrics.frame_stop();
    assert!(wait <= REFRESH_PERIOD_NANOS);
    metrics.frame_start();
    metrics.frame_stop();
}

#[test]
fn dictionary_ignores_unknown_words_only() {
    let mut state = DictionaryState::new(Some(small_dictionary()));
    assert!(!state.ignore_list_updated);
    assert!(!state.add_ignored("hello"));
    assert!(!state.ignore_list_updated);
    assert!(state.add_ignored("frobnicate"));
    assert!(state.ignore_list_updated);
    assert!(state.dictionary.as_ref().unwrap().check("frobnicate"));
    assert_eq!(state.get_ignore_list(), vec!["frobnicate".to_string()]);
}

#[test]
fn dictionary_startup_words_are_no_update() {
    let mut state = DictionaryState::new(Some(small_dictionary()));
    assert!(state.add_ignored_startup("zorblax"));
    assert!(!state.ignore_list_updated);
    let mut none = DictionaryState::new(None);
    assert!(!none.add_ignored("zorblax"));
    assert!(none.get_ignore_list().is_empty());
}

#[test]
fn dictionary_load_with_ignored_words() {
    let ignored = vec!["hello".to_string(), "qwzx".to_string()];
    let state = DictionaryState::load(AFF, DIC, &ignored);
    assert_eq!(state.get_ignore_list(), vec!["qwzx".to_string()]);
    assert!(state.ignore_list_updated);
    assert!(state.dictionary.is_some());
    let first = DictionaryState::load(AFF, DIC, &vec!["qwzx".to_string()]);
    assert!(first.dictionary.as_ref().unwrap().check("qwzx"));
    assert_eq!(first.get_ignore_list(), vec!["qwzx".to_string()]);
    let broken = DictionaryState::load("", "not a count\n", &ignored);
    assert_eq!(broken.dictionary.is_none(), Dictionary::new("", "not a count\n").is_err());
    if broken.dictionary.is_none() {
        assert!(broken.get_ignore_list().is_empty());
        assert!(!broken.ignore_list_updated);
    }
}

#[test]
fn dictionary_learns_and_forgets_names() {
    let mut state = DictionaryState::new(Some(small_dictionary()));
    let objects = vec![
        ObjectEntry { id: "c1".to_string(), name: "Zelda \"Hyrule\"/world".to_string(), file_type: character_type() },
        ObjectEntry { id: "s1".to_string(), name: "Quux".to_string(), file_type: scene_type() },
        ObjectEntry { id: "p1".to_string(), name: String::new(), file_type: place_type() },
        ObjectEntry { id: "f1".to_string(), name: "Blorp".to_string(), file_type: folder_type() },
    ];
    state.update_spellcheck_file_object_names(&objects);
    state.resync_file_names();
    let dictionary = state.dictionary.as_ref().unwrap();
    assert!(dictionary.check("Zelda"));
    assert!(dictionary.check("Hyrule"));
    assert!(!dictionary.check("Quux"));
    assert!(!dictionary.check("Blorp"));

    // the character is renamed: its old name leaves the dictionary
    let renamed = vec![ObjectEntry { id: "c1".to_string(), name: "Link".to_string(), file_type: character_type() }];
    state.update_spellcheck_file_object_names(&renamed);
    state.resync_file_names();
    let dictionary = state.dictionary.as_ref().unwrap();
    assert!(dictionary.check("Link"));
    assert!(!dictionary.check("Zelda"));
    assert!(!dictionary.check("Hyrule"));
    assert!(dictionary.check("hello"));
}

#[test]
fn dictionary_keeps_ignored_words_after_a_reset() {
    let mut state = DictionaryState::new(Some(small_dictionary()));
    state.add_ignored("grumble");
    state.add_file_object_name("Gandalf");
    state.resync_file_names();
    assert!(state.dictionary.as_ref().unwrap().check("Gandalf"));
    state.update_spellcheck_file_object_names(&Vec::new());
    state.resync_file_names();
    let dictionary = state.dictionary.as_ref().unwrap();
    assert!(!dictionary.check("Gandalf"));
    assert!(dictionary.check("grumble"));
}

#[test]
fn spellcheck_additions_of_objects() {
    let character = ObjectEntry { id: "c".to_string(), name: "Ann".to_string(), file_type: character_type() };
    let scene = ObjectEntry { id: "s".to_string(), name: "Ann".to_string(), file_type: scene_type() };
    let unnamed = ObjectEntry { id: "p".to_string(), name: String::new(), file_type: place_type() };
    assert_eq!(character.provide_spellcheck_additions(), vec!["Ann".to_string()]);
    assert!(scene.provide_spellcheck_additions().is_empty());
    assert!(unnamed.provide_spellcheck_additions().is_empty());
}

#[test]
fn text_ids_are_distinct() {
    let mut uids = UidCounter::new();
    let a = Text::new(uids.fresh());
    let b = Text::new(uids.fresh());
    assert_ne!(a.id(), b.id());
}

fn record(id: &str, children: &[&str]) -> ObjectRecord {
    ObjectRecord {
        id: id.to_string(),
        path: vec![id.to_string()],
        children: children.iter().map(|c| c.to_string()).collect(),
    }
}

fn tree() -> (Vec<ObjectRecord>, Vec<String>) {
    let objects = vec![
        record("text", &["a", "b", "c"]),
        record("characters", &[]),
        record("worldbuilding", &[]),
        record("a", &[]),
        record("b", &["d"]),
        record("c", &[]),
        record("d", &[]),
    ];
    let roots = vec!["text".to_string(), "characters".to_string(), "worldbuilding".to_string()];
    (objects, roots)
}

fn file(id: &str) -> Page {
    Page::FileObject(id.to_string())
}

#[test]
fn tree_drop_positions_give_indexes() {
    let (objects, roots) = tree();
    let first = plan_tree_move(&objects, &roots, &file("d"), &file("text"), &DropPosition::First, None).unwrap();
    assert_eq!((first.moving.as_str(), first.source.as_str(), first.target.as_str(), first.index), ("d", "b", "text", 0));
    let last = plan_tree_move(&objects, &roots, &file("d"), &file("text"), &DropPosition::Last, None).unwrap();
    assert_eq!(last.index, 3);
    let before = plan_tree_move(&objects, &roots, &file("a"), &file("text"), &DropPosition::Before(file("c")), Some(2)).unwrap();
    assert_eq!((before.source.as_str(), before.index), ("text", 2));
    let after = plan_tree_move(&objects, &roots, &file("a"), &file("text"), &DropPosition::After(file("c")), Some(2)).unwrap();
    assert_eq!(after.index, 3);
}

#[test]
fn tree_drops_that_move_nothing() {
    let (objects, roots) = tree();
    // a top-level folder stays where it is
    assert!(plan_tree_move(&objects, &roots, &file("text"), &file("characters"), &DropPosition::First, None).is_none());
    // only file objects are moved, and only into file objects
    assert!(plan_tree_move(&objects, &roots, &Page::ProjectMetadata, &file("text"), &DropPosition::First, None).is_none());
    assert!(plan_tree_move(&objects, &roots, &file("a"), &Page::Export, &DropPosition::First, None).is_none());
    // a position next to something that is not a file object
    assert!(plan_tree_move(&objects, &roots, &file("a"), &file("text"), &DropPosition::After(Page::Export), None).is_none());
    // an object without a parent
    let mut orphaned = objects;
    orphaned.push(record("lost", &[]));
    assert!(plan_tree_move(&orphaned, &roots, &file("lost"), &file("text"), &DropPosition::First, None).is_none());
}

#[test]
fn context_menu_add_targets() {
    let (parent, position) = add_target(true, &"folder".to_string(), &Some("text".to_string()));
    assert_eq!(parent, "folder");
    assert!(matches!(position, InsertPosition::Last));
    let (parent, position) = add_target(false, &"scene".to_string(), &Some("folder".to_string()));
    assert_eq!(parent, "folder");
    match position {
        InsertPosition::After(id) => assert_eq!(id, "scene"),
        _ => panic!("a new object goes after the scene"),
    }
}

fn open_page(page: Page, keep: bool) -> OpenPage {
    OpenPage { page, keep }
}

#[test]
fn showing_a_page_picks_its_tab() {
    let roots = vec!["text".to_string(), "characters".to_string(), "worldbuilding".to_string()];
    let open = vec![
        open_page(file("a"), true),
        open_page(file("b"), false),
        open_page(Page::ProjectMetadata, false),
    ];
    assert_eq!(set_editor_tab(&open, &file("text"), &roots), TabAction::Nothing);
    assert_eq!(set_editor_tab(&open, &Page::ProjectMetadata, &roots), TabAction::Select(2));
    assert_eq!(set_editor_tab(&open, &file("a"), &roots), TabAction::Select(0));
    assert_eq!(set_editor_tab(&open, &file("c"), &roots), TabAction::Open { replacing: Some(1) });
    let kept = vec![open_page(file("a"), true)];
    assert_eq!(set_editor_tab(&kept, &Page::Export, &roots), TabAction::Open { replacing: None });
}

#[test]
fn editing_a_page_keeps_its_tab() {
    let mut open = vec![open_page(file("a"), false), open_page(file("b"), false), open_page(file("a"), false)];
    keep_editor_tab(&mut open, &file("a"));
    let keeps: Vec<bool> = open.iter().map(|t| t.keep).collect();
    assert_eq!(keeps, vec![true, false, true]);
}

#[test]
fn tab_cycles_the_focus_of_a_page() {
    assert_eq!(shift_focus(TabMove::Next, 3, None), (0, false));
    assert_eq!(shift_focus(TabMove::Next, 3, Some(0)), (1, false));
    assert_eq!(shift_focus(TabMove::Next, 3, Some(2)), (0, false));
    assert_eq!(shift_focus(TabMove::Previous, 3, None), (2, true));
    assert_eq!(shift_focus(TabMove::Previous, 3, Some(2)), (1, true));
    assert_eq!(shift_focus(TabMove::Previous, 3, Some(0)), (2, true));
}

#[test]
fn overthinker_schema_and_notes() {
    assert_eq!(OVERTHINKER_SCHEMA.get_schema_identifier(), "overthinker");
    assert_eq!(OVERTHINKER_SCHEMA.get_schema_name(), "Overthinker");
    let note = note_type();
    assert_eq!(note.get_identifier(), "note");
    assert!(note.has_body());
    assert!(!note.is_folder());
    assert_eq!(note.empty_string_name(), "New Note");
}

#[test]
fn dictionary_load_ignores_every_word_in_turn() {
    let ignored = vec!["qwzx".to_string(), "hello".to_string(), "blorf".to_string(), "qwzx".to_string()];
    let state = DictionaryState::load(AFF, DIC, &ignored);
    let dictionary = state.dictionary.as_ref().unwrap();
    assert!(dictionary.check("qwzx"));
    assert!(dictionary.check("blorf"));
    assert_eq!(state.get_ignore_list(), vec!["qwzx".to_string(), "blorf".to_string()]);
}
