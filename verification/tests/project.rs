use cheese_paper::events::{plan_updates, queue_event, ready_to_process, receive_events, take_ready_batch, watch_step, WatchAction, WATCHER_MSEC_DURATION};
use cheese_paper::objects::{is_loadable, load_contents, Contents};
use cheese_paper::tree::rebase_paths;
use cheese_paper::metadata::{TomlEntry, TomlValue};
use cheese_paper::events::{load_target, LoadTarget};
use cheese_paper::tree::{add_child_if_missing, move_child_in_tree};
use cheese_paper::search::{GlobalSearch, Search};
use cheese_paper::metadata::CharacterMetadata;
use cheese_paper::outlines::get_title;
use cheese_paper::schema::character_type;
use cheese_paper::events::{
    extension, get_parent_path, is_noise_event, is_relevant_event_path, object_path, paths_to_load,
    plan_event, EventKind, FileEvent,
};
use cheese_paper::indexing::{
    index_gap_moves, index_update, insert_index, rescan_order, IndexUpdate, InsertPosition,
};
use cheese_paper::saving::{file_contents, u64_to_i64_drop_msb};
use cheese_paper::loading::split_file_contents;
use cheese_paper::search::{search, Page};
use cheese_paper::textbox::{Text, UidCounter};
use cheese_paper::tree::{
    check_move, clean_up_orphaned_objects, find_object_by_path, find_object_parent, parent_contains,
    remove_path_from_parent, MoveCheck, ObjectRecord,
};

fn path(s: &str) -> Vec<String> {
    s.split('/').map(|c| c.to_string()).collect()
}

fn record(id: &str, p: &str, children: &[&str]) -> ObjectRecord {
    ObjectRecord { id: id.to_string(), path: path(p), children: children.iter().map(|c| c.to_string()).collect() }
}

#[test]
fn noise_events_are_ignored() {
    let git = FileEvent { kind: EventKind::ModifyData, paths: vec![path("p/.git/index")] };
    assert!(is_noise_event(&git));
    let access = FileEvent { kind: EventKind::Access, paths: vec![path("p/text/a.md")] };
    assert!(is_noise_event(&access));
    let real = FileEvent { kind: EventKind::Create, paths: vec![path("p/text/a.md")] };
    assert!(!is_noise_event(&real));
}

#[test]
fn event_plans_by_kind() {
    let rename = FileEvent { kind: EventKind::RenameBoth, paths: vec![path("p/text/a.md"), path("p/text/b.md")] };
    let plan = plan_event(&rename);
    assert_eq!(plan.remove, Some(path("p/text/a.md")));
    assert_eq!(plan.load, Some(path("p/text/b.md")));
    let create = plan_event(&FileEvent { kind: EventKind::Create, paths: vec![path("p/text/c.md")] });
    assert_eq!(create.remove, None);
    assert_eq!(create.load, Some(path("p/text/c.md")));
    let remove = plan_event(&FileEvent { kind: EventKind::Remove, paths: vec![path("p/text/c.md")] });
    assert_eq!(remove.remove, Some(path("p/text/c.md")));
    assert_eq!(remove.load, None);
    let other = plan_event(&FileEvent { kind: EventKind::ModifyOther, paths: vec![] });
    assert!(other.remove.is_none() && other.load.is_none());
}

#[test]
fn nested_paths_load_once() {
    let paths = vec![path("p/text/f"), path("p/text/f/a.md"), path("p/text/b.md"), path("p/text/f")];
    let r = paths_to_load(&paths);
    assert_eq!(r, vec![path("p/text/f"), path("p/text/b.md")]);
}

#[test]
fn relevant_paths() {
    let project = path("home/p");
    assert!(is_relevant_event_path(&project, &path("home/p/text/a.md")));
    assert!(is_relevant_event_path(&project, &path("home/p/characters/000-c.toml")));
    assert!(is_relevant_event_path(&project, &path("home/p/worldbuilding/dir")));
    assert!(!is_relevant_event_path(&project, &path("home/p/text/a.md.tmp")));
    assert!(!is_relevant_event_path(&project, &path("home/p/text/.hidden.md")));
    assert!(!is_relevant_event_path(&project, &path("home/p/other/a.md")));
    assert!(!is_relevant_event_path(&project, &path("home/q/text/a.md")));
    assert_eq!(extension("a.tar.gz"), Some("gz".to_string()));
    assert_eq!(extension(".bashrc"), None);
    assert_eq!(extension("noext"), None);
    assert_eq!(extension("end."), Some(String::new()));
}

#[test]
fn metadata_file_stands_for_folder() {
    assert_eq!(object_path(&path("p/text/f/metadata.toml")), path("p/text/f"));
    assert_eq!(get_parent_path(&path("p/text/f/metadata.toml")), path("p/text"));
    assert_eq!(get_parent_path(&path("p/text/a.md")), path("p/text"));
}

#[test]
fn tree_lookups_and_removal() {
    let mut objects = vec![
        record("t", "p/text", &["f", "a"]),
        record("f", "p/text/f", &["b"]),
        record("a", "p/text/a.md", &[]),
        record("b", "p/text/f/b.md", &[]),
    ];
    assert_eq!(find_object_by_path(&objects, &path("p/text/f/metadata.toml")), Some("f".to_string()));
    assert_eq!(find_object_by_path(&objects, &path("p/text/zzz.md")), None);
    assert_eq!(find_object_parent(&objects, "b"), Some("f".to_string()));
    assert!(parent_contains(&objects, "t", "b"));
    assert!(!parent_contains(&objects, "f", "a"));
    assert_eq!(check_move(&objects, "t", "x", "f", Some(0), 1), MoveCheck::IntoItself);
    assert_eq!(check_move(&objects, "a", "t", "t", Some(1), 1), MoveCheck::AlreadyThere);
    assert_eq!(check_move(&objects, "a", "t", "f", None, 0), MoveCheck::NoIndex);
    assert_eq!(check_move(&objects, "a", "t", "f", Some(1), 0), MoveCheck::Move);
    assert_eq!(remove_path_from_parent(&mut objects, &path("p/text/f/b.md")), Some("f".to_string()));
    assert!(objects[1].children.is_empty());
    assert_eq!(remove_path_from_parent(&mut objects, &path("p/text/f/b.md")), None);
}

#[test]
fn orphans_are_dropped_with_their_children() {
    let mut objects = vec![
        record("t", "p/text", &["a"]),
        record("a", "p/text/a.md", &[]),
        record("o", "p/text/o", &["oc"]),
        record("oc", "p/text/o/c.md", &["ocd"]),
        record("ocd", "p/text/o/c/d.md", &[]),
        record("c", "p/characters", &[]),
    ];
    let roots = vec!["t".to_string(), "c".to_string()];
    clean_up_orphaned_objects(&mut objects, &roots);
    let ids: Vec<&str> = objects.iter().map(|o| o.id.as_str()).collect();
    assert_eq!(ids, vec!["t", "a", "c"]);
}

#[test]
fn index_updates() {
    assert_eq!(index_update(Some(2), "002-a.md", 2), IndexUpdate::Unchanged);
    assert_eq!(index_update(Some(2), "001-a.md", 2), IndexUpdate::RenameFile);
    assert_eq!(index_update(Some(1), "002-a.md", 2), IndexUpdate::SetIndex);
    assert_eq!(index_update(None, "a.md", 0), IndexUpdate::Both);
}

#[test]
fn insert_positions_and_gaps() {
    let children = vec!["a".to_string(), "b".to_string(), "c".to_string()];
    assert_eq!(insert_index(&children, &InsertPosition::After("b".to_string())), 2);
    assert_eq!(insert_index(&children, &InsertPosition::Before("b".to_string())), 1);
    assert_eq!(insert_index(&children, &InsertPosition::First), 0);
    assert_eq!(insert_index(&children, &InsertPosition::Last), 3);
    assert_eq!(index_gap_moves(3, 1), vec![(2, 3), (1, 2)]);
    assert!(index_gap_moves(3, 3).is_empty());
}

#[test]
fn rescan_sorts_stably_by_file_index() {
    let names: Vec<String> = ["10-scene2.md", "scene_no_index.md", "05-dir", "4-scene2.md", "000-x.md", "4-other.md"]
        .iter()
        .map(|s| s.to_string())
        .collect();
    assert_eq!(rescan_order(&names), vec![4, 3, 5, 2, 0, 1]);
}

#[test]
fn saved_file_reads_back() {
    let text = file_contents("id = \"1\"\n", Some("body\n"));
    assert_eq!(text, "id = \"1\"\n++++++++\n\nbody\n");
    let (head, body) = split_file_contents(&text, true);
    assert_eq!(head, "id = \"1\"\n");
    assert_eq!(body.unwrap(), "body");
    assert_eq!(file_contents("a = 1", None), "a = 1");
}

#[test]
fn drop_msb_keeps_depths_positive() {
    assert_eq!(u64_to_i64_drop_msb(5), 5);
    assert_eq!(u64_to_i64_drop_msb(u64::MAX), i64::MAX);
    assert_eq!(u64_to_i64_drop_msb(1u64 << 63), 0);
}

#[test]
fn search_finds_every_occurrence_with_byte_offsets() {
    let mut uids = UidCounter::new();
    let text = Text::from_string("aa é aa\nxaaa".to_string(), uids.fresh());
    let r = search(&text, &Page::ProjectMetadata, "summary", "aa");
    let found: Vec<(usize, usize, usize, usize, usize)> = r
        .finds
        .iter()
        .map(|f| (f.start, f.end, f.preview.word_start, f.preview.word_end, f.preview.line_number))
        .collect();
    assert_eq!(found, vec![(0, 2, 0, 2, 1), (6, 8, 6, 8, 1), (10, 12, 1, 3, 2)]);
    assert_eq!(r.finds[2].preview.context, "xaaa");
    assert_eq!(r.box_name, "summary");
    let empty = search(&Text::from_string("ab".to_string(), 0), &Page::Export, "x", "");
    let starts: Vec<usize> = empty.finds.iter().map(|f| f.start).collect();
    assert_eq!(starts, vec![0, 1, 2]);
}

#[test]
fn page_ids_round_trip() {
    for id in ["project_metadata", "export", "abc-123"] {
        assert_eq!(Page::from_id(id).get_id(), id);
    }
    assert_eq!(Page::from_id("project_metadata"), Page::ProjectMetadata);
    assert_eq!(Page::from_id("xyz"), Page::FileObject("xyz".to_string()));
    assert!(Page::from_id("xyz").is_file_object());
    assert!(!Page::Export.is_searchable());
    assert!(Page::ProjectMetadata.is_searchable());
}

#[test]
fn batch_of_events_is_planned() {
    let events = vec![
        FileEvent { kind: EventKind::ModifyData, paths: vec![path("p/text/a.md")] },
        FileEvent { kind: EventKind::Access, paths: vec![path("p/text/b.md")] },
        FileEvent { kind: EventKind::Create, paths: vec![path("p/text/f")] },
        FileEvent { kind: EventKind::Create, paths: vec![path("p/text/f/c.md")] },
        FileEvent { kind: EventKind::Remove, paths: vec![path("p/.git/x")] },
    ];
    let (removals, loads) = plan_updates(&events);
    assert_eq!(removals, vec![path("p/text/a.md")]);
    assert_eq!(loads, vec![path("p/text/a.md"), path("p/text/f")]);
}

#[test]
fn load_targets() {
    let project = path("home/p");
    assert!(matches!(load_target(&project, &path("home/p/project.toml")), LoadTarget::ProjectInfo));
    match load_target(&project, &path("home/p/text/f/metadata.toml")) {
        LoadTarget::Object(p) => assert_eq!(p, path("home/p/text/f")),
        _ => panic!("expected an object"),
    }
    assert!(matches!(load_target(&project, &path("home/p/notes.txt")), LoadTarget::Ignore));
}

#[test]
fn moving_a_child_between_folders() {
    let mut objects = vec![
        record("t", "p/text", &["f", "a", "b"]),
        record("f", "p/text/f", &["c"]),
        record("a", "p/text/a.md", &[]),
        record("b", "p/text/b.md", &[]),
        record("c", "p/text/f/c.md", &[]),
    ];
    move_child_in_tree(&mut objects, "a", "t", "f", 0);
    assert_eq!(objects[0].children, vec!["f".to_string(), "b".to_string()]);
    assert_eq!(objects[1].children, vec!["a".to_string(), "c".to_string()]);
    move_child_in_tree(&mut objects, "b", "t", "f", 99);
    assert_eq!(objects[1].children, vec!["a".to_string(), "c".to_string(), "b".to_string()]);
    move_child_in_tree(&mut objects, "b", "f", "f", 0);
    assert_eq!(objects[1].children, vec!["b".to_string(), "a".to_string(), "c".to_string()]);
    assert!(!add_child_if_missing(&mut objects, "f", "a"));
    assert!(add_child_if_missing(&mut objects, "t", "a"));
    assert_eq!(objects[0].children, vec!["f".to_string(), "a".to_string()]);
}

#[test]
fn search_box_state() {
    let mut s = Search::default();
    s.show();
    assert!(s.active && s.request_ui_focus);
    s.close();
    assert!(!s.active && s.exiting_search);
    s.clear_focus();
    assert!(s.focus.is_none() && !s.goto_focus);
    let mut g = GlobalSearch::default();
    g.show();
    assert!(g.active);
    g.close();
    assert!(!g.active);
}

#[test]
fn outline_properties_and_titles() {
    let mut uids = UidCounter::new();
    let mut c = CharacterMetadata::new(&mut uids);
    c.goal = Text::from_string("win".to_string(), uids.fresh());
    let props = c.outline_properties();
    let names: Vec<&str> = props.iter().map(|p| p.name.as_str()).collect();
    assert_eq!(names, vec!["summary", "appearance", "personality", "goal", "conflict", "habits", "notes"]);
    assert_eq!(props[3].value, "win");
    assert_eq!(get_title("", &character_type()), "New Character");
    assert_eq!(get_title("Bob", &character_type()), "Bob");
}

#[test]
fn text_edits_bump_version() {
    let mut uids = UidCounter::new();
    let mut t = Text::new(uids.fresh());
    let id = t.id();
    assert_eq!(t.insert_text("héllo", 0), 5);
    assert_eq!(t.insert_text("X", 1), 1);
    assert_eq!(t.as_str(), "hXéllo");
    t.delete_char_range(1, 3);
    assert_eq!(t.as_str(), "hllo");
    assert_eq!(t.buffer_signature(), (3, id));
    assert_ne!(uids.fresh(), id);
}

#[test]
fn queued_events_skip_noise() {
    let mut queue: Vec<FileEvent> = Vec::new();
    let change = FileEvent { kind: EventKind::ModifyData, paths: vec![vec!["p".to_string(), "a.md".to_string()]] };
    assert!(queue_event(&mut queue, change));
    let git = FileEvent { kind: EventKind::Create, paths: vec![vec!["p".to_string(), ".git".to_string(), "x".to_string()]] };
    assert!(!queue_event(&mut queue, git));
    let access = FileEvent { kind: EventKind::Access, paths: vec![vec!["p".to_string(), "b.md".to_string()]] };
    assert!(!queue_event(&mut queue, access));
    assert_eq!(queue.len(), 1);
    assert_eq!(queue[0].paths[0][1], "a.md");
}

#[test]
fn events_wait_for_twice_the_watcher_period() {
    assert_eq!(WATCHER_MSEC_DURATION, 1000);
    assert!(!ready_to_process(None));
    assert!(!ready_to_process(Some(0)));
    assert!(!ready_to_process(Some(2000)));
    assert!(ready_to_process(Some(2001)));
}

#[test]
fn cleanup_keeps_what_the_roots_reach() {
    let mut objects = vec![
        record("d", "p/text/d", &["e"]),
        record("t", "p/text", &["a"]),
        record("a", "p/text/a", &["b"]),
        record("b", "p/text/a/b.md", &[]),
        record("e", "p/text/d/e", &["f"]),
        record("f", "p/text/d/e/f.md", &[]),
        record("u", "p/u", &["v"]),
        record("v", "p/u/v", &["u"]),
    ];
    let roots = vec!["t".to_string()];
    clean_up_orphaned_objects(&mut objects, &roots);
    let ids: Vec<&str> = objects.iter().map(|o| o.id.as_str()).collect();
    // a cycle that no top-level folder reaches is not dangling, so it stays
    assert_eq!(ids, vec!["t", "a", "b", "u", "v"]);
}

#[test]
fn batches_are_queued_and_handed_out_when_ready() {
    let mut queue: Vec<FileEvent> = Vec::new();
    let batch = vec![
        FileEvent { kind: EventKind::Create, paths: vec![path("p/text/a.md")] },
        FileEvent { kind: EventKind::Access, paths: vec![path("p/text/a.md")] },
        FileEvent { kind: EventKind::ModifyData, paths: vec![path("p/.git/index")] },
        FileEvent { kind: EventKind::Remove, paths: vec![path("p/text/b.md")] },
    ];
    assert!(receive_events(&mut queue, batch));
    assert_eq!(queue.len(), 2);
    assert!(!receive_events(&mut queue, vec![FileEvent { kind: EventKind::Access, paths: vec![path("p/x")] }]));
    assert!(take_ready_batch(&mut queue, Some(2000)).is_none());
    assert_eq!(queue.len(), 2);
    let ready = take_ready_batch(&mut queue, Some(2001)).unwrap();
    assert_eq!(ready.len(), 2);
    assert_eq!(ready[1].kind, EventKind::Remove);
    assert!(queue.is_empty());
}

#[test]
fn renaming_moves_everything_below() {
    let mut objects = vec![
        record("t", "p/text", &["f"]),
        record("f", "p/text/003-f", &["s"]),
        record("s", "p/text/003-f/000-s.md", &[]),
        record("o", "p/text/003-fx", &[]),
    ];
    rebase_paths(&mut objects, &path("p/text/003-f"), &path("p/text/001-f"));
    let paths: Vec<String> = objects.iter().map(|o| o.path.join("/")).collect();
    assert_eq!(paths, vec!["p/text", "p/text/001-f", "p/text/001-f/000-s.md", "p/text/003-fx"]);
    assert_eq!(objects[1].children, vec!["s".to_string()]);
}

#[test]
fn loading_takes_folders_and_known_extensions() {
    assert!(is_loadable(true, None));
    assert!(is_loadable(false, Some("md")));
    assert!(is_loadable(false, Some("toml")));
    assert!(!is_loadable(false, Some("txt")));
    assert!(!is_loadable(false, None));
}

#[test]
fn contents_load_by_file_type() {
    let mut uids = UidCounter::new();
    let table = vec![
        TomlEntry { key: "summary".to_string(), value: TomlValue::Text("sum".to_string()) },
        TomlEntry { key: "notes".to_string(), value: TomlValue::Text("n".to_string()) },
    ];
    match load_contents("scene", &table, Some("body".to_string()), &mut uids).unwrap() {
        (Contents::Scene(m, text), modified) => {
            assert_eq!(m.summary.as_str(), "sum");
            assert_eq!(text.as_str(), "body");
            assert!(modified);
        }
        other => panic!("expected a scene, got {:?}", other),
    }
    assert!(matches!(load_contents("folder", &table, None, &mut uids).unwrap(), (Contents::Folder(_), true)));
    assert!(matches!(load_contents("character", &table, None, &mut uids).unwrap(), (Contents::Character(_), true)));
    assert!(matches!(load_contents("worldbuilding", &table, None, &mut uids).unwrap(), (Contents::Place(_), true)));
    let wrong = vec![TomlEntry { key: "summary".to_string(), value: TomlValue::Integer(1) }];
    assert_eq!(load_contents("scene", &wrong, None, &mut uids).unwrap_err().field, "summary");
}

#[test]
fn watch_rounds_apply_only_when_quiet() {
    let mut queue: Vec<FileEvent> = Vec::new();
    let change = vec![FileEvent { kind: EventKind::Create, paths: vec![path("p/text/a.md")] }];
    assert!(matches!(watch_step(&mut queue, change, Some(5000)), WatchAction::Wait { restart_clock: true }));
    assert_eq!(queue.len(), 1);
    assert!(matches!(watch_step(&mut queue, Vec::new(), Some(10)), WatchAction::Wait { restart_clock: false }));
    let noise = vec![FileEvent { kind: EventKind::Access, paths: vec![path("p/text/a.md")] }];
    match watch_step(&mut queue, noise, Some(2500)) {
        WatchAction::Apply(changes) => assert_eq!(changes.len(), 1),
        other => panic!("expected the queue to be applied, got {:?}", other),
    }
    assert!(queue.is_empty());
}
