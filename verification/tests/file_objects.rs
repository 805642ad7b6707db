use cheese_paper::compile::CompileStatus;
use cheese_paper::export::scene_body;
use cheese_paper::indexing::{index_update, insert_index, rescan_order, IndexUpdate, InsertPosition};
use cheese_paper::loading::read_object_header;
use cheese_paper::metadata::{
    load_base_metadata, CharacterMetadata, FileObjectMetadata, FolderMetadata, PlaceMetadata, SceneMetadata,
    TomlEntry, TomlValue,
};
use cheese_paper::naming::calculate_filename;
use cheese_paper::reference::ObjectReference;
use cheese_paper::saving::{file_contents, save_plan, SavePlan};
use cheese_paper::schema::{character_type, folder_type, place_type, scene_type, FileTypeInfo};
use cheese_paper::textbox::{Text, UidCounter};
use cheese_paper::tree::{
    check_move, clean_up_orphaned_objects, find_object_parent, find_position, move_child_in_tree,
    remove_child_from_tree, MoveCheck, ObjectRecord,
};

/// A project as the tree of the library holds it, with the name and type of each object,
/// and the places of its files computed from the tree.
struct TestProject {
    records: Vec<ObjectRecord>,
    info: Vec<(String, String, FileTypeInfo)>,
    text_id: String,
    roots: Vec<String>,
}

impl TestProject {
    fn new() -> Self {
        let mut project = TestProject { records: Vec::new(), info: Vec::new(), text_id: "text".to_string(), roots: Vec::new() };
        for (id, name) in [("text", "Text"), ("characters", "Characters"), ("worldbuilding", "Worldbuilding")] {
            project.records.push(ObjectRecord { id: id.to_string(), path: vec![id.to_string()], children: Vec::new() });
            project.info.push((id.to_string(), name.to_string(), folder_type()));
            project.roots.push(id.to_string());
        }
        project
    }

    fn create_child_at_end(&mut self, parent: &str, id: &str, name: &str, file_type: FileTypeInfo) {
        self.records.push(ObjectRecord { id: id.to_string(), path: vec![id.to_string()], children: Vec::new() });
        self.info.push((id.to_string(), name.to_string(), file_type));
        let parent = self.records.iter_mut().find(|r| r.id == parent).unwrap();
        parent.children.push(id.to_string());
    }

    fn record(&self, id: &str) -> &ObjectRecord {
        self.records.iter().find(|r| r.id == id).unwrap()
    }

    fn contains(&self, id: &str) -> bool {
        self.records.iter().any(|r| r.id == id)
    }

    fn children(&self, id: &str) -> Vec<String> {
        self.record(id).children.clone()
    }

    /// The index of an object: its place among its parent's children (none for a top-level
    /// folder).
    fn index(&self, id: &str) -> Option<usize> {
        let parent = find_object_parent(&self.records, id)?;
        find_position(&self.record(&parent).children, id)
    }

    fn file_name(&self, id: &str) -> String {
        let (_, name, file_type) = self.info.iter().find(|(i, _, _)| i == id).unwrap();
        match self.index(id) {
            None => name.to_lowercase(),
            Some(index) => calculate_filename(name, Some(index), file_type),
        }
    }

    fn path(&self, id: &str) -> String {
        match find_object_parent(&self.records, id) {
            Some(parent) => format!("{}/{}", self.path(&parent), self.file_name(id)),
            None => self.file_name(id),
        }
    }

    fn is_folder(&self, id: &str) -> bool {
        self.info.iter().find(|(i, _, _)| i == id).unwrap().2.is_folder()
    }

    /// Whether a file or folder of the project is at `path` (relative to the project).
    fn has_file(&self, path: &str) -> bool {
        let path = path.trim_end_matches('/');
        let (folder, is_metadata) = match path.strip_suffix("/metadata.toml") {
            Some(folder) => (folder, true),
            None => (path, false),
        };
        self.records
            .iter()
            .any(|r| self.path(&r.id) == folder && (!is_metadata || self.is_folder(&r.id)))
    }

    fn move_child(&mut self, moving: &str, source: &str, dest: &str, new_index: usize) -> Result<(), String> {
        let moving_index = self.index(moving);
        match check_move(&self.records, moving, source, dest, moving_index, new_index) {
            MoveCheck::IntoItself | MoveCheck::NoIndex => Err(format!("attempted to move {moving} into itself")),
            MoveCheck::AlreadyThere => Ok(()),
            MoveCheck::Move => {
                move_child_in_tree(&mut self.records, moving, source, dest, new_index);
                Ok(())
            }
        }
    }

    fn remove_child(&mut self, child: &str, parent: &str) {
        remove_child_from_tree(&mut self.records, child, parent);
        let roots = self.roots.clone();
        clean_up_orphaned_objects(&mut self.records, &roots);
    }
}

#[test]
fn test_delete() {
    let mut project = TestProject::new();
    project.create_child_at_end("text", "folder1", "folder1", folder_type());
    project.create_child_at_end("folder1", "scene1", "scene1", scene_type());
    project.create_child_at_end("folder1", "scene2", "scene2", scene_type());

    assert!(project.has_file("text/000-folder1/"));
    assert!(project.has_file("text/000-folder1/000-scene1.md"));
    assert!(project.has_file("text/000-folder1/001-scene2.md"));

    project.remove_child("scene2", "folder1");
    assert!(project.has_file("text/000-folder1/"));
    assert!(project.has_file("text/000-folder1/000-scene1.md"));
    assert!(!project.has_file("text/000-folder1/001-scene2.md"));
    assert_eq!(project.children("folder1").first().unwrap(), "scene1");
    assert_eq!(project.children("folder1").len(), 1);
    assert!(!project.contains("scene2"));

    project.remove_child("folder1", "text");
    assert!(project.has_file("text/metadata.toml"));
    assert!(!project.has_file("text/000-folder1/"));
    assert!(!project.has_file("text/000-folder1/001-scene2.md"));
    assert_eq!(project.children("text").len(), 0);
    assert!(!project.contains("scene1"));
    assert!(!project.contains("folder1"));
}

#[test]
fn test_delete_middle() {
    let mut project = TestProject::new();
    project.create_child_at_end("text", "folder1", "folder1", folder_type());
    project.create_child_at_end("folder1", "scene1", "scene1", scene_type());
    project.create_child_at_end("text", "scene2", "scene2", scene_type());

    project.remove_child("folder1", "text");
    assert!(!project.has_file("text/000-folder1/"));
    assert!(project.has_file("text/000-scene2.md"));
    assert_eq!(project.children("text").len(), 1);
    assert!(!project.contains("folder1"));
    assert!(project.contains("scene2"));
}

#[test]
fn test_move_simple() {
    let mut project = TestProject::new();
    project.create_child_at_end("text", "folder1", "folder1", folder_type());
    project.create_child_at_end("text", "folder2", "folder2", folder_type());
    project.create_child_at_end("folder1", "scene", "scene1", scene_type());

    assert!(project.has_file("text/000-folder1/000-scene1.md"));
    assert!(!project.has_file("text/001-folder2/000-scene1.md"));

    project.move_child("scene", "folder1", "folder2", 0).unwrap();

    assert!(!project.has_file("text/000-folder1/000-scene1.md"));
    assert!(project.has_file("text/001-folder2/000-scene1.md"));
    assert_eq!(project.children("folder1").len(), 0);
    assert_eq!(project.children("folder2").len(), 1);
}

#[test]
fn test_move_multiple_times() {
    let mut project = TestProject::new();
    project.create_child_at_end("text", "folder1", "folder1", folder_type());
    project.create_child_at_end("text", "folder2", "folder2", folder_type());
    project.create_child_at_end("folder1", "scene", "scene1", scene_type());

    assert!(project.has_file("text/000-folder1/000-scene1.md"));
    assert!(!project.has_file("text/001-folder2/000-scene1.md"));

    project.move_child("scene", "folder1", "folder2", 0).unwrap();
    assert!(!project.has_file("text/000-folder1/000-scene1.md"));
    assert!(project.has_file("text/001-folder2/000-scene1.md"));
    assert_eq!(project.children("folder1").len(), 0);
    assert_eq!(project.children("folder2").len(), 1);

    project.move_child("scene", "folder2", "folder1", 0).unwrap();
    assert_eq!(project.children("folder1").len(), 1);
    assert_eq!(project.children("folder2").len(), 0);
    assert!(project.has_file("text/000-folder1/000-scene1.md"));
    assert!(!project.has_file("text/001-folder2/000-scene1.md"));
}

#[test]
fn test_move_folder_contents() {
    let mut project = TestProject::new();
    project.create_child_at_end("text", "folder1", "folder1", folder_type());
    project.create_child_at_end("text", "folder2", "folder2", folder_type());
    project.create_child_at_end("folder2", "scene", "scene1", scene_type());

    assert!(!project.has_file("text/000-folder1/000-scene1.md"));
    assert!(project.has_file("text/001-folder2/000-scene1.md"));

    project.move_child("folder2", "text", "folder1", 0).unwrap();

    assert!(!project.has_file("text/001-folder2"));
    assert!(project.has_file("text/000-folder1/000-folder2/metadata.toml"));
    assert!(project.has_file("text/000-folder1/000-folder2"));
    assert!(project.has_file("text/000-folder1/000-folder2/000-scene1.md"));
    assert!(project.has_file("text/000-folder1/metadata.toml"));
    assert_eq!(project.children("folder1").len(), 1);
    assert_eq!(project.children("folder1").first().unwrap(), "folder2");
    assert_eq!(project.children("folder2").len(), 1);
    assert_eq!(project.children("folder2").first().unwrap(), "scene");
}

#[test]
fn test_move_within_folder_backwards() {
    let mut project = TestProject::new();
    project.create_child_at_end("text", "folder", "folder1", folder_type());
    project.create_child_at_end("text", "scene", "scene1", scene_type());

    assert!(project.has_file("text/000-folder1/"));
    assert!(project.has_file("text/001-scene1.md"));

    project.move_child("scene", "text", "text", 0).unwrap();

    assert!(project.has_file("text/000-scene1.md"));
    assert!(project.has_file("text/001-folder1/"));
    assert!(!project.has_file("text/000-folder1/"));
    assert!(!project.has_file("text/001-scene1.md"));
    assert_eq!(project.index("folder"), Some(1));
    assert_eq!(project.index("scene"), Some(0));
    assert_eq!(project.children("text").get(1).unwrap(), "folder");
    assert_eq!(project.children("text").first().unwrap(), "scene");
}

#[test]
fn test_move_within_folder_forwards() {
    let mut project = TestProject::new();
    project.create_child_at_end("text", "folder", "folder1", folder_type());
    project.create_child_at_end("text", "scene", "scene1", scene_type());

    assert!(project.has_file("text/000-folder1/"));
    assert!(project.has_file("text/001-scene1.md"));

    let text_id = project.text_id.clone();
    project.move_child("folder", &text_id, &text_id, 1).unwrap();

    assert!(project.has_file("text/000-scene1.md"));
    assert!(project.has_file("text/001-folder1/"));
    assert!(!project.has_file("text/000-folder1/"));
    assert!(!project.has_file("text/001-scene1.md"));
    assert_eq!(project.index("scene"), Some(0));
    assert_eq!(project.index("folder"), Some(1));
    assert_eq!(project.children("text").first().unwrap(), "scene");
    assert_eq!(project.children("text").get(1).unwrap(), "folder");
}

#[test]
fn test_move_between_folder_contents() {
    let mut project = TestProject::new();
    project.create_child_at_end("text", "folder1", "folder1", folder_type());
    project.create_child_at_end("text", "folder2", "folder2", folder_type());
    project.create_child_at_end("folder1", "scene_a", "a", scene_type());
    project.create_child_at_end("folder1", "scene_b", "b", scene_type());
    project.create_child_at_end("folder1", "scene_c", "c", scene_type());

    assert!(project.has_file("text/000-folder1/000-a.md"));
    assert!(project.has_file("text/000-folder1/001-b.md"));
    assert!(project.has_file("text/000-folder1/002-c.md"));

    project.move_child("scene_b", "folder1", "folder2", 0).unwrap();
    assert!(project.has_file("text/001-folder2/000-b.md"));
    assert!(!project.has_file("text/000-folder1/001-b.md"));
    assert!(project.has_file("text/000-folder1/000-a.md"));
    assert!(project.has_file("text/000-folder1/001-c.md"));
    assert_eq!(project.children("folder1").len(), 2);
    assert_eq!(project.children("folder2").len(), 1);
    assert_eq!(project.children("folder1").first().unwrap(), "scene_a");
    assert_eq!(project.children("folder1").get(1).unwrap(), "scene_c");
    assert_eq!(project.children("folder2").first().unwrap(), "scene_b");
    assert_eq!(project.index("scene_a"), Some(0));
    assert_eq!(project.index("scene_c"), Some(1));
    assert_eq!(project.index("scene_b"), Some(0));

    project.move_child("scene_b", "folder2", "folder1", 0).unwrap();
    assert!(!project.has_file("text/001-folder2/000-b.md"));
    assert!(project.has_file("text/000-folder1/000-b.md"));
    assert!(project.has_file("text/000-folder1/001-a.md"));
    assert!(project.has_file("text/000-folder1/002-c.md"));
    assert_eq!(project.children("folder1").len(), 3);
    assert_eq!(project.children("folder2").len(), 0);
    assert_eq!(project.children("folder1"), vec!["scene_b".to_string(), "scene_a".to_string(), "scene_c".to_string()]);
}

#[test]
fn test_move_to_parent() {
    let mut project = TestProject::new();
    project.create_child_at_end("text", "folder1", "folder1", folder_type());
    project.create_child_at_end("folder1", "scene", "scene1", scene_type());

    assert!(project.has_file("text/000-folder1/000-scene1.md"));
    assert!(!project.has_file("text/001-scene1.md"));

    project.move_child("scene", "folder1", "text", 1).unwrap();

    assert!(project.has_file("text/000-folder1/metadata.toml"));
    assert!(!project.has_file("text/000-folder1/000-scene1.md"));
    assert!(project.has_file("text/001-scene1.md"));
    assert_eq!(project.children("folder1").len(), 0);
    assert_eq!(project.children("text").first().unwrap(), "folder1");
    assert_eq!(project.children("text").len(), 2);
    assert_eq!(project.children("text").get(1).unwrap(), "scene");
}

#[test]
fn test_move_to_parent_current_position() {
    let mut project = TestProject::new();
    project.create_child_at_end("text", "folder1", "folder1", folder_type());
    project.create_child_at_end("folder1", "scene", "scene1", scene_type());

    assert!(project.has_file("text/000-folder1/000-scene1.md"));
    assert!(!project.has_file("text/001-scene1.md"));

    project.move_child("scene", "folder1", "text", 0).unwrap();

    assert!(project.has_file("text/000-scene1.md"));
    assert!(project.has_file("text/001-folder1/metadata.toml"));
    assert!(!project.has_file("text/001-folder1/000-scene1.md"));
    assert_eq!(project.children("folder1").len(), 0);
    assert_eq!(project.children("text").first().unwrap(), "scene");
    assert_eq!(project.children("text").get(1).unwrap(), "folder1");
    assert_eq!(project.children("text").len(), 2);
}

#[test]
fn test_move_to_self() {
    let mut project = TestProject::new();
    project.create_child_at_end("text", "folder", "folder1", folder_type());
    project.create_child_at_end("text", "scene", "scene1", scene_type());

    assert!(project.has_file("text/000-folder1/"));
    assert!(project.has_file("text/001-scene1.md"));

    let before = project.children("text");
    let text_id = project.text_id.clone();
    project.move_child("folder", &text_id, &text_id, 0).unwrap();

    assert!(project.has_file("text/000-folder1/"));
    assert!(project.has_file("text/001-scene1.md"));
    assert!(!project.has_file("text/000-scene1.md"));
    assert!(!project.has_file("text/001-folder1/"));
    assert_eq!(project.index("folder"), Some(0));
    assert_eq!(project.index("scene"), Some(1));
    assert_eq!(project.children("text"), before);
}

#[test]
fn test_move_to_child() {
    let mut project = TestProject::new();
    project.create_child_at_end("text", "top", "top", folder_type());
    project.create_child_at_end("top", "mid", "mid", folder_type());
    project.create_child_at_end("mid", "child", "child", scene_type());
    assert_eq!(project.index("child"), Some(0));

    let text_id = project.text_id.clone();
    let immediate_move = project.move_child("top", &text_id, "mid", 1);
    assert!(immediate_move.err().unwrap().contains("attempted to move top into itself"));
    let child_move = project.move_child("top", &text_id, "child", 1);
    assert!(child_move.err().unwrap().contains("attempted to move top into itself"));

    assert_eq!(project.children("text").first().unwrap(), "top");
    assert_eq!(project.children("top").first().unwrap(), "mid");
    assert_eq!(project.children("mid").first().unwrap(), "child");
    assert!(project.path("child").ends_with("000-top/000-mid/000-child.md"));
    assert!(project.has_file(&project.path("child")));
}

#[test]
fn test_move_no_clobber() {
    let mut project = TestProject::new();
    project.create_child_at_end("text", "scene1", "a", scene_type());
    project.create_child_at_end("text", "scene2", "a", scene_type());

    assert!(project.has_file("text/000-a.md"));
    assert!(project.has_file("text/001-a.md"));

    let text_id = project.text_id.clone();
    project.move_child("scene1", &text_id, &text_id, 1).unwrap();

    assert!(project.has_file("text/000-a.md"));
    assert!(project.has_file("text/001-a.md"));
    assert_eq!(project.children("text").len(), 2);
    assert_eq!(project.children("text").first().unwrap(), "scene2");
    assert_eq!(project.index("scene1"), Some(1));
    assert_eq!(project.index("scene2"), Some(0));
}

#[test]
fn test_set_index_folders() {
    let mut project = TestProject::new();
    project.create_child_at_end("text", "top", "", folder_type());
    project.create_child_at_end("top", "mid", "", folder_type());
    project.create_child_at_end("mid", "child", "", scene_type());
    assert!(project.has_file(&project.path("child")));
    assert_eq!(project.index("child"), Some(0));

    // setting the top folder's index to 1 renames it and sets its index; what is below it
    // keeps its own names
    assert_eq!(index_update(project.index("top"), &project.file_name("top"), 1), IndexUpdate::Both);
    assert_eq!(calculate_filename("", Some(1), &folder_type()), "001-New_Folder");
    assert_eq!(project.index("child"), Some(0));
    assert!(project.path("child").ends_with("000-New_Folder/000-New_Scene.md"));
}

#[test]
fn test_avoid_pointless_save() {
    // files that were just created and not changed since are not written again
    let scene_name = calculate_filename("", Some(0), &scene_type());
    assert!(matches!(save_plan(false, Some(0), &scene_name, "", &scene_type()), SavePlan::NothingToWrite));
    let folder_name = calculate_filename("", Some(1), &folder_type());
    assert!(matches!(save_plan(false, Some(1), &folder_name, "", &folder_type()), SavePlan::NothingToWrite));
}

#[test]
fn test_place_nesting() {
    let mut project = TestProject::new();
    project.create_child_at_end("text", "place1", "", place_type());
    project.create_child_at_end("place1", "place2", "", place_type());
    assert!(place_type().is_folder());
    assert!(project.has_file(&project.path("place2")));
    assert_eq!(project.index("place1"), Some(0));
    assert_eq!(project.index("place2"), Some(0));
}

#[test]
fn test_load_markdown() {
    let sample_body = "sample body";
    let loaded = read_object_header(sample_body, true, "000-New_Scene").unwrap();
    assert_eq!(loaded.body.unwrap().trim(), sample_body);
}

#[test]
fn test_name_from_filename() {
    let loaded = read_object_header("contents1", true, "4-scene2").unwrap();
    assert_eq!(loaded.info.name_from_file.as_deref(), Some("scene2"));
    assert!(loaded.info.modified);
    // the folder lists it first, and saving it writes it under its place
    let order = rescan_order(&vec!["4-scene2.md".to_string()]);
    assert_eq!(order, vec![0]);
    assert_eq!(calculate_filename("scene2", Some(0), &scene_type()), "000-scene2.md");
}

/// The TOML text of header entries (what saving writes with `toml_edit`).
fn header_text(entries: &[TomlEntry]) -> String {
    fn value(v: &TomlValue) -> Option<toml_edit::Value> {
        match v {
            TomlValue::Integer(i) => Some((*i).into()),
            TomlValue::Boolean(b) => Some((*b).into()),
            TomlValue::Text(s) => Some(s.as_str().into()),
            TomlValue::Table(es) => {
                let mut t = toml_edit::InlineTable::new();
                for e in es {
                    if let Some(x) = value(&e.value) {
                        t.insert(&e.key, x);
                    }
                }
                Some(toml_edit::Value::InlineTable(t))
            }
            TomlValue::Array(items) => {
                let mut a = toml_edit::Array::new();
                for item in items {
                    if let Some(x) = value(item) {
                        a.push(x);
                    }
                }
                Some(toml_edit::Value::Array(a))
            }
            TomlValue::Other => None,
        }
    }
    let mut doc = toml_edit::DocumentMut::new();
    for e in entries {
        if let Some(x) = value(&e.value) {
            doc[e.key.as_str()] = toml_edit::Item::Value(x);
        }
    }
    doc.to_string()
}

fn saved_file(base: &FileObjectMetadata, entries: Vec<TomlEntry>, file_type: &FileTypeInfo, body: Option<&str>) -> String {
    let mut all = base.header_updates();
    all.extend(entries);
    all.push(TomlEntry { key: "file_type".to_string(), value: TomlValue::Text(file_type.get_identifier().to_string()) });
    let body = body.map(scene_body);
    file_contents(&header_text(&all), body.as_deref())
}

#[test]
fn test_reload_objects() {
    let sample_body = "sample body";
    let scene_summary = "it gets more gay";
    let character_appearance = "tall";
    let folder_notes = "this is a folder";
    let place_description = "lots and lots of trees!";
    let mut uids = UidCounter::new();

    let scene_base = FileObjectMetadata::default();
    let mut scene = SceneMetadata {
        summary: Text::new(uids.fresh()),
        notes: Text::new(uids.fresh()),
        pov: ObjectReference::default(),
        compile_status: CompileStatus::default(),
    };
    scene.summary.text = scene_summary.to_string();
    let scene_file = saved_file(&scene_base, scene.header_updates(&Vec::new()), &scene_type(), Some(sample_body));

    let character_base = FileObjectMetadata::default();
    let mut character = CharacterMetadata::new(&mut uids);
    character.appearance.text = character_appearance.to_string();
    let character_file = saved_file(&character_base, character.header_updates(), &character_type(), None);

    let folder_base = FileObjectMetadata::default();
    let mut folder = FolderMetadata {
        summary: Text::new(uids.fresh()),
        notes: Text::new(uids.fresh()),
        compile_status: CompileStatus::default(),
    };
    folder.notes.text = folder_notes.to_string();
    let folder_file = saved_file(&folder_base, folder.header_updates(), &folder_type(), None);

    let place_base = FileObjectMetadata::default();
    let mut place = PlaceMetadata::new(&mut uids);
    place.description.text = place_description.to_string();
    let place_file = saved_file(&place_base, place.header_updates(), &place_type(), None);

    // load them again
    let loaded = read_object_header(&scene_file, true, "000-New_Scene").unwrap();
    assert_eq!(loaded.info.id.as_deref(), Some(scene_base.id.as_str()));
    assert_eq!(loaded.info.file_type.as_deref(), Some(scene_type().get_identifier()));
    assert_eq!(loaded.body.as_deref().unwrap().trim(), sample_body);
    let mut scene_loaded = SceneMetadata {
        summary: Text::new(uids.fresh()),
        notes: Text::new(uids.fresh()),
        pov: ObjectReference::default(),
        compile_status: CompileStatus::default(),
    };
    scene_loaded.load_metadata(&loaded.entries, &mut uids).unwrap();
    assert_eq!(scene_loaded.summary.as_str(), scene_summary);

    let loaded = read_object_header(&character_file, false, "001-New_Character").unwrap();
    assert_eq!(loaded.info.id.as_deref(), Some(character_base.id.as_str()));
    let mut character_loaded = CharacterMetadata::new(&mut uids);
    character_loaded.load_metadata(&loaded.entries, &mut uids).unwrap();
    assert_eq!(character_loaded.appearance.as_str(), character_appearance);

    let loaded = read_object_header(&folder_file, false, "metadata").unwrap();
    assert_eq!(loaded.info.id.as_deref(), Some(folder_base.id.as_str()));
    let mut folder_loaded = FolderMetadata {
        summary: Text::new(uids.fresh()),
        notes: Text::new(uids.fresh()),
        compile_status: CompileStatus::default(),
    };
    folder_loaded.load_metadata(&loaded.entries, &mut uids).unwrap();
    assert_eq!(folder_loaded.notes.as_str(), folder_notes);

    let loaded = read_object_header(&place_file, false, "metadata").unwrap();
    assert_eq!(loaded.info.id.as_deref(), Some(place_base.id.as_str()));
    let mut place_loaded = PlaceMetadata::new(&mut uids);
    place_loaded.load_metadata(&loaded.entries, &mut uids).unwrap();
    assert_eq!(place_loaded.description.as_str(), place_description);
}

#[test]
fn test_fix_indexing_on_load() {
    // the text folder holds, as found on disk: 4-scene2.md, 05-dir/, 10-scene2.md and
    // scene_no_index.md; loading it numbers them again from 0 in the order of their indexes
    let names = vec![
        "10-scene2.md".to_string(),
        "scene_no_index.md".to_string(),
        "4-scene2.md".to_string(),
        "05-dir".to_string(),
    ];
    let order = rescan_order(&names);
    let ordered: Vec<&str> = order.iter().map(|&k| names[k].as_str()).collect();
    assert_eq!(ordered, vec!["4-scene2.md", "05-dir", "10-scene2.md", "scene_no_index.md"]);
    // saving the folder writes the first child under index 0
    let first = read_object_header("id = \"0\"\n++++++++", true, "4-scene2").unwrap();
    let name = first.info.name_from_file.unwrap();
    assert!(folder_type().is_folder());
    assert_eq!(calculate_filename(&name, Some(0), &scene_type()), "000-scene2.md");

    // inside 05-dir, the only child 2-scene.md takes index 0 and keeps its body
    let inner = vec!["2-scene.md".to_string()];
    assert_eq!(rescan_order(&inner), vec![0]);
    let child = read_object_header("id = \"1-0\"\n++++++++\ncontents123", true, "2-scene").unwrap();
    assert_eq!(child.info.id.as_deref(), Some("1-0"));
    assert_eq!(scene_body(child.body.as_deref().unwrap()), "contents123\n");
}

#[test]
fn test_load_partial_metadata() {
    let file_text = "id = \"1\"\nname = \"Other title\"\nsummary = \"\"\"multiline block inside\nanother multiline block\n\"\"\"\n++++++++\ncontents1\n";
    let loaded = read_object_header(file_text, true, "000-New_Scene").unwrap();
    assert_eq!(loaded.info.id.as_deref(), Some("1"));
    assert_eq!(loaded.body.as_deref().unwrap().trim(), "contents1");

    let mut uids = UidCounter::new();
    let mut base = FileObjectMetadata::default();
    let mut modified = false;
    load_base_metadata(&loaded.entries, &mut base, &mut modified).unwrap();
    assert_eq!(base.name, "Other title");
    let mut scene = SceneMetadata {
        summary: Text::new(uids.fresh()),
        notes: Text::new(uids.fresh()),
        pov: ObjectReference::default(),
        compile_status: CompileStatus::default(),
    };
    let missing = scene.load_metadata(&loaded.entries, &mut uids).unwrap();
    assert_eq!(scene.summary.as_str(), "multiline block inside\nanother multiline block\n");
    // fields that were missing make the object modified, and saving writes them
    assert!(missing || modified);
    let saved = saved_file(&base, scene.header_updates(&Vec::new()), &scene_type(), Some("contents1"));
    assert!(saved.contains("notes = \"\""));
}

#[test]
fn test_complicated_file_object_names() {
    let long = "This is a really long scene name that will have to be shortened";
    let plan = save_plan(true, Some(0), "000-New_Scene.md", long, &scene_type());
    match plan {
        SavePlan::Write { rename_to: Some(name) } => assert_eq!(name, "000-This_is_a_really_long_scene.md"),
        _ => panic!("a renamed scene is renamed on save"),
    }
    let difficult = "Difficult(to)ParseName/Bad_ ";
    let plan = save_plan(true, Some(0), "000-This_is_a_really_long_scene.md", difficult, &scene_type());
    match plan {
        SavePlan::Write { rename_to: Some(name) } => assert_eq!(name, "000-Difficult(to)ParseName-Bad_.md"),
        _ => panic!("a renamed scene is renamed on save"),
    }
    assert_eq!(calculate_filename("", Some(1), &scene_type()), "001-New_Scene.md");
    let contents = saved_file(&FileObjectMetadata::default(), Vec::new(), &scene_type(), Some(""));
    assert_ne!(contents.len(), 0);
}

#[test]
fn test_change_index_scene() {
    let scene_name = calculate_filename("", Some(0), &scene_type());
    assert_eq!(index_update(Some(0), &scene_name, 2), IndexUpdate::Both);
    assert_eq!(calculate_filename("", Some(2), &scene_type()), "002-New_Scene.md");
    assert_eq!(calculate_filename("", Some(1), &scene_type()), "001-New_Scene.md");
    let contents = saved_file(&FileObjectMetadata::default(), Vec::new(), &scene_type(), Some("sample scene text"));
    assert!(contents.contains("sample scene text"));
}

#[test]
fn test_create_child() {
    let mut project = TestProject::new();
    let text_children = project.children("text");
    assert_eq!(insert_index(&text_children, &InsertPosition::Last), 0);
    project.create_child_at_end("text", "scene", "", scene_type());
    assert_eq!(insert_index(&project.children("text"), &InsertPosition::Last), 1);
    project.create_child_at_end("text", "character", "", character_type());
    project.create_child_at_end("text", "folder", "", folder_type());
    project.create_child_at_end("text", "place", "", place_type());
    assert_eq!(project.children("text").len(), 4);
    assert!(project.has_file(&project.path("scene")));
    assert_eq!(project.index("scene"), Some(0));
    assert!(project.has_file(&project.path("character")));
    assert_eq!(project.index("character"), Some(1));
    assert!(project.has_file(&project.path("folder")));
    assert_eq!(project.index("folder"), Some(2));
    assert!(project.has_file(&project.path("place")));
    assert_eq!(project.index("place"), Some(3));
}

#[test]
fn test_save_in_folder() {
    let sample_text = "sample body";
    let scene_name = calculate_filename("", Some(0), &scene_type());
    assert!(matches!(save_plan(true, Some(0), &scene_name, "", &scene_type()), SavePlan::Write { rename_to: None }));
    let contents = saved_file(&FileObjectMetadata::default(), Vec::new(), &scene_type(), Some(sample_text));
    assert!(contents.contains(sample_text));
}
