use cheese_paper::compile::{
    CompileStatus, IncludeOptions, BREAK_AT_END, INCLUDE, INCLUDE_TITLE, OVERRIDE_BREAK_AT_END,
    OVERRIDE_INCLUDE_TITLE,
};
use cheese_paper::export::{
    apply_smart_quotes, export_outline, export_text, scene_body, write_outline_property, write_title,
    ExportDepth, ExportNode, ExportOptions, OutlineNode, OutlineProperty, ProjectExportSettings,
};
use cheese_paper::schema::{DefaultSchema, SchemaError, DEFAULT_SCHEMA};

#[test]
fn include_title_read_after_write() {
    let mut status = CompileStatus::from_bits_retain(INCLUDE | 0b1000_0000);
    assert_eq!(status.include_title(), IncludeOptions::Default);
    status.set_include_title(IncludeOptions::Always);
    assert_eq!(status.include_title(), IncludeOptions::Always);
    assert!(status.contains(OVERRIDE_INCLUDE_TITLE | INCLUDE_TITLE));
    status.set_include_title(IncludeOptions::Never);
    assert_eq!(status.include_title(), IncludeOptions::Never);
    status.set_include_title(IncludeOptions::Default);
    assert_eq!(status.include_title(), IncludeOptions::Default);
    assert!(status.contains(0b1000_0000));
    assert!(status.contains(INCLUDE));
}

#[test]
fn break_at_end_read_after_write() {
    let mut status = CompileStatus::default();
    assert_eq!(status.bits(), INCLUDE);
    status.set_break_at_end(IncludeOptions::Always);
    assert_eq!(status.break_at_end(), IncludeOptions::Always);
    assert!(status.contains(OVERRIDE_BREAK_AT_END | BREAK_AT_END));
    status.set_break_at_end(IncludeOptions::Never);
    assert_eq!(status.break_at_end(), IncludeOptions::Never);
    assert_eq!(status.include_title(), IncludeOptions::Default);
}

#[test]
fn export_depths() {
    assert!(ExportDepth::All.should_display(100));
    assert!(ExportDepth::UpTo(2).should_display(2));
    assert!(!ExportDepth::UpTo(2).should_display(3));
    assert!(!ExportDepth::NoTitles.should_display(0));
    let settings = ProjectExportSettings::default();
    let options = settings.export_options();
    assert_eq!(options.folder_title_depth, ExportDepth::UpTo(1));
    assert_eq!(options.scene_title_depth, ExportDepth::UpTo(1));
    assert!(options.insert_breaks);
    let none = ProjectExportSettings { include_folder_title_depth: 0, include_all_scene_titles: true, ..settings };
    assert_eq!(none.export_options().folder_title_depth, ExportDepth::NoTitles);
    assert_eq!(none.export_options().scene_title_depth, ExportDepth::All);
}

#[test]
fn titles_and_properties() {
    let mut s = String::new();
    write_title(3, "Title", &mut s);
    assert_eq!(s, "### Title\n\n");
    let mut s = String::new();
    write_outline_property("summary", "short", &mut s);
    write_outline_property("notes", "", &mut s);
    write_outline_property("long", "a\nb", &mut s);
    assert_eq!(s, "summary: short\n\nlong:\n\n> a\n> b\n\n\n");
}

#[test]
fn scene_bodies_and_quotes() {
    assert_eq!(scene_body("  a  \n b"), "a\nb\n");
    assert_eq!(apply_smart_quotes("\"hi\" it's 'so'".to_string()), "\u{201c}hi\u{201d} it\u{2019}s \u{2018}so\u{2019}");
    assert_eq!(apply_smart_quotes("*\"x\"".to_string()), "*\u{201c}x\u{201d}");
}

#[test]
fn story_export_with_titles_and_breaks() {
    let scene = |title: &str, text: &str| ExportNode::Scene {
        title: title.to_string(),
        compile_status: CompileStatus::from_bits_retain(INCLUDE),
        text: text.to_string(),
    };
    let nodes = vec![ExportNode::Folder {
        title: "Part".to_string(),
        compile_status: CompileStatus::from_bits_retain(INCLUDE),
        children: vec![
            scene("One", "He said \"hi\"\n  it's  "),
            ExportNode::Scene { title: "Skipped".to_string(), compile_status: CompileStatus::from_bits_retain(0), text: "x".to_string() },
            ExportNode::Other,
            scene("Two", "b"),
        ],
    }];
    let options = ExportOptions {
        folder_title_depth: ExportDepth::UpTo(1),
        scene_title_depth: ExportDepth::NoTitles,
        insert_breaks: true,
    };
    assert_eq!(export_text(&nodes, &options), "# Part\n\nHe said \u{201c}hi\u{201d}\nit\u{2019}s\n\n----\n\nb\n\n");
    let titled = ExportOptions { scene_title_depth: ExportDepth::All, ..options };
    assert_eq!(export_text(&nodes, &titled), "# Part\n\n## One\n\nHe said \u{201c}hi\u{201d}\nit\u{2019}s\n\n## Two\n\nb\n\n");
}

#[test]
fn project_outline() {
    let node = OutlineNode {
        title: "Ch1".to_string(),
        properties: vec![OutlineProperty { name: "summary".to_string(), value: "x".to_string() }],
        children: vec![OutlineNode { title: "Sc".to_string(), properties: vec![], children: vec![] }],
    };
    let out = export_outline("Proj", "sum", &vec![node], &vec![], &vec![]);
    assert_eq!(out, "# Proj\n\nStory Summary: sum\n\n# Scenes\n\n## Ch1\n\nsummary: x\n\n### Sc\n\n\n\n");
}

#[test]
fn test_all_schemas() {
    const AUTHORIZED_CHARACTERS: &str = "abcdefghijklmnopqrstuvwxyz_ABCDEFGHIJKLMNOPQRSTUVWXYZ";
    let schema: &DefaultSchema = &DEFAULT_SCHEMA;
    for c in schema.get_schema_name().chars() {
        assert!(AUTHORIZED_CHARACTERS.contains(c));
    }
    let mut seen: Vec<&str> = Vec::new();
    for file_type in schema.get_all_file_types() {
        assert!(!seen.contains(&file_type.get_identifier()));
        seen.push(file_type.get_identifier());
    }
}

#[test]
fn file_types_resolve() {
    let s = &DEFAULT_SCHEMA;
    assert_eq!(s.resolve_type(false, Some("toml"), Some("character")).unwrap().get_identifier(), "character");
    assert_eq!(s.resolve_type(true, None, Some("place")).unwrap().get_identifier(), "worldbuilding");
    assert_eq!(s.resolve_type(true, None, None).unwrap().get_identifier(), "folder");
    assert_eq!(s.resolve_type(false, Some("md"), None).unwrap().get_identifier(), "scene");
    assert_eq!(s.resolve_type(false, Some("toml"), None).unwrap_err(), SchemaError::UnspecifiedFileType);
    assert_eq!(
        s.resolve_type(false, Some("md"), Some("poem")).unwrap_err(),
        SchemaError::UnknownFileType("poem".to_string())
    );
    assert_eq!(s.get_top_level_folder_type().get_identifier(), "folder");
}
