//! The kinds of file object that a project holds (scenes, folders, characters, places)
//! and how a file on disk is mapped to one of them.
use vstd::prelude::*;
use crate::text::{opt_chars, str_equal};

verus! {

/// A kind of file object, described by plain values.
#[derive(Debug, Clone, Copy)]
pub struct FileTypeInfo {
    /// identifier used by the schema to indicate a file type
    identifier: &'static str,
    is_folder: bool,
    has_body: bool,
    kind_name: &'static str,
    empty_string_name: &'static str,
    extension: &'static str,
    description: &'static str,
}

/// The value of a [`FileTypeInfo`].
pub struct FileTypeV {
    pub identifier: Seq<char>,
    pub is_folder: bool,
    pub has_body: bool,
    pub kind_name: Seq<char>,
    pub empty_string_name: Seq<char>,
    pub extension: Seq<char>,
    pub description: Seq<char>,
}

impl View for FileTypeInfo {
    type V = FileTypeV;

    closed spec fn view(&self) -> FileTypeV {
        FileTypeV {
            identifier: self.identifier@,
            is_folder: self.is_folder,
            has_body: self.has_body,
            kind_name: self.kind_name@,
            empty_string_name: self.empty_string_name@,
            extension: self.extension@,
            description: self.description@,
        }
    }
}

impl FileTypeInfo {
    pub fn get_identifier(&self) -> (r: &'static str)
        ensures
            r@ == self@.identifier,
    {
        self.identifier
    }

    pub fn is_folder(&self) -> (r: bool)
        ensures
            r == self@.is_folder,
    {
        self.is_folder
    }

    pub fn has_body(&self) -> (r: bool)
        ensures
            r == self@.has_body,
    {
        self.has_body
    }

    pub fn kind_name(&self) -> (r: &'static str)
        ensures
            r@ == self@.kind_name,
    {
        self.kind_name
    }

    pub fn empty_string_name(&self) -> (r: &'static str)
        ensures
            r@ == self@.empty_string_name,
    {
        self.empty_string_name
    }

    pub fn extension(&self) -> (r: &'static str)
        ensures
            r@ == self@.extension,
    {
        self.extension
    }

    pub fn description(&self) -> (r: &'static str)
        ensures
            r@ == self@.description,
    {
        self.description
    }

    /// Two file types are the same type when their identifiers are equal.
    pub fn same_type(&self, other: &FileTypeInfo) -> (r: bool)
        ensures
            r == (self@.identifier == other@.identifier),
    {
        str_equal(self.identifier, other.identifier)
    }
}

pub open spec fn character_v() -> FileTypeV {
    FileTypeV {
        identifier: "character"@,
        is_folder: false,
        has_body: false,
        kind_name: "Character"@,
        empty_string_name: "New Character"@,
        extension: "toml"@,
        description: "A character in the story"@,
    }
}

pub open spec fn folder_v() -> FileTypeV {
    FileTypeV {
        identifier: "folder"@,
        is_folder: true,
        has_body: false,
        kind_name: "Folder"@,
        empty_string_name: "New Folder"@,
        extension: "toml"@,
        description: "A folder that groups other objects"@,
    }
}

pub open spec fn place_v() -> FileTypeV {
    FileTypeV {
        identifier: "worldbuilding"@,
        is_folder: true,
        has_body: false,
        kind_name: "Place"@,
        empty_string_name: "New Place"@,
        extension: "toml"@,
        description: "A place or other piece of worldbuilding"@,
    }
}

pub open spec fn scene_v() -> FileTypeV {
    FileTypeV {
        identifier: "scene"@,
        is_folder: false,
        has_body: true,
        kind_name: "Scene"@,
        empty_string_name: "New Scene"@,
        extension: "md"@,
        description: "A scene with the text of the story"@,
    }
}

pub fn character_type() -> (r: FileTypeInfo)
    ensures
        r@ == character_v(),
{
    FileTypeInfo {
        identifier: "character",
        is_folder: false,
        has_body: false,
        kind_name: "Character",
        empty_string_name: "New Character",
        extension: "toml",
        description: "A character in the story",
    }
}

pub fn folder_type() -> (r: FileTypeInfo)
    ensures
        r@ == folder_v(),
{
    FileTypeInfo {
        identifier: "folder",
        is_folder: true,
        has_body: false,
        kind_name: "Folder",
        empty_string_name: "New Folder",
        extension: "toml",
        description: "A folder that groups other objects",
    }
}

pub fn place_type() -> (r: FileTypeInfo)
    ensures
        r@ == place_v(),
{
    FileTypeInfo {
        identifier: "worldbuilding",
        is_folder: true,
        has_body: false,
        kind_name: "Place",
        empty_string_name: "New Place",
        extension: "toml",
        description: "A place or other piece of worldbuilding",
    }
}

pub fn scene_type() -> (r: FileTypeInfo)
    ensures
        r@ == scene_v(),
{
    FileTypeInfo {
        identifier: "scene",
        is_folder: false,
        has_body: true,
        kind_name: "Scene",
        empty_string_name: "New Scene",
        extension: "md",
        description: "A scene with the text of the story",
    }
}

/// Why a file could not be given a file type.
#[derive(Debug, Clone, PartialEq, Eq)]
pub enum SchemaError {
    /// The file named a type that the schema does not know.
    UnknownFileType(String),
    /// The file named no type, and it is neither a directory nor a markdown file.
    UnspecifiedFileType,
}

/// The schema that every project currently uses.
pub struct DefaultSchema;

/// The file type that the default schema gives a file: by the type it names, or else a
/// directory is a folder and a `.md` file a scene.
pub open spec fn default_resolve(is_dir: bool, extension: Option<Seq<char>>, identifier: Option<Seq<char>>) -> Option<FileTypeV> {
    match identifier {
        Some(id) => if id == "scene"@ {
            Some(scene_v())
        } else if id == "folder"@ {
            Some(folder_v())
        } else if id == "character"@ {
            Some(character_v())
        } else if id == "worldbuilding"@ || id == "place"@ {
            Some(place_v())
        } else {
            None
        },
        None => if is_dir {
            Some(folder_v())
        } else if extension == Some("md"@) {
            Some(scene_v())
        } else {
            None
        },
    }
}

impl DefaultSchema {
    pub fn get_schema_name(&self) -> (r: &'static str)
        ensures
            r@ == "Default"@,
    {
        "Default"
    }

    /// The file type of a file: `is_dir` and `extension` describe the file on disk,
    /// `file_type_identifier` is the type that its metadata names, if any.
    pub fn resolve_type(&self, is_dir: bool, extension: Option<&str>, file_type_identifier: Option<&str>) -> (r: Result<FileTypeInfo, SchemaError>)
        ensures
            match r {
                Ok(t) => default_resolve(is_dir, opt_chars(extension), opt_chars(file_type_identifier)) == Some(t@),
                Err(SchemaError::UnknownFileType(s)) => file_type_identifier matches Some(i) && s@ == i@
                    && default_resolve(is_dir, opt_chars(extension), opt_chars(file_type_identifier)) is None,
                Err(SchemaError::UnspecifiedFileType) => file_type_identifier is None
                    && default_resolve(is_dir, opt_chars(extension), opt_chars(file_type_identifier)) is None,
            },
    {
        match file_type_identifier {
            Some(id) => {
                if str_equal(id, "scene") {
                    Ok(scene_type())
                } else if str_equal(id, "folder") {
                    Ok(folder_type())
                } else if str_equal(id, "character") {
                    Ok(character_type())
                } else if str_equal(id, "worldbuilding") || str_equal(id, "place") {
                    Ok(place_type())
                } else {
                    Err(SchemaError::UnknownFileType(id.to_owned()))
                }
            },
            None => {
                if is_dir {
                    Ok(folder_type())
                } else {
                    match extension {
                        Some(ext) => {
                            if str_equal(ext, "md") {
                                Ok(scene_type())
                            } else {
                                Err(SchemaError::UnspecifiedFileType)
                            }
                        },
                        None => Err(SchemaError::UnspecifiedFileType),
                    }
                }
            },
        }
    }

    pub fn get_all_file_types(&self) -> (r: Vec<FileTypeInfo>)
        ensures
            r@.map_values(|t: FileTypeInfo| t@) == seq![character_v(), folder_v(), place_v(), scene_v()],
    {
        let v = vec![character_type(), folder_type(), place_type(), scene_type()];
        assert(v@.map_values(|t: FileTypeInfo| t@) =~= seq![character_v(), folder_v(), place_v(), scene_v()]);
        v
    }

    pub fn get_top_level_folder_type(&self) -> (r: FileTypeInfo)
        ensures
            r@ == folder_v(),
    {
        folder_type()
    }
}

pub const DEFAULT_SCHEMA: DefaultSchema = DefaultSchema;

/// The file type of a note, of the Overthinker schema: a file with a body.
pub open spec fn note_v() -> FileTypeV {
    FileTypeV {
        identifier: "note"@,
        is_folder: false,
        has_body: true,
        kind_name: "Note"@,
        empty_string_name: "New Note"@,
        extension: "md"@,
        description: "A file with content for writing down notes"@,
    }
}

pub fn note_type() -> (r: FileTypeInfo)
    ensures
        r@ == note_v(),
{
    FileTypeInfo {
        identifier: "note",
        is_folder: false,
        has_body: true,
        kind_name: "Note",
        empty_string_name: "New Note",
        extension: "md",
        description: "A file with content for writing down notes",
    }
}

/// The Overthinker schema, for projects that keep notes beside their scenes.
#[derive(Debug)]
pub struct OverthinkerSchema;

impl OverthinkerSchema {
    pub fn get_schema_identifier(&self) -> (r: &'static str)
        ensures
            r@ == "overthinker"@,
    {
        "overthinker"
    }

    pub fn get_schema_name(&self) -> (r: &'static str)
        ensures
            r@ == "Overthinker"@,
    {
        "Overthinker"
    }
}

pub const OVERTHINKER_SCHEMA: OverthinkerSchema = OverthinkerSchema;

/// No two file types of the default schema share an identifier.
pub proof fn default_identifiers_unique()
    ensures
        ({
            let ts = seq![character_v(), folder_v(), place_v(), scene_v()];
            forall|i: int, j: int| 0 <= i < j < 4 ==> ts[i].identifier != ts[j].identifier
        }),
{
    reveal_strlit("character");
    reveal_strlit("folder");
    reveal_strlit("worldbuilding");
    reveal_strlit("scene");
    let ts = seq![character_v(), folder_v(), place_v(), scene_v()];
    assert("character"@.len() != "folder"@.len());
    assert("character"@[0] != "worldbuilding"@[0]);
    assert("character"@.len() != "scene"@.len());
    assert("folder"@.len() != "worldbuilding"@.len());
    assert("folder"@[0] != "scene"@[0]);
    assert("worldbuilding"@.len() != "scene"@.len());
}

} // verus!
