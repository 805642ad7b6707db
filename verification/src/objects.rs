//! The kind-specific part of a loaded file object: which metadata a file type loads, and
//! what it holds once loaded from a header.
use vstd::prelude::*;
use crate::compile::{CompileStatus, INCLUDE};
use crate::metadata::{
    all_strings_ok, any_missing, character_keys, extract_u64, fails_first_at, loaded_pov, loaded_status,
    loaded_texts, missing, place_keys, scene_keys, summary_keys, CharacterMetadata, FolderMetadata,
    MetadataError, PlaceMetadata, SceneMetadata, TomlEntry, ValueKind,
};
use crate::reference::{ObjectReference, RefV};
use crate::text::str_equal;
use crate::textbox::{Text, UidCounter};

verus! {

/// What a loaded object holds besides the common metadata, by kind.
#[derive(Debug)]
pub enum Contents {
    /// A scene, with its body.
    Scene(SceneMetadata, Text),
    Folder(FolderMetadata),
    Character(CharacterMetadata),
    Place(PlaceMetadata),
}

/// `n` empty texts: the fields of a kind of object before anything is loaded.
pub open spec fn empty_texts(n: nat) -> Seq<Seq<char>> {
    Seq::new(n, |i: int| Seq::<char>::empty())
}

/// `c` is what loading the header `table` (and the body `body`) gives for the file type
/// `identifier`, with `modified` telling whether a field was missing. A scene, a character
/// and a place are known by their identifiers; every other file type loads as a folder.
pub open spec fn loaded_contents(identifier: Seq<char>, table: Seq<TomlEntry>, body: Seq<char>, c: Contents, modified: bool) -> bool {
    if identifier == "scene"@ {
        &&& c matches Contents::Scene(m, t)
        &&& t.content() == body
        &&& all_strings_ok(table, scene_keys())
        &&& extract_u64(table, "compile_status"@, true) is Ok
        &&& modified == (any_missing(table, scene_keys()) || missing(table, "compile_status"@))
        &&& m.texts() == loaded_texts(table, summary_keys(), empty_texts(2))
        &&& m.pov@ == loaded_pov(table, RefV::Empty)
        &&& m.compile_status@ == loaded_status(table, INCLUDE)
    } else if identifier == "character"@ {
        &&& c matches Contents::Character(m)
        &&& all_strings_ok(table, character_keys())
        &&& modified == any_missing(table, character_keys())
        &&& m.texts() == loaded_texts(table, character_keys(), empty_texts(7))
    } else if identifier == "worldbuilding"@ {
        &&& c matches Contents::Place(m)
        &&& all_strings_ok(table, place_keys())
        &&& modified == any_missing(table, place_keys())
        &&& m.texts() == loaded_texts(table, place_keys(), empty_texts(5))
    } else {
        &&& c matches Contents::Folder(m)
        &&& all_strings_ok(table, summary_keys())
        &&& extract_u64(table, "compile_status"@, true) is Ok
        &&& modified == (any_missing(table, summary_keys()) || missing(table, "compile_status"@))
        &&& m.texts() == loaded_texts(table, summary_keys(), empty_texts(2))
        &&& m.compile_status@ == loaded_status(table, INCLUDE)
    }
}

/// `e` is the error that loading the header `table` for the file type `identifier` gives:
/// the first field of the wrong kind.
pub open spec fn contents_error(identifier: Seq<char>, table: Seq<TomlEntry>, e: MetadataError) -> bool {
    if identifier == "character"@ {
        text_field_error(table, character_keys(), e)
    } else if identifier == "worldbuilding"@ {
        text_field_error(table, place_keys(), e)
    } else if identifier == "scene"@ {
        text_field_error(table, scene_keys(), e) || status_error(table, scene_keys(), e)
    } else {
        text_field_error(table, summary_keys(), e) || status_error(table, summary_keys(), e)
    }
}

/// `e` names the first of the text fields `keys` that holds something other than a string.
pub open spec fn text_field_error(table: Seq<TomlEntry>, keys: Seq<Seq<char>>, e: MetadataError) -> bool {
    (exists|i: int| fails_first_at(table, keys, i) && e.field@ == keys[i]) && e.expected == ValueKind::Text
}

/// `e` names the compile status, which is neither an integer nor a boolean, the text fields
/// `keys` being fine.
pub open spec fn status_error(table: Seq<TomlEntry>, keys: Seq<Seq<char>>, e: MetadataError) -> bool {
    all_strings_ok(table, keys) && extract_u64(table, "compile_status"@, true) is Err
        && e.field@ == "compile_status"@ && e.expected == ValueKind::Integer
}

/// Loads the kind-specific metadata of an object of the file type `identifier` from its
/// header `table`, each text field a new text block; a scene also gets its body. Returns
/// the contents and whether a field was missing, or the error of the first field of the
/// wrong kind.
pub fn load_contents(identifier: &str, table: &Vec<TomlEntry>, body: Option<String>, uids: &mut UidCounter)
    -> (r: Result<(Contents, bool), MetadataError>)
    ensures
        match r {
            Ok((c, modified)) => loaded_contents(identifier@, table@, match body { Some(b) => b@, None => Seq::empty() }, c, modified),
            Err(e) => contents_error(identifier@, table@, e),
        },
{
    proof {
        reveal_strlit("scene");
        reveal_strlit("character");
        reveal_strlit("worldbuilding");
    }
    if str_equal(identifier, "scene") {
        let mut m = SceneMetadata {
            summary: Text::new(uids.fresh()),
            notes: Text::new(uids.fresh()),
            pov: ObjectReference::default(),
            compile_status: CompileStatus::default(),
        };
        assert(m.texts() =~= empty_texts(2));
        let modified = match m.load_metadata(table, uids) {
            Ok(x) => x,
            Err(e) => {
                assert(identifier@ != "character"@ && identifier@ != "worldbuilding"@) by {
                    reveal_strlit("scene");
                    reveal_strlit("character");
                    reveal_strlit("worldbuilding");
                    assert("scene"@.len() != "character"@.len());
                    assert("scene"@.len() != "worldbuilding"@.len());
                }
                return Err(e);
            },
        };
        let text = match body {
            Some(b) => Text::from_string(b, uids.fresh()),
            None => Text::new(uids.fresh()),
        };
        Ok((Contents::Scene(m, text), modified))
    } else if str_equal(identifier, "character") {
        let mut m = CharacterMetadata::new(uids);
        assert(m.texts() =~= empty_texts(7));
        let modified = match m.load_metadata(table, uids) {
            Ok(x) => x,
            Err(e) => return Err(e),
        };
        Ok((Contents::Character(m), modified))
    } else if str_equal(identifier, "worldbuilding") {
        let mut m = PlaceMetadata::new(uids);
        assert(m.texts() =~= empty_texts(5));
        let modified = match m.load_metadata(table, uids) {
            Ok(x) => x,
            Err(e) => return Err(e),
        };
        Ok((Contents::Place(m), modified))
    } else {
        let mut m = FolderMetadata {
            summary: Text::new(uids.fresh()),
            notes: Text::new(uids.fresh()),
            compile_status: CompileStatus::default(),
        };
        assert(m.texts() =~= empty_texts(2));
        let modified = match m.load_metadata(table, uids) {
            Ok(x) => x,
            Err(e) => return Err(e),
        };
        Ok((Contents::Folder(m), modified))
    }
}

/// Whether loading takes a file: every folder, and a file whose extension is `toml` or
/// `md` (`extension` is what comes after the last dot of its name, if anything).
pub fn is_loadable(is_dir: bool, extension: Option<&str>) -> (r: bool)
    ensures
        r == (is_dir || (extension matches Some(e) && (e@ == "toml"@ || e@ == "md"@))),
{
    if is_dir {
        return true;
    }
    match extension {
        Some(e) => str_equal(e, "toml") || str_equal(e, "md"),
        None => false,
    }
}

} // verus!
