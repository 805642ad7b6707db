//! The metadata header of a file object (TOML): reading typed fields out of it and
//! loading the fields of each kind of object, noting which ones were missing.
use vstd::prelude::*;
use crate::compile::CompileStatus;
use crate::export::ProjectExportSettings;
use crate::reference::{ObjectReference, RefV, parse_reference};
use crate::schema::{character_type, character_v};
use crate::text::str_equal;
use crate::textbox::{Text, UidCounter};

verus! {

/// A value in a metadata header, as far as the metadata logic reads it.
#[derive(Debug)]
pub enum TomlValue {
    Integer(i64),
    Boolean(bool),
    Text(String),
    Table(Vec<TomlEntry>),
    /// An array, with its items in order.
    Array(Vec<TomlValue>),
    /// Any other kind of value (float, date).
    Other,
}

/// A key and its value.
#[derive(Debug)]
pub struct TomlEntry {
    pub key: String,
    pub value: TomlValue,
}

/// The value of a [`TomlValue`].
pub enum TomlValueV {
    Integer(i64),
    Boolean(bool),
    Text(Seq<char>),
    Table(Seq<TomlEntryV>),
    Array(Seq<TomlValueV>),
    Other,
}

/// The value of a [`TomlEntry`].
pub struct TomlEntryV {
    pub key: Seq<char>,
    pub value: TomlValueV,
}

/// The value of `v`.
pub open spec fn value_v(v: TomlValue) -> TomlValueV
    decreases v,
{
    match v {
        TomlValue::Integer(i) => TomlValueV::Integer(i),
        TomlValue::Boolean(b) => TomlValueV::Boolean(b),
        TomlValue::Text(s) => TomlValueV::Text(s@),
        TomlValue::Table(es) => TomlValueV::Table(entries_v(es@)),
        TomlValue::Array(items) => TomlValueV::Array(values_v(items@)),
        TomlValue::Other => TomlValueV::Other,
    }
}

/// The values of the entries `es`.
pub open spec fn entries_v(es: Seq<TomlEntry>) -> Seq<TomlEntryV>
    decreases es,
{
    if es.len() == 0 {
        Seq::empty()
    } else {
        entries_v(es.drop_last()).push(TomlEntryV { key: es.last().key@, value: value_v(es.last().value) })
    }
}

/// The values of the items `vs`.
pub open spec fn values_v(vs: Seq<TomlValue>) -> Seq<TomlValueV>
    decreases vs,
{
    if vs.len() == 0 {
        Seq::empty()
    } else {
        values_v(vs.drop_last()).push(value_v(vs.last()))
    }
}

/// The values of `es` one by one.
pub proof fn lemma_entries_v(es: Seq<TomlEntry>)
    ensures
        entries_v(es).len() == es.len(),
        forall|i: int| 0 <= i < es.len() ==> #[trigger] entries_v(es)[i]
            == (TomlEntryV { key: es[i].key@, value: value_v(es[i].value) }),
    decreases es.len(),
{
    if es.len() > 0 {
        lemma_entries_v(es.drop_last());
    }
}

/// Looking a key up among the values of entries gives the value of what looking it up
/// among the entries gives.
pub proof fn lemma_lookup_v(es: Seq<TomlEntry>, key: Seq<char>)
    ensures
        lookup_v(entries_v(es), key) == match lookup(es, key) {
            Some(v) => Some(value_v(v)),
            None => None::<TomlValueV>,
        },
    decreases es.len(),
{
    lemma_entries_v(es);
    if es.len() > 0 {
        lemma_entries_v(es.drop_first());
        assert(entries_v(es).drop_first() =~= entries_v(es.drop_first()));
        lemma_lookup_v(es.drop_first(), key);
    }
}

/// The value under `key` among the entry values `table` (the first entry with that key).
pub open spec fn lookup_v(table: Seq<TomlEntryV>, key: Seq<char>) -> Option<TomlValueV>
    decreases table.len(),
{
    if table.len() == 0 {
        None
    } else if table[0].key == key {
        Some(table[0].value)
    } else {
        lookup_v(table.drop_first(), key)
    }
}

/// The value under `key` (the first entry with that key).
pub open spec fn lookup(table: Seq<TomlEntry>, key: Seq<char>) -> Option<TomlValue>
    decreases table.len(),
{
    if table.len() == 0 {
        None
    } else if table[0].key@ == key {
        Some(table[0].value)
    } else {
        lookup(table.drop_first(), key)
    }
}

/// What a field was expected to hold.
#[derive(Debug, Clone, Copy, PartialEq, Eq, Structural)]
pub enum ValueKind {
    Integer,
    Text,
    Boolean,
    Table,
}

/// A field of a metadata header held a value of the wrong kind.
#[derive(Debug, Clone)]
pub struct MetadataError {
    pub field: String,
    pub expected: ValueKind,
}

/// Reading a string field: absent, a string, or (`Err`) something else.
pub open spec fn extract_string(table: Seq<TomlEntry>, key: Seq<char>) -> Result<Option<Seq<char>>, ()> {
    match lookup(table, key) {
        None => Ok(None),
        Some(TomlValue::Text(s)) => Ok(Some(s@)),
        Some(_) => Err(()),
    }
}

/// Reading an integer field, taken as `u64` bits; with `allow_bool`, `true` and `false`
/// count as 1 and 0.
pub open spec fn extract_u64(table: Seq<TomlEntry>, key: Seq<char>, allow_bool: bool) -> Result<Option<u64>, ()> {
    match lookup(table, key) {
        None => Ok(None),
        Some(TomlValue::Integer(i)) => Ok(Some(i as u64)),
        Some(TomlValue::Boolean(b)) => if allow_bool {
            Ok(Some(if b { 1u64 } else { 0u64 }))
        } else {
            Err(())
        },
        Some(_) => Err(()),
    }
}

pub open spec fn extract_bool(table: Seq<TomlEntry>, key: Seq<char>) -> Result<Option<bool>, ()> {
    match lookup(table, key) {
        None => Ok(None),
        Some(TomlValue::Boolean(b)) => Ok(Some(b)),
        Some(_) => Err(()),
    }
}

pub(crate) fn find_key<'a>(table: &'a Vec<TomlEntry>, key: &str) -> (r: Option<&'a TomlValue>)
    ensures
        match r {
            Some(v) => lookup(table@, key@) == Some(*v),
            None => lookup(table@, key@) is None,
        },
{
    let mut i: usize = 0;
    assert(table@.skip(0) =~= table@);
    while i < table.len()
        invariant
            i <= table.len(),
            lookup(table@, key@) == lookup(table@.skip(i as int), key@),
        decreases table.len() - i,
    {
        proof {
            assert(table@.skip(i as int).drop_first() =~= table@.skip(i + 1));
            assert(table@.skip(i as int)[0] == table@[i as int]);
        }
        if str_equal(table[i].key.as_str(), key) {
            return Some(&table[i].value);
        }
        i = i + 1;
    }
    None
}

pub fn metadata_extract_u64(table: &Vec<TomlEntry>, field_name: &str, allow_bool: bool) -> (r: Result<Option<u64>, MetadataError>)
    ensures
        match r {
            Ok(v) => extract_u64(table@, field_name@, allow_bool) == Ok::<Option<u64>, ()>(v),
            Err(e) => extract_u64(table@, field_name@, allow_bool) is Err && e.field@ == field_name@ && e.expected == ValueKind::Integer,
        },
{
    match find_key(table, field_name) {
        Some(value) => match value {
            TomlValue::Integer(i) => {
                #[verifier::truncate]
                let v = *i as u64;
                Ok(Some(v))
            },
            TomlValue::Boolean(b) => {
                if allow_bool {
                    Ok(Some(if *b { 1u64 } else { 0u64 }))
                } else {
                    Err(MetadataError { field: field_name.to_owned(), expected: ValueKind::Integer })
                }
            },
            _ => Err(MetadataError { field: field_name.to_owned(), expected: ValueKind::Integer }),
        },
        None => Ok(None),
    }
}

pub fn metadata_extract_string(table: &Vec<TomlEntry>, field_name: &str) -> (r: Result<Option<String>, MetadataError>)
    ensures
        match r {
            Ok(Some(s)) => extract_string(table@, field_name@) == Ok::<Option<Seq<char>>, ()>(Some(s@)),
            Ok(None) => extract_string(table@, field_name@) == Ok::<Option<Seq<char>>, ()>(None),
            Err(e) => extract_string(table@, field_name@) is Err && e.field@ == field_name@ && e.expected == ValueKind::Text,
        },
{
    match find_key(table, field_name) {
        Some(value) => match value {
            TomlValue::Text(s) => Ok(Some(s.clone())),
            _ => Err(MetadataError { field: field_name.to_owned(), expected: ValueKind::Text }),
        },
        None => Ok(None),
    }
}

pub fn metadata_extract_bool(table: &Vec<TomlEntry>, field_name: &str) -> (r: Result<Option<bool>, MetadataError>)
    ensures
        match r {
            Ok(v) => extract_bool(table@, field_name@) == Ok::<Option<bool>, ()>(v),
            Err(e) => extract_bool(table@, field_name@) is Err && e.field@ == field_name@ && e.expected == ValueKind::Boolean,
        },
{
    match find_key(table, field_name) {
        Some(value) => match value {
            TomlValue::Boolean(b) => Ok(Some(*b)),
            _ => Err(MetadataError { field: field_name.to_owned(), expected: ValueKind::Boolean }),
        },
        None => Ok(None),
    }
}

/// Whether a string field can be read (absent or a string).
pub open spec fn string_ok(table: Seq<TomlEntry>, key: Seq<char>) -> bool {
    extract_string(table, key) is Ok
}

/// Whether a field is absent (which marks the object as modified, so that it is written
/// back with every field).
pub open spec fn missing(table: Seq<TomlEntry>, key: Seq<char>) -> bool {
    lookup(table, key) is None
}

/// The text of a string field after loading it over `old`.
pub open spec fn loaded_text(table: Seq<TomlEntry>, key: Seq<char>, old: Seq<char>) -> Seq<char> {
    match extract_string(table, key) {
        Ok(Some(s)) => s,
        _ => old,
    }
}

/// The views of a list of keys.
pub open spec fn key_views(keys: Seq<&str>) -> Seq<Seq<char>> {
    keys.map_values(|k: &str| k@)
}

/// Every key in `keys` names a string field that can be read.
pub open spec fn all_strings_ok(table: Seq<TomlEntry>, keys: Seq<Seq<char>>) -> bool {
    forall|j: int| 0 <= j < keys.len() ==> #[trigger] string_ok(table, keys[j])
}

/// `keys[i]` is the first key whose string field cannot be read.
pub open spec fn fails_first_at(table: Seq<TomlEntry>, keys: Seq<Seq<char>>, i: int) -> bool {
    &&& 0 <= i < keys.len()
    &&& !string_ok(table, keys[i])
    &&& forall|j: int| 0 <= j < i ==> #[trigger] string_ok(table, keys[j])
}

/// Some key in `keys` is absent from the header.
pub open spec fn any_missing(table: Seq<TomlEntry>, keys: Seq<Seq<char>>) -> bool {
    exists|j: int| 0 <= j < keys.len() && #[trigger] missing(table, keys[j])
}

/// The contents of text fields after loading each `keys[i]` over `olds[i]`.
pub open spec fn loaded_texts(table: Seq<TomlEntry>, keys: Seq<Seq<char>>, olds: Seq<Seq<char>>) -> Seq<Seq<char>> {
    Seq::new(keys.len(), |i: int| loaded_text(table, keys[i], olds[i]))
}

/// Reads the string fields `keys`, in order, stopping at the first one that holds
/// something other than a string. Also tells whether any of them was absent.
pub fn read_string_fields(table: &Vec<TomlEntry>, keys: &Vec<&str>) -> (r: Result<(Vec<Option<String>>, bool), MetadataError>)
    ensures
        match r {
            Ok((v, m)) => {
                &&& all_strings_ok(table@, key_views(keys@))
                &&& v.len() == keys.len()
                &&& forall|i: int| 0 <= i < v.len() ==> extract_string(table@, keys@[i]@) == Ok::<Option<Seq<char>>, ()>(
                    match #[trigger] v@[i] { Some(s) => Some(s@), None => None })
                &&& m == any_missing(table@, key_views(keys@))
            },
            Err(e) => {
                &&& exists|i: int| fails_first_at(table@, key_views(keys@), i) && e.field@ == keys@[i]@
                &&& e.expected == ValueKind::Text
            },
        },
{
    let ghost ks = key_views(keys@);
    let mut out: Vec<Option<String>> = Vec::new();
    let mut modified = false;
    let mut i: usize = 0;
    while i < keys.len()
        invariant
            i <= keys.len(),
            ks == key_views(keys@),
            out.len() == i,
            forall|j: int| 0 <= j < i ==> #[trigger] string_ok(table@, ks[j]),
            forall|j: int| 0 <= j < i ==> extract_string(table@, keys@[j]@) == Ok::<Option<Seq<char>>, ()>(
                match #[trigger] out@[j] { Some(s) => Some(s@), None => None }),
            modified == exists|j: int| 0 <= j < i && #[trigger] missing(table@, ks[j]),
        decreases keys.len() - i,
    {
        assert(ks[i as int] == keys@[i as int]@);
        match metadata_extract_string(table, keys[i]) {
            Ok(v) => {
                assert(missing(table@, ks[i as int]) == v.is_none());
                let ghost before = modified;
                if v.is_none() {
                    modified = true;
                }
                proof {
                    if !before && v.is_some() {
                        assert forall|j: int| 0 <= j < i + 1 implies !#[trigger] missing(table@, ks[j]) by {
                            if j < i {
                                assert(!(0 <= j < i && missing(table@, ks[j])));
                            }
                        }
                    }
                }
                out.push(v);
                i = i + 1;
            },
            Err(e) => {
                assert(fails_first_at(table@, ks, i as int));
                return Err(e);
            },
        }
    }
    Ok((out, modified))
}

/// Sets `field` to a new text block holding what was loaded, if anything was.
fn set_loaded(field: &mut Text, loaded: &Option<String>, uids: &mut UidCounter)
    ensures
        final(field).content() == match loaded { Some(s) => s@, None => old(field).content() },
{
    match loaded {
        Some(s) => {
            let uid = uids.fresh();
            *field = Text::from_string(s.clone(), uid);
        },
        None => {},
    }
}

/// A fresh object ID: a random (version 4) UUID in its hyphenated form.
#[verifier::external_body]
fn new_object_id() -> (r: String)
    ensures
        r@.len() == 36,
        r@[8] == '-' && r@[13] == '-' && r@[18] == '-' && r@[23] == '-',
{
    uuid::Uuid::new_v4().as_hyphenated().to_string()
}

/// The format version that files are written in.
pub const CURRENT_FILE_FORMAT_VERSION: u64 = 1;

/// The metadata that every file object has.
#[derive(Debug)]
pub struct FileObjectMetadata {
    /// Version of the object, can eventually be used to detect compatibility changes
    pub version: u64,
    /// Name of the object (e.g., title of a scene or name of a character)
    pub name: String,
    /// ID unique across all objects.
    pub id: String,
}

impl Default for FileObjectMetadata {
    fn default() -> (r: Self)
        ensures
            r.version == CURRENT_FILE_FORMAT_VERSION,
            r.name@ == Seq::<char>::empty(),
            r.id@.len() == 36,
    {
        FileObjectMetadata { version: CURRENT_FILE_FORMAT_VERSION, name: String::new(), id: new_object_id() }
    }
}

/// The string fields of the common metadata, in the order they are read.
pub open spec fn base_string_keys() -> Seq<Seq<char>> {
    seq!["name"@, "id"@]
}

/// Loads the metadata that every file object has: the format version, the name and the
/// ID, in that order. A field that is absent keeps its value and sets `modified`; a field
/// of the wrong kind stops the loading with an error that names it.
pub fn load_base_metadata(table: &Vec<TomlEntry>, metadata: &mut FileObjectMetadata, modified: &mut bool) -> (r: Result<(), MetadataError>)
    ensures
        match r {
            Ok(_) => {
                &&& extract_u64(table@, "file_format_version"@, false) is Ok
                &&& all_strings_ok(table@, base_string_keys())
                &&& final(metadata).version == match extract_u64(table@, "file_format_version"@, false) {
                    Ok(Some(v)) => v,
                    _ => old(metadata).version,
                }
                &&& final(metadata).name@ == loaded_text(table@, "name"@, old(metadata).name@)
                &&& final(metadata).id@ == loaded_text(table@, "id"@, old(metadata).id@)
                &&& *final(modified) == (*old(modified) || missing(table@, "file_format_version"@)
                    || any_missing(table@, base_string_keys()))
            },
            Err(e) => {
                ||| extract_u64(table@, "file_format_version"@, false) is Err
                    && e.field@ == "file_format_version"@ && e.expected == ValueKind::Integer
                ||| extract_u64(table@, "file_format_version"@, false) is Ok
                    && (exists|i: int| fails_first_at(table@, base_string_keys(), i) && e.field@ == base_string_keys()[i])
                    && e.expected == ValueKind::Text
            },
        },
{
    let version = match metadata_extract_u64(table, "file_format_version", false) {
        Ok(v) => v,
        Err(e) => return Err(e),
    };
    assert(missing(table@, "file_format_version"@) == version.is_none());
    let keys: Vec<&str> = vec!["name", "id"];
    assert(key_views(keys@) =~= base_string_keys());
    match read_string_fields(table, &keys) {
        Ok((v, m)) => {
            match version {
                Some(x) => metadata.version = x,
                None => *modified = true,
            }
            match &v[0] {
                Some(s) => metadata.name = s.clone(),
                None => {},
            }
            match &v[1] {
                Some(s) => metadata.id = s.clone(),
                None => {},
            }
            if m {
                *modified = true;
            }
            Ok(())
        },
        Err(e) => Err(e),
    }
}

/// The metadata of a character.
#[derive(Debug)]
pub struct CharacterMetadata {
    pub summary: Text,
    pub notes: Text,
    pub appearance: Text,
    pub personality: Text,
    pub goal: Text,
    pub conflict: Text,
    pub habits: Text,
}

/// The fields of a character, in the order they are read.
pub open spec fn character_keys() -> Seq<Seq<char>> {
    seq!["summary"@, "notes"@, "appearance"@, "personality"@, "goal"@, "conflict"@, "habits"@]
}

impl CharacterMetadata {
    /// The contents of the fields, in the order of [`character_keys`].
    pub open spec fn texts(&self) -> Seq<Seq<char>> {
        seq![self.summary.content(), self.notes.content(), self.appearance.content(),
            self.personality.content(), self.goal.content(), self.conflict.content(), self.habits.content()]
    }

    /// Empty fields, each a new text block.
    pub fn new(uids: &mut UidCounter) -> (r: Self)
        ensures
            forall|i: int| 0 <= i < 7 ==> #[trigger] r.texts()[i] == Seq::<char>::empty(),
    {
        CharacterMetadata {
            summary: Text::new(uids.fresh()),
            notes: Text::new(uids.fresh()),
            appearance: Text::new(uids.fresh()),
            personality: Text::new(uids.fresh()),
            goal: Text::new(uids.fresh()),
            conflict: Text::new(uids.fresh()),
            habits: Text::new(uids.fresh()),
        }
    }

    /// Loads the fields from a metadata header. Returns whether any was absent (so that
    /// the object is written back in full), or an error naming the first field that is not
    /// a string.
    pub fn load_metadata(&mut self, table: &Vec<TomlEntry>, uids: &mut UidCounter) -> (r: Result<bool, MetadataError>)
        ensures
            match r {
                Ok(m) => {
                    &&& all_strings_ok(table@, character_keys())
                    &&& m == any_missing(table@, character_keys())
                    &&& final(self).texts() == loaded_texts(table@, character_keys(), old(self).texts())
                },
                Err(e) => {
                    &&& exists|i: int| fails_first_at(table@, character_keys(), i) && e.field@ == character_keys()[i]
                    &&& e.expected == ValueKind::Text
                },
            },
    {
        let keys: Vec<&str> = vec!["summary", "notes", "appearance", "personality", "goal", "conflict", "habits"];
        assert(key_views(keys@) =~= character_keys());
        match read_string_fields(table, &keys) {
            Ok((v, m)) => {
                set_loaded(&mut self.summary, &v[0], uids);
                set_loaded(&mut self.notes, &v[1], uids);
                set_loaded(&mut self.appearance, &v[2], uids);
                set_loaded(&mut self.personality, &v[3], uids);
                set_loaded(&mut self.goal, &v[4], uids);
                set_loaded(&mut self.conflict, &v[5], uids);
                set_loaded(&mut self.habits, &v[6], uids);
                assert(self.texts() =~= loaded_texts(table@, character_keys(), old(self).texts()));
                Ok(m)
            },
            Err(e) => Err(e),
        }
    }
}

/// The metadata of a place (a piece of worldbuilding).
#[derive(Debug)]
pub struct PlaceMetadata {
    pub connection: Text,
    pub description: Text,
    pub appearance: Text,
    pub other_senses: Text,
    pub notes: Text,
}

/// The fields of a place, in the order they are read.
pub open spec fn place_keys() -> Seq<Seq<char>> {
    seq!["connection"@, "description"@, "appearance"@, "other_senses"@, "notes"@]
}

impl PlaceMetadata {
    /// The contents of the fields, in the order of [`place_keys`].
    pub open spec fn texts(&self) -> Seq<Seq<char>> {
        seq![self.connection.content(), self.description.content(), self.appearance.content(),
            self.other_senses.content(), self.notes.content()]
    }

    /// Empty fields, each a new text block.
    pub fn new(uids: &mut UidCounter) -> (r: Self)
        ensures
            forall|i: int| 0 <= i < 5 ==> #[trigger] r.texts()[i] == Seq::<char>::empty(),
    {
        PlaceMetadata {
            connection: Text::new(uids.fresh()),
            description: Text::new(uids.fresh()),
            appearance: Text::new(uids.fresh()),
            other_senses: Text::new(uids.fresh()),
            notes: Text::new(uids.fresh()),
        }
    }

    /// Loads the fields from a metadata header, as [`CharacterMetadata::load_metadata`]
    /// does for a character.
    pub fn load_metadata(&mut self, table: &Vec<TomlEntry>, uids: &mut UidCounter) -> (r: Result<bool, MetadataError>)
        ensures
            match r {
                Ok(m) => {
                    &&& all_strings_ok(table@, place_keys())
                    &&& m == any_missing(table@, place_keys())
                    &&& final(self).texts() == loaded_texts(table@, place_keys(), old(self).texts())
                },
                Err(e) => {
                    &&& exists|i: int| fails_first_at(table@, place_keys(), i) && e.field@ == place_keys()[i]
                    &&& e.expected == ValueKind::Text
                },
            },
    {
        let keys: Vec<&str> = vec!["connection", "description", "appearance", "other_senses", "notes"];
        assert(key_views(keys@) =~= place_keys());
        match read_string_fields(table, &keys) {
            Ok((v, m)) => {
                set_loaded(&mut self.connection, &v[0], uids);
                set_loaded(&mut self.description, &v[1], uids);
                set_loaded(&mut self.appearance, &v[2], uids);
                set_loaded(&mut self.other_senses, &v[3], uids);
                set_loaded(&mut self.notes, &v[4], uids);
                assert(self.texts() =~= loaded_texts(table@, place_keys(), old(self).texts()));
                Ok(m)
            },
            Err(e) => Err(e),
        }
    }
}

/// The metadata of a note.
#[derive(Debug)]
pub struct NoteMetadata {
    pub subject: Text,
    pub commentary: Text,
}

/// The fields of a note, in the order they are read.
pub open spec fn note_keys() -> Seq<Seq<char>> {
    seq!["subject"@, "commentary"@]
}

impl NoteMetadata {
    /// The contents of the fields, in the order of [`note_keys`].
    pub open spec fn texts(&self) -> Seq<Seq<char>> {
        seq![self.subject.content(), self.commentary.content()]
    }

    /// Loads the fields from a metadata header, as [`CharacterMetadata::load_metadata`]
    /// does for a character.
    pub fn load_metadata(&mut self, table: &Vec<TomlEntry>, uids: &mut UidCounter) -> (r: Result<bool, MetadataError>)
        ensures
            match r {
                Ok(m) => {
                    &&& all_strings_ok(table@, note_keys())
                    &&& m == any_missing(table@, note_keys())
                    &&& final(self).texts() == loaded_texts(table@, note_keys(), old(self).texts())
                },
                Err(e) => {
                    &&& exists|i: int| fails_first_at(table@, note_keys(), i) && e.field@ == note_keys()[i]
                    &&& e.expected == ValueKind::Text
                },
            },
    {
        let keys: Vec<&str> = vec!["subject", "commentary"];
        assert(key_views(keys@) =~= note_keys());
        match read_string_fields(table, &keys) {
            Ok((v, m)) => {
                set_loaded(&mut self.subject, &v[0], uids);
                set_loaded(&mut self.commentary, &v[1], uids);
                assert(self.texts() =~= loaded_texts(table@, note_keys(), old(self).texts()));
                Ok(m)
            },
            Err(e) => Err(e),
        }
    }
}

/// The compile status after loading the `compile_status` field over `old` (an integer, or
/// a boolean standing for 1 or 0).
pub open spec fn loaded_status(table: Seq<TomlEntry>, old: u64) -> u64 {
    match extract_u64(table, "compile_status"@, true) {
        Ok(Some(b)) => b,
        _ => old,
    }
}

/// Loads the `compile_status` field; returns whether it was absent.
fn load_compile_status(table: &Vec<TomlEntry>, status: &mut CompileStatus) -> (r: Result<bool, MetadataError>)
    ensures
        match r {
            Ok(m) => {
                &&& extract_u64(table@, "compile_status"@, true) is Ok
                &&& m == missing(table@, "compile_status"@)
                &&& final(status)@ == loaded_status(table@, old(status)@)
            },
            Err(e) => {
                &&& extract_u64(table@, "compile_status"@, true) is Err
                &&& e.field@ == "compile_status"@
                &&& e.expected == ValueKind::Integer
            },
        },
{
    match metadata_extract_u64(table, "compile_status", true) {
        Ok(Some(bits)) => {
            *status = CompileStatus::from_bits_retain(bits);
            Ok(false)
        },
        Ok(None) => Ok(true),
        Err(e) => Err(e),
    }
}

/// The metadata of a folder.
#[derive(Debug)]
pub struct FolderMetadata {
    pub summary: Text,
    pub notes: Text,
    pub compile_status: CompileStatus,
}

/// The text fields of a folder (and of a scene), in the order they are read.
pub open spec fn summary_keys() -> Seq<Seq<char>> {
    seq!["summary"@, "notes"@]
}

impl FolderMetadata {
    /// The contents of the text fields, in the order of [`summary_keys`].
    pub open spec fn texts(&self) -> Seq<Seq<char>> {
        seq![self.summary.content(), self.notes.content()]
    }

    /// Loads the summary, the notes and then the compile status from a metadata header.
    /// Returns whether any of them was absent, or an error naming the first field of the
    /// wrong kind.
    pub fn load_metadata(&mut self, table: &Vec<TomlEntry>, uids: &mut UidCounter) -> (r: Result<bool, MetadataError>)
        ensures
            match r {
                Ok(m) => {
                    &&& all_strings_ok(table@, summary_keys())
                    &&& extract_u64(table@, "compile_status"@, true) is Ok
                    &&& m == (any_missing(table@, summary_keys()) || missing(table@, "compile_status"@))
                    &&& final(self).texts() == loaded_texts(table@, summary_keys(), old(self).texts())
                    &&& final(self).compile_status@ == loaded_status(table@, old(self).compile_status@)
                },
                Err(e) => {
                    ||| (exists|i: int| fails_first_at(table@, summary_keys(), i) && e.field@ == summary_keys()[i])
                        && e.expected == ValueKind::Text
                    ||| all_strings_ok(table@, summary_keys()) && extract_u64(table@, "compile_status"@, true) is Err
                        && e.field@ == "compile_status"@ && e.expected == ValueKind::Integer
                },
            },
    {
        let keys: Vec<&str> = vec!["summary", "notes"];
        assert(key_views(keys@) =~= summary_keys());
        match read_string_fields(table, &keys) {
            Ok((v, m)) => {
                match load_compile_status(table, &mut self.compile_status) {
                    Ok(missing_status) => {
                        set_loaded(&mut self.summary, &v[0], uids);
                        set_loaded(&mut self.notes, &v[1], uids);
                        assert(self.texts() =~= loaded_texts(table@, summary_keys(), old(self).texts()));
                        Ok(m || missing_status)
                    },
                    Err(e) => Err(e),
                }
            },
            Err(e) => Err(e),
        }
    }
}

/// The metadata of a scene.
#[derive(Debug)]
pub struct SceneMetadata {
    pub summary: Text,
    pub notes: Text,
    /// The point-of-view character.
    pub pov: ObjectReference,
    pub compile_status: CompileStatus,
}

/// The string fields of a scene, in the order they are read.
pub open spec fn scene_keys() -> Seq<Seq<char>> {
    seq!["summary"@, "notes"@, "pov"@]
}

/// The point-of-view reference after loading the `pov` field over `old`.
pub open spec fn loaded_pov(table: Seq<TomlEntry>, old: RefV) -> RefV {
    match extract_string(table, "pov"@) {
        Ok(Some(s)) => parse_reference(s, Some(character_v())),
        _ => old,
    }
}

impl SceneMetadata {
    /// The contents of the text fields, in the order of [`summary_keys`].
    pub open spec fn texts(&self) -> Seq<Seq<char>> {
        seq![self.summary.content(), self.notes.content()]
    }

    /// Loads the summary, the notes, the point-of-view character (a reference to a
    /// character) and then the compile status from a metadata header. Returns whether any
    /// of them was absent, or an error naming the first field of the wrong kind.
    pub fn load_metadata(&mut self, table: &Vec<TomlEntry>, uids: &mut UidCounter) -> (r: Result<bool, MetadataError>)
        ensures
            match r {
                Ok(m) => {
                    &&& all_strings_ok(table@, scene_keys())
                    &&& extract_u64(table@, "compile_status"@, true) is Ok
                    &&& m == (any_missing(table@, scene_keys()) || missing(table@, "compile_status"@))
                    &&& final(self).texts() == loaded_texts(table@, summary_keys(), old(self).texts())
                    &&& final(self).pov@ == loaded_pov(table@, old(self).pov@)
                    &&& final(self).compile_status@ == loaded_status(table@, old(self).compile_status@)
                },
                Err(e) => {
                    ||| (exists|i: int| fails_first_at(table@, scene_keys(), i) && e.field@ == scene_keys()[i])
                        && e.expected == ValueKind::Text
                    ||| all_strings_ok(table@, scene_keys()) && extract_u64(table@, "compile_status"@, true) is Err
                        && e.field@ == "compile_status"@ && e.expected == ValueKind::Integer
                },
            },
    {
        let keys: Vec<&str> = vec!["summary", "notes", "pov"];
        assert(key_views(keys@) =~= scene_keys());
        match read_string_fields(table, &keys) {
            Ok((v, m)) => {
                match load_compile_status(table, &mut self.compile_status) {
                    Ok(missing_status) => {
                        set_loaded(&mut self.summary, &v[0], uids);
                        set_loaded(&mut self.notes, &v[1], uids);
                        match &v[2] {
                            Some(pov) => {
                                self.pov = ObjectReference::new(pov.clone(), Some(character_type()));
                            },
                            None => {},
                        }
                        assert(self.texts() =~= loaded_texts(table@, summary_keys(), old(self).texts()));
                        Ok(m || missing_status)
                    },
                    Err(e) => Err(e),
                }
            },
            Err(e) => Err(e),
        }
    }
}

/// The first export setting (key and expected kind) that holds a value of the wrong kind.
pub open spec fn export_error(t: Seq<TomlEntry>) -> Option<(Seq<char>, ValueKind)> {
    if extract_bool(t, "include_all_folder_titles"@) is Err {
        Some(("include_all_folder_titles"@, ValueKind::Boolean))
    } else if extract_u64(t, "include_folder_title_depth"@, false) is Err {
        Some(("include_folder_title_depth"@, ValueKind::Integer))
    } else if extract_bool(t, "include_all_scene_files"@) is Err {
        Some(("include_all_scene_files"@, ValueKind::Boolean))
    } else if extract_u64(t, "include_scene_title_depth"@, false) is Err {
        Some(("include_scene_title_depth"@, ValueKind::Integer))
    } else if extract_bool(t, "insert_break_at_end"@) is Err {
        Some(("insert_break_at_end"@, ValueKind::Boolean))
    } else {
        None
    }
}

/// Whether any export setting is absent.
pub open spec fn export_missing(t: Seq<TomlEntry>) -> bool {
    missing(t, "include_all_folder_titles"@) || missing(t, "include_folder_title_depth"@)
        || missing(t, "include_all_scene_files"@) || missing(t, "include_scene_title_depth"@)
        || missing(t, "insert_break_at_end"@)
}

pub open spec fn or_bool(r: Result<Option<bool>, ()>, old: bool) -> bool {
    match r {
        Ok(Some(b)) => b,
        _ => old,
    }
}

pub open spec fn or_u64(r: Result<Option<u64>, ()>, old: u64) -> u64 {
    match r {
        Ok(Some(b)) => b,
        _ => old,
    }
}

/// The export settings after loading the table `t` over `old`.
pub open spec fn loaded_export(t: Seq<TomlEntry>, old: ProjectExportSettings) -> ProjectExportSettings {
    ProjectExportSettings {
        include_all_folder_titles: or_bool(extract_bool(t, "include_all_folder_titles"@), old.include_all_folder_titles),
        include_folder_title_depth: or_u64(extract_u64(t, "include_folder_title_depth"@, false), old.include_folder_title_depth),
        include_all_scene_titles: or_bool(extract_bool(t, "include_all_scene_files"@), old.include_all_scene_titles),
        include_scene_title_depth: or_u64(extract_u64(t, "include_scene_title_depth"@, false), old.include_scene_title_depth),
        insert_break_at_end: or_bool(extract_bool(t, "insert_break_at_end"@), old.insert_break_at_end),
    }
}

fn load_bool(table: &Vec<TomlEntry>, key: &str, field: &mut bool, modified: &mut bool) -> (r: Result<(), MetadataError>)
    ensures
        match r {
            Ok(_) => extract_bool(table@, key@) is Ok && *final(field) == or_bool(extract_bool(table@, key@), *old(field))
                && *final(modified) == (*old(modified) || missing(table@, key@)),
            Err(e) => extract_bool(table@, key@) is Err && e.field@ == key@ && e.expected == ValueKind::Boolean,
        },
{
    match metadata_extract_bool(table, key) {
        Ok(Some(b)) => {
            *field = b;
            Ok(())
        },
        Ok(None) => {
            *modified = true;
            Ok(())
        },
        Err(e) => Err(e),
    }
}

fn load_u64(table: &Vec<TomlEntry>, key: &str, field: &mut u64, modified: &mut bool) -> (r: Result<(), MetadataError>)
    ensures
        match r {
            Ok(_) => extract_u64(table@, key@, false) is Ok && *final(field) == or_u64(extract_u64(table@, key@, false), *old(field))
                && *final(modified) == (*old(modified) || missing(table@, key@)),
            Err(e) => extract_u64(table@, key@, false) is Err && e.field@ == key@ && e.expected == ValueKind::Integer,
        },
{
    match metadata_extract_u64(table, key, false) {
        Ok(Some(b)) => {
            *field = b;
            Ok(())
        },
        Ok(None) => {
            *modified = true;
            Ok(())
        },
        Err(e) => Err(e),
    }
}

/// Loads the export settings from their table; on success returns whether any was absent.
fn load_export_settings(t: &Vec<TomlEntry>, export: &mut ProjectExportSettings) -> (r: Result<bool, MetadataError>)
    ensures
        match r {
            Ok(m) => export_error(t@) is None && m == export_missing(t@) && *final(export) == loaded_export(t@, *old(export)),
            Err(e) => export_error(t@) == Some((e.field@, e.expected)),
        },
{
    let mut m = false;
    let mut e = ProjectExportSettings { ..*export };
    match load_bool(t, "include_all_folder_titles", &mut e.include_all_folder_titles, &mut m) {
        Ok(_) => {},
        Err(err) => return Err(err),
    }
    match load_u64(t, "include_folder_title_depth", &mut e.include_folder_title_depth, &mut m) {
        Ok(_) => {},
        Err(err) => return Err(err),
    }
    match load_bool(t, "include_all_scene_files", &mut e.include_all_scene_titles, &mut m) {
        Ok(_) => {},
        Err(err) => return Err(err),
    }
    match load_u64(t, "include_scene_title_depth", &mut e.include_scene_title_depth, &mut m) {
        Ok(_) => {},
        Err(err) => return Err(err),
    }
    match load_bool(t, "insert_break_at_end", &mut e.insert_break_at_end, &mut m) {
        Ok(_) => {},
        Err(err) => return Err(err),
    }
    *export = e;
    Ok(m)
}

/// The metadata of a project.
#[derive(Debug)]
pub struct ProjectMetadata {
    pub summary: Text,
    pub notes: Text,
    pub genre: String,
    pub author: String,
    pub email: String,
    pub export: ProjectExportSettings,
}

/// The string fields of a project, in the order they are read.
pub open spec fn project_keys() -> Seq<Seq<char>> {
    seq!["summary"@, "notes"@, "genre"@, "author"@, "email"@]
}

/// What loading a project header fails with after its string fields were read: a value
/// of the export settings, or an `export` entry that is not a table.
pub open spec fn project_export_error(table: Seq<TomlEntry>) -> Option<(Seq<char>, ValueKind)> {
    match lookup(table, "export"@) {
        None => None,
        Some(TomlValue::Table(t)) => export_error(t@),
        Some(_) => Some(("export"@, ValueKind::Table)),
    }
}

/// The export settings after loading a project header over `old`.
pub open spec fn project_loaded_export(table: Seq<TomlEntry>, old: ProjectExportSettings) -> ProjectExportSettings {
    match lookup(table, "export"@) {
        Some(TomlValue::Table(t)) => loaded_export(t@, old),
        _ => old,
    }
}

/// Whether the export settings (the table or any setting in it) are absent.
pub open spec fn project_export_missing(table: Seq<TomlEntry>) -> bool {
    match lookup(table, "export"@) {
        Some(TomlValue::Table(t)) => export_missing(t@),
        _ => true,
    }
}

impl ProjectMetadata {
    /// The contents of the string fields, in the order of [`project_keys`].
    pub open spec fn strings(&self) -> Seq<Seq<char>> {
        seq![self.summary.content(), self.notes.content(), self.genre@, self.author@, self.email@]
    }

    /// Empty fields and the default export settings.
    pub fn new(uids: &mut UidCounter) -> (r: Self)
        ensures
            forall|i: int| 0 <= i < 5 ==> #[trigger] r.strings()[i] == Seq::<char>::empty(),
            r.export == (ProjectExportSettings {
                include_all_folder_titles: false,
                include_folder_title_depth: 1,
                include_all_scene_titles: false,
                include_scene_title_depth: 1,
                insert_break_at_end: true,
            }),
    {
        ProjectMetadata {
            summary: Text::new(uids.fresh()),
            notes: Text::new(uids.fresh()),
            genre: String::new(),
            author: String::new(),
            email: String::new(),
            export: ProjectExportSettings::default(),
        }
    }

    /// Loads the project's fields from its metadata header: the summary, notes, genre,
    /// author and email, then the export settings from the `export` table. Returns whether
    /// any of them was absent, or an error naming the first field of the wrong kind.
    pub fn load_metadata(&mut self, table: &Vec<TomlEntry>, uids: &mut UidCounter) -> (r: Result<bool, MetadataError>)
        ensures
            match r {
                Ok(m) => {
                    &&& all_strings_ok(table@, project_keys())
                    &&& project_export_error(table@) is None
                    &&& m == (any_missing(table@, project_keys()) || project_export_missing(table@))
                    &&& final(self).strings() == loaded_texts(table@, project_keys(), old(self).strings())
                    &&& final(self).export == project_loaded_export(table@, old(self).export)
                },
                Err(e) => {
                    ||| (exists|i: int| fails_first_at(table@, project_keys(), i) && e.field@ == project_keys()[i])
                        && e.expected == ValueKind::Text
                    ||| all_strings_ok(table@, project_keys()) && project_export_error(table@) == Some((e.field@, e.expected))
                },
            },
    {
        let keys: Vec<&str> = vec!["summary", "notes", "genre", "author", "email"];
        assert(key_views(keys@) =~= project_keys());
        let (v, m) = match read_string_fields(table, &keys) {
            Ok(x) => x,
            Err(e) => return Err(e),
        };
        let mut export = ProjectExportSettings { ..self.export };
        let export_missing = match find_key(table, "export") {
            Some(TomlValue::Table(t)) => match load_export_settings(t, &mut export) {
                Ok(x) => x,
                Err(e) => return Err(e),
            },
            Some(_) => return Err(MetadataError { field: "export".to_owned(), expected: ValueKind::Table }),
            None => true,
        };
        set_loaded(&mut self.summary, &v[0], uids);
        set_loaded(&mut self.notes, &v[1], uids);
        match &v[2] {
            Some(s) => self.genre = s.clone(),
            None => {},
        }
        match &v[3] {
            Some(s) => self.author = s.clone(),
            None => {},
        }
        match &v[4] {
            Some(s) => self.email = s.clone(),
            None => {},
        }
        self.export = export;
        assert(self.strings() =~= loaded_texts(table@, project_keys(), old(self).strings()));
        Ok(m || export_missing)
    }
}

} // verus!
