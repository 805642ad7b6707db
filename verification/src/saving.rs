//! What saving writes: the entries that each kind of object sets in its metadata header,
//! the header read from the file with those entries set (by `toml_edit`, which keeps the
//! rest of the header as it was written), and the text of the file (the header, then the
//! body of objects that have one).
use vstd::prelude::*;
use crate::export::ProjectExportSettings;
use crate::loading::{header_split, occurs_at, split_contents, find_sub_from};
use crate::metadata::{
    TomlEntry, TomlEntryV, TomlValue, FileObjectMetadata, entries_v, CharacterMetadata, PlaceMetadata, NoteMetadata,
    FolderMetadata, SceneMetadata, ProjectMetadata, character_keys, place_keys, note_keys,
};
use crate::reference::{ObjectEntry, reference_text};
use crate::text::{push_char, trim_chars, leading_ws};

verus! {

/// `e` sets `key` to the string `value`.
pub open spec fn is_text_entry(e: TomlEntry, key: Seq<char>, value: Seq<char>) -> bool {
    e.key@ == key && (e.value matches TomlValue::Text(s) && s@ == value)
}

/// `e` sets `key` to the integer `value`.
pub open spec fn is_int_entry(e: TomlEntry, key: Seq<char>, value: i64) -> bool {
    e.key@ == key && e.value == TomlValue::Integer(value)
}

/// `e` sets `key` to the boolean `value`.
pub open spec fn is_bool_entry(e: TomlEntry, key: Seq<char>, value: bool) -> bool {
    e.key@ == key && e.value == TomlValue::Boolean(value)
}

fn text_entry(key: &str, value: &str) -> (r: TomlEntry)
    ensures
        is_text_entry(r, key@, value@),
{
    TomlEntry { key: key.to_owned(), value: TomlValue::Text(value.to_owned()) }
}

fn int_entry(key: &str, value: i64) -> (r: TomlEntry)
    ensures
        is_int_entry(r, key@, value),
{
    TomlEntry { key: key.to_owned(), value: TomlValue::Integer(value) }
}

fn bool_entry(key: &str, value: bool) -> (r: TomlEntry)
    ensures
        is_bool_entry(r, key@, value),
{
    TomlEntry { key: key.to_owned(), value: TomlValue::Boolean(value) }
}

/// A `u64` as an `i64` for a TOML integer: the most significant bit is dropped, so the
/// result is the value modulo 2^63 and never negative.
pub fn u64_to_i64_drop_msb(val: u64) -> (r: i64)
    ensures
        r == val % 0x8000_0000_0000_0000,
{
    let masked = val & 0x7fff_ffff_ffff_ffff;
    assert(masked == val % 0x8000_0000_0000_0000) by (bit_vector)
        requires
            masked == val & 0x7fff_ffff_ffff_ffff,
    ;
    masked as i64
}

impl FileObjectMetadata {
    /// The entries that the common metadata sets in a header: the format version, the name
    /// and the ID.
    pub fn header_updates(&self) -> (r: Vec<TomlEntry>)
        ensures
            r.len() == 3,
            is_int_entry(r@[0], "file_format_version"@, self.version as i64),
            is_text_entry(r@[1], "name"@, self.name@),
            is_text_entry(r@[2], "id"@, self.id@),
    {
        #[verifier::truncate]
        let version = self.version as i64;
        vec![
            int_entry("file_format_version", version),
            text_entry("name", self.name.as_str()),
            text_entry("id", self.id.as_str()),
        ]
    }
}

impl CharacterMetadata {
    /// The entries that a character sets in its header: its file type, then its fields in
    /// the order of [`character_keys`].
    pub fn header_updates(&self) -> (r: Vec<TomlEntry>)
        ensures
            r.len() == 8,
            is_text_entry(r@[0], "file_type"@, "character"@),
            forall|i: int| 0 <= i < 7 ==> is_text_entry(#[trigger] r@[i + 1], character_keys()[i], self.texts()[i]),
    {
        let r = vec![
            text_entry("file_type", "character"),
            text_entry("summary", self.summary.as_str()),
            text_entry("notes", self.notes.as_str()),
            text_entry("appearance", self.appearance.as_str()),
            text_entry("personality", self.personality.as_str()),
            text_entry("goal", self.goal.as_str()),
            text_entry("conflict", self.conflict.as_str()),
            text_entry("habits", self.habits.as_str()),
        ];
        assert forall|i: int| 0 <= i < 7 implies is_text_entry(#[trigger] r@[i + 1], character_keys()[i], self.texts()[i]) by {
            assert(0 <= i < 7);
        }
        r
    }
}

impl PlaceMetadata {
    /// The entries that a place sets in its header: its file type, then its fields in the
    /// order of [`place_keys`].
    pub fn header_updates(&self) -> (r: Vec<TomlEntry>)
        ensures
            r.len() == 6,
            is_text_entry(r@[0], "file_type"@, "worldbuilding"@),
            forall|i: int| 0 <= i < 5 ==> is_text_entry(#[trigger] r@[i + 1], place_keys()[i], self.texts()[i]),
    {
        let r = vec![
            text_entry("file_type", "worldbuilding"),
            text_entry("connection", self.connection.as_str()),
            text_entry("description", self.description.as_str()),
            text_entry("appearance", self.appearance.as_str()),
            text_entry("other_senses", self.other_senses.as_str()),
            text_entry("notes", self.notes.as_str()),
        ];
        assert forall|i: int| 0 <= i < 5 implies is_text_entry(#[trigger] r@[i + 1], place_keys()[i], self.texts()[i]) by {
            assert(0 <= i < 5);
        }
        r
    }
}

impl NoteMetadata {
    /// The entries that a note sets in its header: its fields in the order of [`note_keys`].
    pub fn header_updates(&self) -> (r: Vec<TomlEntry>)
        ensures
            r.len() == 2,
            forall|i: int| 0 <= i < 2 ==> is_text_entry(#[trigger] r@[i], note_keys()[i], self.texts()[i]),
    {
        let r = vec![
            text_entry("subject", self.subject.as_str()),
            text_entry("commentary", self.commentary.as_str()),
        ];
        assert forall|i: int| 0 <= i < 2 implies is_text_entry(#[trigger] r@[i], note_keys()[i], self.texts()[i]) by {
            assert(0 <= i < 2);
        }
        r
    }
}

impl FolderMetadata {
    /// The entries that a folder sets in its header: its file type, summary, notes and
    /// compile status (its bits as an `i64`).
    pub fn header_updates(&self) -> (r: Vec<TomlEntry>)
        ensures
            r.len() == 4,
            is_text_entry(r@[0], "file_type"@, "folder"@),
            is_text_entry(r@[1], "summary"@, self.summary.content()),
            is_text_entry(r@[2], "notes"@, self.notes.content()),
            is_int_entry(r@[3], "compile_status"@, self.compile_status@ as i64),
    {
        #[verifier::truncate]
        let bits = self.compile_status.bits() as i64;
        vec![
            text_entry("file_type", "folder"),
            text_entry("summary", self.summary.as_str()),
            text_entry("notes", self.notes.as_str()),
            int_entry("compile_status", bits),
        ]
    }
}

impl SceneMetadata {
    /// The entries that a scene sets in its header: its file type, summary, notes,
    /// point-of-view reference (as written in files, with the current name of a known
    /// character looked up in `objects`) and compile status.
    pub fn header_updates(&self, objects: &Vec<ObjectEntry>) -> (r: Vec<TomlEntry>)
        ensures
            r.len() == 5,
            is_text_entry(r@[0], "file_type"@, "scene"@),
            is_text_entry(r@[1], "summary"@, self.summary.content()),
            is_text_entry(r@[2], "notes"@, self.notes.content()),
            is_text_entry(r@[3], "pov"@, reference_text(self.pov@, objects@.map_values(|e: ObjectEntry| e@))),
            is_int_entry(r@[4], "compile_status"@, self.compile_status@ as i64),
    {
        #[verifier::truncate]
        let bits = self.compile_status.bits() as i64;
        let pov = self.pov.to_string(objects);
        vec![
            text_entry("file_type", "scene"),
            text_entry("summary", self.summary.as_str()),
            text_entry("notes", self.notes.as_str()),
            text_entry("pov", pov.as_str()),
            int_entry("compile_status", bits),
        ]
    }
}

/// `e` sets the export table to these settings (depths with their top bit dropped).
pub open spec fn is_export_entry(e: TomlEntry, s: ProjectExportSettings) -> bool {
    &&& e.key@ == "export"@
    &&& e.value matches TomlValue::Table(t) && t.len() == 5
        && is_bool_entry(t@[0], "include_all_folder_titles"@, s.include_all_folder_titles)
        && is_int_entry(t@[1], "include_folder_title_depth"@, (s.include_folder_title_depth % 0x8000_0000_0000_0000) as i64)
        && is_bool_entry(t@[2], "include_all_scene_files"@, s.include_all_scene_titles)
        && is_int_entry(t@[3], "include_scene_title_depth"@, (s.include_scene_title_depth % 0x8000_0000_0000_0000) as i64)
        && is_bool_entry(t@[4], "insert_break_at_end"@, s.insert_break_at_end)
}

impl ProjectMetadata {
    /// The entries that a project sets in its header after the common ones: summary,
    /// notes, genre, author and email, then the export settings as a table.
    pub fn header_updates(&self) -> (r: Vec<TomlEntry>)
        ensures
            r.len() == 6,
            is_text_entry(r@[0], "summary"@, self.summary.content()),
            is_text_entry(r@[1], "notes"@, self.notes.content()),
            is_text_entry(r@[2], "genre"@, self.genre@),
            is_text_entry(r@[3], "author"@, self.author@),
            is_text_entry(r@[4], "email"@, self.email@),
            is_export_entry(r@[5], self.export),
    {
        let e = self.export;
        let table = vec![
            bool_entry("include_all_folder_titles", e.include_all_folder_titles),
            int_entry("include_folder_title_depth", u64_to_i64_drop_msb(e.include_folder_title_depth)),
            bool_entry("include_all_scene_files", e.include_all_scene_titles),
            int_entry("include_scene_title_depth", u64_to_i64_drop_msb(e.include_scene_title_depth)),
            bool_entry("insert_break_at_end", e.insert_break_at_end),
        ];
        vec![
            text_entry("summary", self.summary.as_str()),
            text_entry("notes", self.notes.as_str()),
            text_entry("genre", self.genre.as_str()),
            text_entry("author", self.author.as_str()),
            text_entry("email", self.email.as_str()),
            TomlEntry { key: "export".to_owned(), value: TomlValue::Table(table) },
        ]
    }
}

/// Whether a header value can be written back: nothing in it is a value that was read as
/// `Other` (a float or a date).
pub open spec fn writable(v: TomlValue) -> bool
    decreases v,
{
    match v {
        TomlValue::Table(es) => writable_entries(es@),
        TomlValue::Array(xs) => writable_values(xs@),
        TomlValue::Other => false,
        _ => true,
    }
}

/// Every value of the entries `es` can be written back.
pub open spec fn writable_entries(es: Seq<TomlEntry>) -> bool
    decreases es,
{
    if es.len() == 0 {
        true
    } else {
        writable_entries(es.drop_last()) && writable(es.last().value)
    }
}

/// Every one of the values `xs` can be written back.
pub open spec fn writable_values(xs: Seq<TomlValue>) -> bool
    decreases xs,
{
    if xs.len() == 0 {
        true
    } else {
        writable_values(xs.drop_last()) && writable(xs.last())
    }
}

proof fn lemma_writable_entries(es: Seq<TomlEntry>)
    ensures
        writable_entries(es) <==> forall|i: int| 0 <= i < es.len() ==> writable(#[trigger] es[i].value),
    decreases es.len(),
{
    if es.len() > 0 {
        lemma_writable_entries(es.drop_last());
        if writable_entries(es) {
            assert forall|i: int| 0 <= i < es.len() implies writable(#[trigger] es[i].value) by {
                if i < es.len() - 1 {
                    assert(es.drop_last()[i] == es[i]);
                }
            }
        }
        if forall|i: int| 0 <= i < es.len() ==> writable(#[trigger] es[i].value) {
            assert forall|i: int| 0 <= i < es.drop_last().len() implies writable(#[trigger] es.drop_last()[i].value) by {
                assert(es.drop_last()[i] == es[i]);
            }
            assert(writable(es[es.len() - 1].value));
        }
    }
}

proof fn lemma_writable_values(xs: Seq<TomlValue>)
    ensures
        writable_values(xs) <==> forall|i: int| 0 <= i < xs.len() ==> writable(#[trigger] xs[i]),
    decreases xs.len(),
{
    if xs.len() > 0 {
        lemma_writable_values(xs.drop_last());
        if writable_values(xs) {
            assert forall|i: int| 0 <= i < xs.len() implies writable(#[trigger] xs[i]) by {
                if i < xs.len() - 1 {
                    assert(xs.drop_last()[i] == xs[i]);
                }
            }
        }
        if forall|i: int| 0 <= i < xs.len() ==> writable(#[trigger] xs[i]) {
            assert forall|i: int| 0 <= i < xs.drop_last().len() implies writable(#[trigger] xs.drop_last()[i]) by {
                assert(xs.drop_last()[i] == xs[i]);
            }
            assert(writable(xs[xs.len() - 1]));
        }
    }
}

fn value_writable(v: &TomlValue) -> (r: bool)
    ensures
        r == writable(*v),
    decreases *v,
{
    match v {
        TomlValue::Table(es) => entries_writable(es),
        TomlValue::Array(xs) => values_writable(xs),
        TomlValue::Other => false,
        _ => true,
    }
}

/// Whether every value of the entries `es` can be written back into a header.
pub fn entries_writable(es: &Vec<TomlEntry>) -> (r: bool)
    ensures
        r == writable_entries(es@),
    decreases es@,
{
    proof {
        lemma_writable_entries(es@);
    }
    let mut i: usize = 0;
    while i < es.len()
        invariant
            i <= es.len(),
            forall|j: int| 0 <= j < i ==> writable(#[trigger] es@[j].value),
        decreases es.len() - i,
    {
        proof {
            assert(decreases_to!(es@ => es@[i as int]));
        }
        if !value_writable(&es[i].value) {
            proof {
                lemma_writable_entries(es@);
                assert(!writable(es@[i as int].value));
            }
            return false;
        }
        i = i + 1;
    }
    true
}

fn values_writable(xs: &Vec<TomlValue>) -> (r: bool)
    ensures
        r == writable_values(xs@),
    decreases xs@,
{
    proof {
        lemma_writable_values(xs@);
    }
    let mut i: usize = 0;
    while i < xs.len()
        invariant
            i <= xs.len(),
            forall|j: int| 0 <= j < i ==> writable(#[trigger] xs@[j]),
        decreases xs.len() - i,
    {
        proof {
            assert(decreases_to!(xs@ => xs@[i as int]));
        }
        if !value_writable(&xs[i]) {
            proof {
                lemma_writable_values(xs@);
                assert(!writable(xs@[i as int]));
            }
            return false;
        }
        i = i + 1;
    }
    true
}

/// The text of the TOML document `old` (a header as read from a file) after each of the
/// `entries`, in order, is set at its top level with `toml_edit` (`DocumentMut`, indexed by
/// the key, then written out); `None` when `old` is not a valid TOML document. Keys that
/// are not set keep their values, comments and layout as they were written.
pub uninterp spec fn toml_updated_header(old: Seq<char>, entries: Seq<TomlEntryV>) -> Option<Seq<char>>;

/// The value `v` as a `toml_edit` value, variant for variant: an integer, a boolean, a
/// string, an array (item by item) or an inline table (entry by entry, in order). `None`
/// for a value read as `Other`. It converts the values of [`set_header_entries`].
#[verifier::external_body]
fn toml_edit_value(v: &TomlValue) -> (r: Option<toml_edit::Value>)
{
    match v {
        TomlValue::Integer(i) => Some(toml_edit::Value::from(*i)),
        TomlValue::Boolean(b) => Some(toml_edit::Value::from(*b)),
        TomlValue::Text(s) => Some(toml_edit::Value::from(s.as_str())),
        TomlValue::Array(xs) => xs.iter().map(toml_edit_value).collect::<Option<toml_edit::Array>>().map(toml_edit::Value::from),
        TomlValue::Table(es) => es.iter().map(|e| toml_edit_value(&e.value).map(|x| (e.key.as_str(), x)))
            .collect::<Option<toml_edit::InlineTable>>().map(toml_edit::Value::from),
        TomlValue::Other => None,
    }
}

/// Parses `old_header` as a `toml_edit::DocumentMut`, sets each of `entries` at its top
/// level (`doc[key] = value`, in order) and writes the document out (`to_string`). `None`
/// when `old_header` is not valid TOML. The result is named ([`toml_updated_header`]).
#[verifier::external_body]
fn set_header_entries(old_header: &str, entries: &Vec<TomlEntry>) -> (r: Option<String>)
    requires
        writable_entries(entries@),
    ensures
        match r {
            Some(s) => toml_updated_header(old_header@, entries_v(entries@)) == Some(s@),
            None => toml_updated_header(old_header@, entries_v(entries@)) is None,
        },
{
    let mut doc = old_header.parse::<toml_edit::DocumentMut>().ok()?;
    for e in entries {
        doc[e.key.as_str()] = toml_edit::Item::Value(toml_edit_value(&e.value)?);
    }
    Some(doc.to_string())
}

/// The header read from a file, `old_header`, with the `entries` set (the rest of the header
/// stays as it was written): `None` when the old header is not valid TOML, or when one of
/// the entries holds a value that cannot be written back (one read as `Other`).
pub fn updated_header(old_header: &str, entries: &Vec<TomlEntry>) -> (r: Option<String>)
    ensures
        match r {
            Some(s) => writable_entries(entries@)
                && toml_updated_header(old_header@, entries_v(entries@)) == Some(s@),
            None => !writable_entries(entries@)
                || toml_updated_header(old_header@, entries_v(entries@)) is None,
        },
{
    if !entries_writable(entries) {
        return None;
    }
    set_header_entries(old_header, entries)
}

/// The text of the file that saving writes: the header read from the file with the
/// `entries` set, then the body for an object that has one; `None` where
/// [`updated_header`] gives none.
pub fn saved_file(old_header: &str, entries: &Vec<TomlEntry>, body: Option<&str>) -> (r: Option<String>)
    ensures
        match r {
            Some(s) => writable_entries(entries@)
                && (toml_updated_header(old_header@, entries_v(entries@)) matches Some(h)
                && s@ == saved_text(h, match body { Some(b) => Some(b@), None => None })),
            None => !writable_entries(entries@)
                || toml_updated_header(old_header@, entries_v(entries@)) is None,
        },
{
    match updated_header(old_header, entries) {
        Some(h) => Some(file_contents(h.as_str(), body)),
        None => None,
    }
}

/// The text of a saved file: the header, and for an object with a body, the split line,
/// a blank line and the body.
pub open spec fn saved_text(header: Seq<char>, body: Option<Seq<char>>) -> Seq<char> {
    match body {
        Some(b) => header + header_split() + seq!['\n', '\n'] + b,
        None => header,
    }
}

/// Puts together the text of a file from its header and, for an object that has one, its
/// body.
pub fn file_contents(header: &str, body: Option<&str>) -> (r: String)
    ensures
        r@ == saved_text(header@, match body { Some(b) => Some(b@), None => None }),
{
    let mut out = header.to_owned();
    match body {
        Some(b) => {
            let mut k: usize = 0;
            while k < 8
                invariant
                    k <= 8,
                    out@ == header@ + Seq::new(k as nat, |i: int| '+'),
                decreases 8 - k,
            {
                push_char(&mut out, '+');
                k = k + 1;
                assert(out@ =~= header@ + Seq::new(k as nat, |i: int| '+'));
            }
            push_char(&mut out, '\n');
            push_char(&mut out, '\n');
            out.append(b);
            assert(out@ =~= saved_text(header@, Some(b@)));
            out
        },
        None => out,
    }
}

proof fn lemma_find_split_at(data: Seq<char>, h: nat, i: nat)
    requires
        i <= h,
        occurs_at(data, header_split(), h as int),
        forall|j: int| i <= j < h ==> !#[trigger] occurs_at(data, header_split(), j),
    ensures
        find_sub_from(data, header_split(), i) == Some(h as int),
    decreases h - i,
{
    if i < h {
        lemma_find_split_at(data, h, i + 1);
    }
}

proof fn lemma_leading_ws_bound(s: Seq<char>)
    ensures
        leading_ws(s) <= s.len(),
    decreases s.len(),
{
    if s.len() > 0 {
        lemma_leading_ws_bound(s.drop_first());
    }
}

proof fn lemma_trim_after_newline(b: Seq<char>)
    ensures
        trim_chars(seq!['\n'] + b) == trim_chars(b),
{
    let x = seq!['\n'] + b;
    assert(x.drop_first() =~= b);
    assert(crate::text::is_white_space('\n'));
    assert(leading_ws(x) == 1 + leading_ws(b));
    lemma_leading_ws_bound(b);
    assert(x.skip(leading_ws(x) as int) =~= b.skip(leading_ws(b) as int));
}

/// Loading a saved file gives back what was saved: the header, and for an object with a
/// body, the body without white space at its ends. The header must not hold the split
/// line itself, nor end in `+` signs that would run into it.
pub proof fn saved_file_round_trip(header: Seq<char>, body: Seq<char>)
    requires
        forall|i: int| 0 <= i < header.len() ==> !#[trigger] occurs_at(header + header_split(), header_split(), i),
    ensures
        split_contents(saved_text(header, Some(body)), true) == (header, Some(trim_chars(body))),
        split_contents(saved_text(header, None), false) == (header, None::<Seq<char>>),
{
    let m = header_split();
    let hm = header + m;
    let data = saved_text(header, Some(body));
    let h = header.len();
    assert(data =~= hm + (seq!['\n', '\n'] + body));
    assert forall|j: int| 0 <= j < h implies !#[trigger] occurs_at(data, m, j) by {
        if j + 8 <= data.len() {
            assert(data.subrange(j, j + 8) =~= hm.subrange(j, j + 8));
        }
        assert(!occurs_at(hm, m, j));
    }
    assert(data.subrange(h as int, h + 8 as int) =~= m);
    assert(occurs_at(data, m, h as int));
    lemma_find_split_at(data, h, 0);
    assert(data.take(h as int) =~= header);
    let rest = seq!['\n', '\n'] + body;
    assert(data.skip(h + 8 as int) =~= rest);
    assert(rest =~= seq!['\n'] + (seq!['\n'] + body));
    lemma_trim_after_newline(seq!['\n'] + body);
    lemma_trim_after_newline(body);
}

proof fn lemma_lookup_at(table: Seq<TomlEntry>, key: Seq<char>, j: int)
    requires
        0 <= j < table.len(),
        table[j].key@ == key,
        forall|l: int| 0 <= l < j ==> #[trigger] table[l].key@ != key,
    ensures
        crate::metadata::lookup(table, key) == Some(table[j].value),
    decreases j,
{
    if j > 0 {
        assert(table[0].key@ != key);
        assert forall|l: int| 0 <= l < j - 1 implies #[trigger] table.drop_first()[l].key@ != key by {
            assert(table.drop_first()[l] == table[l + 1]);
        }
        lemma_lookup_at(table.drop_first(), key, j - 1);
    }
}

/// Loading the fields of a character from the entries that saving it writes gives back
/// the same fields, none of them missing.
pub proof fn character_fields_round_trip(m: CharacterMetadata, table: Seq<TomlEntry>, olds: Seq<Seq<char>>)
    requires
        table.len() == 8,
        is_text_entry(table[0], "file_type"@, "character"@),
        forall|i: int| 0 <= i < 7 ==> is_text_entry(#[trigger] table[i + 1], character_keys()[i], m.texts()[i]),
        olds.len() == 7,
    ensures
        crate::metadata::all_strings_ok(table, character_keys()),
        !crate::metadata::any_missing(table, character_keys()),
        crate::metadata::loaded_texts(table, character_keys(), olds) == m.texts(),
{
    reveal_strlit("file_type");
    reveal_strlit("summary");
    reveal_strlit("notes");
    reveal_strlit("appearance");
    reveal_strlit("personality");
    reveal_strlit("goal");
    reveal_strlit("conflict");
    reveal_strlit("habits");
    let keys = character_keys();
    assert forall|i: int| 0 <= i < 7 implies #[trigger] crate::metadata::lookup(table, keys[i])
        == Some(table[i + 1].value) by {
        assert(is_text_entry(table[i + 1], keys[i], m.texts()[i]));
        assert(table[0].key@ != keys[i]) by {
            assert(table[0].key@[0] != keys[i][0] || table[0].key@.len() != keys[i].len());
        }
        assert forall|l: int| 0 <= l < i + 1 implies #[trigger] table[l].key@ != keys[i] by {
            if l > 0 {
                let l1 = l - 1;
                assert(is_text_entry(table[l1 + 1], keys[l1], m.texts()[l1]));
                assert(table[l1 + 1] == table[l]);
                assert(keys[l - 1] != keys[i]) by {
                    assert(keys[l - 1].len() != keys[i].len() || keys[l - 1][0] != keys[i][0]
                        || keys[l - 1][1] != keys[i][1]);
                }
            }
        }
        lemma_lookup_at(table, keys[i], i + 1);
    }
    assert forall|i: int| 0 <= i < 7 implies #[trigger] crate::metadata::string_ok(table, keys[i]) by {
        assert(crate::metadata::lookup(table, keys[i]) == Some(table[i + 1].value));
        assert(is_text_entry(table[i + 1], keys[i], m.texts()[i]));
    }
    assert forall|i: int| 0 <= i < 7 implies !#[trigger] crate::metadata::missing(table, keys[i]) by {
        assert(crate::metadata::lookup(table, keys[i]) == Some(table[i + 1].value));
    }
    assert(crate::metadata::loaded_texts(table, keys, olds) =~= m.texts()) by {
        assert forall|i: int| 0 <= i < 7 implies #[trigger] crate::metadata::loaded_texts(table, keys, olds)[i] == m.texts()[i] by {
            assert(crate::metadata::lookup(table, keys[i]) == Some(table[i + 1].value));
            assert(is_text_entry(table[i + 1], keys[i], m.texts()[i]));
        }
    }
}

/// Loading the common metadata from the entries that saving it writes gives back the
/// same format version, name and ID, none of them missing.
pub proof fn base_metadata_round_trip(m: FileObjectMetadata, table: Seq<TomlEntry>)
    requires
        table.len() == 3,
        is_int_entry(table[0], "file_format_version"@, m.version as i64),
        is_text_entry(table[1], "name"@, m.name@),
        is_text_entry(table[2], "id"@, m.id@),
    ensures
        crate::metadata::extract_u64(table, "file_format_version"@, false) == Ok::<Option<u64>, ()>(Some(m.version)),
        crate::metadata::extract_string(table, "name"@) == Ok::<Option<Seq<char>>, ()>(Some(m.name@)),
        crate::metadata::extract_string(table, "id"@) == Ok::<Option<Seq<char>>, ()>(Some(m.id@)),
{
    reveal_strlit("file_format_version");
    reveal_strlit("name");
    reveal_strlit("id");
    assert("file_format_version"@.len() != "name"@.len());
    assert("file_format_version"@.len() != "id"@.len());
    assert("name"@.len() != "id"@.len());
    lemma_lookup_at(table, "file_format_version"@, 0);
    lemma_lookup_at(table, "name"@, 1);
    lemma_lookup_at(table, "id"@, 2);
    let v = m.version;
    assert((v as i64) as u64 == v) by (bit_vector);
}

/// Loading the export settings from the table that saving writes gives them back, none
/// missing, as long as the depths fit in 63 bits (saving drops the top bit: a depth of 2^63
/// comes back as 0).
pub proof fn export_settings_round_trip(s: ProjectExportSettings, entry: TomlEntry, old: ProjectExportSettings)
    requires
        is_export_entry(entry, s),
        s.include_folder_title_depth < 0x8000_0000_0000_0000,
        s.include_scene_title_depth < 0x8000_0000_0000_0000,
    ensures
        entry.value matches TomlValue::Table(t) && crate::metadata::export_error(t@) is None
            && !crate::metadata::export_missing(t@) && crate::metadata::loaded_export(t@, old) == s,
{
    reveal_strlit("include_all_folder_titles");
    reveal_strlit("include_folder_title_depth");
    reveal_strlit("include_all_scene_files");
    reveal_strlit("include_scene_title_depth");
    reveal_strlit("insert_break_at_end");
    let t = entry.value->Table_0@;
    let k0 = "include_all_folder_titles"@;
    let k1 = "include_folder_title_depth"@;
    let k2 = "include_all_scene_files"@;
    let k3 = "include_scene_title_depth"@;
    let k4 = "insert_break_at_end"@;
    assert(k0.len() != k1.len() && k0.len() != k2.len() && k0[8] != k3[8] && k0.len() != k4.len());
    assert(k1.len() != k2.len() && k1.len() != k3.len() && k1.len() != k4.len());
    assert(k2.len() != k3.len() && k2.len() != k4.len() && k3.len() != k4.len());
    lemma_lookup_at(t, "include_all_folder_titles"@, 0);
    lemma_lookup_at(t, "include_folder_title_depth"@, 1);
    lemma_lookup_at(t, "include_all_scene_files"@, 2);
    lemma_lookup_at(t, "include_scene_title_depth"@, 3);
    lemma_lookup_at(t, "insert_break_at_end"@, 4);
    let a = s.include_folder_title_depth;
    let b = s.include_scene_title_depth;
    assert(a < 0x8000_0000_0000_0000 ==> ((a % 0x8000_0000_0000_0000) as i64) as u64 == a) by (bit_vector);
    assert(b < 0x8000_0000_0000_0000 ==> ((b % 0x8000_0000_0000_0000) as i64) as u64 == b) by (bit_vector);
}

/// What saving an object does.
#[derive(Debug)]
pub enum SavePlan {
    /// Nothing changed: the file is left alone.
    NothingToWrite,
    /// The file is written again, after being renamed when its name no longer matches the
    /// object's name and index.
    Write { rename_to: Option<String> },
}

/// What saving an object does: nothing unless it is modified; else, for an object with an
/// index whose file name is not the one [`file_name_for`] gives, a rename first, then the
/// write.
pub open spec fn save_plan_spec(modified: bool, index: Option<usize>, basename: Seq<char>, name: Seq<char>,
    file_type: crate::schema::FileTypeV) -> Option<Option<Seq<char>>>
{
    if !modified {
        None
    } else if index is Some && basename != crate::naming::file_name_for(name, index, file_type) {
        Some(Some(crate::naming::file_name_for(name, index, file_type)))
    } else {
        Some(None)
    }
}

/// Decides what saving an object with these properties does, as [`save_plan_spec`] says
/// (`None` for nothing to write, `Some(rename)` for a write).
pub fn save_plan(modified: bool, index: Option<usize>, basename: &str, name: &str, file_type: &crate::schema::FileTypeInfo) -> (r: SavePlan)
    requires
        modified && index is Some ==> crate::naming::filename_computable(name@, index, file_type@),
    ensures
        save_plan_spec(modified, index, basename@, name@, file_type@) == match r {
            SavePlan::NothingToWrite => None,
            SavePlan::Write { rename_to: Some(n) } => Some(Some(n@)),
            SavePlan::Write { rename_to: None } => Some(None::<Seq<char>>),
        },
{
    if !modified {
        return SavePlan::NothingToWrite;
    }
    match index {
        Some(_) => {
            let calculated = crate::naming::calculate_filename(name, index, file_type);
            if crate::text::str_equal(basename, calculated.as_str()) {
                SavePlan::Write { rename_to: None }
            } else {
                SavePlan::Write { rename_to: Some(calculated) }
            }
        },
        None => SavePlan::Write { rename_to: None },
    }
}

} // verus!
