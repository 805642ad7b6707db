//! Reading a file object's file: splitting the metadata header from the body of a
//! markdown file, parsing the header, and reading from it what loading needs first.
use vstd::prelude::*;
use crate::metadata::{TomlEntry, TomlEntryV, TomlValue, TomlValueV, entries_v, lemma_lookup_v, lookup, lookup_v,
    extract_string, find_key, metadata_extract_string};
use crate::naming::{name_from_stem, name_from_file_stem};
use crate::text::{chars_of, take_chars, trim, trim_chars};

verus! {

/// The line that separates the metadata header of a markdown file from its body: eight `+`.
pub open spec fn header_split() -> Seq<char> {
    Seq::new(8, |i: int| '+')
}

/// Whether `p` occurs in `s` at position `i`.
pub open spec fn occurs_at(s: Seq<char>, p: Seq<char>, i: int) -> bool {
    0 <= i && i + p.len() <= s.len() && s.subrange(i, i + p.len()) == p
}

/// The first position at or after `i` where `p` occurs in `s`.
pub open spec fn find_sub_from(s: Seq<char>, p: Seq<char>, i: nat) -> Option<int>
    decreases s.len() + 1 - i,
{
    if i + p.len() > s.len() {
        None
    } else if occurs_at(s, p, i as int) {
        Some(i as int)
    } else {
        find_sub_from(s, p, i + 1)
    }
}

/// The header and the body (trimmed) of a file's contents. Only a markdown file has a
/// body; its header is what comes before the first split line, and when there is none,
/// the whole file is body.
pub open spec fn split_contents(data: Seq<char>, is_markdown: bool) -> (Seq<char>, Option<Seq<char>>) {
    if is_markdown {
        match find_sub_from(data, header_split(), 0) {
            None => (Seq::empty(), Some(trim_chars(data))),
            Some(p) => (data.take(p), Some(trim_chars(data.skip(p + 8)))),
        }
    } else {
        (data, None)
    }
}

fn split_line_at(v: &Vec<char>, i: usize) -> (r: bool)
    requires
        i + 8 <= v.len(),
    ensures
        r == occurs_at(v@, header_split(), i as int),
{
    let mut k: usize = 0;
    while k < 8
        invariant
            k <= 8,
            i + 8 <= v.len(),
            forall|j: int| i <= j < i + k ==> #[trigger] v@[j] == '+',
        decreases 8 - k,
    {
        if v[i + k] != '+' {
            assert(v@.subrange(i as int, i + 8)[k as int] != header_split()[k as int]);
            return false;
        }
        k = k + 1;
    }
    assert(v@.subrange(i as int, i + 8) =~= header_split());
    true
}

/// Splits the contents of a file into its metadata header and its body, as
/// [`split_contents`] says.
pub fn split_file_contents(data: &str, is_markdown: bool) -> (r: (String, Option<String>))
    ensures
        r.0@ == split_contents(data@, is_markdown).0,
        match r.1 {
            Some(b) => split_contents(data@, is_markdown).1 == Some(b@),
            None => split_contents(data@, is_markdown).1 is None,
        },
{
    if !is_markdown {
        return (data.to_owned(), None);
    }
    let v = chars_of(data);
    let mut i: usize = 0;
    while v.len() >= 8 && i <= v.len() - 8
        invariant
            v@ == data@,
            is_markdown,
            i <= v.len(),
            find_sub_from(data@, header_split(), 0) == find_sub_from(data@, header_split(), i as nat),
        decreases v.len() - i,
    {
        if split_line_at(&v, i) {
            assert(find_sub_from(data@, header_split(), i as nat) == Some(i as int));
            proof {
                assert(v@.skip(0) =~= v@);
            }
            let (head, rest) = take_chars(data, &v, 0, i);
            proof {
                assert(v@.skip(i as int) =~= rest@);
            }
            let (_, tail) = take_chars(rest, &v, i, 8);
            assert(tail@ =~= data@.skip(i + 8));
            let body = trim(tail);
            return (head.to_owned(), Some(body.to_owned()));
        }
        i = i + 1;
    }
    assert(find_sub_from(data@, header_split(), i as nat) is None);
    let body = trim(data);
    (String::new(), Some(body.to_owned()))
}

/// What loading a file finds wrong with it before the object itself is read.
#[derive(Debug, Clone, Copy, PartialEq, Eq, Structural)]
pub enum LoadError {
    /// The header is not valid TOML.
    InvalidHeader,
    /// The header's `file_type` is not a string.
    NonStringFileType,
}

/// What the header says before the object is read: the name taken from the file name
/// (when the header has none), whether the header must be written back, the file type
/// identifier and the object's ID.
#[derive(Debug)]
pub struct HeaderInfo {
    pub name_from_file: Option<String>,
    pub modified: bool,
    pub file_type: Option<String>,
    pub id: Option<String>,
}

/// The name that a file with stem `stem` gets when its header has no `name`.
pub open spec fn header_name(table: Seq<TomlEntry>, stem: Seq<char>) -> Option<Seq<char>> {
    if lookup(table, "name"@) is None {
        Some(name_from_stem(stem))
    } else {
        None
    }
}

/// The object ID that a header holds, if it holds one as a string.
pub open spec fn header_id(table: Seq<TomlEntry>) -> Option<Seq<char>> {
    match lookup(table, "id"@) {
        Some(TomlValue::Text(s)) => Some(s@),
        _ => None,
    }
}

pub open spec fn opt_string_view(o: Option<String>) -> Option<Seq<char>> {
    match o {
        Some(s) => Some(s@),
        None => None,
    }
}

/// Reads from a parsed header what loading needs before the object itself.
pub fn header_info(table: &Vec<TomlEntry>, stem: &str) -> (r: Result<HeaderInfo, LoadError>)
    ensures
        match r {
            Ok(h) => {
                &&& extract_string(table@, "file_type"@) == Ok::<Option<Seq<char>>, ()>(opt_string_view(h.file_type))
                &&& opt_string_view(h.name_from_file) == header_name(table@, stem@)
                &&& h.modified == (header_name(table@, stem@) matches Some(n) && n.len() > 0)
                &&& opt_string_view(h.id) == header_id(table@)
            },
            Err(e) => extract_string(table@, "file_type"@) is Err && e == LoadError::NonStringFileType,
        },
{
    let file_type = match metadata_extract_string(table, "file_type") {
        Ok(t) => t,
        Err(_) => return Err(LoadError::NonStringFileType),
    };
    let (name_from_file, modified) = match find_key(table, "name") {
        Some(_) => (None, false),
        None => {
            let n = name_from_file_stem(stem);
            let nonempty = !n.as_str().is_empty();
            (Some(n), nonempty)
        },
    };
    let id = match find_key(table, "id") {
        Some(TomlValue::Text(s)) => Some(s.clone()),
        _ => None,
    };
    Ok(HeaderInfo { name_from_file, modified, file_type, id })
}

#[verifier::external_type_specification]
#[verifier::external_body]
pub struct ExTomlValue(toml_edit::Value);

/// The top-level entries of the TOML document `text`, in the order in which `toml_edit`'s
/// `DocumentMut::iter` gives them, each value taken variant for variant (a table as an
/// inline table, a float or a date as `Other`); `None` when `text` is not a valid TOML
/// document.
pub uninterp spec fn toml_document(text: Seq<char>) -> Option<Seq<TomlEntryV>>;

/// The value `v` of `toml_edit` in the library's terms, variant for variant: integers,
/// booleans, strings, arrays (item by item) and inline tables (entry by entry, in order);
/// floats and dates are `Other`. It converts the values of [`parse_toml`].
#[verifier::external_body]
fn toml_value_model(v: &toml_edit::Value) -> (r: TomlValue)
{
    match v {
        toml_edit::Value::Integer(i) => TomlValue::Integer(*i.value()),
        toml_edit::Value::Boolean(b) => TomlValue::Boolean(*b.value()),
        toml_edit::Value::String(s) => TomlValue::Text(s.value().clone()),
        toml_edit::Value::Array(a) => TomlValue::Array(a.iter().map(toml_value_model).collect()),
        toml_edit::Value::InlineTable(t) => TomlValue::Table(
            t.iter().map(|(k, x)| TomlEntry { key: k.to_owned(), value: toml_value_model(x) }).collect()),
        _ => TomlValue::Other,
    }
}

/// Parses `text` as a TOML document with `toml_edit` (`str::parse::<DocumentMut>`) and
/// hands out its top-level entries in order, each item taken as a value
/// (`Item::into_value`, which turns a table into an inline table) and converted variant
/// for variant. `None` when the text is not valid TOML. The result is named
/// ([`toml_document`]).
#[verifier::external_body]
fn parse_toml(text: &str) -> (r: Option<Vec<TomlEntry>>)
    ensures
        match r {
            Some(es) => toml_document(text@) == Some(entries_v(es@)),
            None => toml_document(text@) is None,
        },
{
    let doc = text.parse::<toml_edit::DocumentMut>().ok()?;
    Some(doc.iter().map(|(k, v)| TomlEntry {
        key: k.to_owned(),
        value: match v.clone().into_value() { Ok(x) => toml_value_model(&x), Err(_) => TomlValue::Other },
    }).collect())
}

/// Parses a TOML document (such as a metadata header) into its entries, as
/// [`toml_document`] names them; `None` when it is not valid TOML.
pub fn parse_toml_table(text: &str) -> (r: Option<Vec<TomlEntry>>)
    ensures
        match r {
            Some(es) => toml_document(text@) == Some(entries_v(es@)),
            None => toml_document(text@) is None,
        },
{
    parse_toml(text)
}

/// A header whose `file_type`, if it has one, is a string.
pub open spec fn file_type_ok(doc: Seq<TomlEntryV>) -> bool {
    match lookup_v(doc, "file_type"@) {
        None => true,
        Some(TomlValueV::Text(_)) => true,
        Some(_) => false,
    }
}

/// A file's contents as loading first reads them: the parsed header, the body, and what
/// the header says about the object.
#[derive(Debug)]
pub struct LoadedHeader {
    pub entries: Vec<TomlEntry>,
    pub body: Option<String>,
    pub info: HeaderInfo,
}

/// Reads the contents of a file object's file (`is_markdown` for a `.md` file): splits off
/// the body, parses the header and reads what loading needs from it. The header that is
/// parsed is the part before the split line ([`split_contents`]).
pub fn read_object_header(data: &str, is_markdown: bool, stem: &str) -> (r: Result<LoadedHeader, LoadError>)
    ensures
        match r {
            Ok(h) => {
                &&& opt_string_view(h.body) == split_contents(data@, is_markdown).1
                &&& extract_string(h.entries@, "file_type"@) == Ok::<Option<Seq<char>>, ()>(opt_string_view(h.info.file_type))
                &&& opt_string_view(h.info.name_from_file) == header_name(h.entries@, stem@)
                &&& h.info.modified == (header_name(h.entries@, stem@) matches Some(n) && n.len() > 0)
                &&& opt_string_view(h.info.id) == header_id(h.entries@)
            },
            Err(LoadError::InvalidHeader) => toml_document(split_contents(data@, is_markdown).0) is None,
            Err(LoadError::NonStringFileType) => toml_document(split_contents(data@, is_markdown).0) matches Some(doc)
                && !file_type_ok(doc),
        },
        r matches Ok(h) ==> toml_document(split_contents(data@, is_markdown).0) == Some(entries_v(h.entries@)),
        r is Ok <==> (toml_document(split_contents(data@, is_markdown).0) matches Some(doc) && file_type_ok(doc)),
{
    let (header, body) = split_file_contents(data, is_markdown);
    let entries = match parse_toml_table(header.as_str()) {
        Some(t) => t,
        None => return Err(LoadError::InvalidHeader),
    };
    proof {
        lemma_lookup_v(entries@, "file_type"@);
    }
    let info = match header_info(&entries, stem) {
        Ok(i) => i,
        Err(e) => return Err(e),
    };
    proof {
        assert(opt_string_view(body) == split_contents(data@, is_markdown).1);
    }
    Ok(LoadedHeader { entries, body, info })
}

/// The code of a character with ASCII capitals made small.
pub open spec fn ascii_lower_code(c: char) -> u32 {
    if 'A' <= c && c <= 'Z' { (c as u32 + 32) as u32 } else { c as u32 }
}

/// Whether two strings are the same up to the case of ASCII letters
/// (`str::eq_ignore_ascii_case`).
pub open spec fn same_ignoring_ascii_case(a: Seq<char>, b: Seq<char>) -> bool {
    a.len() == b.len() && forall|i: int| 0 <= i < a.len() ==> #[trigger] ascii_lower_code(a[i]) == ascii_lower_code(b[i])
}

fn ascii_lower_code_exec(c: char) -> (r: u32)
    ensures
        r == ascii_lower_code(c),
{
    if 'A' <= c && c <= 'Z' { c as u32 + 32 } else { c as u32 }
}

/// Whether a top-level folder that was just loaded (with `modified` set when its header
/// lacked fields) is to be renamed to its proper name `name`: it is when its name differs
/// from it only in the case of ASCII letters (a name read from the lower-case folder name).
pub fn should_rename_top_level(current: &str, name: &str, modified: bool) -> (r: bool)
    ensures
        r == (modified && current@ != name@ && same_ignoring_ascii_case(current@, name@)),
{
    if !modified || crate::text::str_equal(current, name) {
        return false;
    }
    let a = chars_of(current);
    let b = chars_of(name);
    if a.len() != b.len() {
        return false;
    }
    let mut i: usize = 0;
    while i < a.len()
        invariant
            a@ == current@,
            b@ == name@,
            a.len() == b.len(),
            i <= a.len(),
            forall|j: int| 0 <= j < i ==> #[trigger] ascii_lower_code(a@[j]) == ascii_lower_code(b@[j]),
        decreases a.len() - i,
    {
        if ascii_lower_code_exec(a[i]) != ascii_lower_code_exec(b[i]) {
            return false;
        }
        i = i + 1;
    }
    true
}

} // verus!
