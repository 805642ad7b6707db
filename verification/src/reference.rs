//! References from one object to another (such as a scene's point-of-view character),
//! as written in files (`[name|id]`) and as resolved against the loaded objects.
use vstd::prelude::*;
use cow_utils::CowUtils;
use crate::naming::remove_char;
use crate::schema::{FileTypeInfo, FileTypeV};
use crate::text::{chars_of, find_char, find_from, lemma_find_char, push_char, str_equal, take_chars};

verus! {

/// Identifier of a file object.
pub type FileID = String;

/// A reference to an object that is currently unknown (e.g., does not reference an object
/// currently loaded into the editor)
#[derive(Debug, Clone)]
pub struct UnknownReference {
    pub name: String,
    /// The ID present in the reference, if any. Empty when the reference names no ID.
    pub id: String,
    pub file_type: Option<FileTypeInfo>,
}

#[derive(Debug, Clone)]
pub enum ObjectReference {
    Known(FileID),
    Unknown(UnknownReference),
    /// No reference at all.
    NoReference,
}

/// The value of a reference.
pub enum RefV {
    Known(Seq<char>),
    Unknown(Seq<char>, Seq<char>, Option<FileTypeV>),
    Empty,
}

pub open spec fn opt_type(t: Option<FileTypeInfo>) -> Option<FileTypeV> {
    match t {
        Some(x) => Some(x@),
        None => None,
    }
}

impl View for ObjectReference {
    type V = RefV;

    open spec fn view(&self) -> RefV {
        match self {
            ObjectReference::Known(id) => RefV::Known(id@),
            ObjectReference::Unknown(u) => RefV::Unknown(u.name@, u.id@, opt_type(u.file_type)),
            ObjectReference::NoReference => RefV::Empty,
        }
    }
}

impl Default for ObjectReference {
    fn default() -> (r: Self)
        ensures
            r@ == RefV::Empty,
    {
        ObjectReference::NoReference
    }
}

/// `v` without the surrounding brackets of `[...]`, if it has them.
pub open spec fn strip_brackets(v: Seq<char>) -> Seq<char> {
    if v.len() >= 2 && v[0] == '[' && v.last() == ']' {
        v.subrange(1, v.len() - 1)
    } else {
        v
    }
}

/// The reference that the text `value` stands for: nothing when empty (or `[]`, `[|]`),
/// else `name|id` or just a name, optionally in brackets.
pub open spec fn parse_reference(value: Seq<char>, file_type: Option<FileTypeV>) -> RefV {
    if value.len() == 0 {
        RefV::Empty
    } else {
        let v = strip_brackets(value);
        match find_char(v, '|') {
            Some(p) => if p == 0 && v.len() == 1 {
                RefV::Empty
            } else {
                RefV::Unknown(v.take(p), v.skip(p + 1), file_type)
            },
            None => if v.len() == 0 {
                RefV::Empty
            } else {
                RefV::Unknown(v, seq![], file_type)
            },
        }
    }
}

/// A loaded file object as references see it: its ID, name and type.
#[derive(Debug, Clone)]
pub struct ObjectEntry {
    pub id: FileID,
    pub name: String,
    pub file_type: FileTypeInfo,
}

/// The value of an [`ObjectEntry`].
pub struct EntryV {
    pub id: Seq<char>,
    pub name: Seq<char>,
    pub file_type: FileTypeV,
}

impl View for ObjectEntry {
    type V = EntryV;

    open spec fn view(&self) -> EntryV {
        EntryV { id: self.id@, name: self.name@, file_type: self.file_type@ }
    }
}

/// The name of the first object with ID `id`, if any.
pub open spec fn name_of(objects: Seq<EntryV>, id: Seq<char>) -> Option<Seq<char>>
    decreases objects.len(),
{
    if objects.len() == 0 {
        None
    } else if objects[0].id == id {
        Some(objects[0].name)
    } else {
        name_of(objects.drop_first(), id)
    }
}

/// A name as written inside a reference: without `|`, `[` or `]`.
pub open spec fn clean_name(name: Seq<char>) -> Seq<char> {
    remove_char(remove_char(remove_char(name, '|'), '['), ']')
}

/// The text that a reference is written as.
pub open spec fn reference_text(r: RefV, objects: Seq<EntryV>) -> Seq<char> {
    match r {
        RefV::Known(id) => seq!['['] + (match name_of(objects, id) {
            Some(n) => clean_name(n),
            None => "ERROR"@,
        }) + seq!['|'] + id + seq![']'],
        RefV::Unknown(name, id, _) => seq!['['] + clean_name(name) + seq!['|'] + id + seq![']'],
        RefV::Empty => seq!['[', ']'],
    }
}

/// `s` with every `c` replaced by `to` (what `cow_utils::CowUtils::cow_replace` does
/// with a character pattern).
pub open spec fn replace_char_with(s: Seq<char>, c: char, to: Seq<char>) -> Seq<char>
    decreases s.len(),
{
    if s.len() == 0 {
        seq![]
    } else if s.last() == c {
        replace_char_with(s.drop_last(), c, to) + to
    } else {
        replace_char_with(s.drop_last(), c, to).push(s.last())
    }
}

/// `cow_utils::CowUtils::cow_replace` with a character pattern: every occurrence of
/// `c` in `s` is replaced by `to`.
#[verifier::external_body]
fn cow_replace_char(s: &str, c: char, to: &str) -> (r: String)
    ensures
        r@ == replace_char_with(s@, c, to@),
{
    s.cow_replace(c, to).into_owned()
}

proof fn lemma_replace_with_nothing(s: Seq<char>, c: char)
    ensures
        replace_char_with(s, c, Seq::<char>::empty()) == remove_char(s, c),
    decreases s.len(),
{
    if s.len() > 0 {
        lemma_replace_with_nothing(s.drop_last(), c);
        assert(replace_char_with(s.drop_last(), c, Seq::<char>::empty()) + Seq::<char>::empty()
            =~= replace_char_with(s.drop_last(), c, Seq::<char>::empty()));
    }
}

fn remove_char_cow(s: &str, c: char) -> (r: String)
    ensures
        r@ == remove_char(s@, c),
{
    let empty = "";
    proof {
        reveal_strlit("");
        assert(empty@ =~= Seq::<char>::empty());
        lemma_replace_with_nothing(s@, c);
    }
    cow_replace_char(s, c, empty)
}

fn push_clean_name(out: &mut String, name: &str)
    ensures
        final(out)@ == old(out)@ + clean_name(name@),
{
    let a = remove_char_cow(name, '|');
    let b = remove_char_cow(a.as_str(), '[');
    let c = remove_char_cow(b.as_str(), ']');
    out.append(c.as_str());
}

impl ObjectReference {
    pub fn new(value: String, file_type: Option<FileTypeInfo>) -> (r: Self)
        ensures
            r@ == parse_reference(value@, opt_type(file_type)),
    {
        if value.as_str().is_empty() {
            return ObjectReference::NoReference;
        }
        let full = chars_of(value.as_str());
        let n = full.len();
        let stripped = n >= 2 && full[0] == '[' && full[n - 1] == ']';
        let from: usize = if stripped { 1 } else { 0 };
        let len: usize = if stripped { n - 2 } else { n };
        let ghost v = strip_brackets(value@);
        proof {
            assert(full@.skip(0) =~= full@);
        }
        let (_, tail) = take_chars(value.as_str(), &full, 0, from);
        let (inner, _) = take_chars(tail, &full, from, len);
        assert(inner@ =~= v);
        let iv = chars_of(inner);
        match find_from(&iv, 0, '|') {
            Some(p) => {
                proof {
                    assert(iv@.skip(0) =~= iv@);
                    lemma_find_char(v, '|');
                }
                if p == 0 && iv.len() == 1 {
                    ObjectReference::NoReference
                } else {
                    proof {
                        assert(iv@.skip(0) =~= iv@);
                    }
                    let (name, rest) = take_chars(inner, &iv, 0, p);
                    proof {
                        assert(iv@.skip(p as int) =~= rest@);
                    }
                    let (_, id) = take_chars(rest, &iv, p, 1);
                    proof {
                        assert(rest@.skip(1) =~= v.skip(p + 1));
                    }
                    ObjectReference::Unknown(UnknownReference { name: name.to_owned(), id: id.to_owned(), file_type })
                }
            },
            None => {
                proof {
                    assert(iv@.skip(0) =~= iv@);
                }
                if iv.len() == 0 {
                    ObjectReference::NoReference
                } else {
                    ObjectReference::Unknown(UnknownReference { name: inner.to_owned(), id: String::new(), file_type })
                }
            },
        }
    }

    /// The text that this reference is written as in files: `[name|id]`, with the
    /// current name of a known object looked up in `objects`.
    pub fn to_string(&self, objects: &Vec<ObjectEntry>) -> (r: String)
        ensures
            r@ == reference_text(self@, objects@.map_values(|e: ObjectEntry| e@)),
    {
        let mut output = String::new();
        push_char(&mut output, '[');
        match self {
            ObjectReference::Known(file_id) => {
                match find_name(objects, file_id.as_str()) {
                    Some(i) => push_clean_name(&mut output, objects[i].name.as_str()),
                    None => output.append("ERROR"),
                }
                push_char(&mut output, '|');
                output.append(file_id.as_str());
            },
            ObjectReference::Unknown(unknown) => {
                push_clean_name(&mut output, unknown.name.as_str());
                push_char(&mut output, '|');
                output.append(unknown.id.as_str());
            },
            ObjectReference::NoReference => {},
        }
        push_char(&mut output, ']');
        proof {
            let r = self@;
            let objs = objects@.map_values(|e: ObjectEntry| e@);
            assert(output@ =~= reference_text(r, objs));
        }
        output
    }
}

/// Position of the first object with ID `id`.
fn find_name(objects: &Vec<ObjectEntry>, id: &str) -> (r: Option<usize>)
    ensures
        match r {
            Some(i) => i < objects.len() && name_of(objects@.map_values(|e: ObjectEntry| e@), id@) == Some(objects@[i as int].name@),
            None => name_of(objects@.map_values(|e: ObjectEntry| e@), id@) is None,
        },
{
    let ghost all = objects@.map_values(|e: ObjectEntry| e@);
    let mut i: usize = 0;
    assert(all.skip(0) =~= all);
    while i < objects.len()
        invariant
            i <= objects.len(),
            all == objects@.map_values(|e: ObjectEntry| e@),
            name_of(all, id@) == name_of(all.skip(i as int), id@),
        decreases objects.len() - i,
    {
        proof {
            assert(all.skip(i as int).drop_first() =~= all.skip(i + 1));
            assert(all.skip(i as int)[0] == objects@[i as int]@);
        }
        if str_equal(objects[i].id.as_str(), id) {
            return Some(i);
        }
        i = i + 1;
    }
    None
}

} // verus!

verus! {

/// Case folding of `s` as done by `icu_casemap::CaseMapper::fold_string`: a
/// locale-independent mapping under which strings that differ only in case are equal.
pub uninterp spec fn case_fold(s: Seq<char>) -> Seq<char>;

/// `icu_casemap::CaseMapperBorrowed::fold_string` on the compiled case-mapping data.
/// The contract only names the result; the Unicode folding rules are not restated.
#[verifier::external_body]
fn fold_case(s: &str) -> (r: String)
    ensures
        r@ == case_fold(s@),
{
    icu_casemap::CaseMapper::new().fold_string(s).into_owned()
}

/// How well the best object found so far matches the name of a reference.
#[derive(PartialEq, Eq, Clone, Copy, Structural)]
pub enum WordMatch {
    Exact,
    FullNeedleAsPrefix,
    NoMatch,
}

/// The state of the search for the object that a reference names.
pub struct ResolveState {
    pub best: Option<Seq<char>>,
    pub kind: WordMatch,
    pub found_multiple: bool,
    /// Two objects have exactly the name: the search gives up.
    pub ambiguous: bool,
}

pub open spec fn initial_resolve_state() -> ResolveState {
    ResolveState { best: None, kind: WordMatch::NoMatch, found_multiple: false, ambiguous: false }
}

/// Whether `t` rules out objects of type `ft`.
pub open spec fn type_excluded(t: Option<FileTypeV>, ft: FileTypeV) -> bool {
    t matches Some(x) && x.identifier != ft.identifier
}

pub open spec fn is_prefix(p: Seq<char>, s: Seq<char>) -> bool {
    p.len() <= s.len() && s.take(p.len() as int) == p
}

/// Looking at one more object while searching for the name `needle` (case folded).
pub open spec fn resolve_step(st: ResolveState, e: EntryV, needle: Seq<char>, t: Option<FileTypeV>) -> ResolveState {
    if st.ambiguous || type_excluded(t, e.file_type) {
        st
    } else {
        let on = case_fold(e.name);
        if needle == on {
            if st.kind == WordMatch::Exact {
                ResolveState { ambiguous: true, ..st }
            } else {
                ResolveState { best: Some(e.id), kind: WordMatch::Exact, found_multiple: false, ambiguous: false }
            }
        } else if is_prefix(needle, on) {
            if st.kind == WordMatch::Exact {
                st
            } else if st.kind == WordMatch::FullNeedleAsPrefix {
                ResolveState { found_multiple: true, ..st }
            } else {
                ResolveState { best: Some(e.id), kind: WordMatch::FullNeedleAsPrefix, ..st }
            }
        } else {
            st
        }
    }
}

/// The search state after looking at every object of `objects`, in order.
pub open spec fn resolve_scan(objects: Seq<EntryV>, needle: Seq<char>, t: Option<FileTypeV>) -> ResolveState
    decreases objects.len(),
{
    if objects.len() == 0 {
        initial_resolve_state()
    } else {
        resolve_step(resolve_scan(objects.drop_last(), needle, t), objects.last(), needle, t)
    }
}

/// The first object with ID `id`.
pub open spec fn entry_with_id(objects: Seq<EntryV>, id: Seq<char>) -> Option<EntryV>
    decreases objects.len(),
{
    if objects.len() == 0 {
        None
    } else if objects[0].id == id {
        Some(objects[0])
    } else {
        entry_with_id(objects.drop_first(), id)
    }
}

/// The ID of the object that an unknown reference names. With an ID, only that object
/// (of the right type, if a type is given) is taken. Without one, the name is compared,
/// ignoring case, with the names of the objects (of the right type): a unique exact
/// match, or else a unique object whose name starts with it, is taken. An exact match
/// wins over objects whose names only start with the name, before or after it.
pub open spec fn resolve_reference(name: Seq<char>, id: Seq<char>, t: Option<FileTypeV>, objects: Seq<EntryV>) -> Option<Seq<char>> {
    if id.len() == 0 {
        let st = resolve_scan(objects, case_fold(name), t);
        if st.ambiguous || st.found_multiple {
            None
        } else {
            match st.kind {
                WordMatch::NoMatch => None,
                _ => st.best,
            }
        }
    } else {
        match entry_with_id(objects, id) {
            Some(e) => if type_excluded(t, e.file_type) {
                None
            } else {
                Some(e.id)
            },
            None => None,
        }
    }
}

/// The object at `k` may be named (its type is allowed) and its name, case folded, is
/// exactly `needle`.
pub open spec fn names_exactly(objects: Seq<EntryV>, needle: Seq<char>, t: Option<FileTypeV>, k: int) -> bool {
    0 <= k < objects.len() && !type_excluded(t, objects[k].file_type) && case_fold(objects[k].name) == needle
}

/// The object at `k` may be named and its name, case folded, starts with `needle` without
/// being it.
pub open spec fn names_by_prefix(objects: Seq<EntryV>, needle: Seq<char>, t: Option<FileTypeV>, k: int) -> bool {
    0 <= k < objects.len() && !type_excluded(t, objects[k].file_type)
        && case_fold(objects[k].name) != needle && is_prefix(needle, case_fold(objects[k].name))
}

/// What the search state says about the objects seen: two exact matches make it give up;
/// otherwise it holds the exact match if there is one, else a prefix match if there is
/// one, with `found_multiple` telling whether there are several.
pub open spec fn scan_summary(objects: Seq<EntryV>, needle: Seq<char>, t: Option<FileTypeV>, st: ResolveState) -> bool {
    let two_exact = exists|i: int, j: int| i < j && #[trigger] names_exactly(objects, needle, t, i)
        && #[trigger] names_exactly(objects, needle, t, j);
    let some_exact = exists|i: int| #[trigger] names_exactly(objects, needle, t, i);
    let some_prefix = exists|i: int| #[trigger] names_by_prefix(objects, needle, t, i);
    let two_prefix = exists|i: int, j: int| i < j && #[trigger] names_by_prefix(objects, needle, t, i)
        && #[trigger] names_by_prefix(objects, needle, t, j);
    &&& st.ambiguous == two_exact
    &&& !st.ambiguous ==> {
        &&& (st.kind == WordMatch::Exact) == some_exact
        &&& (st.kind == WordMatch::FullNeedleAsPrefix) == (!some_exact && some_prefix)
        &&& st.kind == WordMatch::NoMatch ==> !st.found_multiple
        &&& st.kind == WordMatch::Exact ==> !st.found_multiple
            && exists|i: int| #[trigger] names_exactly(objects, needle, t, i) && st.best == Some(objects[i].id)
        &&& st.kind == WordMatch::FullNeedleAsPrefix ==> st.found_multiple == two_prefix
            && exists|i: int| #[trigger] names_by_prefix(objects, needle, t, i) && st.best == Some(objects[i].id)
    }
}

proof fn lemma_scan_summary(objects: Seq<EntryV>, needle: Seq<char>, t: Option<FileTypeV>)
    ensures
        scan_summary(objects, needle, t, resolve_scan(objects, needle, t)),
    decreases objects.len(),
{
    if objects.len() > 0 {
        let prev = objects.drop_last();
        let n = prev.len() as int;
        let e = objects.last();
        lemma_scan_summary(prev, needle, t);
        let st = resolve_scan(prev, needle, t);
        let st2 = resolve_scan(objects, needle, t);
        assert(st2 == resolve_step(st, e, needle, t));
        assert(objects[n] == e);
        assert forall|k: int| 0 <= k < n implies
            #[trigger] names_exactly(objects, needle, t, k) == names_exactly(prev, needle, t, k)
            && names_by_prefix(objects, needle, t, k) == names_by_prefix(prev, needle, t, k) by {
            assert(objects[k] == prev[k]);
        }
        assert forall|k: int| 0 <= k < n implies
            #[trigger] names_by_prefix(objects, needle, t, k) == names_by_prefix(prev, needle, t, k) by {
            assert(objects[k] == prev[k]);
        }
        let ex_n = names_exactly(objects, needle, t, n);
        let pr_n = names_by_prefix(objects, needle, t, n);
        let p_two_exact = exists|i: int, j: int| i < j && #[trigger] names_exactly(prev, needle, t, i)
            && #[trigger] names_exactly(prev, needle, t, j);
        let p_some_exact = exists|i: int| #[trigger] names_exactly(prev, needle, t, i);
        let p_some_prefix = exists|i: int| #[trigger] names_by_prefix(prev, needle, t, i);
        let p_two_prefix = exists|i: int, j: int| i < j && #[trigger] names_by_prefix(prev, needle, t, i)
            && #[trigger] names_by_prefix(prev, needle, t, j);
        let two_exact = exists|i: int, j: int| i < j && #[trigger] names_exactly(objects, needle, t, i)
            && #[trigger] names_exactly(objects, needle, t, j);
        let some_exact = exists|i: int| #[trigger] names_exactly(objects, needle, t, i);
        let some_prefix = exists|i: int| #[trigger] names_by_prefix(objects, needle, t, i);
        let two_prefix = exists|i: int, j: int| i < j && #[trigger] names_by_prefix(objects, needle, t, i)
            && #[trigger] names_by_prefix(objects, needle, t, j);
        // the quantities over `objects` from those over `prev` and the last object
        assert(some_exact == (p_some_exact || ex_n)) by {
            if some_exact {
                let i = choose|i: int| #[trigger] names_exactly(objects, needle, t, i);
                if i < n {
                    assert(names_exactly(prev, needle, t, i));
                }
            }
            if p_some_exact {
                let i = choose|i: int| #[trigger] names_exactly(prev, needle, t, i);
                assert(names_exactly(objects, needle, t, i));
            }
        }
        assert(some_prefix == (p_some_prefix || pr_n)) by {
            if some_prefix {
                let i = choose|i: int| #[trigger] names_by_prefix(objects, needle, t, i);
                if i < n {
                    assert(names_by_prefix(prev, needle, t, i));
                }
            }
            if p_some_prefix {
                let i = choose|i: int| #[trigger] names_by_prefix(prev, needle, t, i);
                assert(names_by_prefix(objects, needle, t, i));
            }
        }
        assert(two_exact == (p_two_exact || (p_some_exact && ex_n))) by {
            if two_exact {
                let (i, j) = choose|i: int, j: int| i < j && #[trigger] names_exactly(objects, needle, t, i)
                    && #[trigger] names_exactly(objects, needle, t, j);
                if j < n {
                    assert(names_exactly(prev, needle, t, i) && names_exactly(prev, needle, t, j));
                } else {
                    assert(names_exactly(prev, needle, t, i));
                }
            }
            if p_two_exact {
                let (i, j) = choose|i: int, j: int| i < j && #[trigger] names_exactly(prev, needle, t, i)
                    && #[trigger] names_exactly(prev, needle, t, j);
                assert(names_exactly(objects, needle, t, i) && names_exactly(objects, needle, t, j));
            }
            if p_some_exact && ex_n {
                let i = choose|i: int| #[trigger] names_exactly(prev, needle, t, i);
                assert(names_exactly(objects, needle, t, i));
            }
        }
        assert(two_prefix == (p_two_prefix || (p_some_prefix && pr_n))) by {
            if two_prefix {
                let (i, j) = choose|i: int, j: int| i < j && #[trigger] names_by_prefix(objects, needle, t, i)
                    && #[trigger] names_by_prefix(objects, needle, t, j);
                if j < n {
                    assert(names_by_prefix(prev, needle, t, i) && names_by_prefix(prev, needle, t, j));
                } else {
                    assert(names_by_prefix(prev, needle, t, i));
                }
            }
            if p_two_prefix {
                let (i, j) = choose|i: int, j: int| i < j && #[trigger] names_by_prefix(prev, needle, t, i)
                    && #[trigger] names_by_prefix(prev, needle, t, j);
                assert(names_by_prefix(objects, needle, t, i) && names_by_prefix(objects, needle, t, j));
            }
            if p_some_prefix && pr_n {
                let i = choose|i: int| #[trigger] names_by_prefix(prev, needle, t, i);
                assert(names_by_prefix(objects, needle, t, i));
            }
        }
        assert(st2.ambiguous == two_exact);
        assert(!st2.ambiguous ==> (st2.kind == WordMatch::Exact) == some_exact);
        assert(!st2.ambiguous ==> (st2.kind == WordMatch::FullNeedleAsPrefix) == (!some_exact && some_prefix));
        assert(!st2.ambiguous && st2.kind == WordMatch::Exact ==> !st2.found_multiple);
        assert(!st2.ambiguous && st2.kind == WordMatch::FullNeedleAsPrefix ==> st2.found_multiple == two_prefix);
        // the best object stays one that matches
        if !st2.ambiguous && st2.kind == WordMatch::Exact {
            if ex_n && !p_some_exact {
                assert(names_exactly(objects, needle, t, n) && st2.best == Some(objects[n].id));
            } else {
                let i = choose|i: int| #[trigger] names_exactly(prev, needle, t, i) && st.best == Some(prev[i].id);
                assert(names_exactly(objects, needle, t, i) && st2.best == Some(objects[i].id));
            }
        }
        if !st2.ambiguous && st2.kind == WordMatch::FullNeedleAsPrefix {
            if pr_n && !p_some_prefix {
                assert(names_by_prefix(objects, needle, t, n) && st2.best == Some(objects[n].id));
            } else {
                let i = choose|i: int| #[trigger] names_by_prefix(prev, needle, t, i) && st.best == Some(prev[i].id);
                assert(names_by_prefix(objects, needle, t, i) && st2.best == Some(objects[i].id));
            }
        }
    }
}

/// Resolving a reference by its name (it has no ID): with `needle` its case-folded name,
/// an object may be named when its type is allowed. Two objects whose folded names are
/// exactly the needle cannot be told apart, and nothing is resolved; one such object is
/// taken, whatever else starts with the needle; with none, the one object whose folded
/// name starts with the needle is taken, and with several or none nothing is. What is
/// taken is always one of the objects.
pub proof fn resolving_by_name(name: Seq<char>, t: Option<FileTypeV>, objects: Seq<EntryV>)
    ensures
        ({
            let needle = case_fold(name);
            let r = resolve_reference(name, Seq::<char>::empty(), t, objects);
            &&& (exists|i: int, j: int| i < j && #[trigger] names_exactly(objects, needle, t, i)
                && #[trigger] names_exactly(objects, needle, t, j)) ==> r is None
            &&& forall|i: int| #[trigger] names_exactly(objects, needle, t, i)
                && (forall|j: int| #[trigger] names_exactly(objects, needle, t, j) ==> j == i)
                ==> r == Some(objects[i].id)
            &&& (forall|i: int| !#[trigger] names_exactly(objects, needle, t, i))
                && (exists|i: int, j: int| i < j && #[trigger] names_by_prefix(objects, needle, t, i)
                && #[trigger] names_by_prefix(objects, needle, t, j)) ==> r is None
            &&& forall|i: int| (forall|j: int| !#[trigger] names_exactly(objects, needle, t, j))
                && #[trigger] names_by_prefix(objects, needle, t, i)
                && (forall|j: int| #[trigger] names_by_prefix(objects, needle, t, j) ==> j == i)
                ==> r == Some(objects[i].id)
            &&& (forall|i: int| !#[trigger] names_exactly(objects, needle, t, i)
                && !names_by_prefix(objects, needle, t, i)) ==> r is None
            &&& r matches Some(x) ==> exists|i: int| (#[trigger] names_exactly(objects, needle, t, i)
                || names_by_prefix(objects, needle, t, i)) && objects[i].id == x
        }),
{
    let needle = case_fold(name);
    lemma_scan_summary(objects, needle, t);
    let st = resolve_scan(objects, needle, t);
    let r = resolve_reference(name, Seq::<char>::empty(), t, objects);
    assert forall|i: int| #[trigger] names_exactly(objects, needle, t, i)
        && (forall|j: int| #[trigger] names_exactly(objects, needle, t, j) ==> j == i)
        implies r == Some(objects[i].id) by {
        if st.ambiguous {
            let (a, b) = choose|a: int, b: int| a < b && #[trigger] names_exactly(objects, needle, t, a)
                && #[trigger] names_exactly(objects, needle, t, b);
            assert(a == i && b == i);
        }
        let k = choose|k: int| #[trigger] names_exactly(objects, needle, t, k) && st.best == Some(objects[k].id);
        assert(k == i);
    }
    assert forall|i: int| (forall|j: int| !#[trigger] names_exactly(objects, needle, t, j))
        && #[trigger] names_by_prefix(objects, needle, t, i)
        && (forall|j: int| #[trigger] names_by_prefix(objects, needle, t, j) ==> j == i)
        implies r == Some(objects[i].id) by {
        if st.ambiguous {
            let (a, b) = choose|a: int, b: int| a < b && #[trigger] names_exactly(objects, needle, t, a)
                && #[trigger] names_exactly(objects, needle, t, b);
            assert(!names_exactly(objects, needle, t, a));
        }
        assert(st.kind == WordMatch::FullNeedleAsPrefix);
        if st.found_multiple {
            let (a, b) = choose|a: int, b: int| a < b && #[trigger] names_by_prefix(objects, needle, t, a)
                && #[trigger] names_by_prefix(objects, needle, t, b);
            assert(a == i && b == i);
        }
        let k = choose|k: int| #[trigger] names_by_prefix(objects, needle, t, k) && st.best == Some(objects[k].id);
        assert(k == i);
    }
    if (forall|i: int| !#[trigger] names_exactly(objects, needle, t, i) && !names_by_prefix(objects, needle, t, i)) {
        if st.ambiguous {
            let (a, b) = choose|a: int, b: int| a < b && #[trigger] names_exactly(objects, needle, t, a)
                && #[trigger] names_exactly(objects, needle, t, b);
            assert(!names_exactly(objects, needle, t, a));
        }
        if st.kind == WordMatch::Exact {
            let k = choose|k: int| #[trigger] names_exactly(objects, needle, t, k) && st.best == Some(objects[k].id);
            assert(!names_exactly(objects, needle, t, k));
        }
        if st.kind == WordMatch::FullNeedleAsPrefix {
            let k = choose|k: int| #[trigger] names_by_prefix(objects, needle, t, k) && st.best == Some(objects[k].id);
            assert(!names_exactly(objects, needle, t, k) && !names_by_prefix(objects, needle, t, k));
        }
    }
    if (forall|i: int| !#[trigger] names_exactly(objects, needle, t, i))
        && (exists|i: int, j: int| i < j && #[trigger] names_by_prefix(objects, needle, t, i)
        && #[trigger] names_by_prefix(objects, needle, t, j)) {
        if st.ambiguous {
            let (a, b) = choose|a: int, b: int| a < b && #[trigger] names_exactly(objects, needle, t, a)
                && #[trigger] names_exactly(objects, needle, t, b);
            assert(!names_exactly(objects, needle, t, a));
        } else {
            let (a, b) = choose|a: int, b: int| a < b && #[trigger] names_by_prefix(objects, needle, t, a)
                && #[trigger] names_by_prefix(objects, needle, t, b);
            assert(names_by_prefix(objects, needle, t, a));
            assert(st.kind == WordMatch::FullNeedleAsPrefix);
        }
    }
    if r is Some && !st.ambiguous {
        if st.kind == WordMatch::Exact {
            let k = choose|k: int| #[trigger] names_exactly(objects, needle, t, k) && st.best == Some(objects[k].id);
            assert(names_exactly(objects, needle, t, k) || names_by_prefix(objects, needle, t, k));
        } else if st.kind == WordMatch::FullNeedleAsPrefix {
            let k = choose|k: int| #[trigger] names_by_prefix(objects, needle, t, k) && st.best == Some(objects[k].id);
            assert(names_exactly(objects, needle, t, k) || names_by_prefix(objects, needle, t, k));
        }
    }
}

proof fn lemma_entry_with_id(objects: Seq<EntryV>, id: Seq<char>)
    ensures
        match entry_with_id(objects, id) {
            Some(e) => exists|k: int| 0 <= k < objects.len() && objects[k] == e && e.id == id
                && forall|j: int| 0 <= j < k ==> objects[j].id != id,
            None => forall|k: int| 0 <= k < objects.len() ==> objects[k].id != id,
        },
    decreases objects.len(),
{
    if objects.len() > 0 && objects[0].id != id {
        lemma_entry_with_id(objects.drop_first(), id);
        match entry_with_id(objects.drop_first(), id) {
            Some(e) => {
                let k = choose|k: int| 0 <= k < objects.drop_first().len() && objects.drop_first()[k] == e
                    && e.id == id && forall|j: int| 0 <= j < k ==> objects.drop_first()[j].id != id;
                assert(objects[k + 1] == e);
                assert forall|j: int| 0 <= j < k + 1 implies objects[j].id != id by {
                    if j > 0 {
                        assert(objects[j] == objects.drop_first()[j - 1]);
                    }
                }
            },
            None => {
                assert forall|k: int| 0 <= k < objects.len() implies objects[k].id != id by {
                    if k > 0 {
                        assert(objects[k] == objects.drop_first()[k - 1]);
                    }
                }
            },
        }
    }
}

/// Resolving a reference that carries an ID: the first object with that ID is taken when
/// its type is allowed, and nothing is resolved when there is no such object or its type
/// is ruled out; the result is never another ID.
pub proof fn resolving_by_id(name: Seq<char>, id: Seq<char>, t: Option<FileTypeV>, objects: Seq<EntryV>)
    requires
        id.len() > 0,
    ensures
        resolve_reference(name, id, t, objects) matches Some(x) ==> x == id,
        forall|k: int| 0 <= k < objects.len() && objects[k].id == id
            && (forall|j: int| 0 <= j < k ==> objects[j].id != id)
            ==> (resolve_reference(name, id, t, objects) is Some <==> !type_excluded(t, #[trigger] objects[k].file_type)),
        (forall|k: int| 0 <= k < objects.len() ==> objects[k].id != id) ==> resolve_reference(name, id, t, objects) is None,
{
    lemma_entry_with_id(objects, id);
    assert forall|k: int| 0 <= k < objects.len() && objects[k].id == id
        && (forall|j: int| 0 <= j < k ==> objects[j].id != id)
        implies (resolve_reference(name, id, t, objects) is Some <==> !type_excluded(t, #[trigger] objects[k].file_type)) by {
        match entry_with_id(objects, id) {
            Some(e) => {
                let w = choose|w: int| 0 <= w < objects.len() && objects[w] == e && e.id == id
                    && forall|j: int| 0 <= j < w ==> objects[j].id != id;
                if w < k {
                    assert(objects[w].id != id);
                }
                if w > k {
                    assert(objects[k].id != id);
                }
            },
            None => {
                assert(objects[k].id != id);
            },
        }
    }
}

proof fn lemma_ambiguous_sticks(objects: Seq<EntryV>, k: int, needle: Seq<char>, t: Option<FileTypeV>)
    requires
        0 <= k <= objects.len(),
        resolve_scan(objects.take(k), needle, t).ambiguous,
    ensures
        resolve_scan(objects, needle, t).ambiguous,
    decreases objects.len() - k,
{
    if k < objects.len() {
        assert(objects.take(k + 1).drop_last() =~= objects.take(k));
        lemma_ambiguous_sticks(objects, k + 1, needle, t);
    } else {
        assert(objects.take(k) =~= objects);
    }
}

/// Whether `p` is a prefix of `s`.
fn starts_with_chars(s: &str, p: &str) -> (r: bool)
    ensures
        r == is_prefix(p@, s@),
{
    let vs = chars_of(s);
    let vp = chars_of(p);
    if vp.len() > vs.len() {
        return false;
    }
    let mut i: usize = 0;
    while i < vp.len()
        invariant
            vs@ == s@,
            vp@ == p@,
            vp.len() <= vs.len(),
            i <= vp.len(),
            forall|j: int| 0 <= j < i ==> vs@[j] == vp@[j],
        decreases vp.len() - i,
    {
        if vs[i] != vp[i] {
            return false;
        }
        i = i + 1;
    }
    assert(s@.take(p@.len() as int) =~= p@);
    true
}

fn type_excluded_exec(t: &Option<FileTypeInfo>, ft: &FileTypeInfo) -> (r: bool)
    ensures
        r == type_excluded(opt_type(*t), ft@),
{
    match t {
        Some(x) => !x.same_type(ft),
        None => false,
    }
}

impl UnknownReference {
    /// Attempt to resolve this reference into the ID of one of `objects`.
    pub fn resolve(&self, objects: &Vec<ObjectEntry>) -> (r: Option<FileID>)
        ensures
            match r {
                Some(id) => resolve_reference(self.name@, self.id@, opt_type(self.file_type), objects@.map_values(|e: ObjectEntry| e@)) == Some(id@),
                None => resolve_reference(self.name@, self.id@, opt_type(self.file_type), objects@.map_values(|e: ObjectEntry| e@)) is None,
            },
    {
        let ghost all = objects@.map_values(|e: ObjectEntry| e@);
        let ghost t = opt_type(self.file_type);
        if self.id.as_str().is_empty() {
            let needle = fold_case(self.name.as_str());
            let mut best: Option<usize> = None;
            let mut kind = WordMatch::NoMatch;
            let mut found_multiple = false;
            let mut i: usize = 0;
            while i < objects.len()
                invariant
                    i <= objects.len(),
                    all == objects@.map_values(|e: ObjectEntry| e@),
                    t == opt_type(self.file_type),
                    needle@ == case_fold(self.name@),
                    self.id@.len() == 0,
                    ({
                        let st = resolve_scan(all.take(i as int), needle@, t);
                        &&& !st.ambiguous
                        &&& st.kind == kind
                        &&& st.found_multiple == found_multiple
                        &&& match best {
                            Some(b) => b < i && st.best == Some(all[b as int].id),
                            None => st.best is None,
                        }
                    }),
                    kind != WordMatch::NoMatch ==> best is Some,
                decreases objects.len() - i,
            {
                proof {
                    assert(all.take(i + 1).drop_last() =~= all.take(i as int));
                    assert(all.take(i + 1).last() == objects@[i as int]@);
                }
                let e = &objects[i];
                if !type_excluded_exec(&self.file_type, &e.file_type) {
                    let on = fold_case(e.name.as_str());
                    if str_equal(needle.as_str(), on.as_str()) {
                        if kind == WordMatch::Exact {
                            proof {
                                assert(resolve_scan(all.take(i + 1), needle@, t)
                                    == resolve_step(resolve_scan(all.take(i as int), needle@, t), all[i as int], needle@, t));
                                assert(resolve_scan(all.take(i + 1), needle@, t).ambiguous);
                                lemma_ambiguous_sticks(all, i + 1, needle@, t);
                            }
                            return None;
                        } else {
                            best = Some(i);
                            kind = WordMatch::Exact;
                            found_multiple = false;
                        }
                    } else if starts_with_chars(on.as_str(), needle.as_str()) {
                        if kind == WordMatch::Exact {
                        } else if kind == WordMatch::FullNeedleAsPrefix {
                            found_multiple = true;
                        } else {
                            kind = WordMatch::FullNeedleAsPrefix;
                            best = Some(i);
                        }
                    }
                }
                i = i + 1;
            }
            proof {
                assert(all.take(i as int) =~= all);
            }
            if found_multiple {
                return None;
            }
            match kind {
                WordMatch::NoMatch => None,
                _ => match best {
                    Some(b) => Some(objects[b].id.clone()),
                    None => None,
                },
            }
        } else {
            let mut i: usize = 0;
            assert(all.skip(0) =~= all);
            while i < objects.len()
                invariant
                    i <= objects.len(),
                    all == objects@.map_values(|e: ObjectEntry| e@),
                    entry_with_id(all, self.id@) == entry_with_id(all.skip(i as int), self.id@),
                    self.id@.len() != 0,
                    t == opt_type(self.file_type),
                decreases objects.len() - i,
            {
                proof {
                    assert(all.skip(i as int).drop_first() =~= all.skip(i + 1));
                    assert(all.skip(i as int)[0] == objects@[i as int]@);
                }
                if str_equal(objects[i].id.as_str(), self.id.as_str()) {
                    proof {
                        assert(entry_with_id(all.skip(i as int), self.id@) == Some(all[i as int]));
                    }
                    if type_excluded_exec(&self.file_type, &objects[i].file_type) {
                        return None;
                    }
                    let found = objects[i].id.clone();
                    return Some(found);
                }
                i = i + 1;
            }
            None
        }
    }
}

} // verus!

verus! {

proof fn lemma_remove_char_absent(s: Seq<char>, c: char, d: char)
    requires
        forall|j: int| 0 <= j < s.len() ==> s[j] != d,
    ensures
        forall|j: int| 0 <= j < remove_char(s, c).len() ==> remove_char(s, c)[j] != c && remove_char(s, c)[j] != d,
    decreases s.len(),
{
    if s.len() > 0 {
        assert forall|j: int| 0 <= j < s.drop_last().len() implies s.drop_last()[j] != d by {
            assert(s.drop_last()[j] == s[j]);
        }
        lemma_remove_char_absent(s.drop_last(), c, d);
        let r = remove_char(s.drop_last(), c);
        if s.last() != c {
            assert(s.last() == s[s.len() - 1]);
            assert forall|j: int| 0 <= j < r.push(s.last()).len() implies r.push(s.last())[j] != c && r.push(s.last())[j] != d by {
                if j < r.len() {
                    assert(r.push(s.last())[j] == r[j]);
                }
            }
        }
    }
}

proof fn lemma_remove_char_keeps(s: Seq<char>, c: char)
    requires
        forall|j: int| 0 <= j < s.len() ==> s[j] != c,
    ensures
        remove_char(s, c) == s,
    decreases s.len(),
{
    if s.len() > 0 {
        lemma_remove_char_keeps(s.drop_last(), c);
        assert(s.drop_last().push(s.last()) =~= s);
    }
}

proof fn lemma_remove_char_gone(s: Seq<char>, c: char)
    ensures
        forall|j: int| 0 <= j < remove_char(s, c).len() ==> remove_char(s, c)[j] != c,
    decreases s.len(),
{
    if s.len() > 0 {
        lemma_remove_char_gone(s.drop_last(), c);
        let r = remove_char(s.drop_last(), c);
        if s.last() != c {
            assert forall|j: int| 0 <= j < r.push(s.last()).len() implies r.push(s.last())[j] != c by {
                if j < r.len() {
                    assert(r.push(s.last())[j] == r[j]);
                }
            }
        }
    }
}

/// A cleaned name holds no `|`, `[` or `]`.
proof fn lemma_clean_name(name: Seq<char>)
    ensures
        forall|j: int| 0 <= j < clean_name(name).len() ==> {
            &&& clean_name(name)[j] != '|'
            &&& clean_name(name)[j] != '['
            &&& clean_name(name)[j] != ']'
        },
{
    let a = remove_char(name, '|');
    lemma_remove_char_gone(name, '|');
    lemma_remove_char_absent(a, '[', '|');
    let b = remove_char(a, '[');
    assert(forall|j: int| 0 <= j < b.len() ==> b[j] != '|' && b[j] != '[');
    lemma_remove_char_absent(b, ']', '|');
    lemma_remove_char_absent(b, ']', '[');
}

/// Reading back the text `[name|id]` of a reference.
proof fn lemma_parse_written(name: Seq<char>, id: Seq<char>, t: Option<FileTypeV>)
    requires
        forall|j: int| 0 <= j < name.len() ==> name[j] != '|',
        name.len() > 0 || id.len() > 0,
    ensures
        parse_reference(seq!['['] + name + seq!['|'] + id + seq![']'], t) == RefV::Unknown(name, id, t),
{
    let text = seq!['['] + name + seq!['|'] + id + seq![']'];
    let inner = name + seq!['|'] + id;
    assert(strip_brackets(text) =~= inner);
    assert forall|j: int| 0 <= j < name.len() implies inner[j] != '|' by {
        assert(inner[j] == name[j]);
    }
    crate::text::lemma_find_char_is(inner, '|', Some(name.len() as int));
    assert(inner.take(name.len() as int) =~= name);
    assert(inner.skip(name.len() as int + 1) =~= id);
}

/// A reference that names an object without an ID is read back as it was written,
/// provided that the name holds no `|`, `[` or `]` and the reference is not empty.
pub proof fn unknown_reference_round_trip(name: Seq<char>, id: Seq<char>, t: Option<FileTypeV>, objects: Seq<EntryV>)
    requires
        forall|j: int| 0 <= j < name.len() ==> name[j] != '|' && name[j] != '[' && name[j] != ']',
        name.len() > 0 || id.len() > 0,
    ensures
        parse_reference(reference_text(RefV::Unknown(name, id, t), objects), t) == RefV::Unknown(name, id, t),
{
    lemma_remove_char_keeps(name, '|');
    lemma_remove_char_keeps(name, '[');
    lemma_remove_char_keeps(name, ']');
    lemma_parse_written(name, id, t);
}

/// The empty reference is written as `[]` and read back as empty.
pub proof fn empty_reference_round_trip(t: Option<FileTypeV>, objects: Seq<EntryV>)
    ensures
        parse_reference(reference_text(RefV::Empty, objects), t) == RefV::Empty,
{
    let v = strip_brackets(seq!['[', ']']);
    assert(v =~= Seq::<char>::empty());
}

proof fn lemma_entry_name(objects: Seq<EntryV>, id: Seq<char>)
    ensures
        match entry_with_id(objects, id) {
            Some(e) => name_of(objects, id) == Some(e.name) && e.id == id,
            None => name_of(objects, id) is None,
        },
    decreases objects.len(),
{
    if objects.len() > 0 && objects[0].id != id {
        lemma_entry_name(objects.drop_first(), id);
    }
}

/// A reference to a loaded object, written to a file and read back, resolves to the same
/// object again (when that object's type is not ruled out).
pub proof fn known_reference_survives_save(id: Seq<char>, t: Option<FileTypeV>, objects: Seq<EntryV>)
    requires
        id.len() > 0,
        entry_with_id(objects, id) matches Some(e) && !type_excluded(t, e.file_type),
    ensures
        parse_reference(reference_text(RefV::Known(id), objects), t) matches RefV::Unknown(n, i, tt)
            && resolve_reference(n, i, tt, objects) == Some(id),
{
    lemma_entry_name(objects, id);
    let e = entry_with_id(objects, id).unwrap();
    lemma_clean_name(e.name);
    lemma_parse_written(clean_name(e.name), id, t);
}

} // verus!

verus! {

/// The longest common prefix of `a` and `b`, character by character.
pub open spec fn common_prefix(a: Seq<char>, b: Seq<char>) -> Seq<char>
    decreases a.len(),
{
    if a.len() > 0 && b.len() > 0 && a[0] == b[0] {
        seq![a[0]] + common_prefix(a.drop_first(), b.drop_first())
    } else {
        seq![]
    }
}

proof fn lemma_common_prefix_at(a: Seq<char>, b: Seq<char>, k: int)
    requires
        0 <= k <= a.len(),
        k <= b.len(),
        a.take(k) == b.take(k),
    ensures
        common_prefix(a, b) == a.take(k) + common_prefix(a.skip(k), b.skip(k)),
    decreases k,
{
    if k > 0 {
        assert(a[0] == a.take(k)[0] && b[0] == b.take(k)[0]);
        assert(a.drop_first().take(k - 1) =~= a.take(k).drop_first());
        assert(b.drop_first().take(k - 1) =~= b.take(k).drop_first());
        lemma_common_prefix_at(a.drop_first(), b.drop_first(), k - 1);
        assert(a.drop_first().skip(k - 1) =~= a.skip(k));
        assert(b.drop_first().skip(k - 1) =~= b.skip(k));
        assert(seq![a[0]] + (a.drop_first().take(k - 1) + common_prefix(a.skip(k), b.skip(k)))
            =~= a.take(k) + common_prefix(a.skip(k), b.skip(k)));
    } else {
        assert(a.skip(0) =~= a);
        assert(b.skip(0) =~= b);
        assert(a.take(0) + common_prefix(a, b) =~= common_prefix(a, b));
    }
}

/// Find the longest common prefix of two strings, character by character, should support unicode
/// characters correctly.
pub fn longest_common_prefix(s1: &str, s2: &str) -> (r: String)
    ensures
        r@ == common_prefix(s1@, s2@),
{
    let a = chars_of(s1);
    let b = chars_of(s2);
    let mut out = String::new();
    let mut i: usize = 0;
    while i < a.len() && i < b.len() && a[i] == b[i]
        invariant
            a@ == s1@,
            b@ == s2@,
            i <= a.len(),
            i <= b.len(),
            a@.take(i as int) == b@.take(i as int),
            out@ == a@.take(i as int),
        decreases a.len() - i,
    {
        push_char(&mut out, a[i]);
        i = i + 1;
        assert(a@.take(i as int) =~= a@.take(i - 1).push(a@[i - 1]));
        assert(a@.take(i as int) =~= b@.take(i as int));
    }
    proof {
        lemma_common_prefix_at(a@, b@, i as int);
        assert(common_prefix(a@.skip(i as int), b@.skip(i as int)) =~= Seq::<char>::empty()) by {
            if i < a.len() && i < b.len() {
                assert(a@.skip(i as int)[0] == a@[i as int]);
                assert(b@.skip(i as int)[0] == b@[i as int]);
            }
        }
        assert(a@.take(i as int) + Seq::<char>::empty() =~= a@.take(i as int));
    }
    out
}

} // verus!
