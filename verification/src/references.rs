//! The loaded objects of each file type, by ID, with the title to show for each: what a
//! reference to an object of that type can be chosen from.
use vstd::prelude::*;
use crate::outlines::{get_title, title_of};
use crate::reference::{EntryV, ObjectEntry, FileID};
use crate::schema::{FileTypeInfo, DefaultSchema, character_v, folder_v, place_v, scene_v};
use crate::text::str_equal;

verus! {

/// `a` comes before `b` in the order of strings (character by character, a prefix first).
pub open spec fn str_lt(a: Seq<char>, b: Seq<char>) -> bool
    decreases a.len(),
{
    if a.len() == 0 {
        b.len() > 0
    } else if b.len() == 0 {
        false
    } else if a[0] != b[0] {
        a[0] < b[0]
    } else {
        str_lt(a.drop_first(), b.drop_first())
    }
}

proof fn lemma_str_lt_irreflexive(a: Seq<char>)
    ensures
        !str_lt(a, a),
    decreases a.len(),
{
    if a.len() > 0 {
        lemma_str_lt_irreflexive(a.drop_first());
    }
}

proof fn lemma_str_lt_transitive(a: Seq<char>, b: Seq<char>, c: Seq<char>)
    requires
        str_lt(a, b),
        str_lt(b, c),
    ensures
        str_lt(a, c),
    decreases a.len(),
{
    if a.len() > 0 && b.len() > 0 && c.len() > 0 && a[0] == b[0] && b[0] == c[0] {
        lemma_str_lt_transitive(a.drop_first(), b.drop_first(), c.drop_first());
    }
}

proof fn lemma_str_lt_total(a: Seq<char>, b: Seq<char>)
    ensures
        str_lt(a, b) || str_lt(b, a) || a == b,
    decreases a.len(),
{
    if a.len() > 0 && b.len() > 0 && a[0] == b[0] {
        lemma_str_lt_total(a.drop_first(), b.drop_first());
        if a.drop_first() == b.drop_first() {
            assert(a =~= seq![a[0]] + a.drop_first());
            assert(b =~= seq![b[0]] + b.drop_first());
        }
    } else if a.len() == 0 && b.len() == 0 {
        assert(a =~= b);
    } else if a.len() > 0 && b.len() > 0 {
        assert(a[0] != b[0]);
    }
}

/// Whether `a` comes before `b`.
pub fn str_less(a: &str, b: &str) -> (r: bool)
    ensures
        r == str_lt(a@, b@),
{
    let av = crate::text::chars_of(a);
    let bv = crate::text::chars_of(b);
    let mut i: usize = 0;
    assert(a@.skip(0) =~= a@);
    assert(b@.skip(0) =~= b@);
    while i < av.len() && i < bv.len() && av[i] == bv[i]
        invariant
            av@ == a@,
            bv@ == b@,
            i <= av.len(),
            i <= bv.len(),
            str_lt(a@, b@) == str_lt(a@.skip(i as int), b@.skip(i as int)),
        decreases av.len() - i,
    {
        proof {
            let x = a@.skip(i as int);
            let y = b@.skip(i as int);
            assert(x.drop_first() =~= a@.skip(i + 1));
            assert(y.drop_first() =~= b@.skip(i + 1));
        }
        i = i + 1;
    }
    let ghost x = a@.skip(i as int);
    let ghost y = b@.skip(i as int);
    if i == av.len() {
        i < bv.len()
    } else if i == bv.len() {
        false
    } else {
        assert(x[0] == av@[i as int] && y[0] == bv@[i as int]);
        av[i] < bv[i]
    }
}

/// The entries of one file type: IDs with titles, strictly in the order of the IDs.
pub open spec fn sorted_ids(v: Seq<(Seq<char>, Seq<char>)>) -> bool {
    forall|a: int, b: int| 0 <= a < b < v.len() ==> str_lt(v[a].0, v[b].0)
}

/// The entries as a map from ID to title.
pub open spec fn as_map(v: Seq<(Seq<char>, Seq<char>)>) -> Map<Seq<char>, Seq<char>>
    decreases v.len(),
{
    if v.len() == 0 {
        Map::empty()
    } else {
        as_map(v.drop_last()).insert(v.last().0, v.last().1)
    }
}

pub open spec fn pairs(v: Seq<(FileID, String)>) -> Seq<(Seq<char>, Seq<char>)> {
    v.map_values(|p: (FileID, String)| (p.0@, p.1@))
}

/// The objects of each file type of a schema, by ID, with their titles.
#[derive(Debug)]
pub struct References {
    pub file_types: Vec<FileTypeInfo>,
    /// For each of `file_types`, in the same order: its objects' IDs and titles, in the
    /// order of the IDs.
    pub r: Vec<Vec<(FileID, String)>>,
}

/// The title to keep for an object: the one shown before when it is the object's name,
/// else its title now.
pub open spec fn kept_title(old: Map<Seq<char>, Seq<char>>, e: EntryV) -> Seq<char> {
    if old.contains_key(e.id) && old[e.id] == e.name {
        e.name
    } else {
        title_of(e.name, e.file_type.empty_string_name)
    }
}

/// The entries of the file type `t` after an update from `objects` over the old entries
/// `old`: every object of that type, by ID, with its kept title (a later object with the
/// same ID wins).
pub open spec fn updated_map(objects: Seq<EntryV>, t: Seq<char>, old: Map<Seq<char>, Seq<char>>) -> Map<Seq<char>, Seq<char>>
    decreases objects.len(),
{
    if objects.len() == 0 {
        Map::empty()
    } else {
        let m = updated_map(objects.drop_last(), t, old);
        let e = objects.last();
        if e.file_type.identifier == t { m.insert(e.id, kept_title(old, e)) } else { m }
    }
}

pub open spec fn entries_v(objects: Seq<ObjectEntry>) -> Seq<EntryV> {
    objects.map_values(|e: ObjectEntry| e@)
}

pub open spec fn type_ids(ts: Seq<FileTypeInfo>) -> Seq<Seq<char>> {
    ts.map_values(|t: FileTypeInfo| t@.identifier)
}

impl References {
    /// The lists are well formed: one per file type, each sorted by ID.
    pub open spec fn wf(&self) -> bool {
        &&& self.r.len() == self.file_types.len()
        &&& forall|a: int, b: int| 0 <= a < b < self.file_types.len()
            ==> type_ids(self.file_types@)[a] != type_ids(self.file_types@)[b]
        &&& forall|k: int| 0 <= k < self.r.len() ==> sorted_ids(pairs(#[trigger] self.r@[k]@))
    }

    /// The entries of the `k`-th file type as a map.
    pub open spec fn map_at(&self, k: int) -> Map<Seq<char>, Seq<char>> {
        as_map(pairs(self.r@[k]@))
    }
}

proof fn lemma_as_map_sorted_insert(v: Seq<(Seq<char>, Seq<char>)>, p: int, id: Seq<char>, title: Seq<char>)
    requires
        sorted_ids(v),
        0 <= p <= v.len(),
        forall|j: int| 0 <= j < p ==> str_lt(#[trigger] v[j].0, id),
        forall|j: int| p <= j < v.len() ==> str_lt(id, #[trigger] v[j].0),
    ensures
        as_map(v.insert(p, (id, title))) == as_map(v).insert(id, title),
        sorted_ids(v.insert(p, (id, title))),
    decreases v.len(),
{
    let w = v.insert(p, (id, title));
    assert forall|a: int, b: int| 0 <= a < b < w.len() implies str_lt(w[a].0, w[b].0) by {
        if a < p && b == p {
        } else if a == p {
            assert(w[b] == v[b - 1]);
        } else if a < p && b > p {
            assert(w[b] == v[b - 1]);
        } else if a > p {
            assert(w[a] == v[a - 1] && w[b] == v[b - 1]);
        }
    }
    if p == v.len() {
        assert(w.drop_last() =~= v);
    } else {
        let v1 = v.drop_last();
        assert forall|j: int| p <= j < v1.len() implies str_lt(id, #[trigger] v1[j].0) by {
            assert(v1[j] == v[j]);
        }
        lemma_as_map_sorted_insert(v1, p, id, title);
        assert(w.drop_last() =~= v1.insert(p, (id, title)));
        assert(w.last() == v.last());
        lemma_str_lt_irreflexive(id);
        assert(id != v.last().0);
        assert(as_map(w) =~= as_map(v).insert(id, title));
    }
}

proof fn lemma_as_map_update(v: Seq<(Seq<char>, Seq<char>)>, p: int, title: Seq<char>)
    requires
        sorted_ids(v),
        0 <= p < v.len(),
    ensures
        as_map(v.update(p, (v[p].0, title))) == as_map(v).insert(v[p].0, title),
        sorted_ids(v.update(p, (v[p].0, title))),
    decreases v.len(),
{
    let w = v.update(p, (v[p].0, title));
    if p == v.len() - 1 {
        assert(w.drop_last() =~= v.drop_last());
        assert(as_map(w) =~= as_map(v).insert(v[p].0, title));
    } else {
        let v1 = v.drop_last();
        lemma_as_map_update(v1, p, title);
        assert(w.drop_last() =~= v1.update(p, (v1[p].0, title)));
        lemma_str_lt_irreflexive(v[p].0);
        assert(v[p].0 != v.last().0);
        assert(as_map(w) =~= as_map(v).insert(v[p].0, title));
    }
}

/// Sets the title of `id` in the sorted list `v`.
fn insert_sorted(v: &mut Vec<(FileID, String)>, id: FileID, title: String)
    requires
        sorted_ids(pairs(old(v)@)),
    ensures
        sorted_ids(pairs(final(v)@)),
        as_map(pairs(final(v)@)) == as_map(pairs(old(v)@)).insert(id@, title@),
{
    let ghost pv = pairs(v@);
    let mut p: usize = 0;
    while p < v.len() && str_less(v[p].0.as_str(), id.as_str())
        invariant
            pv == pairs(v@),
            p <= v.len(),
            forall|j: int| 0 <= j < p ==> str_lt(#[trigger] pv[j].0, id@),
        decreases v.len() - p,
    {
        assert(pv[p as int].0 == v@[p as int].0@);
        p = p + 1;
    }
    if p < v.len() && str_equal(v[p].0.as_str(), id.as_str()) {
        proof {
            assert(pv[p as int].0 == id@);
            lemma_as_map_update(pv, p as int, title@);
        }
        let ghost before = v@;
        v.set(p, (id, title));
        assert(pairs(v@) =~= pv.update(p as int, (pv[p as int].0, title@)));
    } else {
        proof {
            assert forall|j: int| p <= j < pv.len() implies str_lt(id@, #[trigger] pv[j].0) by {
                assert(pv[p as int].0 == v@[p as int].0@);
                assert(!str_lt(pv[p as int].0, id@));
                lemma_str_lt_total(pv[p as int].0, id@);
                assert(str_lt(id@, pv[p as int].0));
                if j > p {
                    lemma_str_lt_transitive(id@, pv[p as int].0, pv[j].0);
                }
            }
            lemma_as_map_sorted_insert(pv, p as int, id@, title@);
        }
        v.insert(p, (id, title));
        assert(pairs(v@) =~= pv.insert(p as int, (id@, title@)));
    }
}

proof fn lemma_as_map_index(v: Seq<(Seq<char>, Seq<char>)>, j: int)
    requires
        sorted_ids(v),
        0 <= j < v.len(),
    ensures
        as_map(v).contains_key(v[j].0),
        as_map(v)[v[j].0] == v[j].1,
    decreases v.len(),
{
    if j < v.len() - 1 {
        let v1 = v.drop_last();
        assert(v1[j] == v[j]);
        lemma_as_map_index(v1, j);
        lemma_str_lt_irreflexive(v[j].0);
        assert(str_lt(v[j].0, v.last().0));
    }
}

proof fn lemma_as_map_absent(v: Seq<(Seq<char>, Seq<char>)>, k: Seq<char>)
    requires
        forall|j: int| 0 <= j < v.len() ==> #[trigger] v[j].0 != k,
    ensures
        !as_map(v).contains_key(k),
    decreases v.len(),
{
    if v.len() > 0 {
        let v1 = v.drop_last();
        assert forall|j: int| 0 <= j < v1.len() implies #[trigger] v1[j].0 != k by {
            assert(v1[j] == v[j]);
        }
        lemma_as_map_absent(v1, k);
        assert(v.last().0 != k);
    }
}

/// The title of `id` in the sorted list `v`, if it is there.
fn lookup_sorted(v: &Vec<(FileID, String)>, id: &str) -> (r: Option<String>)
    requires
        sorted_ids(pairs(v@)),
    ensures
        match r {
            Some(t) => as_map(pairs(v@)).contains_key(id@) && as_map(pairs(v@))[id@] == t@,
            None => !as_map(pairs(v@)).contains_key(id@),
        },
{
    let ghost pv = pairs(v@);
    let mut k: usize = 0;
    while k < v.len()
        invariant
            pv == pairs(v@),
            sorted_ids(pv),
            k <= v.len(),
            forall|j: int| 0 <= j < k ==> #[trigger] pv[j].0 != id@,
        decreases v.len() - k,
    {
        assert(pv[k as int] == (v@[k as int].0@, v@[k as int].1@));
        if str_equal(v[k].0.as_str(), id) {
            proof {
                lemma_as_map_index(pv, k as int);
            }
            return Some(v[k].1.clone());
        }
        k = k + 1;
    }
    proof {
        lemma_as_map_absent(pv, id@);
    }
    None
}

/// No two objects share an ID (they are stored by ID).
pub open spec fn unique_ids(objects: Seq<EntryV>) -> bool {
    forall|a: int, b: int| 0 <= a < b < objects.len() ==> objects[a].id != objects[b].id
}

/// Every object is of one of the file types `ts`.
pub open spec fn types_known(objects: Seq<EntryV>, ts: Seq<Seq<char>>) -> bool {
    forall|j: int| 0 <= j < objects.len() ==> ts.contains(#[trigger] objects[j].file_type.identifier)
}

fn type_index(ts: &Vec<FileTypeInfo>, t: &FileTypeInfo) -> (r: usize)
    requires
        type_ids(ts@).contains(t@.identifier),
    ensures
        r < ts.len(),
        type_ids(ts@)[r as int] == t@.identifier,
{
    let mut k: usize = 0;
    while k < ts.len()
        invariant
            k <= ts.len(),
            type_ids(ts@).contains(t@.identifier),
            forall|j: int| 0 <= j < k ==> #[trigger] type_ids(ts@)[j] != t@.identifier,
        decreases ts.len() - k,
    {
        assert(type_ids(ts@)[k as int] == ts@[k as int]@.identifier);
        if ts[k].same_type(t) {
            return k;
        }
        k = k + 1;
    }
    proof {
        let w = choose|w: int| 0 <= w < type_ids(ts@).len() && type_ids(ts@)[w] == t@.identifier;
        assert(type_ids(ts@)[w] != t@.identifier);
    }
    0
}

/// After an update from `objects` (distinct IDs), the list of the file type `t` holds
/// exactly the objects of that type, by ID, each with its kept title: its name, where it
/// has one.
pub proof fn updated_list_holds_objects_of_type(objects: Seq<EntryV>, t: Seq<char>, old: Map<Seq<char>, Seq<char>>)
    requires
        unique_ids(objects),
    ensures
        forall|id: Seq<char>| #[trigger] updated_map(objects, t, old).contains_key(id) <==>
            exists|j: int| 0 <= j < objects.len() && objects[j].id == id && objects[j].file_type.identifier == t,
        forall|j: int| 0 <= j < objects.len() && #[trigger] objects[j].file_type.identifier == t ==> {
            &&& updated_map(objects, t, old)[objects[j].id] == kept_title(old, objects[j])
            &&& objects[j].name.len() > 0 ==> updated_map(objects, t, old)[objects[j].id] == objects[j].name
        },
    decreases objects.len(),
{
    if objects.len() > 0 {
        let rest = objects.drop_last();
        let n = objects.len() - 1;
        assert(unique_ids(rest)) by {
            assert forall|a: int, b: int| 0 <= a < b < rest.len() implies rest[a].id != rest[b].id by {
                assert(rest[a] == objects[a] && rest[b] == objects[b]);
            }
        }
        updated_list_holds_objects_of_type(rest, t, old);
        let m = updated_map(objects, t, old);
        assert forall|id: Seq<char>| #[trigger] m.contains_key(id) <==>
            exists|j: int| 0 <= j < objects.len() && objects[j].id == id && objects[j].file_type.identifier == t by {
            if m.contains_key(id) {
                if objects[n].file_type.identifier == t && objects[n].id == id {
                } else {
                    assert(updated_map(rest, t, old).contains_key(id));
                    let j = choose|j: int| 0 <= j < rest.len() && rest[j].id == id && rest[j].file_type.identifier == t;
                    assert(objects[j] == rest[j]);
                }
            }
            if exists|j: int| 0 <= j < objects.len() && objects[j].id == id && objects[j].file_type.identifier == t {
                let j = choose|j: int| 0 <= j < objects.len() && objects[j].id == id && objects[j].file_type.identifier == t;
                if j < n {
                    assert(rest[j] == objects[j]);
                    assert(updated_map(rest, t, old).contains_key(id));
                }
            }
        }
        assert forall|j: int| 0 <= j < objects.len() && #[trigger] objects[j].file_type.identifier == t implies {
            &&& m[objects[j].id] == kept_title(old, objects[j])
            &&& objects[j].name.len() > 0 ==> m[objects[j].id] == objects[j].name
        } by {
            if j < n {
                assert(rest[j] == objects[j]);
                assert(objects[j].id != objects[n].id);
            }
        }
    }
}

/// An object with an empty name is shown by the name of its file type for empty names
/// (`Untitled`-like), as long as the list before showed no empty title and every file type
/// has such a name; and the list after again shows no empty title, so this holds from one
/// update to the next.
pub proof fn empty_names_show_the_type_name(objects: Seq<EntryV>, t: Seq<char>, old: Map<Seq<char>, Seq<char>>)
    requires
        unique_ids(objects),
        forall|id: Seq<char>| #[trigger] old.contains_key(id) ==> old[id].len() > 0,
        forall|j: int| 0 <= j < objects.len() ==> (#[trigger] objects[j]).file_type.empty_string_name.len() > 0,
    ensures
        forall|j: int| 0 <= j < objects.len() && #[trigger] objects[j].file_type.identifier == t
            && objects[j].name.len() == 0
            ==> updated_map(objects, t, old)[objects[j].id] == objects[j].file_type.empty_string_name,
        forall|id: Seq<char>| #[trigger] updated_map(objects, t, old).contains_key(id)
            ==> updated_map(objects, t, old)[id].len() > 0,
{
    updated_list_holds_objects_of_type(objects, t, old);
    let m = updated_map(objects, t, old);
    assert forall|j: int| 0 <= j < objects.len() && #[trigger] objects[j].file_type.identifier == t
        && objects[j].name.len() == 0 implies m[objects[j].id] == objects[j].file_type.empty_string_name by {
        assert(m[objects[j].id] == kept_title(old, objects[j]));
        if old.contains_key(objects[j].id) {
            assert(old[objects[j].id].len() > 0);
        }
    }
    assert forall|id: Seq<char>| #[trigger] m.contains_key(id) implies m[id].len() > 0 by {
        let j = choose|j: int| 0 <= j < objects.len() && objects[j].id == id && objects[j].file_type.identifier == t;
        assert(m[objects[j].id] == kept_title(old, objects[j]));
        assert(objects[j].file_type.empty_string_name.len() > 0);
        if old.contains_key(objects[j].id) {
            assert(old[objects[j].id].len() > 0);
        }
    }
}

/// What [`References::for_type`] gives after [`References::update`]: `before` is the
/// state before the update from `objects` and `after` the state after it (related as the
/// update's contract says), and `list` the list that `for_type` hands out for the file type
/// `t` of `after`, `shown` the one it handed out for `t` before. The list then holds exactly
/// the objects of type `t`, by ID, each with its kept title: its name, where it has one.
pub proof fn list_for_type_after_update(
    before: References,
    after: References,
    objects: Seq<EntryV>,
    t: Seq<char>,
    shown: Seq<(FileID, String)>,
    list: Seq<(FileID, String)>,
)
    requires
        before.wf(),
        unique_ids(objects),
        after.file_types == before.file_types,
        after.r.len() == before.r.len(),
        forall|k: int| 0 <= k < after.r.len() ==> #[trigger] after.map_at(k)
            == updated_map(objects, type_ids(before.file_types@)[k], before.map_at(k)),
        exists|k: int| 0 <= k < after.r.len() && type_ids(after.file_types@)[k] == t
            && list == after.r@[k]@ && shown == before.r@[k]@,
    ensures
        forall|id: Seq<char>| #[trigger] as_map(pairs(list)).contains_key(id) <==>
            exists|j: int| 0 <= j < objects.len() && objects[j].id == id && objects[j].file_type.identifier == t,
        forall|j: int| 0 <= j < objects.len() && #[trigger] objects[j].file_type.identifier == t ==> {
            &&& as_map(pairs(list))[objects[j].id] == kept_title(as_map(pairs(shown)), objects[j])
            &&& objects[j].name.len() > 0 ==> as_map(pairs(list))[objects[j].id] == objects[j].name
        },
{
    let k = choose|k: int| 0 <= k < after.r.len() && type_ids(after.file_types@)[k] == t
        && list == after.r@[k]@ && shown == before.r@[k]@;
    assert(after.map_at(k) == as_map(pairs(list)));
    assert(before.map_at(k) == as_map(pairs(shown)));
    updated_list_holds_objects_of_type(objects, t, before.map_at(k));
}

/// The identifiers of the file types of the default schema, in its order.
pub open spec fn default_type_ids() -> Seq<Seq<char>> {
    seq![character_v().identifier, folder_v().identifier, place_v().identifier, scene_v().identifier]
}

impl References {
    /// Lists for the file types of the default schema, filled from `objects`.
    pub fn new(schema: &DefaultSchema, objects: &Vec<ObjectEntry>) -> (r: Self)
        requires
            unique_ids(entries_v(objects@)),
            types_known(entries_v(objects@), default_type_ids()),
        ensures
            r.wf(),
            r.file_types@.map_values(|t: FileTypeInfo| t@) == seq![character_v(), folder_v(), place_v(), scene_v()],
            forall|k: int| 0 <= k < r.r.len() ==> #[trigger] r.map_at(k)
                == updated_map(entries_v(objects@), type_ids(r.file_types@)[k], Map::empty()),
    {
        let file_types = schema.get_all_file_types();
        assert(file_types@.map_values(|t: FileTypeInfo| t@).len() == 4);
        let mut r: Vec<Vec<(FileID, String)>> = Vec::new();
        let mut k: usize = 0;
        while k < file_types.len()
            invariant
                k <= file_types.len(),
                r.len() == k,
                forall|j: int| 0 <= j < k ==> (#[trigger] r@[j])@.len() == 0,
            decreases file_types.len() - k,
        {
            r.push(Vec::new());
            k = k + 1;
        }
        let mut refs = References { file_types, r };
        proof {
            let vs = refs.file_types@.map_values(|t: FileTypeInfo| t@);
            assert forall|j: int| 0 <= j < 4 implies type_ids(refs.file_types@)[j] == #[trigger] default_type_ids()[j] by {
                assert(vs[j] == refs.file_types@[j]@);
            }
            assert(type_ids(refs.file_types@) =~= default_type_ids());
            crate::schema::default_identifiers_unique();
            assert forall|j: int| 0 <= j < refs.r.len() implies sorted_ids(pairs(#[trigger] refs.r@[j]@)) by {
                assert(refs.r@[j]@.len() == 0);
            }
            assert forall|j: int| 0 <= j < refs.r.len() implies #[trigger] refs.map_at(j) == Map::<Seq<char>, Seq<char>>::empty() by {
                assert(pairs(refs.r@[j]@) =~= Seq::<(Seq<char>, Seq<char>)>::empty());
            }
        }
        refs.update(objects);
        refs
    }

    /// The objects of the file type `file_type`, by ID, with their titles.
    pub fn for_type(&self, file_type: &FileTypeInfo) -> (r: &Vec<(FileID, String)>)
        requires
            self.wf(),
            type_ids(self.file_types@).contains(file_type@.identifier),
        ensures
            exists|k: int| 0 <= k < self.r.len() && type_ids(self.file_types@)[k] == file_type@.identifier
                && *r == self.r@[k],
    {
        let k = type_index(&self.file_types, file_type);
        &self.r[k]
    }

    /// Fills the lists again from `objects`: every object under its file type, by ID, with
    /// its title, except that an object keeps the title it was shown with when that is its
    /// name.
    pub fn update(&mut self, objects: &Vec<ObjectEntry>)
        requires
            old(self).wf(),
            unique_ids(entries_v(objects@)),
            types_known(entries_v(objects@), type_ids(old(self).file_types@)),
        ensures
            final(self).wf(),
            final(self).file_types == old(self).file_types,
            forall|k: int| 0 <= k < final(self).r.len() ==> #[trigger] final(self).map_at(k)
                == updated_map(entries_v(objects@), type_ids(old(self).file_types@)[k], old(self).map_at(k)),
    {
        let ghost es = entries_v(objects@);
        let ghost ts = type_ids(self.file_types@);
        let ghost olds = self.r@;
        let mut fresh: Vec<Vec<(FileID, String)>> = Vec::new();
        let mut k: usize = 0;
        while k < self.r.len()
            invariant
                k <= self.r.len(),
                fresh.len() == k,
                forall|j: int| 0 <= j < k ==> (#[trigger] fresh@[j])@.len() == 0,
            decreases self.r.len() - k,
        {
            fresh.push(Vec::new());
            k = k + 1;
        }
        std::mem::swap(&mut self.r, &mut fresh);
        let old_r = fresh;
        assert(old_r@ == olds);
        proof {
            assert forall|j: int| 0 <= j < self.r.len() implies #[trigger] self.map_at(j) == updated_map(es.take(0), ts[j], as_map(pairs(olds[j]@))) by {
                assert(pairs(self.r@[j]@) =~= Seq::<(Seq<char>, Seq<char>)>::empty());
                assert(es.take(0) =~= Seq::<EntryV>::empty());
            }
        }
        let mut i: usize = 0;
        while i < objects.len()
            invariant
                i <= objects.len(),
                es == entries_v(objects@),
                ts == type_ids(self.file_types@),
                self.file_types == old(self).file_types,
                old_r@ == olds,
                olds.len() == self.r.len(),
                self.r.len() == self.file_types.len(),
                forall|j: int| 0 <= j < olds.len() ==> sorted_ids(pairs(#[trigger] olds[j]@)),
                unique_ids(es),
                types_known(es, ts),
                forall|a: int, b: int| 0 <= a < b < self.file_types.len() ==> ts[a] != ts[b],
                forall|j: int| 0 <= j < self.r.len() ==> sorted_ids(pairs(#[trigger] self.r@[j]@)),
                forall|j: int| 0 <= j < self.r.len() ==> #[trigger] self.map_at(j) == updated_map(es.take(i as int), ts[j], as_map(pairs(olds[j]@))),
            decreases objects.len() - i,
        {
            let e = &objects[i];
            assert(es[i as int] == e@);
            assert(ts.contains(es[i as int].file_type.identifier));
            let k = type_index(&self.file_types, &e.file_type);
            let old_title = lookup_sorted(&old_r[k], e.id.as_str());
            let title = match old_title {
                Some(t) => if str_equal(t.as_str(), e.name.as_str()) { e.name.clone() } else { get_title(e.name.as_str(), &e.file_type) },
                None => get_title(e.name.as_str(), &e.file_type),
            };
            assert(title@ == kept_title(as_map(pairs(olds[k as int]@)), es[i as int]));
            let ghost before = self.r@;
            assert(self.map_at(k as int) == updated_map(es.take(i as int), ts[k as int], as_map(pairs(olds[k as int]@))));
            assert(as_map(pairs(before[k as int]@)) == self.map_at(k as int));
            assert forall|j: int| 0 <= j < self.r.len() && j != k implies
                as_map(pairs(#[trigger] before[j]@)) == updated_map(es.take(i as int), ts[j], as_map(pairs(olds[j]@))) by {
                assert(self.map_at(j) == updated_map(es.take(i as int), ts[j], as_map(pairs(olds[j]@))));
            }
            insert_sorted(&mut self.r[k], e.id.clone(), title);
            proof {
                assert(es.take(i + 1).drop_last() =~= es.take(i as int));
                assert(es.take(i + 1).last() == es[i as int]);
                assert forall|j: int| 0 <= j < self.r.len() implies #[trigger] self.map_at(j) == updated_map(es.take(i + 1), ts[j], as_map(pairs(olds[j]@))) by {
                    if j != k {
                        assert(self.r@[j] == before[j]);
                        assert(ts[j] != ts[k as int]);
                        assert(as_map(pairs(before[j]@)) == updated_map(es.take(i as int), ts[j], as_map(pairs(olds[j]@))));
                    } else {
                        let m0 = as_map(pairs(olds[j]@));
                        assert(es[i as int].file_type.identifier == ts[j]);
                        assert(updated_map(es.take(i + 1), ts[j], m0) == updated_map(es.take(i as int), ts[j], m0).insert(es[i as int].id, kept_title(m0, es[i as int])));
                        assert(as_map(pairs(before[j]@)) == updated_map(es.take(i as int), ts[j], m0));
                        assert(self.map_at(j) == as_map(pairs(before[j]@)).insert(e.id@, title@));
                    }
                }
                assert forall|j: int| 0 <= j < self.r.len() implies sorted_ids(pairs(#[trigger] self.r@[j]@)) by {
                    if j != k {
                        assert(self.r@[j] == before[j]);
                    }
                }
            }
            i = i + 1;
        }
        proof {
            assert(es.take(i as int) =~= es);
        }
    }
}

} // verus!
