//! The loaded objects of a project as a tree: each object's ID, its path on disk and the
//! IDs of its children in order. Finding objects by path, finding parents, taking an
//! object out of its parent, and dropping objects that no longer hang in the tree.
use vstd::prelude::*;
use crate::events::{comps, object_path_of, parent_path_of, same_path, get_parent_path, object_path, path_prefix, starts_with_path, clone_path};
use crate::reference::FileID;
use crate::text::str_equal;

verus! {

/// A loaded object as the tree sees it.
#[derive(Debug)]
pub struct ObjectRecord {
    pub id: FileID,
    /// The components of the object's path (its folder for a folder-based object).
    pub path: Vec<String>,
    pub children: Vec<FileID>,
}

/// The value of an [`ObjectRecord`].
pub struct RecordV {
    pub id: Seq<char>,
    pub path: Seq<Seq<char>>,
    pub children: Seq<Seq<char>>,
}

pub open spec fn ids(v: Seq<String>) -> Seq<Seq<char>> {
    v.map_values(|s: String| s@)
}

impl View for ObjectRecord {
    type V = RecordV;

    open spec fn view(&self) -> RecordV {
        RecordV { id: self.id@, path: comps(self.path@), children: ids(self.children@) }
    }
}

pub open spec fn records(objects: Seq<ObjectRecord>) -> Seq<RecordV> {
    objects.map_values(|o: ObjectRecord| o@)
}

/// The first object whose path is `path`.
pub open spec fn first_at_path(rs: Seq<RecordV>, path: Seq<Seq<char>>) -> Option<int> {
    if exists|k: int| 0 <= k < rs.len() && rs[k].path == path {
        Some(choose|k: int| 0 <= k < rs.len() && rs[k].path == path && forall|j: int| 0 <= j < k ==> rs[j].path != path)
    } else {
        None
    }
}

proof fn lemma_first_at_path(rs: Seq<RecordV>, path: Seq<Seq<char>>, k: int)
    requires
        0 <= k <= rs.len(),
        forall|j: int| 0 <= j < k ==> #[trigger] rs[j].path != path,
        k == rs.len() || rs[k].path == path,
    ensures
        first_at_path(rs, path) == if k == rs.len() { None } else { Some(k) },
{
    if k < rs.len() {
        let w = choose|w: int| 0 <= w < rs.len() && rs[w].path == path && forall|j: int| 0 <= j < w ==> rs[j].path != path;
        if w < k {
            assert(rs[w].path != path);
        }
        if w > k {
            assert(rs[k].path != path);
        }
    }
}

fn index_at_path(objects: &Vec<ObjectRecord>, path: &Vec<String>) -> (r: Option<usize>)
    ensures
        match r {
            Some(k) => first_at_path(records(objects@), comps(path@)) == Some(k as int) && k < objects.len(),
            None => first_at_path(records(objects@), comps(path@)) is None,
        },
{
    let ghost rs = records(objects@);
    let mut k: usize = 0;
    while k < objects.len()
        invariant
            k <= objects.len(),
            rs == records(objects@),
            forall|j: int| 0 <= j < k ==> #[trigger] rs[j].path != comps(path@),
        decreases objects.len() - k,
    {
        assert(rs[k as int] == objects@[k as int]@);
        if same_path(&objects[k].path, path) {
            proof {
                lemma_first_at_path(rs, comps(path@), k as int);
            }
            return Some(k);
        }
        k = k + 1;
    }
    proof {
        lemma_first_at_path(rs, comps(path@), k as int);
    }
    None
}

/// The ID of the object at `path` (a folder's metadata file stands for the folder).
pub open spec fn object_at_path(rs: Seq<RecordV>, path: Seq<Seq<char>>) -> Option<Seq<char>> {
    match first_at_path(rs, object_path_of(path)) {
        Some(k) => Some(rs[k].id),
        None => None,
    }
}

pub open spec fn opt_id(o: Option<FileID>) -> Option<Seq<char>> {
    match o {
        Some(s) => Some(s@),
        None => None,
    }
}

/// Finds the object at `path`, as [`object_at_path`] says.
pub fn find_object_by_path(objects: &Vec<ObjectRecord>, path: &Vec<String>) -> (r: Option<FileID>)
    ensures
        opt_id(r) == object_at_path(records(objects@), comps(path@)),
{
    let compare = object_path(path);
    match index_at_path(objects, &compare) {
        Some(k) => {
            assert(records(objects@)[k as int] == objects@[k as int]@);
            Some(objects[k].id.clone())
        },
        None => None,
    }
}

/// The position of the first `needle` in `v`.
pub open spec fn position_of(v: Seq<Seq<char>>, needle: Seq<char>) -> Option<int> {
    if v.contains(needle) {
        Some(choose|k: int| 0 <= k < v.len() && v[k] == needle && forall|j: int| 0 <= j < k ==> v[j] != needle)
    } else {
        None
    }
}

/// Finds the position of `needle` among `v`.
pub fn find_position(v: &Vec<FileID>, needle: &str) -> (r: Option<usize>)
    ensures
        match r {
            Some(k) => position_of(ids(v@), needle@) == Some(k as int) && k < v.len() && ids(v@)[k as int] == needle@,
            None => position_of(ids(v@), needle@) is None,
        },
{
    let ghost s = ids(v@);
    let mut k: usize = 0;
    while k < v.len()
        invariant
            k <= v.len(),
            s == ids(v@),
            forall|j: int| 0 <= j < k ==> #[trigger] s[j] != needle@,
        decreases v.len() - k,
    {
        assert(s[k as int] == v@[k as int]@);
        if str_equal(v[k].as_str(), needle) {
            proof {
                let w = choose|w: int| 0 <= w < s.len() && s[w] == needle@ && forall|j: int| 0 <= j < w ==> s[j] != needle@;
                if w < k {
                    assert(s[w] != needle@);
                }
                if w > k {
                    assert(s[k as int] != needle@);
                }
            }
            return Some(k);
        }
        k = k + 1;
    }
    None
}

/// The first object that has `needle` among its children.
pub open spec fn parent_index(rs: Seq<RecordV>, needle: Seq<char>) -> Option<int> {
    if exists|k: int| 0 <= k < rs.len() && rs[k].children.contains(needle) {
        Some(choose|k: int| 0 <= k < rs.len() && rs[k].children.contains(needle)
            && forall|j: int| 0 <= j < k ==> !rs[j].children.contains(needle))
    } else {
        None
    }
}

/// Finds the ID of the parent of the object `needle`.
pub fn find_object_parent(objects: &Vec<ObjectRecord>, needle: &str) -> (r: Option<FileID>)
    ensures
        opt_id(r) == match parent_index(records(objects@), needle@) {
            Some(k) => Some(records(objects@)[k].id),
            None => None::<Seq<char>>,
        },
{
    let ghost rs = records(objects@);
    let mut k: usize = 0;
    while k < objects.len()
        invariant
            k <= objects.len(),
            rs == records(objects@),
            forall|j: int| 0 <= j < k ==> !(#[trigger] rs[j]).children.contains(needle@),
        decreases objects.len() - k,
    {
        assert(rs[k as int] == objects@[k as int]@);
        match find_position(&objects[k].children, needle) {
            Some(_) => {
                proof {
                    let w = choose|w: int| 0 <= w < rs.len() && rs[w].children.contains(needle@)
                        && forall|j: int| 0 <= j < w ==> !rs[j].children.contains(needle@);
                    if w < k {
                        assert(!rs[w].children.contains(needle@));
                    }
                    if w > k {
                        assert(!rs[k as int].children.contains(needle@));
                    }
                }
                return Some(objects[k].id.clone());
            },
            None => {},
        }
        k = k + 1;
    }
    None
}

/// Where the object at `path` is listed among its parent's children: the parent's place
/// in the tree and the object's position among its children.
pub open spec fn listing_of(rs: Seq<RecordV>, path: Seq<Seq<char>>) -> Option<(int, int)> {
    match object_at_path(rs, path) {
        None => None,
        Some(oid) => match first_at_path(rs, parent_path_of(path)) {
            None => None,
            Some(pk) => match position_of(rs[pk].children, oid) {
                None => None,
                Some(pos) => Some((pk, pos)),
            },
        },
    }
}

fn remove_child_at(objects: &mut Vec<ObjectRecord>, pk: usize, pos: usize)
    requires
        pk < old(objects).len(),
        pos < old(objects)@[pk as int].children.len(),
    ensures
        records(final(objects)@) == records(old(objects)@).update(pk as int,
            RecordV { children: records(old(objects)@)[pk as int].children.remove(pos as int), ..records(old(objects)@)[pk as int] }),
{
    let ghost rs = records(objects@);
    let ghost before = objects@[pk as int].children@;
    objects[pk].children.remove(pos);
    proof {
        assert(rs[pk as int] == old(objects)@[pk as int]@);
        assert(ids(objects@[pk as int].children@) =~= ids(before).remove(pos as int));
        assert forall|j: int| 0 <= j < objects.len() implies records(objects@)[j] == rs.update(pk as int,
            RecordV { children: rs[pk as int].children.remove(pos as int), ..rs[pk as int] })[j] by {
            if j != pk {
                assert(objects@[j] == old(objects)@[j]);
            }
        }
        assert(records(objects@) =~= rs.update(pk as int,
            RecordV { children: rs[pk as int].children.remove(pos as int), ..rs[pk as int] }));
    }
}

/// Takes the object at `path` out of its parent's children, if both are loaded and the
/// parent lists it. Returns the parent's ID.
#[verifier::spinoff_prover]
pub fn remove_path_from_parent(objects: &mut Vec<ObjectRecord>, path: &Vec<String>) -> (r: Option<FileID>)
    requires
        object_at_path(records(old(objects)@), comps(path@)) is Some ==> object_path_of(comps(path@)).len() > 0,
    ensures
        match listing_of(records(old(objects)@), comps(path@)) {
            Some((pk, pos)) => {
                let old_rs = records(old(objects)@);
                &&& opt_id(r) == Some(old_rs[pk].id)
                &&& records(final(objects)@) == old_rs.update(pk,
                    RecordV { children: old_rs[pk].children.remove(pos), ..old_rs[pk] })
            },
            None => r is None && records(final(objects)@) == records(old(objects)@),
        },
{
    let ghost rs = records(objects@);
    let object_id = match find_object_by_path(objects, path) {
        Some(id) => id,
        None => return None,
    };
    let parent_path = get_parent_path(path);
    let pk = match index_at_path(objects, &parent_path) {
        Some(k) => k,
        None => return None,
    };
    assert(rs[pk as int] == objects@[pk as int]@);
    let pos = match find_position(&objects[pk].children, object_id.as_str()) {
        Some(p) => p,
        None => return None,
    };
    let parent_id = objects[pk].id.clone();
    remove_child_at(objects, pk, pos);
    Some(parent_id)
}

/// Whether some object lists `id` among its children.
pub open spec fn is_child(rs: Seq<RecordV>, id: Seq<char>) -> bool {
    exists|k: int| 0 <= k < rs.len() && #[trigger] rs[k].children.contains(id)
}

/// An object is dangling when it is neither a top-level folder (`roots`) nor anyone's
/// child.
pub open spec fn is_dangling(rs: Seq<RecordV>, roots: Seq<Seq<char>>, id: Seq<char>) -> bool {
    !roots.contains(id) && !is_child(rs, id)
}

/// The IDs to drop after `n` rounds: the dangling objects, and in each round the children
/// of those dropped so far.
pub open spec fn dropped_after(rs: Seq<RecordV>, roots: Seq<Seq<char>>, n: nat) -> Set<Seq<char>>
    decreases n,
{
    if n == 0 {
        Set::new(|id: Seq<char>| (exists|k: int| 0 <= k < rs.len() && rs[k].id == id) && is_dangling(rs, roots, id))
    } else {
        let prev = dropped_after(rs, roots, (n - 1) as nat);
        prev.union(Set::new(|c: Seq<char>| exists|k: int| 0 <= k < rs.len() && prev.contains(rs[k].id) && #[trigger] rs[k].children.contains(c)))
    }
}

/// The IDs dropped from the tree: as many rounds as there are objects, enough to reach
/// every descendant of a dangling object.
pub open spec fn dropped(rs: Seq<RecordV>, roots: Seq<Seq<char>>) -> Set<Seq<char>> {
    dropped_after(rs, roots, rs.len())
}

/// The tree is as loading keeps it: IDs are unique, and every child entry names a loaded
/// object that is not a top-level folder, and no object is listed twice.
pub open spec fn well_linked(rs: Seq<RecordV>, roots: Seq<Seq<char>>) -> bool {
    &&& forall|a: int, b: int| 0 <= a < b < rs.len() ==> rs[a].id != rs[b].id
    &&& forall|k: int, i: int| 0 <= k < rs.len() && 0 <= i < rs[k].children.len() ==> {
        let c = #[trigger] rs[k].children[i];
        &&& exists|m: int| 0 <= m < rs.len() && rs[m].id == c
        &&& !roots.contains(c)
        &&& forall|k2: int, i2: int| 0 <= k2 < rs.len() && 0 <= i2 < rs[k2].children.len() && (k2 != k || i2 != i)
            ==> rs[k2].children[i2] != c
    }
}

fn contains_id(v: &Vec<FileID>, id: &str) -> (r: bool)
    ensures
        r == ids(v@).contains(id@),
{
    find_position(v, id).is_some()
}

fn is_child_exec(objects: &Vec<ObjectRecord>, id: &str) -> (r: bool)
    ensures
        r == is_child(records(objects@), id@),
{
    let ghost rs = records(objects@);
    let mut k: usize = 0;
    while k < objects.len()
        invariant
            k <= objects.len(),
            rs == records(objects@),
            forall|j: int| 0 <= j < k ==> !(#[trigger] rs[j]).children.contains(id@),
        decreases objects.len() - k,
    {
        assert(rs[k as int] == objects@[k as int]@);
        if contains_id(&objects[k].children, id) {
            assert(rs[k as int].children.contains(id@));
            return true;
        }
        k = k + 1;
    }
    false
}

fn clone_ids(v: &Vec<FileID>) -> (r: Vec<FileID>)
    ensures
        ids(r@) == ids(v@),
{
    let mut out: Vec<FileID> = Vec::new();
    let mut i: usize = 0;
    while i < v.len()
        invariant
            i <= v.len(),
            out.len() == i,
            ids(out@) == ids(v@).take(i as int),
        decreases v.len() - i,
    {
        let c = v[i].clone();
        let ghost before = out@;
        out.push(c);
        proof {
            assert(out@ == before.push(c));
            assert(ids(out@)[i as int] == c@);
        }
        i = i + 1;
        assert(ids(out@) =~= ids(v@).take(i as int));
    }
    assert(ids(v@).take(v.len() as int) =~= ids(v@));
    out
}

fn clone_record(r: &ObjectRecord) -> (c: ObjectRecord)
    ensures
        c@ == r@,
{
    ObjectRecord { id: r.id.clone(), path: crate::events::clone_path(&r.path), children: clone_ids(&r.children) }
}

/// Drops the objects that no longer hang in the tree: those that are neither a top-level
/// folder (`roots`) nor anyone's child, and everything below them. The others keep their
/// order.
pub fn clean_up_orphaned_objects(objects: &mut Vec<ObjectRecord>, roots: &Vec<FileID>)
    requires
        well_linked(records(old(objects)@), ids(roots@)),
    ensures
        records(final(objects)@) == records(old(objects)@).filter(
            |r: RecordV| !dropped(records(old(objects)@), ids(roots@)).contains(r.id)),
{
    let ghost rs = records(objects@);
    let ghost rt = ids(roots@);
    let n = objects.len();
    // round 0: the dangling objects
    let mut marks: Vec<bool> = Vec::new();
    let mut k: usize = 0;
    while k < n
        invariant
            n == objects.len(),
            rs == records(objects@),
            rt == ids(roots@),
            k <= n,
            marks.len() == k,
            forall|j: int| 0 <= j < k ==> #[trigger] marks@[j] == dropped_after(rs, rt, 0).contains(rs[j].id),
        decreases n - k,
    {
        assert(rs[k as int] == objects@[k as int]@);
        let id = objects[k].id.as_str();
        let dangling = !contains_id(roots, id) && !is_child_exec(objects, id);
        proof {
            assert(rs[k as int].id == id@);
            if dangling {
                assert(dropped_after(rs, rt, 0).contains(id@));
            }
        }
        marks.push(dangling);
        k = k + 1;
    }
    // further rounds: the children of what is dropped
    let mut round: usize = 0;
    while round < n
        invariant
            n == objects.len(),
            rs == records(objects@),
            rt == ids(roots@),
            round <= n,
            marks.len() == n,
            forall|j: int| 0 <= j < n ==> #[trigger] marks@[j] == dropped_after(rs, rt, round as nat).contains(rs[j].id),
        decreases n - round,
    {
        let ghost prev = dropped_after(rs, rt, round as nat);
        let mut next: Vec<bool> = Vec::new();
        let mut k: usize = 0;
        while k < n
            invariant
                n == objects.len(),
                rs == records(objects@),
                rt == ids(roots@),
                round < n,
                prev == dropped_after(rs, rt, round as nat),
                marks.len() == n,
                forall|j: int| 0 <= j < n ==> #[trigger] marks@[j] == prev.contains(rs[j].id),
                k <= n,
                next.len() == k,
                forall|j: int| 0 <= j < k ==> #[trigger] next@[j] == dropped_after(rs, rt, (round + 1) as nat).contains(rs[j].id),
            decreases n - k,
        {
            assert(rs[k as int] == objects@[k as int]@);
            let id = objects[k].id.as_str();
            let mut m = marks[k];
            let mut j: usize = 0;
            while j < n
                invariant
                    n == objects.len(),
                    rs == records(objects@),
                    k < n,
                    j <= n,
                    marks.len() == n,
                    forall|a: int| 0 <= a < n ==> #[trigger] marks@[a] == prev.contains(rs[a].id),
                    id@ == rs[k as int].id,
                    m == (prev.contains(rs[k as int].id) || exists|a: int| 0 <= a < j && prev.contains(rs[a].id) && #[trigger] rs[a].children.contains(id@)),
                decreases n - j,
            {
                assert(rs[j as int] == objects@[j as int]@);
                let here = marks[j] && contains_id(&objects[j].children, id);
                assert(here == (prev.contains(rs[j as int].id) && rs[j as int].children.contains(id@)));
                if here {
                    m = true;
                }
                j = j + 1;
            }
            proof {
                let nx = dropped_after(rs, rt, (round + 1) as nat);
                assert(nx == prev.union(Set::new(|c: Seq<char>| exists|a: int| 0 <= a < rs.len() && prev.contains(rs[a].id) && #[trigger] rs[a].children.contains(c))));
                if m {
                    assert(nx.contains(id@));
                } else {
                    assert(!nx.contains(id@));
                }
            }
            next.push(m);
            k = k + 1;
        }
        marks = next;
        round = round + 1;
    }
    // keep the others, in order
    let ghost keep = |r: RecordV| !dropped(rs, rt).contains(r.id);
    let mut out: Vec<ObjectRecord> = Vec::new();
    let mut k: usize = 0;
    while k < n
        invariant
            n == objects.len(),
            rs == records(objects@),
            rt == ids(roots@),
            marks.len() == n,
            forall|j: int| 0 <= j < n ==> #[trigger] marks@[j] == dropped(rs, rt).contains(rs[j].id),
            keep == (|r: RecordV| !dropped(rs, rt).contains(r.id)),
            k <= n,
            records(out@) == rs.take(k as int).filter(keep),
        decreases n - k,
    {
        assert(rs[k as int] == objects@[k as int]@);
        let ghost before = out@;
        assert(rs.take(k + 1 as int).drop_last() =~= rs.take(k as int));
        if !marks[k] {
            let c = clone_record(&objects[k]);
            out.push(c);
            assert(records(out@) =~= records(before).push(rs[k as int]));
        }
        proof {
            let t1 = rs.take(k + 1 as int);
            assert(t1.last() == rs[k as int]);
            assert(t1.drop_last() =~= rs.take(k as int));
            assert(t1.len() > 0);
            reveal(Seq::filter);
            assert(t1.filter(keep) == (if keep(t1.last()) { t1.drop_last().filter(keep).push(t1.last()) } else { t1.drop_last().filter(keep) }));
            assert(keep(rs[k as int]) == !marks@[k as int]);
            assert(t1.filter(keep) == if keep(rs[k as int]) { rs.take(k as int).filter(keep).push(rs[k as int]) } else { rs.take(k as int).filter(keep) });
        }
        k = k + 1;
    }
    assert(rs.take(n as int) =~= rs);
    *objects = out;
}

/// The loaded object `p` lists `c` among its children.
pub open spec fn links(rs: Seq<RecordV>, p: Seq<char>, c: Seq<char>) -> bool {
    exists|k: int| 0 <= k < rs.len() && rs[k].id == p && #[trigger] rs[k].children.contains(c)
}

/// `path` goes down the tree: each ID after the first is a child of the one before.
pub open spec fn is_chain(rs: Seq<RecordV>, path: Seq<Seq<char>>) -> bool
    decreases path.len(),
{
    if path.len() <= 1 {
        path.len() == 1
    } else {
        is_chain(rs, path.drop_last()) && links(rs, path[path.len() - 2], path.last())
    }
}

/// `id` can be reached from one of `roots` by going down the tree.
pub open spec fn reachable(rs: Seq<RecordV>, roots: Seq<Seq<char>>, id: Seq<char>) -> bool {
    exists|path: Seq<Seq<char>>| #[trigger] is_chain(rs, path) && roots.contains(path[0]) && path.last() == id
}

proof fn lemma_dropped_monotonic(rs: Seq<RecordV>, roots: Seq<Seq<char>>, m1: nat, m2: nat)
    requires
        m1 <= m2,
    ensures
        dropped_after(rs, roots, m1).subset_of(dropped_after(rs, roots, m2)),
    decreases m2,
{
    if m1 < m2 {
        lemma_dropped_monotonic(rs, roots, m1, (m2 - 1) as nat);
    }
}

/// Whatever is dropped lies at the end of a chain that starts at a dangling object.
proof fn lemma_dropped_has_dangling_top(rs: Seq<RecordV>, roots: Seq<Seq<char>>, m: nat, x: Seq<char>)
    requires
        dropped_after(rs, roots, m).contains(x),
    ensures
        exists|path: Seq<Seq<char>>| #[trigger] is_chain(rs, path) && is_dangling(rs, roots, path[0]) && path.last() == x,
    decreases m,
{
    if m == 0 {
        let path = seq![x];
        assert(is_chain(rs, path));
    } else {
        let prev = dropped_after(rs, roots, (m - 1) as nat);
        if prev.contains(x) {
            lemma_dropped_has_dangling_top(rs, roots, (m - 1) as nat, x);
        } else {
            let a = choose|a: int| 0 <= a < rs.len() && prev.contains(rs[a].id) && #[trigger] rs[a].children.contains(x);
            lemma_dropped_has_dangling_top(rs, roots, (m - 1) as nat, rs[a].id);
            let p = choose|path: Seq<Seq<char>>| #[trigger] is_chain(rs, path) && is_dangling(rs, roots, path[0]) && path.last() == rs[a].id;
            let q = p.push(x);
            assert(q.drop_last() =~= p);
            assert(links(rs, q[q.len() - 2], q.last()));
            assert(is_chain(rs, q));
            assert(q[0] == p[0]);
        }
    }
}

/// In a well-linked tree every object has at most one parent, so two chains that start at
/// objects without a parent and end at the same object start at the same object.
proof fn lemma_chains_share_top(rs: Seq<RecordV>, roots: Seq<Seq<char>>, p1: Seq<Seq<char>>, p2: Seq<Seq<char>>)
    requires
        well_linked(rs, roots),
        is_chain(rs, p1),
        is_chain(rs, p2),
        !is_child(rs, p1[0]),
        !is_child(rs, p2[0]),
        p1.last() == p2.last(),
    ensures
        p1[0] == p2[0],
    decreases p1.len() + p2.len(),
{
    let x = p1.last();
    if p1.len() == 1 {
        if p2.len() > 1 {
            let k = choose|k: int| 0 <= k < rs.len() && rs[k].id == p2[p2.len() - 2] && #[trigger] rs[k].children.contains(p2.last());
            assert(is_child(rs, x));
        }
    } else if p2.len() == 1 {
        let k = choose|k: int| 0 <= k < rs.len() && rs[k].id == p1[p1.len() - 2] && #[trigger] rs[k].children.contains(p1.last());
        assert(is_child(rs, p2[0]));
    } else {
        let k1 = choose|k: int| 0 <= k < rs.len() && rs[k].id == p1[p1.len() - 2] && #[trigger] rs[k].children.contains(p1.last());
        let k2 = choose|k: int| 0 <= k < rs.len() && rs[k].id == p2[p2.len() - 2] && #[trigger] rs[k].children.contains(p2.last());
        let i1 = choose|i: int| 0 <= i < rs[k1].children.len() && rs[k1].children[i] == x;
        let i2 = choose|i: int| 0 <= i < rs[k2].children.len() && rs[k2].children[i] == x;
        assert(rs[k1].children[i1] == x);
        if k1 != k2 || i1 != i2 {
            assert(rs[k2].children[i2] != rs[k1].children[i1]);
        }
        let q1 = p1.drop_last();
        let q2 = p2.drop_last();
        assert(q1[0] == p1[0] && q2[0] == p2[0]);
        lemma_chains_share_top(rs, roots, q1, q2);
    }
}

/// An object that is not reachable from the roots is dropped, as long as every object has a
/// level below the number of objects that grows from parent to child (the tree has no cycle).
proof fn lemma_unreachable_dropped(rs: Seq<RecordV>, roots: Seq<Seq<char>>, level: spec_fn(Seq<char>) -> nat, k: int)
    requires
        forall|j: int, c: Seq<char>| 0 <= j < rs.len() && #[trigger] rs[j].children.contains(c)
            ==> level(rs[j].id) < level(c),
        well_linked(rs, roots),
        0 <= k < rs.len(),
    ensures
        reachable(rs, roots, rs[k].id) || dropped_after(rs, roots, level(rs[k].id)).contains(rs[k].id),
    decreases level(rs[k].id),
{
    let x = rs[k].id;
    if roots.contains(x) {
        let path = seq![x];
        assert(is_chain(rs, path));
    } else if !is_child(rs, x) {
        assert(dropped_after(rs, roots, 0).contains(x));
        lemma_dropped_monotonic(rs, roots, 0, level(x));
    } else {
        let j = choose|j: int| 0 <= j < rs.len() && #[trigger] rs[j].children.contains(x);
        let p = rs[j].id;
        lemma_unreachable_dropped(rs, roots, level, j);
        if reachable(rs, roots, p) {
            let path = choose|path: Seq<Seq<char>>| #[trigger] is_chain(rs, path) && roots.contains(path[0]) && path.last() == p;
            let q = path.push(x);
            assert(q.drop_last() =~= path);
            assert(links(rs, q[q.len() - 2], q.last()));
            assert(is_chain(rs, q));
            assert(q[0] == path[0]);
        } else {
            let prev = dropped_after(rs, roots, level(p));
            assert(dropped_after(rs, roots, level(p) + 1).contains(x));
            lemma_dropped_monotonic(rs, roots, level(p) + 1, level(x));
        }
    }
}

/// Cleaning up keeps exactly the objects that can be reached from the top-level folders by
/// going down the tree, when the tree is well linked and has no cycle (witnessed by
/// `level`: a level below the number of objects for every object, growing from parent to
/// child). An object in a cycle that no top-level folder reaches is kept all the same.
pub proof fn cleanup_keeps_what_the_roots_reach(rs: Seq<RecordV>, roots: Seq<Seq<char>>, level: spec_fn(Seq<char>) -> nat)
    requires
        well_linked(rs, roots),
        forall|j: int, c: Seq<char>| 0 <= j < rs.len() && #[trigger] rs[j].children.contains(c)
            ==> level(rs[j].id) < level(c),
        forall|j: int| 0 <= j < rs.len() ==> level(#[trigger] rs[j].id) < rs.len(),
    ensures
        forall|k: int| 0 <= k < rs.len() ==>
            (!dropped(rs, roots).contains(#[trigger] rs[k].id) <==> reachable(rs, roots, rs[k].id)),
        rs.filter(|r: RecordV| !dropped(rs, roots).contains(r.id)) == rs.filter(|r: RecordV| reachable(rs, roots, r.id)),
{
    assert forall|k: int| 0 <= k < rs.len() implies
        (!dropped(rs, roots).contains(#[trigger] rs[k].id) <==> reachable(rs, roots, rs[k].id)) by {
        let x = rs[k].id;
        lemma_unreachable_dropped(rs, roots, level, k);
        lemma_dropped_monotonic(rs, roots, level(x), rs.len());
        if dropped(rs, roots).contains(x) && reachable(rs, roots, x) {
            lemma_dropped_has_dangling_top(rs, roots, rs.len(), x);
            let p1 = choose|path: Seq<Seq<char>>| #[trigger] is_chain(rs, path) && is_dangling(rs, roots, path[0]) && path.last() == x;
            let p2 = choose|path: Seq<Seq<char>>| #[trigger] is_chain(rs, path) && roots.contains(path[0]) && path.last() == x;
            if is_child(rs, p2[0]) {
                let j = choose|j: int| 0 <= j < rs.len() && #[trigger] rs[j].children.contains(p2[0]);
                let i = choose|i: int| 0 <= i < rs[j].children.len() && rs[j].children[i] == p2[0];
                assert(rs[j].children[i] == p2[0]);
            }
            lemma_chains_share_top(rs, roots, p1, p2);
        }
    }
    lemma_filter_agree(rs, |r: RecordV| !dropped(rs, roots).contains(r.id), |r: RecordV| reachable(rs, roots, r.id));
}

proof fn lemma_filter_agree(rs: Seq<RecordV>, f: spec_fn(RecordV) -> bool, g: spec_fn(RecordV) -> bool)
    requires
        forall|k: int| 0 <= k < rs.len() ==> f(#[trigger] rs[k]) == g(rs[k]),
    ensures
        rs.filter(f) == rs.filter(g),
    decreases rs.len(),
{
    reveal(Seq::filter);
    if rs.len() > 0 {
        let front = rs.drop_last();
        assert forall|k: int| 0 <= k < front.len() implies f(#[trigger] front[k]) == g(front[k]) by {
            assert(front[k] == rs[k]);
        }
        lemma_filter_agree(front, f, g);
        assert(f(rs[rs.len() - 1]) == g(rs[rs.len() - 1]));
    }
}

/// `path` after the file or folder at `from` was renamed to `to`: a path at or below `from`
/// has that part replaced by `to`; any other path stays as it is.
pub open spec fn rebased(path: Seq<Seq<char>>, from: Seq<Seq<char>>, to: Seq<Seq<char>>) -> Seq<Seq<char>> {
    if path_prefix(from, path) {
        to + path.skip(from.len() as int)
    } else {
        path
    }
}

/// Follows the renaming of the file or folder at `from` to `to`: every object at or below
/// `from` gets its path below `to`. IDs, children and order stay.
pub fn rebase_paths(objects: &mut Vec<ObjectRecord>, from: &Vec<String>, to: &Vec<String>)
    ensures
        final(objects)@.len() == old(objects)@.len(),
        forall|k: int| 0 <= k < old(objects)@.len() ==> {
            &&& (#[trigger] records(final(objects)@)[k]).id == records(old(objects)@)[k].id
            &&& records(final(objects)@)[k].children == records(old(objects)@)[k].children
            &&& records(final(objects)@)[k].path == rebased(records(old(objects)@)[k].path, comps(from@), comps(to@))
        },
{
    let ghost rs = records(objects@);
    let mut out: Vec<ObjectRecord> = Vec::new();
    let mut k: usize = 0;
    while k < objects.len()
        invariant
            rs == records(objects@),
            k <= objects.len(),
            out.len() == k,
            forall|j: int| 0 <= j < k ==> {
                &&& (#[trigger] records(out@)[j]).id == rs[j].id
                &&& records(out@)[j].children == rs[j].children
                &&& records(out@)[j].path == rebased(rs[j].path, comps(from@), comps(to@))
            },
        decreases objects.len() - k,
    {
        assert(rs[k as int] == objects@[k as int]@);
        let r = clone_record(&objects[k]);
        let moved = if starts_with_path(&objects[k].path, from) {
            let mut p = clone_path(to);
            let mut i: usize = from.len();
            while i < objects[k].path.len()
                invariant
                    k < objects.len(),
                    from.len() <= i <= objects@[k as int].path.len(),
                    comps(p@) == comps(to@) + comps(objects@[k as int].path@).subrange(from.len() as int, i as int),
                decreases objects@[k as int].path.len() - i,
            {
                let c = objects[k].path[i].clone();
                let ghost before = p@;
                p.push(c);
                proof {
                    assert(p@ == before.push(c));
                    assert(comps(p@) =~= comps(before).push(c@));
                    assert(comps(p@) =~= comps(to@) + comps(objects@[k as int].path@).subrange(from.len() as int, i + 1));
                }
                i = i + 1;
            }
            assert(comps(objects@[k as int].path@).subrange(from.len() as int, objects@[k as int].path.len() as int)
                =~= comps(objects@[k as int].path@).skip(from.len() as int));
            ObjectRecord { id: r.id, path: p, children: r.children }
        } else {
            r
        };
        let ghost before = out@;
        out.push(moved);
        proof {
            assert(out@ == before.push(moved));
            assert forall|j: int| 0 <= j < k + 1 implies {
                &&& (#[trigger] records(out@)[j]).id == rs[j].id
                &&& records(out@)[j].children == rs[j].children
                &&& records(out@)[j].path == rebased(rs[j].path, comps(from@), comps(to@))
            } by {
                if j < k {
                    assert(records(out@)[j] == records(before)[j]);
                }
            }
        }
        k = k + 1;
    }
    *objects = out;
}

/// The place of the object `id` in the tree (the first with that ID).
pub open spec fn record_of(rs: Seq<RecordV>, id: Seq<char>) -> Option<int> {
    if exists|k: int| 0 <= k < rs.len() && rs[k].id == id {
        Some(choose|k: int| 0 <= k < rs.len() && rs[k].id == id && forall|j: int| 0 <= j < k ==> rs[j].id != id)
    } else {
        None
    }
}

pub(crate) fn index_of_id(objects: &Vec<ObjectRecord>, id: &str) -> (r: Option<usize>)
    ensures
        match r {
            Some(k) => record_of(records(objects@), id@) == Some(k as int) && k < objects.len()
                && records(objects@)[k as int].id == id@,
            None => record_of(records(objects@), id@) is None,
        },
{
    let ghost rs = records(objects@);
    let mut k: usize = 0;
    while k < objects.len()
        invariant
            k <= objects.len(),
            rs == records(objects@),
            forall|j: int| 0 <= j < k ==> #[trigger] rs[j].id != id@,
        decreases objects.len() - k,
    {
        assert(rs[k as int] == objects@[k as int]@);
        if str_equal(objects[k].id.as_str(), id) {
            proof {
                let w = choose|w: int| 0 <= w < rs.len() && rs[w].id == id@ && forall|j: int| 0 <= j < w ==> rs[j].id != id@;
                if w < k {
                    assert(rs[w].id != id@);
                }
                if w > k {
                    assert(rs[k as int].id != id@);
                }
            }
            return Some(k);
        }
        k = k + 1;
    }
    None
}

/// Whether `checking` is among `children` or below one of them, looking at most `depth`
/// levels further down.
pub open spec fn below_any(rs: Seq<RecordV>, children: Seq<Seq<char>>, checking: Seq<char>, depth: nat) -> bool
    decreases depth, children.len(),
{
    if children.len() == 0 {
        false
    } else {
        ||| children[0] == checking
        ||| (depth > 0 && match record_of(rs, children[0]) {
            Some(k) => below_any(rs, rs[k].children, checking, (depth - 1) as nat),
            None => false,
        })
        ||| below_any(rs, children.drop_first(), checking, depth)
    }
}

/// Whether `checking` is below `parent` in the tree, looking as many levels down as there
/// are objects (which reaches every level of a tree).
pub open spec fn contains_below(rs: Seq<RecordV>, parent: Seq<char>, checking: Seq<char>) -> bool {
    match record_of(rs, parent) {
        Some(k) => below_any(rs, rs[k].children, checking, rs.len()),
        None => false,
    }
}

/// Every child is a loaded object.
pub open spec fn children_loaded(rs: Seq<RecordV>) -> bool {
    forall|k: int, i: int| 0 <= k < rs.len() && 0 <= i < rs[k].children.len()
        ==> record_of(rs, #[trigger] rs[k].children[i]) is Some
}

#[verifier::spinoff_prover]
#[verifier::rlimit(30)]
fn below_any_exec(objects: &Vec<ObjectRecord>, k: usize, from: usize, checking: &str, depth: usize) -> (r: bool)
    requires
        k < objects.len(),
        from <= objects@[k as int].children.len(),
    ensures
        r == below_any(records(objects@), records(objects@)[k as int].children.skip(from as int), checking@, depth as nat),
    decreases depth, objects@[k as int].children.len() - from,
{
    let ghost rs = records(objects@);
    let ghost cs = rs[k as int].children.skip(from as int);
    assert(rs[k as int] == objects@[k as int]@);
    if from == objects[k].children.len() {
        assert(cs.len() == 0);
        return false;
    }
    let child = objects[k].children[from].as_str();
    assert(cs[0] == child@);
    assert(cs.drop_first() =~= rs[k as int].children.skip(from + 1 as int));
    if str_equal(child, checking) {
        return true;
    }
    let down = if depth > 0 {
        match index_of_id(objects, child) {
            Some(ck) => {
                assert(rs[ck as int] == objects@[ck as int]@);
                assert(rs[ck as int].children.skip(0) =~= rs[ck as int].children);
                below_any_exec(objects, ck, 0, checking, depth - 1)
            },
            None => false,
        }
    } else {
        false
    };
    assert(down == (depth > 0 && match record_of(rs, cs[0]) {
        Some(j) => below_any(rs, rs[j].children, checking@, (depth - 1) as nat),
        None => false,
    }));
    if down {
        return true;
    }
    below_any_exec(objects, k, from + 1, checking, depth)
}

/// Whether the object `checking_id` is below the object `parent_id` in the tree.
pub fn parent_contains(objects: &Vec<ObjectRecord>, parent_id: &str, checking_id: &str) -> (r: bool)
    requires
        record_of(records(objects@), parent_id@) is Some,
        children_loaded(records(objects@)),
    ensures
        r == contains_below(records(objects@), parent_id@, checking_id@),
{
    match index_of_id(objects, parent_id) {
        Some(k) => {
            assert(records(objects@)[k as int].children.skip(0) =~= records(objects@)[k as int].children);
            below_any_exec(objects, k, 0, checking_id, objects.len())
        },
        None => false,
    }
}

/// What becomes of a request to move an object.
#[derive(Debug, Clone, Copy, PartialEq, Eq, Structural)]
pub enum MoveCheck {
    /// The destination is below the object that would move: refused.
    IntoItself,
    /// The object has no index (a top-level folder): refused.
    NoIndex,
    /// The object is already at that place: nothing to do.
    AlreadyThere,
    /// The move can go ahead.
    Move,
}

/// What a request to move `moving_id` (whose index is `moving_index`) from the folder
/// `source_id` to index `new_index` in the folder `dest_id` comes to.
pub open spec fn move_check_spec(rs: Seq<RecordV>, moving_id: Seq<char>, source_id: Seq<char>, dest_id: Seq<char>,
    moving_index: Option<usize>, new_index: usize) -> MoveCheck
{
    if contains_below(rs, moving_id, dest_id) {
        MoveCheck::IntoItself
    } else {
        match moving_index {
            None => MoveCheck::NoIndex,
            Some(i) => if source_id == dest_id && i == new_index { MoveCheck::AlreadyThere } else { MoveCheck::Move },
        }
    }
}

/// Checks a request to move an object, as [`move_check_spec`] says.
pub fn check_move(objects: &Vec<ObjectRecord>, moving_id: &str, source_id: &str, dest_id: &str,
    moving_index: Option<usize>, new_index: usize) -> (r: MoveCheck)
    requires
        record_of(records(objects@), moving_id@) is Some,
        children_loaded(records(objects@)),
    ensures
        r == move_check_spec(records(objects@), moving_id@, source_id@, dest_id@, moving_index, new_index),
{
    if parent_contains(objects, moving_id, dest_id) {
        return MoveCheck::IntoItself;
    }
    match moving_index {
        None => MoveCheck::NoIndex,
        Some(i) => {
            if str_equal(source_id, dest_id) && i == new_index {
                MoveCheck::AlreadyThere
            } else {
                MoveCheck::Move
            }
        },
    }
}

fn insert_child_at(objects: &mut Vec<ObjectRecord>, k: usize, at: usize, id: FileID)
    requires
        k < old(objects).len(),
        at <= old(objects)@[k as int].children.len(),
    ensures
        records(final(objects)@) == records(old(objects)@).update(k as int,
            RecordV { children: records(old(objects)@)[k as int].children.insert(at as int, id@), ..records(old(objects)@)[k as int] }),
{
    let ghost rs = records(objects@);
    let ghost before = objects@[k as int].children@;
    objects[k].children.insert(at, id);
    proof {
        assert(rs[k as int] == old(objects)@[k as int]@);
        assert(ids(objects@[k as int].children@) =~= ids(before).insert(at as int, id@));
        assert forall|j: int| 0 <= j < objects.len() implies records(objects@)[j] == rs.update(k as int,
            RecordV { children: rs[k as int].children.insert(at as int, id@), ..rs[k as int] })[j] by {
            if j != k {
                assert(objects@[j] == old(objects)@[j]);
            }
        }
        assert(records(objects@) =~= rs.update(k as int,
            RecordV { children: rs[k as int].children.insert(at as int, id@), ..rs[k as int] }));
    }
}

/// The tree after moving the child `moving` out of the folder `source` and into the folder
/// `dest` at `new_index` (or at the end, when `new_index` is past it).
pub open spec fn moved_tree(rs: Seq<RecordV>, moving: Seq<char>, source: Seq<char>, dest: Seq<char>, new_index: usize) -> Seq<RecordV> {
    let sk = record_of(rs, source)->0;
    let pos = position_of(rs[sk].children, moving)->0;
    let rs1 = rs.update(sk, RecordV { children: rs[sk].children.remove(pos), ..rs[sk] });
    let dk = record_of(rs, dest)->0;
    let at = if new_index < rs1[dk].children.len() { new_index as int } else { rs1[dk].children.len() as int };
    rs1.update(dk, RecordV { children: rs1[dk].children.insert(at, moving), ..rs1[dk] })
}

proof fn lemma_first_id(rs: Seq<RecordV>, id: Seq<char>, k: int)
    requires
        0 <= k < rs.len(),
        rs[k].id == id,
    ensures
        exists|m: int| 0 <= m < rs.len() && rs[m].id == id && forall|j: int| 0 <= j < m ==> #[trigger] rs[j].id != id,
    decreases k,
{
    if exists|j: int| 0 <= j < k && rs[j].id == id {
        let j = choose|j: int| 0 <= j < k && rs[j].id == id;
        lemma_first_id(rs, id, j);
    } else {
        assert(forall|j: int| 0 <= j < k ==> #[trigger] rs[j].id != id);
    }
}

proof fn lemma_record_of_props(rs: Seq<RecordV>, id: Seq<char>)
    ensures
        match record_of(rs, id) {
            Some(k) => 0 <= k < rs.len() && rs[k].id == id && forall|j: int| 0 <= j < k ==> #[trigger] rs[j].id != id,
            None => forall|j: int| 0 <= j < rs.len() ==> #[trigger] rs[j].id != id,
        },
{
    if exists|k: int| 0 <= k < rs.len() && rs[k].id == id {
        let k = choose|k: int| 0 <= k < rs.len() && rs[k].id == id;
        lemma_first_id(rs, id, k);
    }
}

proof fn lemma_record_of_at(rs: Seq<RecordV>, id: Seq<char>, k: int)
    requires
        0 <= k < rs.len(),
        rs[k].id == id,
        forall|j: int| 0 <= j < k ==> #[trigger] rs[j].id != id,
    ensures
        record_of(rs, id) == Some(k),
{
    lemma_record_of_props(rs, id);
    let w = record_of(rs, id)->0;
    if w < k {
        assert(rs[w].id != id);
    }
    if w > k {
        assert(rs[k].id != id);
    }
}

proof fn lemma_record_of_same_ids(rs: Seq<RecordV>, rs1: Seq<RecordV>, id: Seq<char>)
    requires
        rs.len() == rs1.len(),
        forall|j: int| 0 <= j < rs.len() ==> #[trigger] rs1[j].id == rs[j].id,
    ensures
        record_of(rs1, id) == record_of(rs, id),
{
    lemma_record_of_props(rs, id);
    lemma_record_of_props(rs1, id);
    match record_of(rs, id) {
        Some(k) => {
            assert forall|j: int| 0 <= j < k implies #[trigger] rs1[j].id != id by {
                assert(rs[j].id != id);
            }
            lemma_record_of_at(rs1, id, k);
        },
        None => {
            if record_of(rs1, id) is Some {
                let k = record_of(rs1, id)->0;
                assert(rs[k].id == id);
            }
        },
    }
}

/// Moves the child `moving` out of the folder `source` and into the folder `dest` at
/// `new_index`, as [`moved_tree`] says (the files themselves are moved separately).
#[verifier::spinoff_prover]
#[verifier::rlimit(40)]
pub fn move_child_in_tree(objects: &mut Vec<ObjectRecord>, moving: &str, source: &str, dest: &str, new_index: usize)
    requires
        record_of(records(old(objects)@), source@) is Some,
        record_of(records(old(objects)@), dest@) is Some,
        records(old(objects)@)[record_of(records(old(objects)@), source@)->0].children.contains(moving@),
    ensures
        records(final(objects)@) == moved_tree(records(old(objects)@), moving@, source@, dest@, new_index),
{
    let ghost rs = records(objects@);
    let sk = match index_of_id(objects, source) {
        Some(k) => k,
        None => return,
    };
    assert(rs[sk as int] == objects@[sk as int]@);
    let pos = match find_position(&objects[sk].children, moving) {
        Some(p) => p,
        None => return,
    };
    let moved_id = objects[sk].children[pos].clone();
    assert(ids(objects@[sk as int].children@)[pos as int] == moving@);
    remove_child_at(objects, sk, pos);
    let ghost rs1 = records(objects@);
    proof {
        assert forall|j: int| 0 <= j < rs.len() implies #[trigger] rs1[j].id == rs[j].id by {
            if j != sk {
                assert(rs1[j] == rs[j]);
            }
        }
        lemma_record_of_same_ids(rs, rs1, dest@);
    }
    let dk = match index_of_id(objects, dest) {
        Some(k) => k,
        None => return,
    };
    assert(rs1[dk as int] == objects@[dk as int]@);
    let len = objects[dk].children.len();
    let at = if new_index < len { new_index } else { len };
    insert_child_at(objects, dk, at, moved_id);
    proof {
        assert(record_of(rs, source@) == Some(sk as int));
        assert(record_of(rs, dest@) == Some(dk as int));
        assert(position_of(rs[sk as int].children, moving@) == Some(pos as int));
    }
}

/// Takes the object `child` out of the children of `parent`, where it is listed first. The
/// object and everything below it then hang nowhere, and [`clean_up_orphaned_objects`]
/// drops them.
pub fn remove_child_from_tree(objects: &mut Vec<ObjectRecord>, child: &str, parent: &str)
    requires
        record_of(records(old(objects)@), parent@) is Some,
        records(old(objects)@)[record_of(records(old(objects)@), parent@)->0].children.contains(child@),
    ensures
        ({
            let rs = records(old(objects)@);
            let pk = record_of(rs, parent@)->0;
            records(final(objects)@) == rs.update(pk, RecordV {
                children: rs[pk].children.remove(position_of(rs[pk].children, child@)->0),
                ..rs[pk]
            })
        }),
{
    let ghost rs = records(objects@);
    let pk = match index_of_id(objects, parent) {
        Some(k) => k,
        None => return,
    };
    assert(rs[pk as int] == objects@[pk as int]@);
    let pos = match find_position(&objects[pk].children, child) {
        Some(p) => p,
        None => return,
    };
    remove_child_at(objects, pk, pos);
}

/// Lists the object `child` at the end of the children of `parent`, unless it is there
/// already. Returns whether it was added.
pub fn add_child_if_missing(objects: &mut Vec<ObjectRecord>, parent: &str, child: &str) -> (r: bool)
    requires
        record_of(records(old(objects)@), parent@) is Some,
    ensures
        ({
            let rs = records(old(objects)@);
            let pk = record_of(rs, parent@)->0;
            &&& r == !rs[pk].children.contains(child@)
            &&& records(final(objects)@) == if r {
                rs.update(pk, RecordV { children: rs[pk].children.push(child@), ..rs[pk] })
            } else {
                rs
            }
        }),
{
    let ghost rs = records(objects@);
    let pk = match index_of_id(objects, parent) {
        Some(k) => k,
        None => return false,
    };
    assert(rs[pk as int] == objects@[pk as int]@);
    if contains_id(&objects[pk].children, child) {
        return false;
    }
    let len = objects[pk].children.len();
    insert_child_at(objects, pk, len, child.to_owned());
    proof {
        assert(rs[pk as int].children.insert(len as int, child@) =~= rs[pk as int].children.push(child@));
    }
    true
}

} // verus!
