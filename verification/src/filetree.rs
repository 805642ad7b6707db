//! Decisions of the project's file tree: which move a drag and drop asks for, and where the
//! context menu of a node adds a new object.
use vstd::prelude::*;
use crate::indexing::InsertPosition;
use crate::reference::FileID;
use crate::search::{Page, PageV};
use crate::text::str_equal;
use crate::tree::{ObjectRecord, RecordV, find_object_parent, index_of_id, opt_id, parent_index, record_of, records};

verus! {

/// Where in a folder of the tree an object is dropped: first or last, or before or after
/// one of the nodes in it.
#[derive(Debug)]
pub enum DropPosition {
    First,
    Last,
    Before(Page),
    After(Page),
}

/// A move of the object `moving` out of its folder `source` to the index `index` of the
/// folder `target`.
#[derive(Debug)]
pub struct TreeMove {
    pub moving: FileID,
    pub source: FileID,
    pub target: FileID,
    pub index: usize,
}

/// The value of a [`TreeMove`].
pub open spec fn move_v(m: TreeMove) -> (Seq<char>, Seq<char>, Seq<char>, int) {
    (m.moving@, m.source@, m.target@, m.index as int)
}

/// The index in the target folder that a drop at `position` means, the folder holding
/// `children_count` children and the node named by the position (if it names one) having
/// the index `node_index`: none where the position names something that is not a file
/// object.
pub open spec fn drop_index_spec(position: DropPosition, children_count: int, node_index: Option<usize>) -> Option<int> {
    match position {
        DropPosition::First => Some(0),
        DropPosition::Last => Some(children_count),
        DropPosition::Before(p) => if p@ is FileObject { Some(node_index->0 as int) } else { None },
        DropPosition::After(p) => if p@ is FileObject { Some(node_index->0 + 1) } else { None },
    }
}

/// The object being dragged, where it is a file object other than a top-level folder, and
/// the target, where it is a file object.
pub open spec fn movable(dragged: PageV, target: PageV, roots: Seq<Seq<char>>) -> bool {
    &&& dragged is FileObject
    &&& target is FileObject
    &&& !roots.contains(dragged->FileObject_0)
}

/// What dropping `dragged` at `position` in `target` comes to, among the objects `rs` with
/// the top-level folders `roots`: the move, or none.
pub open spec fn tree_move_spec(rs: Seq<RecordV>, roots: Seq<Seq<char>>, dragged: PageV, target: PageV,
    position: DropPosition, node_index: Option<usize>) -> Option<(Seq<char>, Seq<char>, Seq<char>, int)>
{
    if !movable(dragged, target, roots) {
        None
    } else {
        let m = dragged->FileObject_0;
        let t = target->FileObject_0;
        let count = match record_of(rs, t) { Some(k) => rs[k].children.len() as int, None => 0 };
        match drop_index_spec(position, count, node_index) {
            None => None,
            Some(i) => match parent_index(rs, m) {
                Some(k) => Some((m, rs[k].id, t, i)),
                None => None,
            },
        }
    }
}

fn is_root(roots: &Vec<FileID>, id: &str) -> (r: bool)
    ensures
        r == roots@.map_values(|s: FileID| s@).contains(id@),
{
    let ghost rv = roots@.map_values(|s: FileID| s@);
    let mut k: usize = 0;
    while k < roots.len()
        invariant
            k <= roots.len(),
            rv == roots@.map_values(|s: FileID| s@),
            forall|j: int| 0 <= j < k ==> rv[j] != id@,
        decreases roots.len() - k,
    {
        assert(rv[k as int] == roots@[k as int]@);
        if str_equal(roots[k].as_str(), id) {
            return true;
        }
        k = k + 1;
    }
    proof {
        if rv.contains(id@) {
            let w = choose|w: int| 0 <= w < rv.len() && rv[w] == id@;
            assert(rv[w] != id@);
        }
    }
    false
}

/// The move that dropping `dragged` at `position` in `target` asks for in the file tree,
/// `objects` being the loaded objects and `roots` the top-level folders: only a file object
/// other than a top-level folder can be dropped, only into a file object; first means index
/// 0, last the number of children of the target, before a node that node's index
/// `node_index` and after it the next one. None where the position names something other
/// than a file object, or where the dragged object has no parent.
pub fn plan_tree_move(objects: &Vec<ObjectRecord>, roots: &Vec<FileID>, dragged: &Page, target: &Page,
    position: &DropPosition, node_index: Option<usize>) -> (r: Option<TreeMove>)
    requires
        movable(dragged@, target@, roots@.map_values(|s: FileID| s@)) ==> {
            &&& (*position is Last ==> record_of(records(objects@), target@->FileObject_0) is Some)
            &&& (position matches DropPosition::Before(p) && p@ is FileObject ==> node_index is Some)
            &&& (position matches DropPosition::After(p) && p@ is FileObject ==> (node_index matches Some(i) && i < usize::MAX))
        },
    ensures
        match r {
            Some(m) => tree_move_spec(records(objects@), roots@.map_values(|s: FileID| s@), dragged@, target@,
                *position, node_index) == Some(move_v(m)),
            None => tree_move_spec(records(objects@), roots@.map_values(|s: FileID| s@), dragged@, target@,
                *position, node_index) is None,
        },
{
    let moving = match dragged {
        Page::FileObject(id) => id,
        _ => {
            return None;
        },
    };
    let target_id = match target {
        Page::FileObject(id) => id,
        _ => {
            return None;
        },
    };
    if is_root(roots, moving.as_str()) {
        return None;
    }
    let index: usize = match position {
        DropPosition::First => 0,
        DropPosition::Last => {
            let k = index_of_id(objects, target_id.as_str());
            match k {
                Some(k) => {
                    assert(records(objects@)[k as int] == objects@[k as int]@);
                    objects[k].children.len()
                },
                None => {
                    return None;
                },
            }
        },
        DropPosition::Before(p) => match p {
            Page::FileObject(_) => match node_index {
                Some(i) => i,
                None => {
                    return None;
                },
            },
            _ => {
                return None;
            },
        },
        DropPosition::After(p) => match p {
            Page::FileObject(_) => match node_index {
                Some(i) => i + 1,
                None => {
                    return None;
                },
            },
            _ => {
                return None;
            },
        },
    };
    let source = find_object_parent(objects, moving.as_str());
    match source {
        Some(source) => {
            assert(opt_id(Some(source)) == Some(source@));
            Some(TreeMove { moving: moving.clone(), source, target: target_id.clone(), index })
        },
        None => None,
    }
}

/// Where the context menu of the node of the object `id` adds a new object: into the object
/// itself, at the end, where it is a folder; else into its parent `parent_id`, just after it.
pub fn add_target(is_folder: bool, id: &FileID, parent_id: &Option<FileID>) -> (r: (FileID, InsertPosition))
    requires
        is_folder || parent_id is Some,
    ensures
        is_folder ==> r.0@ == id@ && r.1 is Last,
        !is_folder ==> r.0@ == parent_id->0@ && (r.1 matches InsertPosition::After(c) && c@ == id@),
{
    if is_folder {
        (id.clone(), InsertPosition::Last)
    } else {
        match parent_id {
            Some(p) => (p.clone(), InsertPosition::After(id.clone())),
            None => (id.clone(), InsertPosition::Last),
        }
    }
}

} // verus!
