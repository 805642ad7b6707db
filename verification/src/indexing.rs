//! Keeping the children of a folder numbered: where a new child goes, which children
//! move to open a gap, what setting an index changes, and in which order the children
//! stand after a rescan of their file names.
use vstd::prelude::*;
use crate::naming::{index_from_name, get_index_from_name};
use crate::reference::FileID;
use crate::tree::{ids, position_of, find_position};

verus! {

/// What setting an object's index to a new value has to change.
#[derive(Debug, Clone, Copy, PartialEq, Eq, Structural)]
pub enum IndexUpdate {
    /// Both the index in memory and the one in the file name are already right.
    Unchanged,
    /// Only the file name has to be renamed.
    RenameFile,
    /// Only the index in memory has to be set.
    SetIndex,
    /// Both have to change.
    Both,
}

/// What setting the index to `new_index` changes, for an object with index `object_index`
/// whose file is named `basename`.
pub open spec fn index_update_spec(object_index: Option<usize>, basename: Seq<char>, new_index: usize) -> IndexUpdate {
    let in_memory = object_index == Some(new_index);
    let on_disk = index_from_name(basename) == Some(new_index as int);
    if in_memory && on_disk {
        IndexUpdate::Unchanged
    } else if in_memory {
        IndexUpdate::RenameFile
    } else if on_disk {
        IndexUpdate::SetIndex
    } else {
        IndexUpdate::Both
    }
}

/// Decides what setting the index of an object to `new_index` has to change.
pub fn index_update(object_index: Option<usize>, basename: &str, new_index: usize) -> (r: IndexUpdate)
    ensures
        r == index_update_spec(object_index, basename@, new_index),
{
    let in_memory = match object_index {
        Some(i) => i == new_index,
        None => false,
    };
    let on_disk = match get_index_from_name(basename) {
        Some(i) => i == new_index,
        None => false,
    };
    if in_memory && on_disk {
        IndexUpdate::Unchanged
    } else if in_memory {
        IndexUpdate::RenameFile
    } else if on_disk {
        IndexUpdate::SetIndex
    } else {
        IndexUpdate::Both
    }
}

/// Where a new child goes, relative to the children already there.
#[derive(Debug, Clone)]
pub enum InsertPosition {
    After(FileID),
    Before(FileID),
    First,
    Last,
}

/// Whether the children that `p` names are there.
pub open spec fn position_valid(children: Seq<Seq<char>>, p: InsertPosition) -> bool {
    match p {
        InsertPosition::After(c) => children.contains(c@),
        InsertPosition::Before(c) => children.contains(c@),
        _ => true,
    }
}

/// The index that a new child takes.
pub open spec fn insert_index_spec(children: Seq<Seq<char>>, p: InsertPosition) -> int {
    match p {
        InsertPosition::After(c) => match position_of(children, c@) { Some(k) => k + 1, None => 0 },
        InsertPosition::Before(c) => match position_of(children, c@) { Some(k) => k, None => 0 },
        InsertPosition::First => 0,
        InsertPosition::Last => children.len() as int,
    }
}

/// The index that a new child takes at `position` among `children`.
pub fn insert_index(children: &Vec<FileID>, position: &InsertPosition) -> (r: usize)
    requires
        position_valid(ids(children@), *position),
    ensures
        r == insert_index_spec(ids(children@), *position),
        r <= children.len(),
{
    match position {
        InsertPosition::After(c) => match find_position(children, c.as_str()) {
            Some(k) => k + 1,
            None => 0,
        },
        InsertPosition::Before(c) => match find_position(children, c.as_str()) {
            Some(k) => k,
            None => 0,
        },
        InsertPosition::First => 0,
        InsertPosition::Last => children.len(),
    }
}

/// The index changes that open a gap at `index` among `len` children: from the last child
/// back to the one at `index`, each moves up by one (so that no two files ever share a
/// name).
pub fn index_gap_moves(len: usize, index: usize) -> (r: Vec<(usize, usize)>)
    requires
        len < usize::MAX,
    ensures
        r.len() == if index < len { len - index } else { 0 },
        forall|k: int| 0 <= k < r.len() ==> #[trigger] r@[k] == ((len - 1 - k) as usize, (len - k) as usize),
{
    let mut out: Vec<(usize, usize)> = Vec::new();
    if index < len {
        let mut i: usize = len;
        while i > index
            invariant
                index < len < usize::MAX,
                index <= i <= len,
                out.len() == len - i,
                forall|k: int| 0 <= k < out.len() ==> #[trigger] out@[k] == ((len - 1 - k) as usize, (len - k) as usize),
            decreases i,
        {
            out.push((i - 1, i));
            i = i - 1;
        }
    }
    out
}

/// The key by which children are ordered on a rescan: the index in their file name, and
/// those without one last.
pub open spec fn order_key(name: Seq<char>) -> int {
    match index_from_name(name) {
        Some(i) => i,
        None => usize::MAX as int,
    }
}

/// `a` comes before `b`: by key, and among equal keys by their place before the rescan.
pub open spec fn before(keys: Seq<int>, a: int, b: int) -> bool {
    keys[a] < keys[b] || (keys[a] == keys[b] && a < b)
}

/// The keys of the children with file names `names`.
pub open spec fn keys_of(names: Seq<Seq<char>>) -> Seq<int> {
    names.map_values(|n: Seq<char>| order_key(n))
}

fn order_key_exec(name: &str) -> (r: usize)
    ensures
        r == order_key(name@),
{
    match get_index_from_name(name) {
        Some(i) => i,
        None => usize::MAX,
    }
}

/// The order of the children after a rescan, given their file names: a stable sort by
/// the index in the file name, those without one last. Returns the old positions in the
/// new order.
pub fn rescan_order(names: &Vec<String>) -> (r: Vec<usize>)
    ensures
        r.len() == names.len(),
        forall|k: int| 0 <= k < r.len() ==> #[trigger] r@[k] < names.len(),
        forall|a: int, b: int| 0 <= a < b < r.len() ==> r@[a] != r@[b],
        forall|a: int, b: int| 0 <= a < b < r.len() ==> before(keys_of(ids(names@)), r@[a] as int, r@[b] as int),
{
    let ghost keys = keys_of(ids(names@));
    let mut key_list: Vec<usize> = Vec::new();
    let mut i: usize = 0;
    while i < names.len()
        invariant
            i <= names.len(),
            keys == keys_of(ids(names@)),
            key_list.len() == i,
            forall|k: int| 0 <= k < i ==> #[trigger] key_list@[k] == keys[k],
        decreases names.len() - i,
    {
        key_list.push(order_key_exec(names[i].as_str()));
        i = i + 1;
    }
    let mut out: Vec<usize> = Vec::new();
    let mut i: usize = 0;
    while i < names.len()
        invariant
            i <= names.len(),
            keys == keys_of(ids(names@)),
            key_list.len() == names.len(),
            forall|k: int| 0 <= k < names.len() ==> #[trigger] key_list@[k] == keys[k],
            out.len() == i,
            forall|k: int| 0 <= k < out.len() ==> #[trigger] out@[k] < i,
            forall|a: int, b: int| 0 <= a < b < out.len() ==> out@[a] != out@[b],
            forall|a: int, b: int| 0 <= a < b < out.len() ==> before(keys, out@[a] as int, out@[b] as int),
        decreases names.len() - i,
    {
        // the first place whose key is greater than the new child's
        let mut p: usize = 0;
        while p < out.len() && key_list[out[p]] <= key_list[i]
            invariant
                i < names.len(),
                key_list.len() == names.len(),
                forall|k: int| 0 <= k < names.len() ==> #[trigger] key_list@[k] == keys[k],
                forall|k: int| 0 <= k < out.len() ==> #[trigger] out@[k] < i,
                p <= out.len(),
                forall|k: int| 0 <= k < p ==> keys[#[trigger] out@[k] as int] <= keys[i as int],
            decreases out.len() - p,
        {
            p = p + 1;
        }
        let ghost old_out = out@;
        proof {
            if p < out.len() {
                assert(keys[out@[p as int] as int] > keys[i as int]);
                assert forall|k: int| p <= k < out.len() implies keys[#[trigger] out@[k] as int] > keys[i as int] by {
                    if k > p {
                        assert(before(keys, out@[p as int] as int, out@[k] as int));
                    }
                }
            }
        }
        out.insert(p, i);
        proof {
            assert(out@ == old_out.insert(p as int, i));
            assert forall|a: int, b: int| 0 <= a < b < out.len() implies before(keys, out@[a] as int, out@[b] as int) by {
                if a < p && b == p {
                    assert(keys[old_out[a] as int] <= keys[i as int]);
                    assert(old_out[a] < i);
                } else if a == p {
                    assert(keys[old_out[b - 1] as int] > keys[i as int]);
                } else if a < p && b > p {
                    assert(before(keys, old_out[a] as int, old_out[b - 1] as int));
                } else if a > p {
                    assert(before(keys, old_out[a - 1] as int, old_out[b - 1] as int));
                } else {
                    assert(before(keys, old_out[a] as int, old_out[b] as int));
                }
            }
            assert forall|a: int, b: int| 0 <= a < b < out.len() implies out@[a] != out@[b] by {
                if a < p && b == p {
                    assert(old_out[a] < i);
                } else if a == p {
                    assert(old_out[b - 1] < i);
                } else if a < p && b > p {
                    assert(old_out[a] != old_out[b - 1]);
                } else if a > p {
                    assert(old_out[a - 1] != old_out[b - 1]);
                }
            }
        }
        i = i + 1;
    }
    out
}

/// Rescanning children whose file names are already numbered in order keeps them in
/// that order: any order that [`rescan_order`] may return is then the identity.
pub proof fn rescan_keeps_numbered_order(names: Seq<Seq<char>>, r: Seq<usize>)
    requires
        forall|a: int, b: int| 0 <= a < b < names.len() ==> order_key(names[a]) < order_key(names[b]),
        r.len() == names.len(),
        forall|k: int| 0 <= k < r.len() ==> #[trigger] r[k] < names.len(),
        forall|a: int, b: int| 0 <= a < b < r.len() ==> r[a] != r[b],
        forall|a: int, b: int| 0 <= a < b < r.len() ==> before(keys_of(names), r[a] as int, r[b] as int),
    ensures
        forall|k: int| 0 <= k < r.len() ==> r[k] == k,
{
    let keys = keys_of(names);
    let n = r.len();
    // the order is strictly increasing
    assert forall|a: int, b: int| 0 <= a < b < n implies r[a] < r[b] by {
        assert(before(keys, r[a] as int, r[b] as int));
        if r[a] > r[b] {
            assert(order_key(names[r[b] as int]) < order_key(names[r[a] as int]));
            assert(keys[r[b] as int] == order_key(names[r[b] as int]));
            assert(keys[r[a] as int] == order_key(names[r[a] as int]));
        }
    }
    assert forall|k: int| 0 <= k < n implies r[k] == k by {
        lemma_increasing_lower(r, k);
        lemma_increasing_upper(r, k, n as int);
    }
}

proof fn lemma_increasing_lower(r: Seq<usize>, k: int)
    requires
        0 <= k < r.len(),
        forall|a: int, b: int| 0 <= a < b < r.len() ==> r[a] < r[b],
    ensures
        r[k] >= k,
    decreases k,
{
    if k > 0 {
        lemma_increasing_lower(r, k - 1);
    }
}

proof fn lemma_increasing_upper(r: Seq<usize>, k: int, n: int)
    requires
        0 <= k < r.len(),
        n == r.len(),
        forall|j: int| 0 <= j < r.len() ==> #[trigger] r[j] < n,
        forall|a: int, b: int| 0 <= a < b < r.len() ==> r[a] < r[b],
    ensures
        r[k] <= k,
    decreases n - k,
{
    if k < n - 1 {
        lemma_increasing_upper(r, k + 1, n);
    }
}

} // verus!
