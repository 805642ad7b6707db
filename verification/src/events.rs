//! Deciding what to do about changes that happen to a project's files on disk: which
//! events are noise, which objects to take out of their parents and which paths to load
//! again. Paths are given as their components.
use vstd::prelude::*;
use crate::text::{chars_of, str_equal};

verus! {

/// The components of a path, as text.
pub open spec fn comps(p: Seq<String>) -> Seq<Seq<char>> {
    p.map_values(|s: String| s@)
}

/// Whether the components `a` and `b` are the same.
pub fn same_path(a: &Vec<String>, b: &Vec<String>) -> (r: bool)
    ensures
        r == (comps(a@) == comps(b@)),
{
    if a.len() != b.len() {
        proof {
            assert(comps(a@).len() != comps(b@).len());
        }
        return false;
    }
    let mut i: usize = 0;
    while i < a.len()
        invariant
            a.len() == b.len(),
            i <= a.len(),
            forall|j: int| 0 <= j < i ==> #[trigger] a@[j]@ == b@[j]@,
        decreases a.len() - i,
    {
        if !str_equal(a[i].as_str(), b[i].as_str()) {
            proof {
                assert(comps(a@)[i as int] != comps(b@)[i as int]);
            }
            return false;
        }
        i = i + 1;
    }
    assert(comps(a@) =~= comps(b@));
    true
}

/// Whether the path `p` starts with the path `q`, component by component
/// (`Path::starts_with`).
pub open spec fn path_prefix(q: Seq<Seq<char>>, p: Seq<Seq<char>>) -> bool {
    q.len() <= p.len() && p.take(q.len() as int) == q
}

/// Whether `b` starts with the components of `a`.
pub fn starts_with_path(b: &Vec<String>, a: &Vec<String>) -> (r: bool)
    ensures
        r == path_prefix(comps(a@), comps(b@)),
{
    if a.len() > b.len() {
        return false;
    }
    let mut i: usize = 0;
    while i < a.len()
        invariant
            a.len() <= b.len(),
            i <= a.len(),
            forall|j: int| 0 <= j < i ==> #[trigger] a@[j]@ == b@[j]@,
        decreases a.len() - i,
    {
        if !str_equal(a[i].as_str(), b[i].as_str()) {
            proof {
                assert(comps(b@).take(a.len() as int)[i as int] != comps(a@)[i as int]);
            }
            return false;
        }
        i = i + 1;
    }
    assert(comps(b@).take(a.len() as int) =~= comps(a@));
    true
}

/// What kind of change an event reports.
#[derive(Debug, Clone, Copy, PartialEq, Eq, Structural)]
pub enum EventKind {
    Create,
    /// The contents of a file changed.
    ModifyData,
    /// A file was renamed away from the path.
    RenameFrom,
    /// A file was renamed to the path.
    RenameTo,
    /// A file was renamed from the first path to the last.
    RenameBoth,
    /// Any other modification.
    ModifyOther,
    Remove,
    /// A file was opened or read.
    Access,
    Other,
}

/// A change to files on disk, with the paths it concerns.
#[derive(Debug)]
pub struct FileEvent {
    pub kind: EventKind,
    pub paths: Vec<Vec<String>>,
}

/// An event is noise when it concerns a `.git` directory or is only an access.
pub open spec fn is_noise(kind: EventKind, paths: Seq<Seq<Seq<char>>>) -> bool {
    ||| exists|i: int, j: int| 0 <= i < paths.len() && 0 <= j < paths[i].len() && #[trigger] paths[i][j] == ".git"@
    ||| kind == EventKind::Access
}

pub open spec fn event_paths(e: FileEvent) -> Seq<Seq<Seq<char>>> {
    e.paths@.map_values(|p: Vec<String>| comps(p@))
}

/// Whether an event is to be ignored.
pub fn is_noise_event(e: &FileEvent) -> (r: bool)
    ensures
        r == is_noise(e.kind, event_paths(*e)),
{
    let ghost ps = event_paths(*e);
    let mut i: usize = 0;
    while i < e.paths.len()
        invariant
            i <= e.paths.len(),
            ps == event_paths(*e),
            forall|a: int, b: int| 0 <= a < i && 0 <= b < ps[a].len() ==> #[trigger] ps[a][b] != ".git"@,
        decreases e.paths.len() - i,
    {
        let mut j: usize = 0;
        while j < e.paths[i].len()
            invariant
                i < e.paths.len(),
                j <= e.paths[i as int].len(),
                ps == event_paths(*e),
                forall|b: int| 0 <= b < j ==> #[trigger] ps[i as int][b] != ".git"@,
            decreases e.paths[i as int].len() - j,
        {
            assert(ps[i as int][j as int] == e.paths@[i as int]@[j as int]@);
            if str_equal(e.paths[i][j].as_str(), ".git") {
                return true;
            }
            j = j + 1;
        }
        i = i + 1;
    }
    match e.kind {
        EventKind::Access => true,
        _ => false,
    }
}

/// What an event asks for: the path whose object is taken out of its parent, and the path
/// to load again.
#[derive(Debug)]
pub struct EventPlan {
    pub remove: Option<Vec<String>>,
    pub load: Option<Vec<String>>,
}

pub open spec fn opt_comps(p: Option<Vec<String>>) -> Option<Seq<Seq<char>>> {
    match p {
        Some(v) => Some(comps(v@)),
        None => None,
    }
}

/// The paths that an event removes and loads, given its first and last path.
pub open spec fn plan_of(kind: EventKind, first: Option<Seq<Seq<char>>>, last: Option<Seq<Seq<char>>>) -> (Option<Seq<Seq<char>>>, Option<Seq<Seq<char>>>) {
    match kind {
        EventKind::Create => (None, first),
        EventKind::ModifyData => (first, first),
        EventKind::RenameFrom => (first, None),
        EventKind::RenameTo => (last, last),
        EventKind::RenameBoth => (first, last),
        EventKind::ModifyOther => if first is Some && last is Some { (first, last) } else { (None, None) },
        EventKind::Remove => (first, None),
        _ => (None, None),
    }
}

/// What an event asks for: a removal or the source side of a rename takes out its first
/// path and loads nothing (a rename with both sides loads its last path); a creation takes
/// out nothing and loads its first path; the destination side of a rename takes out and
/// loads its last path; a change of contents takes out and loads its first path. Only
/// creations, renames to a path and modifications load anything, and an access or an
/// unknown event asks for nothing.
pub proof fn plans_follow_the_event(kind: EventKind, first: Seq<Seq<char>>, last: Seq<Seq<char>>)
    ensures
        (kind == EventKind::Remove || kind == EventKind::RenameFrom || kind == EventKind::RenameBoth)
            ==> plan_of(kind, Some(first), Some(last)).0 == Some(first),
        (kind == EventKind::Remove || kind == EventKind::RenameFrom) ==> plan_of(kind, Some(first), Some(last)).1 is None,
        kind == EventKind::RenameBoth ==> plan_of(kind, Some(first), Some(last)).1 == Some(last),
        kind == EventKind::Create ==> plan_of(kind, Some(first), Some(last)) == (None::<Seq<Seq<char>>>, Some(first)),
        kind == EventKind::RenameTo ==> plan_of(kind, Some(first), Some(last)) == (Some(last), Some(last)),
        kind == EventKind::ModifyData ==> plan_of(kind, Some(first), Some(last)) == (Some(first), Some(first)),
        plan_of(kind, Some(first), Some(last)).1 is Some ==> (kind == EventKind::Create || kind == EventKind::RenameTo
            || kind == EventKind::RenameBoth || kind == EventKind::ModifyData || kind == EventKind::ModifyOther),
        (kind == EventKind::Access || kind == EventKind::Other)
            ==> plan_of(kind, Some(first), Some(last)) == (None::<Seq<Seq<char>>>, None::<Seq<Seq<char>>>),
{
}

/// Whether an event of this kind must name at least one path.
pub open spec fn needs_path(kind: EventKind) -> bool {
    match kind {
        EventKind::Create | EventKind::ModifyData | EventKind::RenameFrom | EventKind::RenameTo
            | EventKind::RenameBoth | EventKind::Remove => true,
        _ => false,
    }
}

pub(crate) fn clone_path(p: &Vec<String>) -> (r: Vec<String>)
    ensures
        comps(r@) == comps(p@),
{
    let mut out: Vec<String> = Vec::new();
    let mut i: usize = 0;
    while i < p.len()
        invariant
            i <= p.len(),
            out.len() == i,
            comps(out@) == comps(p@).take(i as int),
        decreases p.len() - i,
    {
        let c = p[i].clone();
        let ghost before = out@;
        out.push(c);
        proof {
            assert(out@ == before.push(c));
            assert(comps(out@)[i as int] == c@);
        }
        i = i + 1;
        assert(comps(out@) =~= comps(p@).take(i as int));
    }
    assert(comps(p@).take(p.len() as int) =~= comps(p@));
    out
}

/// Decides what an event asks for, by its kind: a creation loads its path; a change of
/// contents takes the object out and loads it again; a rename takes out the source and
/// loads the destination; a removal takes the object out.
pub fn plan_event(e: &FileEvent) -> (r: EventPlan)
    requires
        needs_path(e.kind) ==> e.paths.len() > 0,
    ensures
        (opt_comps(r.remove), opt_comps(r.load)) == plan_of(e.kind,
            if e.paths.len() > 0 { Some(comps(e.paths@[0]@)) } else { None },
            if e.paths.len() > 0 { Some(comps(e.paths@[e.paths.len() - 1]@)) } else { None }),
{
    let n = e.paths.len();
    match e.kind {
        EventKind::Create => EventPlan { remove: None, load: Some(clone_path(&e.paths[0])) },
        EventKind::ModifyData => EventPlan { remove: Some(clone_path(&e.paths[0])), load: Some(clone_path(&e.paths[0])) },
        EventKind::RenameFrom => EventPlan { remove: Some(clone_path(&e.paths[0])), load: None },
        EventKind::RenameTo => EventPlan { remove: Some(clone_path(&e.paths[n - 1])), load: Some(clone_path(&e.paths[n - 1])) },
        EventKind::RenameBoth => EventPlan { remove: Some(clone_path(&e.paths[0])), load: Some(clone_path(&e.paths[n - 1])) },
        EventKind::ModifyOther => {
            if n > 0 {
                EventPlan { remove: Some(clone_path(&e.paths[0])), load: Some(clone_path(&e.paths[n - 1])) }
            } else {
                EventPlan { remove: None, load: None }
            }
        },
        EventKind::Remove => EventPlan { remove: Some(clone_path(&e.paths[0])), load: None },
        _ => EventPlan { remove: None, load: None },
    }
}

/// A path to load is kept unless another (different) path to load is a prefix of it:
/// loading that one loads this one too.
pub open spec fn kept_for_loading(ps: Seq<Seq<Seq<char>>>, p: Seq<Seq<char>>) -> bool {
    !exists|j: int| 0 <= j < ps.len() && ps[j] != p && #[trigger] path_prefix(ps[j], p)
}

pub open spec fn path_list(ps: Seq<Vec<String>>) -> Seq<Seq<Seq<char>>> {
    ps.map_values(|p: Vec<String>| comps(p@))
}

/// The paths to load, each once, without those inside another path to load.
pub fn paths_to_load(paths: &Vec<Vec<String>>) -> (r: Vec<Vec<String>>)
    ensures
        ({
            let ps = path_list(paths@);
            let rs = path_list(r@);
            &&& forall|i: int| 0 <= i < rs.len() ==> ps.contains(#[trigger] rs[i]) && kept_for_loading(ps, rs[i])
            &&& forall|i: int| 0 <= i < ps.len() && kept_for_loading(ps, ps[i]) ==> rs.contains(#[trigger] ps[i])
            &&& forall|i: int, j: int| 0 <= i < j < rs.len() ==> rs[i] != rs[j]
        }),
{
    let ghost ps = path_list(paths@);
    let mut out: Vec<Vec<String>> = Vec::new();
    let mut i: usize = 0;
    while i < paths.len()
        invariant
            i <= paths.len(),
            ps == path_list(paths@),
            forall|a: int| 0 <= a < path_list(out@).len() ==> ps.contains(#[trigger] path_list(out@)[a]) && kept_for_loading(ps, path_list(out@)[a]),
            forall|a: int| 0 <= a < i && kept_for_loading(ps, ps[a]) ==> path_list(out@).contains(#[trigger] ps[a]),
            forall|a: int, b: int| 0 <= a < b < path_list(out@).len() ==> path_list(out@)[a] != path_list(out@)[b],
        decreases paths.len() - i,
    {
        let ghost p = ps[i as int];
        assert(p == comps(paths@[i as int]@));
        // is it inside another path?
        let mut inside = false;
        let mut j: usize = 0;
        while j < paths.len()
            invariant
                i < paths.len(),
                j <= paths.len(),
                ps == path_list(paths@),
                p == ps[i as int],
                inside == exists|k: int| 0 <= k < j && ps[k] != p && #[trigger] path_prefix(ps[k], p),
            decreases paths.len() - j,
        {
            assert(ps[j as int] == comps(paths@[j as int]@));
            if !same_path(&paths[j], &paths[i]) && starts_with_path(&paths[i], &paths[j]) {
                inside = true;
            }
            j = j + 1;
        }
        // already taken?
        let mut seen = false;
        let mut k: usize = 0;
        while k < out.len()
            invariant
                i < paths.len(),
                k <= out.len(),
                ps == path_list(paths@),
                p == ps[i as int],
                seen == exists|m: int| 0 <= m < k && #[trigger] path_list(out@)[m] == p,
            decreases out.len() - k,
        {
            assert(path_list(out@)[k as int] == comps(out@[k as int]@));
            if same_path(&out[k], &paths[i]) {
                seen = true;
            }
            k = k + 1;
        }
        let ghost before = path_list(out@);
        if !inside && !seen {
            out.push(clone_path(&paths[i]));
            proof {
                assert(path_list(out@) =~= before.push(p));
                assert forall|a: int| 0 <= a < i + 1 && kept_for_loading(ps, ps[a]) implies path_list(out@).contains(#[trigger] ps[a]) by {
                    if a < i {
                        let w = choose|w: int| 0 <= w < before.len() && before[w] == ps[a];
                        assert(path_list(out@)[w] == ps[a]);
                    } else {
                        assert(path_list(out@)[before.len() as int] == ps[a]);
                    }
                }
            }
        } else {
            proof {
                assert forall|a: int| 0 <= a < i + 1 && kept_for_loading(ps, ps[a]) implies path_list(out@).contains(#[trigger] ps[a]) by {
                    if a == i {
                        if seen {
                            let m = choose|m: int| 0 <= m < out.len() && #[trigger] path_list(out@)[m] == p;
                            assert(path_list(out@)[m] == ps[a]);
                        }
                    }
                }
            }
        }
        i = i + 1;
    }
    out
}

/// Position of the last `c` in `s`.
pub open spec fn last_index_of(s: Seq<char>, c: char) -> Option<int>
    decreases s.len(),
{
    if s.len() == 0 {
        None
    } else if s.last() == c {
        Some(s.len() - 1)
    } else {
        last_index_of(s.drop_last(), c)
    }
}

/// The extension of a file name (`Path::extension`): what follows its last `.`, unless
/// there is none, or the only one begins the name, or the name is `..`.
pub open spec fn extension_of(name: Seq<char>) -> Option<Seq<char>> {
    if name.len() == 2 && name[0] == '.' && name[1] == '.' {
        None
    } else {
        match last_index_of(name, '.') {
            Some(p) => if p > 0 { Some(name.skip(p + 1)) } else { None },
            None => None,
        }
    }
}

proof fn lemma_last_index_of(s: Seq<char>, c: char, k: int)
    requires
        0 <= k <= s.len(),
        forall|j: int| k <= j < s.len() ==> s[j] != c,
        k == 0 || s[k - 1] == c,
    ensures
        last_index_of(s, c) == if k == 0 { None } else { Some(k - 1) },
    decreases s.len(),
{
    if s.len() > k {
        assert(s.drop_last().len() == s.len() - 1);
        lemma_last_index_of(s.drop_last(), c, k);
    }
}

/// The extension of the file name `name`.
pub fn extension(name: &str) -> (r: Option<String>)
    ensures
        match r {
            Some(e) => extension_of(name@) == Some(e@),
            None => extension_of(name@) is None,
        },
{
    let v = chars_of(name);
    if v.len() == 2 && v[0] == '.' && v[1] == '.' {
        return None;
    }
    let mut k: usize = v.len();
    while k > 0 && v[k - 1] != '.'
        invariant
            k <= v.len(),
            v@ == name@,
            forall|j: int| k <= j < v.len() ==> v@[j] != '.',
        decreases k,
    {
        k = k - 1;
    }
    proof {
        lemma_last_index_of(name@, '.', k as int);
    }
    if k > 1 {
        let mut out = String::new();
        let mut j: usize = k;
        while j < v.len()
            invariant
                k <= j <= v.len(),
                v@ == name@,
                out@ == name@.subrange(k as int, j as int),
            decreases v.len() - j,
        {
            crate::text::push_char(&mut out, v[j]);
            j = j + 1;
            assert(out@ =~= name@.subrange(k as int, j as int));
        }
        assert(name@.subrange(k as int, j as int) =~= name@.skip(k as int));
        Some(out)
    } else {
        None
    }
}

/// Whether a change at `path` can concern the project at `project`: a file with no
/// extension (a folder), or a `.md` or `.toml` one, that is not hidden, inside the
/// project's `text`, `characters` or `worldbuilding` folder.
pub open spec fn relevant_path(project: Seq<Seq<char>>, path: Seq<Seq<char>>) -> bool {
    &&& path.len() > 0
    &&& (match extension_of(path.last()) {
        Some(e) => e == "md"@ || e == "toml"@,
        None => true,
    })
    &&& !(path.last().len() > 0 && path.last()[0] == '.')
    &&& path_prefix(project, path)
    &&& path.len() > project.len()
    &&& (path[project.len() as int] == "text"@ || path[project.len() as int] == "characters"@
        || path[project.len() as int] == "worldbuilding"@)
}

/// Whether a change at `path` can concern the project at `project`, as
/// [`relevant_path`] says.
pub fn is_relevant_event_path(project: &Vec<String>, path: &Vec<String>) -> (r: bool)
    ensures
        r == relevant_path(comps(project@), comps(path@)),
{
    if path.len() == 0 {
        return false;
    }
    let name = path[path.len() - 1].as_str();
    assert(comps(path@).last() == name@);
    match extension(name) {
        Some(e) => {
            if !(str_equal(e.as_str(), "md") || str_equal(e.as_str(), "toml")) {
                return false;
            }
        },
        None => {},
    }
    let nv = chars_of(name);
    if nv.len() > 0 && nv[0] == '.' {
        return false;
    }
    if !starts_with_path(path, project) {
        return false;
    }
    if path.len() <= project.len() {
        return false;
    }
    let top = path[project.len()].as_str();
    assert(comps(path@)[project.len() as int] == top@);
    str_equal(top, "text") || str_equal(top, "characters") || str_equal(top, "worldbuilding")
}

/// The path of the object that a change at `path` concerns: a folder's metadata file
/// stands for the folder.
pub open spec fn object_path_of(path: Seq<Seq<char>>) -> Seq<Seq<char>> {
    if path.len() > 0 && path.last() == "metadata.toml"@ {
        path.drop_last()
    } else {
        path
    }
}

/// The path of the object that a change at `path` concerns.
pub fn object_path(path: &Vec<String>) -> (r: Vec<String>)
    ensures
        comps(r@) == object_path_of(comps(path@)),
{
    let mut out = clone_path(path);
    if out.len() > 0 && str_equal(out[out.len() - 1].as_str(), "metadata.toml") {
        let ghost before = out@;
        out.pop();
        assert(comps(out@) =~= comps(before).drop_last());
    }
    out
}

/// The path of the folder that holds the object at `path` (`path` may be a folder's
/// metadata file).
pub open spec fn parent_path_of(path: Seq<Seq<char>>) -> Seq<Seq<char>> {
    object_path_of(path).drop_last()
}

/// The path of the folder that holds the object at `path`.
pub fn get_parent_path(path: &Vec<String>) -> (r: Vec<String>)
    requires
        object_path_of(comps(path@)).len() > 0,
    ensures
        comps(r@) == parent_path_of(comps(path@)),
{
    let mut out = object_path(path);
    let ghost before = out@;
    out.pop();
    assert(comps(out@) =~= comps(before).drop_last());
    out
}

/// The first and last path of an event.
pub open spec fn first_last(paths: Seq<Seq<Seq<char>>>) -> (Option<Seq<Seq<char>>>, Option<Seq<Seq<char>>>) {
    if paths.len() > 0 { (Some(paths[0]), Some(paths[paths.len() - 1])) } else { (None, None) }
}

/// What a batch of events asks for, in order: the paths whose objects are taken out of
/// their parents, and the paths to load again (before removing those inside others).
pub open spec fn batch_plan(kinds: Seq<EventKind>, paths: Seq<Seq<Seq<Seq<char>>>>) -> (Seq<Seq<Seq<char>>>, Seq<Seq<Seq<char>>>)
    decreases kinds.len(),
{
    if kinds.len() == 0 || paths.len() != kinds.len() {
        (seq![], seq![])
    } else {
        let prev = batch_plan(kinds.drop_last(), paths.drop_last());
        let k = kinds.last();
        let ps = paths.last();
        if is_noise(k, ps) {
            prev
        } else {
            let (rm, ld) = plan_of(k, first_last(ps).0, first_last(ps).1);
            (match rm { Some(p) => prev.0.push(p), None => prev.0 },
             match ld { Some(p) => prev.1.push(p), None => prev.1 })
        }
    }
}

pub open spec fn event_kinds(es: Seq<FileEvent>) -> Seq<EventKind> {
    es.map_values(|e: FileEvent| e.kind)
}

pub open spec fn all_event_paths(es: Seq<FileEvent>) -> Seq<Seq<Seq<Seq<char>>>> {
    es.map_values(|e: FileEvent| event_paths(e))
}

/// How long the watcher of the project folder gathers changes into one event, in
/// milliseconds.
pub const WATCHER_MSEC_DURATION: u64 = 1000;

/// Queues `event`, a change seen on disk, unless it is noise. Returns whether it was queued
/// (the time of the last queued event is then now).
pub fn queue_event(queue: &mut Vec<FileEvent>, event: FileEvent) -> (r: bool)
    ensures
        r == !is_noise(event.kind, event_paths(event)),
        final(queue)@ == (if r { old(queue)@.push(event) } else { old(queue)@ }),
{
    if is_noise_event(&event) {
        false
    } else {
        queue.push(event);
        true
    }
}

/// Whether the queued changes are to be handled now: once no change has been queued for
/// twice the watcher's wait, `since_last_queued_ms` being the milliseconds since the last
/// one was (none when none ever was).
pub fn ready_to_process(since_last_queued_ms: Option<u128>) -> (r: bool)
    ensures
        r == (since_last_queued_ms matches Some(t) && t > 2 * WATCHER_MSEC_DURATION),
{
    match since_last_queued_ms {
        Some(t) => t > 2 * (WATCHER_MSEC_DURATION as u128),
        None => false,
    }
}

/// No event of `queue` is noise.
pub open spec fn no_noise(queue: Seq<FileEvent>) -> bool {
    forall|i: int| 0 <= i < queue.len() ==> !is_noise(#[trigger] queue[i].kind, event_paths(queue[i]))
}

/// The events of `batch` that are not noise, in order.
pub open spec fn without_noise(batch: Seq<FileEvent>) -> Seq<FileEvent> {
    batch.filter(|e: FileEvent| !is_noise(e.kind, event_paths(e)))
}

/// Takes in a batch of changes that the watcher delivered: each one that is not noise is
/// queued, in order. Returns whether any was (the time of the last queued event is then
/// now).
pub fn receive_events(queue: &mut Vec<FileEvent>, batch: Vec<FileEvent>) -> (r: bool)
    ensures
        final(queue)@ == old(queue)@ + without_noise(batch@),
        r == (without_noise(batch@).len() > 0),
        no_noise(old(queue)@) ==> no_noise(final(queue)@),
{
    let ghost start = queue@;
    let ghost all = batch@;
    let mut any = false;
    let mut rest = batch;
    let n = rest.len();
    let mut k: usize = 0;
    while k < n
        invariant
            n == all.len(),
            k <= n,
            rest@ == all.skip(k as int),
            queue@ == start + without_noise(all.take(k as int)),
            any == (without_noise(all.take(k as int)).len() > 0),
        decreases n - k,
    {
        let ghost before = queue@;
        let e = rest.remove(0);
        proof {
            assert(e == all[k as int]);
        }
        let queued = queue_event(queue, e);
        if queued {
            any = true;
        }
        proof {
            let t1 = all.take(k + 1);
            assert(t1.drop_last() =~= all.take(k as int));
            assert(t1.last() == all[k as int]);
            reveal(Seq::filter);
            assert(without_noise(t1) == if !is_noise(all[k as int].kind, event_paths(all[k as int])) {
                without_noise(all.take(k as int)).push(all[k as int])
            } else {
                without_noise(all.take(k as int))
            });
            assert(rest@ =~= all.skip(k + 1));
        }
        k = k + 1;
    }
    proof {
        assert(all.take(n as int) =~= all);
        assert forall|i: int| 0 <= i < without_noise(all).len() implies
            !is_noise(#[trigger] without_noise(all)[i].kind, event_paths(without_noise(all)[i])) by {
            let f = |e: FileEvent| !is_noise(e.kind, event_paths(e));
            all.filter_lemma(f);
            assert(f(all.filter(f)[i]));
        }
    }
    any
}

/// Hands out the whole queue when it is time to process it (as [`ready_to_process`]
/// decides, from the milliseconds since the last event was queued), leaving the queue
/// empty; `None`, and the queue as it is, otherwise.
pub fn take_ready_batch(queue: &mut Vec<FileEvent>, since_last_queued_ms: Option<u128>) -> (r: Option<Vec<FileEvent>>)
    ensures
        match r {
            Some(b) => (since_last_queued_ms matches Some(t) && t > 2 * WATCHER_MSEC_DURATION)
                && b@ == old(queue)@ && final(queue)@ == Seq::<FileEvent>::empty(),
            None => !(since_last_queued_ms matches Some(t) && t > 2 * WATCHER_MSEC_DURATION)
                && final(queue)@ == old(queue)@,
        },
{
    if ready_to_process(since_last_queued_ms) {
        let mut batch: Vec<FileEvent> = Vec::new();
        std::mem::swap(&mut batch, queue);
        Some(batch)
    } else {
        None
    }
}

/// What the loop that watches the project folder does after a round.
#[derive(Debug)]
pub enum WatchAction {
    /// Keep waiting. `restart_clock`: an event was queued this round, so the time since the
    /// last queued event starts again now.
    Wait { restart_clock: bool },
    /// Apply these changes, the whole queue (which is now empty), and stop the clock.
    Apply(Vec<FileEvent>),
}

/// `r` and `new_queue` are what a round of the watch loop gives from the queue `queue`, the
/// delivered changes `batch` and the milliseconds since the last event was queued: when
/// something is queued, wait with the clock restarted; else apply the whole queue once the
/// wait is over; else wait.
pub open spec fn watch_round(queue: Seq<FileEvent>, batch: Seq<FileEvent>, since_last_queued_ms: Option<u128>,
    r: WatchAction, new_queue: Seq<FileEvent>) -> bool {
    let queued = without_noise(batch);
    let quiet = since_last_queued_ms matches Some(t) && t > 2 * WATCHER_MSEC_DURATION;
    if queued.len() > 0 {
        r == (WatchAction::Wait { restart_clock: true }) && new_queue == queue + queued
    } else if quiet {
        r matches WatchAction::Apply(b) && b@ == queue && new_queue == Seq::<FileEvent>::empty()
    } else {
        r == (WatchAction::Wait { restart_clock: false }) && new_queue == queue
    }
}

/// One round of the loop that watches the project folder: the changes `batch` that the
/// watcher delivered are queued, noise left out; when none was queued and the last event
/// was queued more than twice the watcher's wait ago (`since_last_queued_ms`), the queue
/// is handed out to be applied.
pub fn watch_step(queue: &mut Vec<FileEvent>, batch: Vec<FileEvent>, since_last_queued_ms: Option<u128>) -> (r: WatchAction)
    ensures
        no_noise(old(queue)@) ==> no_noise(final(queue)@),
        watch_round(old(queue)@, batch@, since_last_queued_ms, r, final(queue)@),
{
    if receive_events(queue, batch) {
        return WatchAction::Wait { restart_clock: true };
    }
    proof {
        assert(queue@ =~= old(queue)@);
    }
    match take_ready_batch(queue, since_last_queued_ms) {
        Some(b) => WatchAction::Apply(b),
        None => WatchAction::Wait { restart_clock: false },
    }
}

/// What a batch of file events asks for: noise is skipped; each other event takes its
/// object out of its parent and names a path to load, as [`plan_event`] decides. The paths
/// to load come each once, without those inside another path to load.
pub fn plan_updates(events: &Vec<FileEvent>) -> (r: (Vec<Vec<String>>, Vec<Vec<String>>))
    requires
        forall|i: int| 0 <= i < events.len() ==> !is_noise(#[trigger] events@[i].kind, event_paths(events@[i]))
            && needs_path(events@[i].kind) ==> events@[i].paths.len() > 0,
    ensures
        ({
            let plan = batch_plan(event_kinds(events@), all_event_paths(events@));
            let rs = path_list(r.1@);
            &&& path_list(r.0@) == plan.0
            &&& forall|i: int| 0 <= i < rs.len() ==> plan.1.contains(#[trigger] rs[i]) && kept_for_loading(plan.1, rs[i])
            &&& forall|i: int| 0 <= i < plan.1.len() && kept_for_loading(plan.1, plan.1[i]) ==> rs.contains(#[trigger] plan.1[i])
            &&& forall|i: int, j: int| 0 <= i < j < rs.len() ==> rs[i] != rs[j]
        }),
{
    let ghost ks = event_kinds(events@);
    let ghost ps = all_event_paths(events@);
    let mut removals: Vec<Vec<String>> = Vec::new();
    let mut loads: Vec<Vec<String>> = Vec::new();
    let mut i: usize = 0;
    while i < events.len()
        invariant
            i <= events.len(),
            ks == event_kinds(events@),
            ps == all_event_paths(events@),
            forall|j: int| 0 <= j < events.len() ==> !is_noise(#[trigger] events@[j].kind, event_paths(events@[j]))
                && needs_path(events@[j].kind) ==> events@[j].paths.len() > 0,
            (path_list(removals@), path_list(loads@)) == batch_plan(ks.take(i as int), ps.take(i as int)),
        decreases events.len() - i,
    {
        let e = &events[i];
        proof {
            assert(ks.take(i + 1).drop_last() =~= ks.take(i as int));
            assert(ps.take(i + 1).drop_last() =~= ps.take(i as int));
            assert(ks.take(i + 1).last() == e.kind);
            assert(ps.take(i + 1).last() == event_paths(*e));
        }
        if !is_noise_event(e) {
            let plan = plan_event(e);
            proof {
                if e.paths.len() > 0 {
                    assert(event_paths(*e)[0] == comps(e.paths@[0]@));
                    assert(event_paths(*e)[e.paths.len() - 1] == comps(e.paths@[e.paths.len() - 1]@));
                }
            }
            let ghost r0 = removals@;
            let ghost l0 = loads@;
            match plan.remove {
                Some(p) => {
                    removals.push(p);
                    assert(path_list(removals@) =~= path_list(r0).push(comps(removals@[removals.len() - 1]@)));
                },
                None => {},
            }
            match plan.load {
                Some(p) => {
                    loads.push(p);
                    assert(path_list(loads@) =~= path_list(l0).push(comps(loads@[loads.len() - 1]@)));
                },
                None => {},
            }
        }
        i = i + 1;
    }
    proof {
        assert(ks.take(i as int) =~= ks);
        assert(ps.take(i as int) =~= ps);
    }
    let to_load = paths_to_load(&loads);
    (removals, to_load)
}

/// What a changed path is to be loaded as.
#[derive(Debug)]
pub enum LoadTarget {
    /// The project's own file.
    ProjectInfo,
    /// The object at this path.
    Object(Vec<String>),
    /// Nothing that the project tracks.
    Ignore,
}

/// What loading `path` in the project at `project` comes to: the project file, the object
/// that the path stands for (a folder's metadata file stands for the folder), or nothing
/// when that object's path is not one the project tracks ([`relevant_path`]).
pub open spec fn load_target_of(project: Seq<Seq<char>>, path: Seq<Seq<char>>) -> Option<Option<Seq<Seq<char>>>> {
    if path == project.push("project.toml"@) {
        Some(None)
    } else if relevant_path(project, object_path_of(path)) {
        Some(Some(object_path_of(path)))
    } else {
        None
    }
}

/// Decides what loading a changed path comes to, as [`load_target_of`] says (`Some(None)`
/// stands for the project file, `None` for nothing).
pub fn load_target(project: &Vec<String>, path: &Vec<String>) -> (r: LoadTarget)
    ensures
        load_target_of(comps(project@), comps(path@)) == match r {
            LoadTarget::ProjectInfo => Some(None),
            LoadTarget::Object(p) => Some(Some(comps(p@))),
            LoadTarget::Ignore => None::<Option<Seq<Seq<char>>>>,
        },
{
    let mut info = clone_path(project);
    let ghost before = info@;
    info.push("project.toml".to_owned());
    assert(comps(info@) =~= comps(before).push("project.toml"@));
    if same_path(path, &info) {
        return LoadTarget::ProjectInfo;
    }
    let target = object_path(path);
    if is_relevant_event_path(project, &target) {
        LoadTarget::Object(target)
    } else {
        LoadTarget::Ignore
    }
}

} // verus!
