//! What the editor remembers between runs (its data file): the recent projects, the last
//! folders used, the pages open in each project, and the words the user chose to ignore.
use vstd::prelude::*;
use crate::events::{clone_path, comps, same_path};
use crate::dictionary::DictionaryState;
use crate::tree::{find_position, ids, position_of};
use crate::metadata::{TomlEntry, TomlValue, find_key, lookup};
use crate::text::str_equal;

verus! {

/// The data the editor keeps between runs. Paths are kept as the text they are written as.
#[derive(Debug)]
pub struct Data {
    pub recent_projects: Vec<String>,
    pub last_project_parent_folder: String,
    pub last_export_folder: String,
    /// For each project (by its ID, each at most once), the IDs of the pages open in it.
    pub last_open_file_ids: Vec<(String, Vec<String>)>,
    /// Words that the user chose to ignore.
    pub custom_dictionary: Vec<String>,
}

/// The value of a [`Data`].
pub struct DataV {
    pub recent_projects: Seq<Seq<char>>,
    pub last_project_parent_folder: Seq<char>,
    pub last_export_folder: Seq<char>,
    pub last_open_file_ids: Map<Seq<char>, Seq<Seq<char>>>,
    pub custom_dictionary: Seq<Seq<char>>,
}

/// The project IDs of the open pages lists.
pub open spec fn tab_keys(v: Seq<(String, Vec<String>)>) -> Seq<Seq<char>> {
    v.map_values(|p: (String, Vec<String>)| p.0@)
}

/// The open pages lists as a map from project ID to page IDs.
pub open spec fn tabs_map(v: Seq<(String, Vec<String>)>) -> Map<Seq<char>, Seq<Seq<char>>>
    decreases v.len(),
{
    if v.len() == 0 {
        Map::empty()
    } else {
        tabs_map(v.drop_last()).insert(v.last().0@, comps(v.last().1@))
    }
}

impl View for Data {
    type V = DataV;

    open spec fn view(&self) -> DataV {
        DataV {
            recent_projects: comps(self.recent_projects@),
            last_project_parent_folder: self.last_project_parent_folder@,
            last_export_folder: self.last_export_folder@,
            last_open_file_ids: tabs_map(self.last_open_file_ids@),
            custom_dictionary: comps(self.custom_dictionary@),
        }
    }
}

impl Data {
    /// No project is listed twice among the open pages lists.
    pub open spec fn wf(&self) -> bool {
        tab_keys(self.last_open_file_ids@).no_duplicates()
    }
}

/// The strings among the items of an array, in order.
pub open spec fn array_strings(items: Seq<TomlValue>) -> Seq<Seq<char>>
    decreases items.len(),
{
    if items.len() == 0 {
        Seq::empty()
    } else {
        let rest = array_strings(items.drop_last());
        match items.last() {
            TomlValue::Text(s) => rest.push(s@),
            _ => rest,
        }
    }
}

/// The open pages lists after reading the entries `es` of the `last_open_file_ids` table
/// over `m`: each entry whose value is an array sets the list of its project.
pub open spec fn loaded_tabs(es: Seq<TomlEntry>, m: Map<Seq<char>, Seq<Seq<char>>>) -> Map<Seq<char>, Seq<Seq<char>>>
    decreases es.len(),
{
    if es.len() == 0 {
        m
    } else {
        let rest = loaded_tabs(es.drop_last(), m);
        match es.last().value {
            TomlValue::Array(items) => rest.insert(es.last().key@, array_strings(items@)),
            _ => rest,
        }
    }
}

/// The data after reading the data file's entries `table` over `old`: the recent projects
/// and the ignored words from arrays of strings (the ignored words are added to those
/// known), the folders from strings, the open pages from a table of arrays; what is absent
/// or of another kind leaves the old value.
pub open spec fn loaded(old: DataV, table: Seq<TomlEntry>) -> DataV {
    DataV {
        recent_projects: match lookup(table, "recent_projects"@) {
            Some(TomlValue::Array(items)) => array_strings(items@),
            _ => old.recent_projects,
        },
        last_project_parent_folder: match lookup(table, "last_project_parent_folder"@) {
            Some(TomlValue::Text(s)) => s@,
            _ => old.last_project_parent_folder,
        },
        last_export_folder: match lookup(table, "last_export_folder"@) {
            Some(TomlValue::Text(s)) => s@,
            _ => old.last_export_folder,
        },
        last_open_file_ids: match lookup(table, "last_open_file_ids"@) {
            Some(TomlValue::Table(es)) => loaded_tabs(es@, old.last_open_file_ids),
            _ => old.last_open_file_ids,
        },
        custom_dictionary: match lookup(table, "custom_dictionary"@) {
            Some(TomlValue::Array(items)) => old.custom_dictionary + array_strings(items@),
            _ => old.custom_dictionary,
        },
    }
}

/// The strings of `items` that are strings, in order.
fn strings_of(items: &Vec<TomlValue>) -> (r: Vec<String>)
    ensures
        comps(r@) == array_strings(items@),
{
    let mut out: Vec<String> = Vec::new();
    let mut i: usize = 0;
    while i < items.len()
        invariant
            i <= items.len(),
            comps(out@) == array_strings(items@.take(i as int)),
        decreases items.len() - i,
    {
        proof {
            assert(items@.take(i + 1).drop_last() =~= items@.take(i as int));
            assert(items@.take(i + 1).last() == items@[i as int]);
        }
        match &items[i] {
            TomlValue::Text(s) => {
                let ghost before = out@;
                out.push(s.clone());
                assert(comps(out@) =~= comps(before).push(s@));
            },
            _ => {},
        }
        i = i + 1;
    }
    assert(items@.take(i as int) =~= items@);
    out
}

proof fn lemma_tabs_map_keys(v: Seq<(String, Vec<String>)>, key: Seq<char>)
    ensures
        tabs_map(v).contains_key(key) <==> tab_keys(v).contains(key),
    decreases v.len(),
{
    let tk = tab_keys(v);
    if v.len() > 0 {
        lemma_tabs_map_keys(v.drop_last(), key);
        let tl = tab_keys(v.drop_last());
        assert(tl =~= tk.drop_last());
        assert(tk[tk.len() - 1] == v.last().0@);
        if key == v.last().0@ {
            assert(tk.contains(key));
        } else {
            if tl.contains(key) {
                let k = choose|k: int| 0 <= k < tl.len() && tl[k] == key;
                assert(tk[k] == key);
            }
            if tk.contains(key) {
                let k = choose|k: int| 0 <= k < tk.len() && tk[k] == key;
                assert(k < tk.len() - 1);
                assert(tl[k] == key);
            }
        }
    } else {
        assert(tk =~= Seq::<Seq<char>>::empty());
    }
}

proof fn lemma_tabs_map_at(v: Seq<(String, Vec<String>)>, k: int)
    requires
        tab_keys(v).no_duplicates(),
        0 <= k < v.len(),
    ensures
        tabs_map(v).contains_key(v[k].0@),
        tabs_map(v)[v[k].0@] == comps(v[k].1@),
    decreases v.len(),
{
    if k < v.len() - 1 {
        assert(tab_keys(v.drop_last()) =~= tab_keys(v).drop_last());
        lemma_tabs_map_at(v.drop_last(), k);
        assert(tab_keys(v)[k] != tab_keys(v)[v.len() - 1]);
    }
}

/// Sets the open pages of the project `key` to `value`, in place where it is listed.
fn set_tabs(v: &mut Vec<(String, Vec<String>)>, key: String, value: Vec<String>)
    requires
        tab_keys(old(v)@).no_duplicates(),
    ensures
        tab_keys(final(v)@).no_duplicates(),
        tabs_map(final(v)@) == tabs_map(old(v)@).insert(key@, comps(value@)),
{
    let ghost before = v@;
    let mut k: usize = 0;
    while k < v.len()
        invariant
            v@ == before,
            before == old(v)@,
            tab_keys(before).no_duplicates(),
            k <= v.len(),
            forall|j: int| 0 <= j < k ==> v@[j].0@ != key@,
        decreases v.len() - k,
    {
        if str_equal(v[k].0.as_str(), key.as_str()) {
            let ghost kv = key@;
            let ghost vv = comps(value@);
            assert(before[k as int].0@ == kv);
            v.set(k, (key, value));
            proof {
                assert(v@ == before.update(k as int, v@[k as int]));
                assert(v@[k as int].0@ == kv);
                assert(tab_keys(v@) =~= tab_keys(before));
                assert forall|x: Seq<char>| #![trigger tabs_map(v@).contains_key(x)]
                    tabs_map(v@).contains_key(x) == tabs_map(before).insert(kv, vv).contains_key(x) by {
                    lemma_tabs_map_keys(v@, x);
                    lemma_tabs_map_keys(before, x);
                    assert(tab_keys(before)[k as int] == kv);
                }
                assert forall|x: Seq<char>| #[trigger] tabs_map(v@).contains_key(x) implies
                    tabs_map(v@)[x] == tabs_map(before).insert(kv, vv)[x] by {
                    lemma_tabs_map_keys(v@, x);
                    let w = choose|w: int| 0 <= w < tab_keys(v@).len() && tab_keys(v@)[w] == x;
                    lemma_tabs_map_at(v@, w);
                    if w != k {
                        assert(v@[w] == before[w]);
                        assert(tab_keys(v@)[w] != tab_keys(v@)[k as int]);
                        assert(x != kv);
                        lemma_tabs_map_at(before, w);
                    } else {
                        assert(x == kv);
                    }
                }
                assert(tabs_map(v@) =~= tabs_map(before).insert(kv, vv));
            }
            return;
        }
        k = k + 1;
    }
    let ghost kv = key@;
    v.push((key, value));
    proof {
        assert(v@.drop_last() =~= before);
        assert(tab_keys(v@) =~= tab_keys(before).push(kv));
        assert(!tab_keys(before).contains(kv)) by {
            if tab_keys(before).contains(kv) {
                let w = choose|w: int| 0 <= w < tab_keys(before).len() && tab_keys(before)[w] == kv;
                assert(before[w].0@ != kv);
            }
        }
    }
}

impl Data {
    /// The data of a first run: no project, the folders at the home folder `home_dir`.
    pub fn new(home_dir: &str) -> (r: Self)
        ensures
            r.wf(),
            r@.recent_projects == Seq::<Seq<char>>::empty(),
            r@.last_project_parent_folder == home_dir@,
            r@.last_export_folder == home_dir@,
            r@.last_open_file_ids == Map::<Seq<char>, Seq<Seq<char>>>::empty(),
            r@.custom_dictionary == Seq::<Seq<char>>::empty(),
    {
        let r = Data {
            recent_projects: Vec::new(),
            last_project_parent_folder: home_dir.to_string(),
            last_export_folder: home_dir.to_string(),
            last_open_file_ids: Vec::new(),
            custom_dictionary: Vec::new(),
        };
        assert(comps(r.recent_projects@) =~= Seq::<Seq<char>>::empty());
        assert(comps(r.custom_dictionary@) =~= Seq::<Seq<char>>::empty());
        assert(tab_keys(r.last_open_file_ids@) =~= Seq::<Seq<char>>::empty());
        r
    }

    /// Reads the entries `table` of the data file, as [`loaded`] says. The recent projects
    /// are all those listed; the caller keeps those that still exist.
    pub fn load(&mut self, table: &Vec<TomlEntry>)
        requires
            old(self).wf(),
        ensures
            final(self).wf(),
            final(self)@ == loaded(old(self)@, table@),
    {
        match find_key(table, "recent_projects") {
            Some(TomlValue::Array(items)) => {
                self.recent_projects = strings_of(items);
            },
            _ => {},
        }
        match find_key(table, "last_project_parent_folder") {
            Some(TomlValue::Text(s)) => {
                self.last_project_parent_folder = s.clone();
            },
            _ => {},
        }
        match find_key(table, "last_export_folder") {
            Some(TomlValue::Text(s)) => {
                self.last_export_folder = s.clone();
            },
            _ => {},
        }
        match find_key(table, "last_open_file_ids") {
            Some(TomlValue::Table(es)) => {
                let ghost m0 = tabs_map(self.last_open_file_ids@);
                let mut i: usize = 0;
                while i < es.len()
                    invariant
                        i <= es.len(),
                        tab_keys(self.last_open_file_ids@).no_duplicates(),
                        tabs_map(self.last_open_file_ids@) == loaded_tabs(es@.take(i as int), m0),
                        comps(self.recent_projects@) == loaded(old(self)@, table@).recent_projects,
                        self.last_project_parent_folder@ == loaded(old(self)@, table@).last_project_parent_folder,
                        self.last_export_folder@ == loaded(old(self)@, table@).last_export_folder,
                        self.custom_dictionary == old(self).custom_dictionary,
                    decreases es.len() - i,
                {
                    proof {
                        assert(es@.take(i + 1).drop_last() =~= es@.take(i as int));
                        assert(es@.take(i + 1).last() == es@[i as int]);
                    }
                    match &es[i].value {
                        TomlValue::Array(items) => {
                            let ids = strings_of(items);
                            set_tabs(&mut self.last_open_file_ids, es[i].key.clone(), ids);
                        },
                        _ => {},
                    }
                    i = i + 1;
                }
                assert(es@.take(i as int) =~= es@);
            },
            _ => {},
        }
        match find_key(table, "custom_dictionary") {
            Some(TomlValue::Array(items)) => {
                let words = strings_of(items);
                let ghost before = comps(self.custom_dictionary@);
                let mut i: usize = 0;
                while i < words.len()
                    invariant
                        i <= words.len(),
                        comps(self.custom_dictionary@) == before + comps(words@).take(i as int),
                        tab_keys(self.last_open_file_ids@).no_duplicates(),
                        tabs_map(self.last_open_file_ids@) == loaded(old(self)@, table@).last_open_file_ids,
                        comps(self.recent_projects@) == loaded(old(self)@, table@).recent_projects,
                        self.last_project_parent_folder@ == loaded(old(self)@, table@).last_project_parent_folder,
                        self.last_export_folder@ == loaded(old(self)@, table@).last_export_folder,
                    decreases words.len() - i,
                {
                    let w = words[i].clone();
                    let ghost prev = self.custom_dictionary@;
                    self.custom_dictionary.push(w);
                    assert(comps(self.custom_dictionary@) =~= comps(prev).push(w@));
                    assert(comps(words@).take(i + 1) =~= comps(words@).take(i as int).push(comps(words@)[i as int]));
                    i = i + 1;
                }
                assert(comps(words@).take(i as int) =~= comps(words@));
            },
            _ => {},
        }
    }
}

/// `v` is an array of the strings `s`, in order.
pub open spec fn string_array(v: TomlValue, s: Seq<Seq<char>>) -> bool {
    &&& v is Array
    &&& v->Array_0@.len() == s.len()
    &&& forall|i: int| 0 <= i < s.len() ==> (#[trigger] v->Array_0@[i] matches TomlValue::Text(t) && t@ == s[i])
}

/// `r` is what the data `d` is written as: its recent projects, its two folders, its open
/// pages (a table of arrays, by project) and its ignored words, under these keys and in
/// this order.
pub open spec fn saves(d: Data, r: Seq<TomlEntry>) -> bool {
    &&& r.len() == 5
    &&& r[0].key@ == "recent_projects"@ && string_array(r[0].value, comps(d.recent_projects@))
    &&& r[1].key@ == "last_project_parent_folder"@ && (r[1].value matches TomlValue::Text(t) && t@ == d.last_project_parent_folder@)
    &&& r[2].key@ == "last_export_folder"@ && (r[2].value matches TomlValue::Text(t) && t@ == d.last_export_folder@)
    &&& r[3].key@ == "last_open_file_ids"@ && r[3].value is Table
    &&& r[3].value->Table_0@.len() == d.last_open_file_ids@.len()
    &&& forall|i: int| 0 <= i < d.last_open_file_ids@.len() ==> {
        &&& (#[trigger] r[3].value->Table_0@[i]).key@ == d.last_open_file_ids@[i].0@
        &&& string_array(r[3].value->Table_0@[i].value, comps(d.last_open_file_ids@[i].1@))
    }
    &&& r[4].key@ == "custom_dictionary"@ && string_array(r[4].value, comps(d.custom_dictionary@))
}

/// The strings `v` as an array value.
fn string_array_value(v: &Vec<String>) -> (r: TomlValue)
    ensures
        string_array(r, comps(v@)),
{
    let mut items: Vec<TomlValue> = Vec::new();
    let mut i: usize = 0;
    while i < v.len()
        invariant
            i <= v.len(),
            items.len() == i,
            forall|j: int| 0 <= j < i ==> (#[trigger] items@[j] matches TomlValue::Text(t) && t@ == v@[j]@),
        decreases v.len() - i,
    {
        items.push(TomlValue::Text(v[i].clone()));
        i = i + 1;
    }
    TomlValue::Array(items)
}

impl Data {
    /// The entries the data file is written with, as [`saves`] says.
    pub fn save(&self) -> (r: Vec<TomlEntry>)
        ensures
            saves(*self, r@),
    {
        let mut tabs: Vec<TomlEntry> = Vec::new();
        let mut i: usize = 0;
        while i < self.last_open_file_ids.len()
            invariant
                i <= self.last_open_file_ids.len(),
                tabs.len() == i,
                forall|j: int| 0 <= j < i ==> {
                    &&& (#[trigger] tabs@[j]).key@ == self.last_open_file_ids@[j].0@
                    &&& string_array(tabs@[j].value, comps(self.last_open_file_ids@[j].1@))
                },
            decreases self.last_open_file_ids.len() - i,
        {
            let value = string_array_value(&self.last_open_file_ids[i].1);
            tabs.push(TomlEntry { key: self.last_open_file_ids[i].0.clone(), value });
            i = i + 1;
        }
        let r = vec![
            TomlEntry { key: "recent_projects".to_string(), value: string_array_value(&self.recent_projects) },
            TomlEntry { key: "last_project_parent_folder".to_string(), value: TomlValue::Text(self.last_project_parent_folder.clone()) },
            TomlEntry { key: "last_export_folder".to_string(), value: TomlValue::Text(self.last_export_folder.clone()) },
            TomlEntry { key: "last_open_file_ids".to_string(), value: TomlValue::Table(tabs) },
            TomlEntry { key: "custom_dictionary".to_string(), value: string_array_value(&self.custom_dictionary) },
        ];
        r
    }
}

/// The recent projects after the project `p` was opened: it comes first, the others
/// following in their order (it is taken from where it was listed).
pub open spec fn recent_after_opening(recent: Seq<Seq<char>>, p: Seq<char>) -> Seq<Seq<char>> {
    match position_of(recent, p) {
        Some(k) => seq![p] + recent.remove(k),
        None => seq![p] + recent,
    }
}

proof fn lemma_comps_move_front(s: Seq<String>, k: int)
    requires
        0 <= k < s.len(),
    ensures
        comps(s.remove(k).insert(0, s[k])) == seq![s[k]@] + comps(s).remove(k),
{
    assert(comps(s.remove(k).insert(0, s[k])) =~= seq![s[k]@] + comps(s).remove(k));
}

/// The position of the project `key` among the open pages lists.
fn tabs_index(v: &Vec<(String, Vec<String>)>, key: &str) -> (r: Option<usize>)
    ensures
        match r {
            Some(k) => k < v.len() && v@[k as int].0@ == key@,
            None => !tab_keys(v@).contains(key@),
        },
{
    let mut k: usize = 0;
    while k < v.len()
        invariant
            k <= v.len(),
            forall|j: int| 0 <= j < k ==> v@[j].0@ != key@,
        decreases v.len() - k,
    {
        if str_equal(v[k].0.as_str(), key) {
            return Some(k);
        }
        k = k + 1;
    }
    proof {
        if tab_keys(v@).contains(key@) {
            let w = choose|w: int| 0 <= w < tab_keys(v@).len() && tab_keys(v@)[w] == key@;
            assert(v@[w].0@ != key@);
        }
    }
    None
}

impl Data {
    /// Notes that the project at `project_path` was opened, `parent` being the folder it is
    /// in (if it has one): that folder becomes the last project folder, and the project
    /// comes first among the recent projects. Returns whether the data changed.
    pub fn project_opened(&mut self, project_path: &str, parent: Option<&str>) -> (modified: bool)
        requires
            old(self).wf(),
        ensures
            final(self).wf(),
            final(self)@.last_project_parent_folder == (match parent {
                Some(f) => f@,
                None => old(self)@.last_project_parent_folder,
            }),
            final(self)@.recent_projects == recent_after_opening(old(self)@.recent_projects, project_path@),
            modified == ((parent matches Some(f) && f@ != old(self)@.last_project_parent_folder)
                || position_of(old(self)@.recent_projects, project_path@) != Some(0int)),
            final(self)@.last_export_folder == old(self)@.last_export_folder,
            final(self).last_open_file_ids == old(self).last_open_file_ids,
            final(self).custom_dictionary == old(self).custom_dictionary,
    {
        let mut modified = false;
        match parent {
            Some(folder) => {
                if !str_equal(folder, self.last_project_parent_folder.as_str()) {
                    self.last_project_parent_folder = folder.to_string();
                    modified = true;
                }
            },
            None => {},
        }
        let ghost recent = comps(self.recent_projects@);
        let ghost before = self.recent_projects@;
        assert(ids(self.recent_projects@) =~= recent);
        match find_position(&self.recent_projects, project_path) {
            Some(k) => {
                if k != 0 {
                    let p = self.recent_projects.remove(k);
                    self.recent_projects.insert(0, p);
                    modified = true;
                    proof {
                        lemma_comps_move_front(before, k as int);
                    }
                } else {
                    assert(seq![project_path@] + recent.remove(0) =~= recent);
                }
            },
            None => {
                let p = project_path.to_string();
                self.recent_projects.insert(0, p);
                modified = true;
                assert(comps(self.recent_projects@) =~= seq![project_path@] + recent);
            },
        }
        modified
    }

    /// The pages that were open in the project `project_id` (none where it is not listed).
    pub fn open_tabs(&self, project_id: &str) -> (r: Vec<String>)
        requires
            self.wf(),
        ensures
            comps(r@) == (if self@.last_open_file_ids.contains_key(project_id@) {
                self@.last_open_file_ids[project_id@]
            } else {
                Seq::<Seq<char>>::empty()
            }),
    {
        proof {
            lemma_tabs_map_keys(self.last_open_file_ids@, project_id@);
        }
        match tabs_index(&self.last_open_file_ids, project_id) {
            Some(k) => {
                proof {
                    lemma_tabs_map_at(self.last_open_file_ids@, k as int);
                }
                clone_path(&self.last_open_file_ids[k].1)
            },
            None => {
                let r: Vec<String> = Vec::new();
                assert(comps(r@) =~= Seq::<Seq<char>>::empty());
                r
            },
        }
    }

    /// Notes the pages `open_tabs` open in the project `project_id`, where they differ from
    /// those noted. Returns whether they did.
    pub fn update_open_tabs(&mut self, project_id: &str, open_tabs: Vec<String>) -> (modified: bool)
        requires
            old(self).wf(),
        ensures
            final(self).wf(),
            modified == !(old(self)@.last_open_file_ids.contains_key(project_id@)
                && old(self)@.last_open_file_ids[project_id@] == comps(open_tabs@)),
            final(self)@.last_open_file_ids == old(self)@.last_open_file_ids.insert(project_id@, comps(open_tabs@)),
            final(self).recent_projects == old(self).recent_projects,
            final(self).last_project_parent_folder == old(self).last_project_parent_folder,
            final(self).last_export_folder == old(self).last_export_folder,
            final(self).custom_dictionary == old(self).custom_dictionary,
    {
        proof {
            lemma_tabs_map_keys(self.last_open_file_ids@, project_id@);
        }
        let same = match tabs_index(&self.last_open_file_ids, project_id) {
            Some(k) => {
                proof {
                    lemma_tabs_map_at(self.last_open_file_ids@, k as int);
                }
                same_path(&self.last_open_file_ids[k].1, &open_tabs)
            },
            None => false,
        };
        if same {
            assert(self@.last_open_file_ids.insert(project_id@, comps(open_tabs@)) =~= self@.last_open_file_ids);
            false
        } else {
            set_tabs(&mut self.last_open_file_ids, project_id.to_string(), open_tabs);
            true
        }
    }

    /// Takes the ignored words of `dictionary` where they changed. Returns whether they
    /// did.
    pub fn update_custom_dictionary(&mut self, dictionary: &DictionaryState) -> (modified: bool)
        requires
            old(self).wf(),
        ensures
            final(self).wf(),
            modified == dictionary.updated(),
            final(self)@.custom_dictionary == (if modified { dictionary.ignored_list() } else { old(self)@.custom_dictionary }),
            final(self).recent_projects == old(self).recent_projects,
            final(self).last_project_parent_folder == old(self).last_project_parent_folder,
            final(self).last_export_folder == old(self).last_export_folder,
            final(self).last_open_file_ids == old(self).last_open_file_ids,
    {
        if dictionary.is_ignore_list_updated() {
            let words = dictionary.get_ignore_list();
            self.custom_dictionary = words;
            assert(comps(self.custom_dictionary@) =~= crate::dictionary::word_seq(words@));
            true
        } else {
            false
        }
    }
}

/// Opening the project that was opened last changes nothing in the recent projects: it is
/// already first.
pub proof fn reopening_keeps_recent_projects(recent: Seq<Seq<char>>, p: Seq<char>)
    ensures
        recent_after_opening(recent_after_opening(recent, p), p) == recent_after_opening(recent, p),
        recent_after_opening(recent, p)[0] == p,
{
    let once = recent_after_opening(recent, p);
    assert(once[0] == p);
    assert(once.contains(p));
    let k = choose|k: int| 0 <= k < once.len() && once[k] == p && forall|j: int| 0 <= j < k ==> once[j] != p;
    assert(k == 0) by {
        if k > 0 {
            assert(once[0] != p);
        }
    }
    assert(seq![p] + once.remove(0) =~= once);
}

proof fn lemma_array_strings_all(v: TomlValue, s: Seq<Seq<char>>)
    requires
        string_array(v, s),
    ensures
        array_strings(v->Array_0@) == s,
{
    let items = v->Array_0@;
    lemma_array_strings_prefix(items, s, s.len() as int);
    assert(items.take(s.len() as int) =~= items);
    assert(s.take(s.len() as int) =~= s);
}

proof fn lemma_array_strings_prefix(items: Seq<TomlValue>, s: Seq<Seq<char>>, n: int)
    requires
        items.len() == s.len(),
        0 <= n <= s.len(),
        forall|i: int| 0 <= i < s.len() ==> (#[trigger] items[i] matches TomlValue::Text(t) && t@ == s[i]),
    ensures
        array_strings(items.take(n)) == s.take(n),
    decreases n,
{
    if n == 0 {
        assert(items.take(0) =~= Seq::<TomlValue>::empty());
        assert(s.take(0) =~= Seq::<Seq<char>>::empty());
    } else {
        lemma_array_strings_prefix(items, s, n - 1);
        assert(items.take(n).drop_last() =~= items.take(n - 1));
        assert(items.take(n).last() == items[n - 1]);
        let t = items[n - 1]->Text_0;
        assert(items[n - 1] matches TomlValue::Text(u) && u@ == s[n - 1]);
        assert(array_strings(items.take(n)) == array_strings(items.take(n - 1)).push(t@));
        assert(s.take(n) =~= s.take(n - 1).push(s[n - 1]));
    }
}

proof fn lemma_lookup_at(table: Seq<TomlEntry>, i: int)
    requires
        0 <= i < table.len(),
        forall|j: int| 0 <= j < i ==> (#[trigger] table[j]).key@ != table[i].key@,
    ensures
        lookup(table, table[i].key@) == Some(table[i].value),
    decreases i,
{
    if i > 0 {
        let rest = table.drop_first();
        assert forall|j: int| 0 <= j < i - 1 implies (#[trigger] rest[j]).key@ != rest[i - 1].key@ by {
            assert(rest[j] == table[j + 1]);
        }
        lemma_lookup_at(rest, i - 1);
        assert(table[0].key@ != table[i].key@);
    }
}

proof fn lemma_loaded_tabs(es: Seq<TomlEntry>, pairs: Seq<(String, Vec<String>)>, m: Map<Seq<char>, Seq<Seq<char>>>)
    requires
        es.len() == pairs.len(),
        forall|i: int| 0 <= i < pairs.len() ==> {
            &&& (#[trigger] es[i]).key@ == pairs[i].0@
            &&& string_array(es[i].value, comps(pairs[i].1@))
        },
    ensures
        loaded_tabs(es, m) == m.union_prefer_right(tabs_map(pairs)),
    decreases es.len(),
{
    if es.len() == 0 {
        assert(m.union_prefer_right(Map::empty()) =~= m);
    } else {
        let n = es.len() - 1;
        assert forall|i: int| 0 <= i < pairs.drop_last().len() implies {
            &&& (#[trigger] es.drop_last()[i]).key@ == pairs.drop_last()[i].0@
            &&& string_array(es.drop_last()[i].value, comps(pairs.drop_last()[i].1@))
        } by {
            assert(es.drop_last()[i] == es[i]);
            assert(pairs.drop_last()[i] == pairs[i]);
        }
        lemma_loaded_tabs(es.drop_last(), pairs.drop_last(), m);
        assert(es[n].key@ == pairs[n].0@);
        lemma_array_strings_all(es[n].value, comps(pairs[n].1@));
        let rest = m.union_prefer_right(tabs_map(pairs.drop_last()));
        assert(loaded_tabs(es, m) == rest.insert(pairs[n].0@, comps(pairs[n].1@)));
        assert(tabs_map(pairs) == tabs_map(pairs.drop_last()).insert(pairs[n].0@, comps(pairs[n].1@)));
        assert(rest.insert(pairs[n].0@, comps(pairs[n].1@))
            =~= m.union_prefer_right(tabs_map(pairs.drop_last()).insert(pairs[n].0@, comps(pairs[n].1@))));
    }
}

/// Reading the data file back gives what was written: over any data `start`, the recent
/// projects and the folders that were written, the open pages that were written over
/// those known before, and the ignored words that were written after those known before.
pub proof fn data_file_round_trip(saved: Data, start: DataV, r: Seq<TomlEntry>)
    requires
        saves(saved, r),
    ensures
        loaded(start, r) == (DataV {
            recent_projects: saved@.recent_projects,
            last_project_parent_folder: saved@.last_project_parent_folder,
            last_export_folder: saved@.last_export_folder,
            last_open_file_ids: start.last_open_file_ids.union_prefer_right(saved@.last_open_file_ids),
            custom_dictionary: start.custom_dictionary + saved@.custom_dictionary,
        }),
{
    reveal_strlit("recent_projects");
    reveal_strlit("last_project_parent_folder");
    reveal_strlit("last_export_folder");
    reveal_strlit("last_open_file_ids");
    reveal_strlit("custom_dictionary");
    assert(r[0].key@.len() == 15 && r[1].key@.len() == 26 && r[2].key@.len() == 18
        && r[3].key@.len() == 18 && r[4].key@.len() == 17);
    assert(r[0].key@ != r[1].key@ && r[0].key@ != r[2].key@ && r[0].key@ != r[3].key@ && r[0].key@ != r[4].key@);
    assert(r[1].key@ != r[2].key@ && r[1].key@ != r[3].key@ && r[1].key@ != r[4].key@);
    assert(r[2].key@[5] == 'e' && r[3].key@[5] == 'o');
    assert(r[2].key@ != r[3].key@ && r[2].key@ != r[4].key@);
    assert(r[3].key@ != r[4].key@);
    lemma_lookup_at(r, 0);
    lemma_lookup_at(r, 1);
    lemma_lookup_at(r, 2);
    lemma_lookup_at(r, 3);
    lemma_lookup_at(r, 4);
    lemma_array_strings_all(r[0].value, comps(saved.recent_projects@));
    lemma_array_strings_all(r[4].value, comps(saved.custom_dictionary@));
    lemma_loaded_tabs(r[3].value->Table_0@, saved.last_open_file_ids@, start.last_open_file_ids);
}

} // verus!
