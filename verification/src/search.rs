//! Searching the text blocks of a page: every place where the search term occurs, line
//! by line, with byte offsets into the text and a preview of the line.
use vstd::prelude::*;
use vstd::utf8::*;
use crate::loading::{find_sub_from, occurs_at};
use crate::reference::FileID;
use crate::text::{byte_len, chars_of, char_utf8_len, find_char, find_from, lemma_encode_concat, lemma_find_char,
    lemma_byte_len_take, lemma_byte_len_take_le, str_byte_len, str_equal, take_chars};
use crate::textbox::{Text, TextUID};
use crate::textboxes::named_boxes;

verus! {

/// Something that can be shown as a tab.
#[derive(Debug, PartialEq, Eq, Hash)]
pub enum Page {
    ProjectMetadata,
    FileObject(FileID),
    Export,
}

/// The value of a [`Page`]: a file object page by the characters of its ID.
pub enum PageV {
    ProjectMetadata,
    FileObject(Seq<char>),
    Export,
}

impl View for Page {
    type V = PageV;

    open spec fn view(&self) -> PageV {
        match self {
            Page::ProjectMetadata => PageV::ProjectMetadata,
            Page::FileObject(id) => PageV::FileObject(id@),
            Page::Export => PageV::Export,
        }
    }
}

/// The text by which a page is stored (to reopen tabs): a file object by its ID.
pub open spec fn page_id(p: PageV) -> Seq<char> {
    match p {
        PageV::ProjectMetadata => "project_metadata"@,
        PageV::Export => "export"@,
        PageV::FileObject(id) => id,
    }
}

/// The page that the stored text `id` stands for.
pub open spec fn page_of_id(id: Seq<char>) -> PageV {
    if id == "project_metadata"@ {
        PageV::ProjectMetadata
    } else if id == "export"@ {
        PageV::Export
    } else {
        PageV::FileObject(id)
    }
}

impl Page {
    /// The page that a stored ID stands for.
    pub fn from_id(id: &str) -> (r: Self)
        ensures
            r@ == page_of_id(id@),
    {
        if str_equal(id, "project_metadata") {
            Page::ProjectMetadata
        } else if str_equal(id, "export") {
            Page::Export
        } else {
            Page::FileObject(id.to_owned())
        }
    }

    /// The text by which this page is stored.
    pub fn get_id(&self) -> (r: &str)
        ensures
            r@ == page_id(self@),
    {
        match self {
            Page::ProjectMetadata => "project_metadata",
            Page::Export => "export",
            Page::FileObject(id) => id.as_str(),
        }
    }

    pub fn from_file_id(file_id: &FileID) -> (r: Self)
        ensures
            r@ == PageV::FileObject(file_id@),
    {
        Page::FileObject(file_id.clone())
    }

    pub fn is_file_object(&self) -> (r: bool)
        ensures
            r == (self@ is FileObject),
    {
        match self {
            Page::FileObject(_) => true,
            _ => false,
        }
    }

    /// Whether the page holds text to search: every page but the export page.
    pub fn is_searchable(&self) -> (r: bool)
        ensures
            r == !(self@ is Export),
    {
        match self {
            Page::Export => false,
            Page::FileObject(_) => true,
            Page::ProjectMetadata => true,
        }
    }

    /// A copy of this page.
    pub fn duplicate(&self) -> (r: Self)
        ensures
            r@ == self@,
    {
        match self {
            Page::ProjectMetadata => Page::ProjectMetadata,
            Page::FileObject(id) => Page::FileObject(id.clone()),
            Page::Export => Page::Export,
        }
    }
}

/// Storing a page and reading it back gives the same page, for every page but a file
/// object whose ID is one of the names of the other pages; and reading any stored text
/// and storing the page again gives the same text.
pub proof fn page_id_round_trip(p: PageV, id: Seq<char>)
    requires
        p matches PageV::FileObject(f) ==> f != "project_metadata"@ && f != "export"@,
    ensures
        page_of_id(page_id(p)) == p,
        page_id(page_of_id(id)) == id,
{
    reveal_strlit("project_metadata");
    reveal_strlit("export");
    assert("project_metadata"@.len() != "export"@.len());
}

/// Where a search term was found in a line, to show it.
#[derive(Debug)]
pub struct WordFindPreview {
    /// The whole line.
    pub context: String,
    /// Byte offsets of the match within the line.
    pub word_start: usize,
    pub word_end: usize,
    /// Counted from 1.
    pub line_number: usize,
}

/// A place where the search term was found: byte offsets into the whole text.
#[derive(Debug)]
pub struct WordFind {
    pub start: usize,
    pub end: usize,
    pub preview: WordFindPreview,
}

/// The value of a [`WordFind`].
pub struct FindV {
    pub start: int,
    pub end: int,
    pub context: Seq<char>,
    pub word_start: int,
    pub word_end: int,
    pub line_number: int,
}

impl View for WordFind {
    type V = FindV;

    open spec fn view(&self) -> FindV {
        FindV {
            start: self.start as int,
            end: self.end as int,
            context: self.preview.context@,
            word_start: self.preview.word_start as int,
            word_end: self.preview.word_end as int,
            line_number: self.preview.line_number as int,
        }
    }
}

/// The positions (in characters) where `term` occurs in `line` at or after `i`, taking
/// each occurrence from the left and going on after its end.
pub open spec fn matches_from(line: Seq<char>, term: Seq<char>, i: nat) -> Seq<int>
    decreases line.len() + 1 - i,
{
    match find_sub_from(line, term, i) {
        Some(p) => if i <= p && p + term.len() <= line.len() && term.len() > 0 {
            seq![p] + matches_from(line, term, (p + term.len()) as nat)
        } else {
            seq![]
        },
        None => seq![],
    }
}

/// The positions where `term` occurs in `line` (`str::match_indices`): an empty term
/// occurs at every position, the end included.
pub open spec fn line_matches(line: Seq<char>, term: Seq<char>) -> Seq<int> {
    if term.len() == 0 {
        Seq::new(line.len() + 1, |i: int| i)
    } else {
        matches_from(line, term, 0)
    }
}

/// The find at column `col` of the line that starts at `ls` in `text`.
pub open spec fn find_at(text: Seq<char>, term: Seq<char>, ls: int, line: Seq<char>, line_no: int, col: int) -> FindV {
    FindV {
        start: byte_len(text.take(ls + col)) as int,
        end: (byte_len(text.take(ls + col)) + byte_len(term)) as int,
        context: line,
        word_start: byte_len(line.take(col)) as int,
        word_end: (byte_len(line.take(col)) + byte_len(term)) as int,
        line_number: line_no + 1,
    }
}

/// The finds in the line `line` that starts at `ls` in `text`.
pub open spec fn line_finds(text: Seq<char>, term: Seq<char>, ls: int, line: Seq<char>, line_no: int) -> Seq<FindV> {
    line_matches(line, term).map_values(|c: int| find_at(text, term, ls, line, line_no, c))
}

/// The finds in the lines of `text` from the one that starts at `ls` (numbered `line_no`
/// from 0), in order.
pub open spec fn finds_from(text: Seq<char>, term: Seq<char>, ls: nat, line_no: nat) -> Seq<FindV>
    decreases text.len() - ls,
{
    let rest = text.skip(ls as int);
    let line = match find_char(rest, '\n') { Some(p) => rest.take(p), None => rest };
    let here = line_finds(text, term, ls as int, line, line_no as int);
    match find_char(rest, '\n') {
        Some(p) => if 0 <= p < rest.len() && ls < text.len() {
            here + finds_from(text, term, (ls + p + 1) as nat, line_no + 1)
        } else {
            here
        },
        None => here,
    }
}

/// The result of searching one text block.
#[derive(Debug)]
pub struct TextBoxSearchResult {
    /// The page that the text block is on.
    pub page: Page,
    pub box_name: String,
    /// The finds, in order.
    pub finds: Vec<WordFind>,
    /// The version of the text that the search looked at.
    pub text_version: usize,
}

pub open spec fn finds_view(fs: Seq<WordFind>) -> Seq<FindV> {
    fs.map_values(|f: WordFind| f@)
}

proof fn lemma_find_sub_bound(s: Seq<char>, t: Seq<char>, i: nat)
    ensures
        find_sub_from(s, t, i) matches Some(p) ==> i <= p && occurs_at(s, t, p),
    decreases s.len() + 1 - i,
{
    if i + t.len() <= s.len() && !occurs_at(s, t, i as int) {
        lemma_find_sub_bound(s, t, i + 1);
    }
}

/// Byte length of a prefix that ends with the characters `t`.
proof fn lemma_byte_len_extend(v: Seq<char>, a: int, t: Seq<char>)
    requires
        0 <= a,
        a + t.len() <= v.len(),
        v.subrange(a, a + t.len()) == t,
    ensures
        byte_len(v.take(a + t.len())) == byte_len(v.take(a)) + byte_len(t),
{
    assert(v.take(a + t.len()) =~= v.take(a) + t);
    lemma_encode_concat(v.take(a), t);
}

fn matches_at(v: &Vec<char>, tv: &Vec<char>, i: usize) -> (r: bool)
    requires
        i + tv.len() <= v.len(),
    ensures
        r == (v@.subrange(i as int, i + tv.len()) == tv@),
{
    let mut k: usize = 0;
    while k < tv.len()
        invariant
            i + tv.len() <= v.len(),
            k <= tv.len(),
            forall|j: int| 0 <= j < k ==> v@[i + j] == #[trigger] tv@[j],
        decreases tv.len() - k,
    {
        if v[i + k] != tv[k] {
            assert(v@.subrange(i as int, i + tv.len())[k as int] != tv@[k as int]);
            return false;
        }
        k = k + 1;
    }
    assert(v@.subrange(i as int, i + tv.len()) =~= tv@);
    true
}

fn make_find(bi: usize, lb: usize, tb: usize, line: &str, line_no: usize) -> (f: WordFind)
    requires
        lb <= bi,
        bi + tb <= usize::MAX,
        line_no < usize::MAX,
    ensures
        f@ == (FindV {
            start: bi as int,
            end: bi + tb,
            context: line@,
            word_start: bi - lb,
            word_end: bi - lb + tb,
            line_number: line_no + 1,
        }),
{
    WordFind {
        start: bi,
        end: bi + tb,
        preview: WordFindPreview {
            context: line.to_owned(),
            word_start: bi - lb,
            word_end: bi - lb + tb,
            line_number: line_no + 1,
        },
    }
}

/// Adds the finds in the line `v[ls..le]` (whose first byte is at `lb`) to `finds`.
#[verifier::rlimit(40)]
fn scan_line(v: &Vec<char>, tv: &Vec<char>, tb: usize, ls: usize, le: usize, lb: usize, line_str: &str,
    line_no: usize, finds: &mut Vec<WordFind>)
    requires
        ls <= le <= v.len(),
        lb == byte_len(v@.take(ls as int)),
        line_str@ == v@.subrange(ls as int, le as int),
        tb == byte_len(tv@),
        byte_len(v@) <= usize::MAX,
        v.len() < usize::MAX,
        line_no < usize::MAX,
    ensures
        finds_view(final(finds)@) == finds_view(old(finds)@) + line_finds(v@, tv@, ls as int, line_str@, line_no as int),
{
    let ghost line = line_str@;
    let ghost fa = |c: int| find_at(v@, tv@, ls as int, line, line_no as int, c);
    let ghost start = finds_view(finds@);
    let mut j: usize = 0;
    let mut bi: usize = lb;
    let ghost mut done: Seq<int> = seq![];
    proof {
        assert(v@.take(ls as int) =~= v@.take(ls + 0));
    }
    if tv.len() == 0 {
        while j <= le - ls
            invariant
                ls <= le <= v.len(),
                v.len() < usize::MAX,
                tv@.len() == 0,
                tb == 0,
                lb == byte_len(v@.take(ls as int)),
                line == v@.subrange(ls as int, le as int),
                line == line_str@,
                byte_len(v@) <= usize::MAX,
                line_no < usize::MAX,
                fa == (|c: int| find_at(v@, tv@, ls as int, line, line_no as int, c)),
                j <= le - ls + 1,
                j <= le - ls ==> bi == byte_len(v@.take(ls + j)),
                done == Seq::new(j as nat, |i: int| i),
                finds_view(finds@) == start + done.map_values(fa),
            decreases le - ls + 1 - j,
        {
            proof {
                assert(v@.take(ls + j) =~= v@.take(ls as int) + line.take(j as int));
                lemma_encode_concat(v@.take(ls as int), line.take(j as int));
                lemma_byte_len_take_le(v@, ls + j);
            }
            let f = make_find(bi, lb, tb, line_str, line_no);
            proof {
                assert(f@ == fa(j as int));
            }
            let ghost before = finds@;
            finds.push(f);
            proof {
                assert(finds_view(finds@) =~= finds_view(before).push(f@));
                done = done.push(j as int);
                assert(done.map_values(fa) =~= Seq::new(j as nat, |i: int| i).map_values(fa).push(fa(j as int)));
            }
            if j < le - ls {
                proof {
                    lemma_byte_len_take(v@, ls + j);
                    lemma_byte_len_take_le(v@, ls + j + 1);
                }
                bi = bi + char_utf8_len(v[ls + j]);
            }
            j = j + 1;
            assert(done =~= Seq::new(j as nat, |i: int| i));
        }
        proof {
            assert(done =~= Seq::new(line.len() + 1, |i: int| i));
        }
        return;
    }
    let tl = tv.len();
    proof {
        assert(line_matches(line, tv@) == matches_from(line, tv@, 0));
        assert(done + matches_from(line, tv@, 0) =~= matches_from(line, tv@, 0));
    }
    while j < le - ls && tl <= le - ls - j
        invariant
            ls <= le <= v.len(),
            tl == tv.len(),
            tl > 0,
            tb == byte_len(tv@),
            lb == byte_len(v@.take(ls as int)),
            line == v@.subrange(ls as int, le as int),
            line == line_str@,
            byte_len(v@) <= usize::MAX,
            line_no < usize::MAX,
            fa == (|c: int| find_at(v@, tv@, ls as int, line, line_no as int, c)),
            j <= le - ls,
            bi == byte_len(v@.take(ls + j)),
            done + matches_from(line, tv@, j as nat) == line_matches(line, tv@),
            finds_view(finds@) == start + done.map_values(fa),
        decreases le - ls - j,
    {
        proof {
            assert(v@.take(ls + j) =~= v@.take(ls as int) + line.take(j as int));
            lemma_encode_concat(v@.take(ls as int), line.take(j as int));
        }
        let hit = matches_at(v, tv, ls + j);
        proof {
            assert(line.subrange(j as int, j + tl) =~= v@.subrange(ls + j, ls + j + tl));
            assert(hit == occurs_at(line, tv@, j as int));
            lemma_find_sub_bound(line, tv@, (j + 1) as nat);
        }
        if hit {
            proof {
                lemma_byte_len_extend(v@, ls + j, tv@);
                lemma_byte_len_take_le(v@, ls + j + tl);
                assert(matches_from(line, tv@, j as nat) == seq![j as int] + matches_from(line, tv@, (j + tl) as nat));
            }
            let f = make_find(bi, lb, tb, line_str, line_no);
            proof {
                assert(f@ == fa(j as int));
            }
            let ghost before = finds@;
            finds.push(f);
            proof {
                assert(finds_view(finds@) =~= finds_view(before).push(f@));
                assert(done.push(j as int).map_values(fa) =~= done.map_values(fa).push(fa(j as int)));
                assert(done.push(j as int) + matches_from(line, tv@, (j + tl) as nat) =~= done + matches_from(line, tv@, j as nat));
                done = done.push(j as int);
            }
            bi = bi + tb;
            j = j + tl;
        } else {
            proof {
                lemma_byte_len_take(v@, ls + j);
                lemma_byte_len_take_le(v@, ls + j + 1);
                assert(find_sub_from(line, tv@, j as nat) == find_sub_from(line, tv@, (j + 1) as nat));
                assert(matches_from(line, tv@, j as nat) == matches_from(line, tv@, (j + 1) as nat));
            }
            bi = bi + char_utf8_len(v[ls + j]);
            j = j + 1;
        }
    }
    proof {
        assert(find_sub_from(line, tv@, j as nat) is None);
        assert(matches_from(line, tv@, j as nat) =~= Seq::<int>::empty());
        assert(done =~= line_matches(line, tv@));
    }
}

/// Searches the text block `text` on `page` for `search_term`: every occurrence in every
/// line, in order, as [`finds_from`] says.
pub fn search(text: &Text, page: &Page, box_name: &str, search_term: &str) -> (r: TextBoxSearchResult)
    requires
        text.content().len() < usize::MAX,
    ensures
        r.page@ == page@,
        r.box_name@ == box_name@,
        r.text_version == text.version_spec(),
        finds_view(r.finds@) == finds_from(text.content(), search_term@, 0, 0),
{
    let s = text.as_str();
    let v = chars_of(s);
    let total = str_byte_len(s);
    let tv = chars_of(search_term);
    let tb = str_byte_len(search_term);
    let ghost t = search_term@;
    let mut finds: Vec<WordFind> = Vec::new();
    let mut ls: usize = 0;
    let mut lb: usize = 0;
    let mut line_no: usize = 0;
    let mut rest: &str = s;
    proof {
        assert(v@.skip(0) =~= v@);
        assert(v@.take(0) =~= Seq::<char>::empty());
        assert(finds_view(finds@) + finds_from(v@, t, 0, 0) =~= finds_from(v@, t, 0, 0));
    }
    loop
        invariant_except_break
            finds_view(finds@) + finds_from(v@, t, ls as nat, line_no as nat) == finds_from(v@, t, 0, 0),
        invariant
            v@ == s@,
            s@ == text.content(),
            v.len() < usize::MAX,
            total == byte_len(v@),
            tb == byte_len(tv@),
            tv@ == t,
            ls <= v.len(),
            line_no <= ls,
            lb == byte_len(v@.take(ls as int)),
            rest@ == v@.skip(ls as int),
        ensures
            finds_view(finds@) == finds_from(v@, t, 0, 0),
        decreases v.len() - ls,
    {
        let ghost old_finds = finds_view(finds@);
        let ghost r = v@.skip(ls as int);
        proof {
            lemma_find_char(r, '\n');
        }
        match find_from(&v, ls, '\n') {
            Some(p) => {
                let le = ls + p;
                let (line_str, after) = take_chars(rest, &v, ls, p);
                assert(line_str@ =~= v@.subrange(ls as int, le as int));
                scan_line(&v, &tv, tb, ls, le, lb, line_str, line_no, &mut finds);
                proof {
                    assert(r.take(p as int) =~= line_str@);
                    assert(v@.skip(le as int) =~= after@);
                }
                let (_, rest2) = take_chars(after, &v, le, 1);
                proof {
                    assert(after@.skip(1) =~= v@.skip(le + 1));
                    assert(v@[le as int] == '\n');
                    assert(v@.take(le + 1) =~= v@.take(ls as int) + line_str@ + seq!['\n']);
                    lemma_encode_concat(v@.take(ls as int), line_str@);
                    lemma_encode_concat(v@.take(ls as int) + line_str@, seq!['\n']);
                    crate::text::lemma_encode_single('\n');
                    lemma_byte_len_take_le(v@, le + 1);
                }
                let line_bytes = str_byte_len(line_str);
                lb = lb + line_bytes + 1;
                rest = rest2;
                ls = le + 1;
                line_no = line_no + 1;
            },
            None => {
                proof {
                    assert(rest@ =~= v@.subrange(ls as int, v.len() as int));
                }
                scan_line(&v, &tv, tb, ls, v.len(), lb, rest, line_no, &mut finds);
                proof {
                    assert(finds_view(finds@) =~= finds_from(v@, t, 0, 0));
                }
                break;
            },
        }
    }
    TextBoxSearchResult {
        page: page.duplicate(),
        box_name: box_name.to_owned(),
        finds,
        text_version: text.version(),
    }
}

/// The state of the search box of a page.
#[derive(Debug)]
pub struct Search {
    pub active: bool,
    /// Search has just been activated, take focus
    pub request_ui_focus: bool,
    pub find_text: String,
    pub redo_search: bool,
    /// The result for each text block searched, by its identifier.
    pub search_results: Option<Vec<(TextUID, TextBoxSearchResult)>>,
    pub focus: Option<(TextUID, WordFind)>,
    pub goto_focus: bool,
    /// When search is closed, signal to the rest of the editor that it needs to redraw
    /// (which is also responsible for unsetting this)
    pub exiting_search: bool,
}

impl Default for Search {
    fn default() -> (r: Self)
        ensures
            !r.active && !r.request_ui_focus && r.find_text@ == Seq::<char>::empty() && !r.redo_search
                && r.search_results is None && r.focus is None && !r.goto_focus && !r.exiting_search,
    {
        Search {
            active: false,
            request_ui_focus: false,
            find_text: String::new(),
            redo_search: false,
            search_results: None,
            focus: None,
            goto_focus: false,
            exiting_search: false,
        }
    }
}

impl Search {
    /// Opens the search box and asks for focus.
    pub fn show(&mut self)
        ensures
            final(self).active && final(self).request_ui_focus,
            final(self).find_text == old(self).find_text,
            final(self).redo_search == old(self).redo_search,
            final(self).search_results == old(self).search_results,
            final(self).focus == old(self).focus,
            final(self).goto_focus == old(self).goto_focus,
            final(self).exiting_search == old(self).exiting_search,
    {
        self.active = true;
        self.request_ui_focus = true;
    }

    /// Closes the search box and signals that the editor must redraw.
    pub fn close(&mut self)
        ensures
            !final(self).active && final(self).exiting_search,
            final(self).request_ui_focus == old(self).request_ui_focus,
            final(self).find_text == old(self).find_text,
            final(self).redo_search == old(self).redo_search,
            final(self).search_results == old(self).search_results,
            final(self).focus == old(self).focus,
            final(self).goto_focus == old(self).goto_focus,
    {
        self.active = false;
        self.exiting_search = true;
    }

    /// Forgets the focused find.
    pub fn clear_focus(&mut self)
        ensures
            final(self).focus is None && !final(self).goto_focus,
            final(self).active == old(self).active,
            final(self).request_ui_focus == old(self).request_ui_focus,
            final(self).find_text == old(self).find_text,
            final(self).redo_search == old(self).redo_search,
            final(self).search_results == old(self).search_results,
            final(self).exiting_search == old(self).exiting_search,
    {
        self.focus = None;
        self.goto_focus = false;
    }

    /// Searches each of the text boxes `boxes` of the page `page` for the search term, and
    /// records each result under the identifier of its text, after the results recorded
    /// before.
    pub fn search_textboxes(&mut self, page: &Page, boxes: &Vec<(&Text, &str)>)
        requires
            old(self).search_results is Some,
            forall|i: int| 0 <= i < boxes.len() ==> (#[trigger] boxes@[i]).0.content().len() < usize::MAX,
        ensures
            final(self).search_results is Some,
            final(self).search_results->0@.len() == old(self).search_results->0@.len() + boxes.len(),
            forall|i: int| 0 <= i < old(self).search_results->0@.len()
                ==> #[trigger] final(self).search_results->0@[i] == old(self).search_results->0@[i],
            forall|i: int| 0 <= i < boxes.len() ==> records_box_search(
                #[trigger] final(self).search_results->0@[old(self).search_results->0@.len() + i],
                page@, named_boxes(boxes@)[i], old(self).find_text@),
            final(self).active == old(self).active,
            final(self).request_ui_focus == old(self).request_ui_focus,
            final(self).find_text == old(self).find_text,
            final(self).redo_search == old(self).redo_search,
            final(self).focus == old(self).focus,
            final(self).goto_focus == old(self).goto_focus,
            final(self).exiting_search == old(self).exiting_search,
    {
        let mut slot: Option<Vec<(TextUID, TextBoxSearchResult)>> = None;
        std::mem::swap(&mut slot, &mut self.search_results);
        let mut results = match slot {
            Some(v) => v,
            None => Vec::new(),
        };
        let ghost before = results@;
        let mut i: usize = 0;
        while i < boxes.len()
            invariant
                i <= boxes.len(),
                forall|j: int| 0 <= j < boxes.len() ==> (#[trigger] boxes@[j]).0.content().len() < usize::MAX,
                results@.len() == before.len() + i,
                forall|j: int| 0 <= j < before.len() ==> #[trigger] results@[j] == before[j],
                forall|j: int| 0 <= j < i ==> records_box_search(#[trigger] results@[before.len() + j],
                    page@, named_boxes(boxes@)[j], self.find_text@),
            decreases boxes.len() - i,
        {
            let (text, name) = boxes[i];
            assert(named_boxes(boxes@)[i as int] == (*text, name@));
            let found = search(text, page, name, self.find_text.as_str());
            results.push((text.id(), found));
            i = i + 1;
        }
        self.search_results = Some(results);
    }
}

/// What searching the text box `b` (a text with its name) of the page `page` for `term`
/// records: the text's identifier, with the result that [`search`] gives.
pub open spec fn records_box_search(r: (TextUID, TextBoxSearchResult), page: PageV, b: (Text, Seq<char>), term: Seq<char>) -> bool {
    &&& r.0 == b.0.uid()
    &&& r.1.page@ == page
    &&& r.1.box_name@ == b.1
    &&& r.1.text_version == b.0.version_spec()
    &&& finds_view(r.1.finds@) == finds_from(b.0.content(), term, 0, 0)
}

/// The state of the search across the whole project.
#[derive(Debug)]
pub struct GlobalSearch {
    pub active: bool,
    /// Search has just been activated, take focus
    pub request_ui_focus: bool,
    pub find_text: String,
    pub replace_text: String,
    pub redo_search: bool,
    /// The result for each text block searched, by its identifier.
    pub search_results: Option<Vec<(TextUID, TextBoxSearchResult)>>,
    pub focus: Option<(TextUID, WordFind)>,
    pub goto_focus: bool,
    pub version: usize,
}

impl Default for GlobalSearch {
    fn default() -> (r: Self)
        ensures
            !r.active && !r.request_ui_focus && r.find_text@ == Seq::<char>::empty()
                && r.replace_text@ == Seq::<char>::empty() && !r.redo_search
                && r.search_results is None && r.focus is None && !r.goto_focus && r.version == 0,
    {
        GlobalSearch {
            active: false,
            request_ui_focus: false,
            find_text: String::new(),
            replace_text: String::new(),
            redo_search: false,
            search_results: None,
            focus: None,
            goto_focus: false,
            version: 0,
        }
    }
}

impl GlobalSearch {
    /// Opens the search and asks for focus.
    pub fn show(&mut self)
        ensures
            final(self).active && final(self).request_ui_focus,
            final(self).find_text == old(self).find_text,
            final(self).replace_text == old(self).replace_text,
            final(self).redo_search == old(self).redo_search,
            final(self).search_results == old(self).search_results,
            final(self).focus == old(self).focus,
            final(self).goto_focus == old(self).goto_focus,
            final(self).version == old(self).version,
    {
        self.active = true;
        self.request_ui_focus = true;
    }

    /// Closes the search.
    pub fn close(&mut self)
        ensures
            !final(self).active,
            final(self).request_ui_focus == old(self).request_ui_focus,
            final(self).find_text == old(self).find_text,
            final(self).replace_text == old(self).replace_text,
            final(self).redo_search == old(self).redo_search,
            final(self).search_results == old(self).search_results,
            final(self).focus == old(self).focus,
            final(self).goto_focus == old(self).goto_focus,
            final(self).version == old(self).version,
    {
        self.active = false;
    }

    /// Forgets the focused find.
    pub fn clear_focus(&mut self)
        ensures
            final(self).focus is None && !final(self).goto_focus,
            final(self).active == old(self).active,
            final(self).request_ui_focus == old(self).request_ui_focus,
            final(self).find_text == old(self).find_text,
            final(self).replace_text == old(self).replace_text,
            final(self).redo_search == old(self).redo_search,
            final(self).search_results == old(self).search_results,
            final(self).version == old(self).version,
    {
        self.focus = None;
        self.goto_focus = false;
    }
}

/// The term occurs at position `p` of `text`, and the find `f` covers it, in bytes.
pub open spec fn find_covers(text: Seq<char>, term: Seq<char>, f: FindV, p: int) -> bool {
    &&& 0 <= p && p + term.len() <= text.len()
    &&& text.subrange(p, p + term.len()) == term
    &&& f.start == byte_len(text.take(p))
    &&& f.end == byte_len(text.take(p)) + byte_len(term)
}

proof fn lemma_matches_occur(line: Seq<char>, t: Seq<char>, i: nat)
    requires
        t.len() > 0,
    ensures
        forall|k: int| 0 <= k < matches_from(line, t, i).len() ==> occurs_at(line, t, #[trigger] matches_from(line, t, i)[k]),
    decreases line.len() + 1 - i,
{
    lemma_find_sub_bound(line, t, i);
    match find_sub_from(line, t, i) {
        Some(p) => {
            if i <= p && p + t.len() <= line.len() && t.len() > 0 {
                let rest = matches_from(line, t, (p + t.len()) as nat);
                lemma_matches_occur(line, t, (p + t.len()) as nat);
                assert(matches_from(line, t, i) == seq![p] + rest);
                assert forall|k: int| 0 <= k < matches_from(line, t, i).len() implies occurs_at(line, t, #[trigger] matches_from(line, t, i)[k]) by {
                    if k > 0 {
                        assert(matches_from(line, t, i)[k] == rest[k - 1]);
                    }
                }
            }
        },
        None => {},
    }
}

/// The find `f` covers an occurrence of the term in the text.
pub open spec fn covers_term(text: Seq<char>, term: Seq<char>, f: FindV) -> bool {
    exists|p: int| find_covers(text, term, f, p)
}

proof fn lemma_line_finds_cover(text: Seq<char>, term: Seq<char>, ls: int, len: int, line_no: int)
    requires
        0 <= ls,
        ls + len <= text.len(),
        0 <= len,
    ensures
        forall|k: int| 0 <= k < line_finds(text, term, ls, text.subrange(ls, ls + len), line_no).len()
            ==> covers_term(text, term, #[trigger] line_finds(text, term, ls, text.subrange(ls, ls + len), line_no)[k]),
{
    let line = text.subrange(ls, ls + len);
    let here = line_finds(text, term, ls, line, line_no);
    if term.len() > 0 {
        lemma_matches_occur(line, term, 0);
    }
    assert forall|k: int| 0 <= k < here.len() implies covers_term(text, term, #[trigger] here[k]) by {
        let c = line_matches(line, term)[k];
        let p = ls + c;
        if term.len() > 0 {
            assert(occurs_at(line, term, c));
            assert(text.subrange(p, p + term.len()) =~= line.subrange(c, c + term.len()));
        } else {
            assert(0 <= c <= line.len());
            assert(text.subrange(p, p + term.len()) =~= term);
        }
        assert(find_covers(text, term, here[k], p));
    }
}

proof fn lemma_finds_cover(text: Seq<char>, term: Seq<char>, ls: nat, line_no: nat)
    requires
        ls <= text.len(),
    ensures
        forall|k: int| 0 <= k < finds_from(text, term, ls, line_no).len()
            ==> covers_term(text, term, #[trigger] finds_from(text, term, ls, line_no)[k]),
    decreases text.len() - ls,
{
    let rest = text.skip(ls as int);
    lemma_find_char(rest, '\n');
    let len = match find_char(rest, '\n') { Some(q) => q, None => rest.len() as int };
    let line = match find_char(rest, '\n') { Some(q) => rest.take(q), None => rest };
    assert(line =~= text.subrange(ls as int, ls + len));
    lemma_line_finds_cover(text, term, ls as int, len, line_no as int);
    let here = line_finds(text, term, ls as int, line, line_no as int);
    let all = finds_from(text, term, ls, line_no);
    match find_char(rest, '\n') {
        Some(q) => {
            if 0 <= q < rest.len() && ls < text.len() {
                let next = finds_from(text, term, (ls + q + 1) as nat, line_no + 1);
                lemma_finds_cover(text, term, (ls + q + 1) as nat, line_no + 1);
                assert(all == here + next);
                assert forall|k: int| 0 <= k < all.len() implies covers_term(text, term, #[trigger] all[k]) by {
                    if k < here.len() {
                        assert(all[k] == here[k]);
                    } else {
                        assert(all[k] == next[k - here.len()]);
                    }
                }
            }
        },
        None => {},
    }
}

/// Every find of a search covers an occurrence of the search term: the text between its
/// start and end offsets is the term.
pub proof fn every_find_covers_the_term(text: Seq<char>, term: Seq<char>)
    ensures
        forall|k: int| 0 <= k < finds_from(text, term, 0, 0).len()
            ==> covers_term(text, term, #[trigger] finds_from(text, term, 0, 0)[k]),
{
    lemma_finds_cover(text, term, 0, 0);
}


/// The byte spans of the finds `fs`.
pub open spec fn find_spans(fs: Seq<FindV>) -> Seq<(int, int)> {
    fs.map_values(|f: FindV| (f.start, f.end))
}

/// The byte spans in `text` of matches of `term` at the character positions `ps`.
pub open spec fn match_spans(text: Seq<char>, term: Seq<char>, ps: Seq<int>) -> Seq<(int, int)> {
    ps.map_values(|p: int| (byte_len(text.take(p)) as int, (byte_len(text.take(p)) + byte_len(term)) as int))
}

/// Searching a line from its position `j` finds what searching the whole text from there
/// finds, as long as the term holds no line break; when the line has no match left, the
/// search of the text goes on after the line break (`nl`) or finds nothing.
proof fn lemma_find_in_line(text: Seq<char>, t: Seq<char>, ls: int, len: int, nl: bool, j: nat)
    requires
        t.len() > 0,
        forall|k: int| 0 <= k < t.len() ==> t[k] != '\n',
        0 <= ls,
        0 <= len,
        ls + len <= text.len(),
        j <= len,
        nl ==> ls + len < text.len() && text[ls + len] == '\n',
        !nl ==> ls + len == text.len(),
    ensures
        match find_sub_from(text.subrange(ls, ls + len), t, j) {
            Some(q) => find_sub_from(text, t, (ls + j) as nat) == Some(q + ls),
            None => find_sub_from(text, t, (ls + j) as nat)
                == (if nl { find_sub_from(text, t, (ls + len + 1) as nat) } else { None }),
        },
    decreases len - j,
{
    let line = text.subrange(ls, ls + len);
    let i = ls + j;
    if j + t.len() > len {
        if i + t.len() <= text.len() {
            let k = ls + len - i;
            assert(text.subrange(i, i + t.len())[k] == text[ls + len]);
            assert(!occurs_at(text, t, i));
            if j < len {
                lemma_find_in_line(text, t, ls, len, nl, j + 1);
            }
        }
    } else {
        assert(text.subrange(i, i + t.len()) =~= line.subrange(j as int, (j + t.len()) as int));
        if !occurs_at(line, t, j as int) {
            lemma_find_in_line(text, t, ls, len, nl, j + 1);
        }
    }
}

/// The matches in the whole text from position `j` of a line are those of the line from
/// `j`, shifted to where the line starts, followed by those after the line break.
proof fn lemma_matches_in_line(text: Seq<char>, t: Seq<char>, ls: int, len: int, nl: bool, j: nat)
    requires
        t.len() > 0,
        forall|k: int| 0 <= k < t.len() ==> t[k] != '\n',
        0 <= ls,
        0 <= len,
        ls + len <= text.len(),
        j <= len,
        nl ==> ls + len < text.len() && text[ls + len] == '\n',
        !nl ==> ls + len == text.len(),
    ensures
        matches_from(text, t, (ls + j) as nat)
            == matches_from(text.subrange(ls, ls + len), t, j).map_values(|c: int| c + ls)
                + (if nl { matches_from(text, t, (ls + len + 1) as nat) } else { Seq::<int>::empty() }),
    decreases len - j,
{
    let line = text.subrange(ls, ls + len);
    let tail = if nl { matches_from(text, t, (ls + len + 1) as nat) } else { Seq::<int>::empty() };
    lemma_find_in_line(text, t, ls, len, nl, j);
    lemma_find_sub_bound(line, t, j);
    match find_sub_from(line, t, j) {
        Some(q) => {
            let next = (q + t.len()) as nat;
            lemma_matches_in_line(text, t, ls, len, nl, next);
            let rest = matches_from(line, t, next);
            assert(matches_from(line, t, j) == seq![q] + rest);
            assert(matches_from(text, t, (ls + j) as nat)
                == seq![q + ls] + matches_from(text, t, (ls + next) as nat));
            assert((seq![q] + rest).map_values(|c: int| c + ls)
                =~= seq![q + ls] + rest.map_values(|c: int| c + ls));
            assert(seq![q + ls] + (rest.map_values(|c: int| c + ls) + tail)
                =~= (seq![q + ls] + rest.map_values(|c: int| c + ls)) + tail);
        },
        None => {
            assert(matches_from(line, t, j) == Seq::<int>::empty());
            assert(Seq::<int>::empty().map_values(|c: int| c + ls) + tail =~= tail);
            if nl {
                lemma_find_sub_bound(text, t, (ls + len + 1) as nat);
            }
        },
    }
}

proof fn lemma_finds_are_matches(text: Seq<char>, t: Seq<char>, ls: nat, line_no: nat)
    requires
        t.len() > 0,
        forall|k: int| 0 <= k < t.len() ==> t[k] != '\n',
        ls <= text.len(),
    ensures
        find_spans(finds_from(text, t, ls, line_no)) == match_spans(text, t, matches_from(text, t, ls)),
    decreases text.len() - ls,
{
    let rest = text.skip(ls as int);
    lemma_find_char(rest, '\n');
    let nl = find_char(rest, '\n') is Some;
    let len = match find_char(rest, '\n') { Some(q) => q, None => rest.len() as int };
    let line = match find_char(rest, '\n') { Some(q) => rest.take(q), None => rest };
    assert(line =~= text.subrange(ls as int, ls + len));
    if nl {
        assert(text[ls + len] == rest[len]);
    }
    lemma_matches_in_line(text, t, ls as int, len, nl, 0);
    let m = matches_from(line, t, 0);
    let shifted = m.map_values(|c: int| c + ls);
    let here = line_finds(text, t, ls as int, line, line_no as int);
    assert(line_matches(line, t) == m);
    assert(find_spans(here) =~= match_spans(text, t, shifted));
    let tail = if nl { matches_from(text, t, (ls + len + 1) as nat) } else { Seq::<int>::empty() };
    assert(matches_from(text, t, ls) == shifted + tail);
    if nl {
        let next = finds_from(text, t, (ls + len + 1) as nat, line_no + 1);
        lemma_finds_are_matches(text, t, (ls + len + 1) as nat, line_no + 1);
        assert(finds_from(text, t, ls, line_no) == here + next);
        assert(find_spans(here + next) =~= find_spans(here) + find_spans(next));
        assert(match_spans(text, t, shifted + tail) =~= match_spans(text, t, shifted) + match_spans(text, t, tail));
    } else {
        assert(finds_from(text, t, ls, line_no) == here);
        assert(shifted + tail =~= shifted);
    }
}

/// Searching for a term that is not empty and holds no line break finds, line by line,
/// exactly the occurrences that a search of the whole text at once finds (taken from the
/// left, each after the end of the one before): the same byte spans, in the same order.
pub proof fn finds_are_the_matches_in_the_whole_text(text: Seq<char>, term: Seq<char>)
    requires
        term.len() > 0,
        !term.contains('\n'),
    ensures
        find_spans(finds_from(text, term, 0, 0)) == match_spans(text, term, matches_from(text, term, 0)),
{
    assert forall|k: int| 0 <= k < term.len() implies term[k] != '\n' by {
        if term[k] == '\n' {
            assert(term.contains('\n'));
        }
    }
    lemma_finds_are_matches(text, term, 0, 0);
}

} // verus!
