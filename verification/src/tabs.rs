//! The open tabs of the editor: which tab a page opens in, keeping tabs, and moving
//! between tabs, cycling at either end.
use vstd::prelude::*;
use crate::reference::FileID;
use crate::search::{Page, PageV};
use crate::text::str_equal;

verus! {

/// A move to a neighbouring tab.
#[derive(Debug, Clone, Copy, PartialEq, Eq, Structural)]
pub enum TabMove {
    Previous,
    Next,
}

/// The position of the tab reached by `m` from the tab at `current` among `count` tabs: the
/// next one, or the previous one, wrapping around at the ends.
pub open spec fn tab_after(m: TabMove, current: int, count: int) -> int {
    match m {
        TabMove::Next => (current + 1) % count,
        TabMove::Previous => if current == 0 { count - 1 } else { current - 1 },
    }
}

/// The tab to activate after the move `tab_move`, among `count` open tabs of which the one
/// at `current_pos` has the focus (if any has). Nothing happens with fewer than two tabs or
/// with no focused tab.
pub fn move_tab(tab_move: TabMove, count: usize, current_pos: Option<usize>) -> (r: Option<usize>)
    requires
        current_pos matches Some(p) ==> p < count,
    ensures
        r matches Some(n) ==> n < count,
        r == (if count > 1 && current_pos is Some {
            Some(tab_after(tab_move, current_pos->0 as int, count as int) as usize)
        } else {
            None::<usize>
        }),
{
    if count > 1 {
        match current_pos {
            Some(current) => {
                let new_pos = match tab_move {
                    TabMove::Next => (current + 1) % count,
                    TabMove::Previous => if current == 0 { count - 1 } else { current - 1 },
                };
                Some(new_pos)
            },
            None => None,
        }
    } else {
        None
    }
}

/// The element of a page that Tab (`Next`) or Shift-Tab (`Previous`) focuses, among the
/// `count` elements that take the focus, the one at `current` having had it last (if one
/// has): the next one, or the first after the last one or when none had the focus; the
/// previous one, or the last before the first one or when none had it. Going back also asks
/// for the focus again on the next frame (the second part), as the focus can get lost on
/// the way.
pub open spec fn focus_target(direction: TabMove, count: int, current: Option<int>) -> (int, bool) {
    match direction {
        TabMove::Next => match current {
            Some(i) => if i + 1 < count { (i + 1, false) } else { (0, false) },
            None => (0, false),
        },
        TabMove::Previous => match current {
            Some(i) => if i >= 1 { (i - 1, true) } else { (count - 1, true) },
            None => (count - 1, true),
        },
    }
}

/// Decides where Tab or Shift-Tab moves the focus on a page, as [`focus_target`] says: the
/// position of the element to focus and whether to ask for the focus again next frame.
pub fn shift_focus(direction: TabMove, count: usize, current: Option<usize>) -> (r: (usize, bool))
    requires
        count > 0,
        current matches Some(i) ==> i < count,
    ensures
        r.0 < count,
        (r.0 as int, r.1) == focus_target(direction, count as int, match current { Some(i) => Some(i as int), None => None }),
{
    match direction {
        TabMove::Next => match current {
            Some(i) => if i + 1 < count { (i + 1, false) } else { (0, false) },
            None => (0, false),
        },
        TabMove::Previous => match current {
            Some(i) => if i >= 1 { (i - 1, true) } else { (count - 1, true) },
            None => (count - 1, true),
        },
    }
}

/// Moving to the next tab and then back to the previous one, or the other way round,
/// comes back to the tab one started from.
pub proof fn tab_moves_undo_each_other(current: int, count: int)
    requires
        0 <= current < count,
    ensures
        tab_after(TabMove::Previous, tab_after(TabMove::Next, current, count), count) == current,
        tab_after(TabMove::Next, tab_after(TabMove::Previous, current, count), count) == current,
        0 <= tab_after(TabMove::Next, current, count) < count,
        0 <= tab_after(TabMove::Previous, current, count) < count,
{
    if current + 1 < count {
        assert((current + 1) % count == current + 1) by (nonlinear_arith)
            requires 0 <= current + 1 < count;
    } else {
        assert((current + 1) % count == 0) by (nonlinear_arith)
            requires current + 1 == count, count > 0;
    }
    if current == 0 {
        assert(((count - 1) + 1) % count == 0) by (nonlinear_arith)
            requires count > 0;
    } else {
        assert(((current - 1) + 1) % count == current) by (nonlinear_arith)
            requires 0 < current < count;
    }
}

/// An open tab: the page it shows, and whether it is kept (the page was edited) rather than
/// only browsed, in which case the next page browsed takes its place.
#[derive(Debug)]
pub struct OpenPage {
    pub page: Page,
    pub keep: bool,
}

/// The pages of the open tabs, with whether each is kept.
pub open spec fn tabs_view(open: Seq<OpenPage>) -> Seq<(PageV, bool)> {
    open.map_values(|t: OpenPage| (t.page@, t.keep))
}

/// The first open tab that shows `page`.
pub open spec fn first_showing(open: Seq<(PageV, bool)>, page: PageV) -> Option<int> {
    if exists|k: int| 0 <= k < open.len() && open[k].0 == page {
        Some(choose|k: int| 0 <= k < open.len() && open[k].0 == page && forall|j: int| 0 <= j < k ==> open[j].0 != page)
    } else {
        None
    }
}

/// The first open tab that is only browsed.
pub open spec fn first_browsed(open: Seq<(PageV, bool)>) -> Option<int> {
    if exists|k: int| 0 <= k < open.len() && !open[k].1 {
        Some(choose|k: int| 0 <= k < open.len() && !open[k].1 && forall|j: int| 0 <= j < k ==> open[j].1)
    } else {
        None
    }
}

/// What showing a page in a tab does.
#[derive(Debug, Clone, Copy, PartialEq, Eq, Structural)]
pub enum TabAction {
    /// Nothing (a top-level folder is not opened).
    Nothing,
    /// The page is open already: its tab is selected.
    Select(usize),
    /// The page opens in a new tab, which takes the place of the tab at `replacing` (the
    /// first tab that was only browsed), if there is one.
    Open { replacing: Option<usize> },
}

/// What showing `page` does among the open tabs `open`, `roots` being the top-level folders.
pub open spec fn tab_action_spec(open: Seq<(PageV, bool)>, page: PageV, roots: Seq<Seq<char>>) -> TabAction {
    if page matches PageV::FileObject(id) && roots.contains(id) {
        TabAction::Nothing
    } else {
        match first_showing(open, page) {
            Some(k) => TabAction::Select(k as usize),
            None => TabAction::Open {
                replacing: match first_browsed(open) {
                    Some(k) => Some(k as usize),
                    None => None,
                },
            },
        }
    }
}

fn same_page(a: &Page, b: &Page) -> (r: bool)
    ensures
        r == (a@ == b@),
{
    match (a, b) {
        (Page::ProjectMetadata, Page::ProjectMetadata) => true,
        (Page::Export, Page::Export) => true,
        (Page::FileObject(x), Page::FileObject(y)) => str_equal(x.as_str(), y.as_str()),
        _ => false,
    }
}

/// Which tab showing `page` goes to among the open tabs `open`, as [`tab_action_spec`]
/// says: none for a top-level folder (one of `roots`); the tab already showing it; or a new
/// tab, in place of the first tab that was only browsed.
pub fn set_editor_tab(open: &Vec<OpenPage>, page: &Page, roots: &Vec<FileID>) -> (r: TabAction)
    ensures
        r == tab_action_spec(tabs_view(open@), page@, roots@.map_values(|s: FileID| s@)),
        r matches TabAction::Select(k) ==> k < open.len(),
        r matches TabAction::Open { replacing: Some(k) } ==> k < open.len(),
{
    let ghost tv = tabs_view(open@);
    let ghost rv = roots@.map_values(|s: FileID| s@);
    match page {
        Page::FileObject(id) => {
            let mut k: usize = 0;
            while k < roots.len()
                invariant
                    k <= roots.len(),
                    page@ == PageV::FileObject(id@),
                    rv == roots@.map_values(|s: FileID| s@),
                    forall|j: int| 0 <= j < k ==> rv[j] != id@,
                decreases roots.len() - k,
            {
                assert(rv[k as int] == roots@[k as int]@);
                if str_equal(roots[k].as_str(), id.as_str()) {
                    assert(rv.contains(id@));
                    return TabAction::Nothing;
                }
                k = k + 1;
            }
            proof {
                if rv.contains(id@) {
                    let w = choose|w: int| 0 <= w < rv.len() && rv[w] == id@;
                    assert(rv[w] != id@);
                }
            }
        },
        _ => {},
    }
    assert(!(page@ matches PageV::FileObject(id) && rv.contains(id)));
    let mut k: usize = 0;
    while k < open.len()
        invariant
            k <= open.len(),
            tv == tabs_view(open@),
            rv == roots@.map_values(|s: FileID| s@),
            !(page@ matches PageV::FileObject(id) && rv.contains(id)),
            forall|j: int| 0 <= j < k ==> #[trigger] tv[j].0 != page@,
        decreases open.len() - k,
    {
        assert(tv[k as int] == (open@[k as int].page@, open@[k as int].keep));
        if same_page(&open[k].page, page) {
            proof {
                let w = choose|w: int| 0 <= w < tv.len() && tv[w].0 == page@ && forall|j: int| 0 <= j < w ==> tv[j].0 != page@;
                if w < k {
                    assert(tv[w].0 != page@);
                }
                if w > k {
                    assert(tv[k as int].0 != page@);
                }
                assert(first_showing(tv, page@) == Some(k as int));
            }
            return TabAction::Select(k);
        }
        k = k + 1;
    }
    let mut b: usize = 0;
    while b < open.len()
        invariant
            b <= open.len(),
            tv == tabs_view(open@),
            rv == roots@.map_values(|s: FileID| s@),
            !(page@ matches PageV::FileObject(id) && rv.contains(id)),
            forall|j: int| 0 <= j < open.len() ==> #[trigger] tv[j].0 != page@,
            forall|j: int| 0 <= j < b ==> (#[trigger] tv[j]).1,
        decreases open.len() - b,
    {
        assert(tv[b as int] == (open@[b as int].page@, open@[b as int].keep));
        if !open[b].keep {
            proof {
                let w = choose|w: int| 0 <= w < tv.len() && !tv[w].1 && forall|j: int| 0 <= j < w ==> tv[j].1;
                if w < b {
                    assert(tv[w].1);
                }
                if w > b {
                    assert(tv[b as int].1);
                }
                assert(first_browsed(tv) == Some(b as int));
                assert(first_showing(tv, page@) is None);
            }
            return TabAction::Open { replacing: Some(b) };
        }
        b = b + 1;
    }
    proof {
        if exists|w: int| 0 <= w < tv.len() && !tv[w].1 {
            let w = choose|w: int| 0 <= w < tv.len() && !tv[w].1;
            assert(tv[w].1);
        }
        if exists|w: int| 0 <= w < tv.len() && tv[w].0 == page@ {
            let w = choose|w: int| 0 <= w < tv.len() && tv[w].0 == page@;
            assert(tv[w].0 != page@);
        }
    }
    TabAction::Open { replacing: None }
}

/// Marks every tab that shows `page` as kept (the page was edited).
pub fn keep_editor_tab(open: &mut Vec<OpenPage>, page: &Page)
    ensures
        final(open).len() == old(open).len(),
        forall|k: int| 0 <= k < old(open).len() ==> #[trigger] tabs_view(final(open)@)[k] == (
            tabs_view(old(open)@)[k].0,
            tabs_view(old(open)@)[k].1 || tabs_view(old(open)@)[k].0 == page@,
        ),
{
    let ghost before = tabs_view(open@);
    let mut k: usize = 0;
    while k < open.len()
        invariant
            k <= open.len(),
            open.len() == before.len(),
            before == tabs_view(old(open)@),
            forall|j: int| 0 <= j < k ==> #[trigger] tabs_view(open@)[j] == (before[j].0, before[j].1 || before[j].0 == page@),
            forall|j: int| k <= j < open.len() ==> #[trigger] tabs_view(open@)[j] == before[j],
        decreases open.len() - k,
    {
        let ghost prev = open@;
        assert(tabs_view(prev)[k as int] == before[k as int]);
        assert(tabs_view(prev)[k as int] == (prev[k as int].page@, prev[k as int].keep));
        if same_page(&open[k].page, page) {
            let shown = open[k].page.duplicate();
            open.set(k, OpenPage { page: shown, keep: true });
            assert(open@ == prev.update(k as int, open@[k as int]));
        }
        proof {
            assert forall|j: int| 0 <= j < open.len() && j != k implies #[trigger] tabs_view(open@)[j] == tabs_view(prev)[j] by {
                assert(open@[j] == prev[j]);
            }
            assert(tabs_view(open@)[k as int] == (before[k as int].0, before[k as int].1 || before[k as int].0 == page@));
        }
        k = k + 1;
    }
}

} // verus!
