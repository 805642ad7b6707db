//! Splits tiny-markdown text into styled runs for display. Unlike the parser, the
//! markers themselves stay in the text so that the displayed text is the source text.
use vstd::prelude::*;
use crate::markdown::{plain, starts_strong, Style};
use crate::text::{chars_of, take_chars, find_char, find_from, lemma_find_char};

verus! {

/// A run of source text shown in one style.
#[derive(Copy, Clone, Debug, PartialEq, Eq)]
pub struct Segment<'a> {
    pub text: &'a str,
    pub style: Style,
}

pub open spec fn toggle_strong(st: Style) -> Style {
    Style { strong: !st.strong, italic: st.italic }
}

pub open spec fn toggle_italic(st: Style) -> Style {
    Style { strong: st.strong, italic: !st.italic }
}

/// How a step begins: a closing marker is emitted on its own in the old style
/// (`closing`), or an opening marker is kept at the start of the next run (`skip`
/// characters); either way the style is toggled.
pub open spec fn marker(s: Seq<char>, st: Style) -> (bool, int, Style) {
    if starts_strong(s) {
        (st.strong, 2, toggle_strong(st))
    } else if s.len() > 0 && s[0] == '*' {
        (st.italic, 1, toggle_italic(st))
    } else {
        (false, 0, st)
    }
}

/// Where the run after the marker ends: after the first newline (`.0`) or before
/// the first later `*` (`.1`), each the end of the text when there is none.
pub open spec fn run_ends(s1: Seq<char>, skip: int) -> (int, int) {
    let line_end = match find_char(s1.skip(skip), '\n') {
        Some(i) => skip + i + 1,
        None => s1.len() as int,
    };
    let end = match find_char(s1.skip(skip), '*') {
        Some(i) => if skip + i >= 1 { skip + i } else { 1 },
        None => s1.len() as int,
    };
    (line_end, end)
}

/// One step of the highlighter on the text `s` in style `st`: the runs emitted, the
/// text left and the style afterwards.
#[verifier::opaque]
pub open spec fn highlight_step(s: Seq<char>, st: Style) -> (Seq<(Seq<char>, Style)>, Seq<char>, Style) {
    let (closing, n, st1) = marker(s, st);
    let pre: Seq<(Seq<char>, Style)> = if closing { seq![(s.take(n), st)] } else { seq![] };
    let s1 = if closing { s.skip(n) } else { s };
    let skip = if closing { 0 } else { n };
    let (line_end, end) = run_ends(s1, skip);
    if line_end < end {
        (pre + seq![(s1.take(line_end), st1)], s1.skip(line_end), plain())
    } else {
        (pre + seq![(s1.take(end), st1)], s1.skip(end), st1)
    }
}

/// A step consumes at least one character of non-empty text, and splits it into
/// the emitted runs and the rest.
pub proof fn lemma_highlight_step(s: Seq<char>, st: Style)
    requires
        s.len() > 0,
    ensures
        highlight_step(s, st).1.len() < s.len(),
        concat_runs(highlight_step(s, st).0) + highlight_step(s, st).1 == s,
{
    reveal(highlight_step);
    let (closing, n, st1) = marker(s, st);
    let s1 = if closing { s.skip(n) } else { s };
    let skip: int = if closing { 0 } else { n };
    lemma_find_char(s1.skip(skip), '\n');
    lemma_find_char(s1.skip(skip), '*');
    let (line_end, end) = run_ends(s1, skip);
    assert(0 <= line_end <= s1.len());
    assert(0 <= end <= s1.len());
    let cut = if line_end < end { line_end } else { end };
    let seg = s1.take(cut);
    let seq1 = seq![(seg, st1)];
    assert(concat_runs(seq1) == seg + concat_runs(seq1.drop_first()));
    assert(seq1.drop_first() =~= Seq::<(Seq<char>, Style)>::empty());
    assert(seg + Seq::<char>::empty() =~= seg);
    if closing {
        let pre = seq![(s.take(n), st)];
        assert(pre + seq1 =~= seq![(s.take(n), st), (seg, st1)]);
        assert((pre + seq1).drop_first() =~= seq1);
        assert(s.take(n) + (seg + s1.skip(cut)) =~= s);
    } else {
        assert(Seq::<(Seq<char>, Style)>::empty() + seq1 =~= seq1);
        assert(seg + s1.skip(cut) =~= s);
        assert(cut >= 1);
    }
}

/// The text of a sequence of runs, in order.
pub open spec fn concat_runs(runs: Seq<(Seq<char>, Style)>) -> Seq<char>
    decreases runs.len(),
{
    if runs.len() == 0 {
        seq![]
    } else {
        runs[0].0 + concat_runs(runs.drop_first())
    }
}

/// All runs that the highlighter emits for `s`, starting in style `st`.
pub open spec fn highlight_runs(s: Seq<char>, st: Style) -> Seq<(Seq<char>, Style)>
    decreases s.len(),
{
    if s.len() == 0 {
        seq![]
    } else {
        let (runs, rest, st2) = highlight_step(s, st);
        proof {
            lemma_highlight_step(s, st);
        }
        runs + highlight_runs(rest, st2)
    }
}

} // verus!

verus! {

proof fn lemma_concat_runs_append(a: Seq<(Seq<char>, Style)>, b: Seq<(Seq<char>, Style)>)
    ensures
        concat_runs(a + b) == concat_runs(a) + concat_runs(b),
    decreases a.len(),
{
    if a.len() == 0 {
        assert(a + b =~= b);
        assert(concat_runs(a) + concat_runs(b) =~= concat_runs(b));
    } else {
        assert((a + b).drop_first() =~= a.drop_first() + b);
        lemma_concat_runs_append(a.drop_first(), b);
        assert(a[0].0 + (concat_runs(a.drop_first()) + concat_runs(b))
            =~= (a[0].0 + concat_runs(a.drop_first())) + concat_runs(b));
    }
}

/// Highlighting only splits the text: the runs, put back together, are the text.
pub proof fn highlight_keeps_text(s: Seq<char>, st: Style)
    ensures
        concat_runs(highlight_runs(s, st)) == s,
    decreases s.len(),
{
    if s.len() > 0 {
        let (runs, rest, st2) = highlight_step(s, st);
        lemma_highlight_step(s, st);
        highlight_keeps_text(rest, st2);
        lemma_concat_runs_append(runs, highlight_runs(rest, st2));
    } else {
        assert(concat_runs(highlight_runs(s, st)) =~= s);
    }
}

/// Unfolds one step of [`highlight_runs`].
proof fn lemma_highlight_runs_unfold(s: Seq<char>, st: Style)
    requires
        s.len() > 0,
    ensures
        highlight_runs(s, st) == highlight_step(s, st).0 + highlight_runs(highlight_step(s, st).1, highlight_step(s, st).2),
{
}

/// Evaluates [`highlight_step`] from the values of its parts.
proof fn lemma_step_value(s: Seq<char>, st: Style, closing: bool, n: int, st1: Style, line_end: int, end: int)
    requires
        marker(s, st) == (closing, n, st1),
        run_ends(if closing { s.skip(n) } else { s }, if closing { 0 } else { n }) == (line_end, end),
    ensures
        highlight_step(s, st) == ({
            let pre: Seq<(Seq<char>, Style)> = if closing { seq![(s.take(n), st)] } else { seq![] };
            let s1 = if closing { s.skip(n) } else { s };
            if line_end < end {
                (pre + seq![(s1.take(line_end), st1)], s1.skip(line_end), plain())
            } else {
                (pre + seq![(s1.take(end), st1)], s1.skip(end), st1)
            }
        }),
{
    reveal(highlight_step);
}

/// The marker at position `pos` of `v`.
fn marker_at(v: &Vec<char>, pos: usize, st: Style) -> (r: (bool, usize, Style))
    requires
        pos < v.len(),
    ensures
        marker(v@.skip(pos as int), st) == (r.0, r.1 as int, r.2),
        r.1 <= 2,
        r.1 <= v.len() - pos,
{
    if pos + 1 < v.len() && v[pos] == '*' && v[pos + 1] == '*' {
        (st.strong, 2, Style { strong: !st.strong, italic: st.italic })
    } else if v[pos] == '*' {
        (st.italic, 1, Style { strong: st.strong, italic: !st.italic })
    } else {
        (false, 0, st)
    }
}

/// The ends of the run starting at `pos` of `v` after `skip` marker characters.
fn run_ends_at(v: &Vec<char>, pos: usize, skip: usize) -> (r: (usize, usize))
    requires
        pos <= v.len(),
        skip <= v.len() - pos,
    ensures
        run_ends(v@.skip(pos as int), skip as int) == (r.0 as int, r.1 as int),
        r.0 <= v.len() - pos,
        r.1 <= v.len() - pos,
        pos < v.len() ==> r.1 >= 1,
        pos < v.len() ==> r.0 >= 1,
{
    let line_end = match find_from(v, pos + skip, '\n') {
        Some(i) => skip + i + 1,
        None => v.len() - pos,
    };
    let end = match find_from(v, pos + skip, '*') {
        Some(i) => if skip + i >= 1 { skip + i } else { 1 },
        None => v.len() - pos,
    };
    proof {
        assert(v@.skip((pos + skip) as int) =~= v@.skip(pos as int).skip(skip as int));
    }
    (line_end, end)
}

/// One step of the highlighter on `rest`, whose characters are those of `v` from `pos`.
#[verifier::spinoff_prover]
fn highlight_one<'a>(rest: &'a str, v: &Vec<char>, pos: usize, st: Style) -> (r: (Vec<Segment<'a>>, &'a str, usize, Style))
    requires
        rest@ == v@.skip(pos as int),
        pos < v.len(),
    ensures
        r.0@.map_values(|g: Segment<'a>| (g.text@, g.style)) == highlight_step(rest@, st).0,
        r.1@ == highlight_step(rest@, st).1,
        r.3 == highlight_step(rest@, st).2,
        r.1@ == v@.skip(r.2 as int),
        pos < r.2 <= v.len(),
{
    let ghost s = rest@;
    let mut rest = rest;
    let mut pos = pos;
    let mut out: Vec<Segment<'a>> = Vec::new();
    let (closing, n, st1) = marker_at(v, pos, st);
    assert(marker(s, st) == (closing, n as int, st1));
    let mut skip = n;
    if closing {
        let (marker_text, after) = take_chars(rest, v, pos, n);
        out.push(Segment { text: marker_text, style: st });
        rest = after;
        pos = pos + n;
        skip = 0;
        proof {
            assert(v@.skip(pos - n).skip(n as int) =~= v@.skip(pos as int));
        }
    }
    let ghost s1 = rest@;
    assert(s1 == if closing { s.skip(n as int) } else { s });
    let (line_end, end) = run_ends_at(v, pos, skip);
    proof {
        lemma_step_value(s, st, closing, n as int, st1, line_end as int, end as int);
    }
    let cut = if line_end < end { line_end } else { end };
    let (run_text, after) = take_chars(rest, v, pos, cut);
    let ghost mid = out@;
    out.push(Segment { text: run_text, style: st1 });
    let new_st = if line_end < end { Style { strong: false, italic: false } } else { st1 };
    proof {
        assert(v@.skip(pos as int).skip(cut as int) =~= v@.skip(pos + cut));
        assert(out@ == mid.push(Segment { text: run_text, style: st1 }));
        if closing {
            assert(out@.map_values(|g: Segment<'a>| (g.text@, g.style)) =~= seq![(s.take(n as int), st)] + seq![(run_text@, st1)]);
        } else {
            assert(out@.map_values(|g: Segment<'a>| (g.text@, g.style)) =~= Seq::<(Seq<char>, Style)>::empty() + seq![(run_text@, st1)]);
        }
    }
    (out, after, pos + cut, new_st)
}

/// The styled runs in which the tiny-markdown `text` is displayed.
pub fn highlight_segments<'a>(text: &'a str) -> (segs: Vec<Segment<'a>>)
    ensures
        segs@.map_values(|g: Segment<'a>| (g.text@, g.style)) == highlight_runs(text@, plain()),
{
    let v = chars_of(text);
    let mut rest: &'a str = text;
    let mut pos: usize = 0;
    let mut st = Style { strong: false, italic: false };
    let mut out: Vec<Segment<'a>> = Vec::new();
    proof {
        assert(v@.skip(0) =~= v@);
    }
    while pos < v.len()
        invariant
            v@ == text@,
            pos <= v.len(),
            rest@ == v@.skip(pos as int),
            out@.map_values(|g: Segment<'a>| (g.text@, g.style)) + highlight_runs(rest@, st)
                == highlight_runs(text@, plain()),
        decreases v.len() - pos,
    {
        let ghost s = rest@;
        let ghost before = out@;
        let ghost st0 = st;
        let (mut segs, after, new_pos, new_st) = highlight_one(rest, &v, pos, st);
        let ghost segs0 = segs@;
        out.append(&mut segs);
        rest = after;
        pos = new_pos;
        st = new_st;
        proof {
            let (runs, r2, st2) = highlight_step(s, st0);
            assert(out@ == before + segs0);
            assert(out@.map_values(|g: Segment<'a>| (g.text@, g.style))
                =~= before.map_values(|g: Segment<'a>| (g.text@, g.style)) + segs0.map_values(|g: Segment<'a>| (g.text@, g.style)));
            lemma_highlight_runs_unfold(s, st0);
            assert(before.map_values(|g: Segment<'a>| (g.text@, g.style)) + (runs + highlight_runs(r2, st2))
                =~= (before.map_values(|g: Segment<'a>| (g.text@, g.style)) + runs) + highlight_runs(r2, st2));
        }
    }
    proof {
        assert(out@.map_values(|g: Segment<'a>| (g.text@, g.style)) + Seq::<(Seq<char>, Style)>::empty()
            =~= out@.map_values(|g: Segment<'a>| (g.text@, g.style)));
    }
    out
}

} // verus!
