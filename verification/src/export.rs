//! Exporting a project: the story text (folders and scenes, with titles and breaks as
//! the export settings say) and an outline of all notes and metadata.
use vstd::prelude::*;
use crate::compile::{CompileStatus, IncludeOptions, option_of, INCLUDE, OVERRIDE_INCLUDE_TITLE, INCLUDE_TITLE, OVERRIDE_BREAK_AT_END, BREAK_AT_END};
use crate::reference::replace_char_with;
use crate::text::{byte_len, chars_of, find_char, find_from, lemma_find_char, push_char, str_byte_len, take_chars, trim, trim_chars};

verus! {

/// Down to which depth titles are included in an export.
#[derive(Debug, Clone, Copy, PartialEq, Eq, Structural)]
pub enum ExportDepth {
    All,
    UpTo(u64),
    NoTitles,
}

pub open spec fn displays_at(d: ExportDepth, depth: u64) -> bool {
    match d {
        ExportDepth::All => true,
        ExportDepth::UpTo(max_depth) => depth <= max_depth,
        ExportDepth::NoTitles => false,
    }
}

impl ExportDepth {
    pub fn should_display(&self, depth: u64) -> (r: bool)
        ensures
            r == displays_at(*self, depth),
    {
        match self {
            ExportDepth::All => true,
            ExportDepth::UpTo(max_depth) => depth <= *max_depth,
            ExportDepth::NoTitles => false,
        }
    }
}

/// How a story export is laid out.
#[derive(Debug, Clone, Copy, PartialEq, Eq, Structural)]
pub struct ExportOptions {
    pub folder_title_depth: ExportDepth,
    pub scene_title_depth: ExportDepth,
    pub insert_breaks: bool,
}

/// The export settings stored with a project.
#[derive(Debug, Clone, Copy, PartialEq, Eq, Structural)]
pub struct ProjectExportSettings {
    pub include_all_folder_titles: bool,
    /// how many levels deep to include folder titles, ignored if include_all_folder_titles is set
    pub include_folder_title_depth: u64,
    pub include_all_scene_titles: bool,
    /// how many levels deep to include scene titles, ignored if include_all_scene_titles is set
    pub include_scene_title_depth: u64,
    pub insert_break_at_end: bool,
}

impl Default for ProjectExportSettings {
    fn default() -> (r: Self)
        ensures
            r == (ProjectExportSettings {
                include_all_folder_titles: false,
                include_folder_title_depth: 1,
                include_all_scene_titles: false,
                include_scene_title_depth: 1,
                insert_break_at_end: true,
            }),
    {
        ProjectExportSettings {
            include_all_folder_titles: false,
            include_folder_title_depth: 1,
            include_all_scene_titles: false,
            include_scene_title_depth: 1,
            insert_break_at_end: true,
        }
    }
}

/// The title depth that an "all" flag and a depth setting stand for (a depth of 0 means
/// no titles).
pub open spec fn depth_setting(all: bool, depth: u64) -> ExportDepth {
    if all {
        ExportDepth::All
    } else if depth == 0 {
        ExportDepth::NoTitles
    } else {
        ExportDepth::UpTo(depth)
    }
}

fn depth_setting_exec(all: bool, depth: u64) -> (r: ExportDepth)
    ensures
        r == depth_setting(all, depth),
{
    if all {
        ExportDepth::All
    } else if depth == 0 {
        ExportDepth::NoTitles
    } else {
        ExportDepth::UpTo(depth)
    }
}

impl ProjectExportSettings {
    /// The options with which the story is exported under these settings.
    pub fn export_options(&self) -> (r: ExportOptions)
        ensures
            r == (ExportOptions {
                folder_title_depth: depth_setting(self.include_all_folder_titles, self.include_folder_title_depth),
                scene_title_depth: depth_setting(self.include_all_scene_titles, self.include_scene_title_depth),
                insert_breaks: self.insert_break_at_end,
            }),
    {
        ExportOptions {
            folder_title_depth: depth_setting_exec(self.include_all_folder_titles, self.include_folder_title_depth),
            scene_title_depth: depth_setting_exec(self.include_all_scene_titles, self.include_scene_title_depth),
            insert_breaks: self.insert_break_at_end,
        }
    }
}

/// A markdown heading: `depth` hashes, a space, the title and a blank line.
pub open spec fn title_text(depth: nat, title: Seq<char>) -> Seq<char> {
    Seq::new(depth, |i: int| '#') + seq![' '] + title + seq!['\n', '\n']
}

/// Called by all of the outline and export functions, keeps the formatting consistent
pub fn write_title(depth: u64, title: &str, export_string: &mut String)
    ensures
        final(export_string)@ == old(export_string)@ + title_text(depth as nat, title@),
{
    let mut i: u64 = 0;
    while i < depth
        invariant
            i <= depth,
            export_string@ == old(export_string)@ + Seq::new(i as nat, |k: int| '#'),
        decreases depth - i,
    {
        push_char(export_string, '#');
        i = i + 1;
        assert(export_string@ =~= old(export_string)@ + Seq::new(i as nat, |k: int| '#'));
    }
    push_char(export_string, ' ');
    export_string.append(title);
    push_char(export_string, '\n');
    push_char(export_string, '\n');
    assert(export_string@ =~= old(export_string)@ + title_text(depth as nat, title@));
}

pub open spec fn contains_char(s: Seq<char>, c: char) -> bool {
    exists|j: int| 0 <= j < s.len() && s[j] == c
}

/// A property of an outline: nothing when empty; a short one-line value after the name
/// (`name: value`); anything with a line break or over 40 bytes as a quote block.
pub open spec fn outline_property(name: Seq<char>, property: Seq<char>) -> Seq<char> {
    if property.len() == 0 {
        seq![]
    } else if contains_char(property, '\n') || byte_len(property) > 40 {
        name + seq![':', '\n', '\n', '>', ' '] + replace_char_with(property, '\n', seq!['\n', '>', ' ']) + seq!['\n', '\n', '\n']
    } else {
        name + seq![':', ' '] + property + seq!['\n', '\n']
    }
}

pub fn write_outline_property(property_name: &str, property: &str, export_string: &mut String)
    ensures
        final(export_string)@ == old(export_string)@ + outline_property(property_name@, property@),
{
    if property.is_empty() {
        assert(export_string@ =~= old(export_string)@ + outline_property(property_name@, property@));
        return;
    }
    export_string.append(property_name);
    push_char(export_string, ':');
    let v = chars_of(property);
    let nl = find_from(&v, 0, '\n');
    proof {
        assert(v@.skip(0) =~= v@);
        lemma_find_char(property@, '\n');
    }
    if nl.is_some() || str_byte_len(property) > 40 {
        export_string.append("\n\n");
        export_string.append("> ");
        let mut i: usize = 0;
        let ghost base = export_string@;
        while i < v.len()
            invariant
                v@ == property@,
                i <= v.len(),
                export_string@ == base + replace_char_with(property@.take(i as int), '\n', seq!['\n', '>', ' ']),
            decreases v.len() - i,
        {
            proof {
                assert(property@.take(i + 1).drop_last() =~= property@.take(i as int));
                assert(property@.take(i + 1).last() == v@[i as int]);
            }
            if v[i] == '\n' {
                push_char(export_string, '\n');
                push_char(export_string, '>');
                push_char(export_string, ' ');
            } else {
                push_char(export_string, v[i]);
            }
            i = i + 1;
            assert(export_string@ =~= base + replace_char_with(property@.take(i as int), '\n', seq!['\n', '>', ' ']));
        }
        push_char(export_string, '\n');
        export_string.append("\n\n");
        proof {
            reveal_strlit("\n\n");
            reveal_strlit("> ");
            assert(property@.take(i as int) =~= property@);
            if nl.is_some() {
                assert(contains_char(property@, '\n'));
            }
            assert(export_string@ =~= old(export_string)@ + outline_property(property_name@, property@));
        }
    } else {
        push_char(export_string, ' ');
        export_string.append(property);
        push_char(export_string, '\n');
        push_char(export_string, '\n');
        proof {
            assert(!contains_char(property@, '\n'));
            assert(export_string@ =~= old(export_string)@ + outline_property(property_name@, property@));
        }
    }
}

} // verus!

verus! {

/// The body of a scene as saved and exported: every line trimmed and ended by a newline.
pub open spec fn trimmed_lines(s: Seq<char>) -> Seq<char>
    decreases s.len(),
{
    match find_char(s, '\n') {
        Some(p) => if 0 <= p < s.len() {
            trim_chars(s.take(p)) + seq!['\n'] + trimmed_lines(s.skip(p + 1))
        } else {
            seq![]
        },
        None => trim_chars(s) + seq!['\n'],
    }
}

/// Gets the contents of a scene body to be written: each line trimmed and followed by a
/// newline.
pub fn scene_body(text: &str) -> (r: String)
    ensures
        r@ == trimmed_lines(text@),
{
    let v = chars_of(text);
    let mut out = String::new();
    let mut rest: &str = text;
    let mut pos: usize = 0;
    proof {
        assert(v@.skip(0) =~= v@);
    }
    loop
        invariant
            v@ == text@,
            pos <= v.len(),
            rest@ == v@.skip(pos as int),
            out@ + trimmed_lines(rest@) == trimmed_lines(text@),
        decreases v.len() - pos,
    {
        let ghost s = rest@;
        proof {
            lemma_find_char(s, '\n');
            assert(v@.skip(pos as int) =~= s);
        }
        match find_from(&v, pos, '\n') {
            Some(p) => {
                let (line, after) = take_chars(rest, &v, pos, p);
                proof {
                    assert(v@.skip(pos as int).skip(p as int) =~= v@.skip(pos + p));
                }
                let (_, next) = take_chars(after, &v, pos + p, 1);
                out.append(trim(line));
                push_char(&mut out, '\n');
                rest = next;
                pos = pos + p + 1;
                proof {
                    assert(v@.skip((pos - p - 1) as int).skip(p as int) =~= v@.skip((pos - 1) as int));
                    assert(v@.skip((pos - 1) as int).skip(1) =~= v@.skip(pos as int));
                    assert(s.skip(p + 1) =~= rest@);
                    assert(trimmed_lines(s) == trim_chars(s.take(p as int)) + seq!['\n'] + trimmed_lines(s.skip(p + 1)));
                }
            },
            None => {
                out.append(trim(rest));
                push_char(&mut out, '\n');
                proof {
                    assert(out@ =~= trimmed_lines(text@));
                }
                return out;
            },
        }
    }
}

pub const OPENING_DOUBLE_QUOTE: &'static str = r#"((^|\s)\*{0,3})""#;
pub const CLOSING_DOUBLE_QUOTE: &'static str = "\"";
pub const OPENING_SINGLE_QUOTE: &'static str = r#"((^|\s)\*{0,3})'"#;
pub const CLOSING_SINGLE_QUOTE: &'static str = "'";

/// The text with typographic quotes: quotes at the start of the text or after white space
/// (and up to three `*`) open, every other quote closes.
pub open spec fn smart_quotes(s: Seq<char>) -> Seq<char> {
    let a = crate::regex_ops::replaced_or_same(OPENING_DOUBLE_QUOTE@, s, "$1\u{201c}"@);
    let b = crate::regex_ops::replaced_or_same(CLOSING_DOUBLE_QUOTE@, a, "\u{201d}"@);
    let c = crate::regex_ops::replaced_or_same(OPENING_SINGLE_QUOTE@, b, "$1\u{2018}"@);
    crate::regex_ops::replaced_or_same(CLOSING_SINGLE_QUOTE@, c, "\u{2019}"@)
}

pub fn apply_smart_quotes(s: String) -> (r: String)
    ensures
        r@ == smart_quotes(s@),
{
    let a = crate::regex_ops::replace_all_or_keep(OPENING_DOUBLE_QUOTE, s, "$1\u{201c}");
    let b = crate::regex_ops::replace_all_or_keep(CLOSING_DOUBLE_QUOTE, a, "\u{201d}");
    let c = crate::regex_ops::replace_all_or_keep(OPENING_SINGLE_QUOTE, b, "$1\u{2018}");
    crate::regex_ops::replace_all_or_keep(CLOSING_SINGLE_QUOTE, c, "\u{2019}")
}

/// `s` followed by as many newlines as it takes to end in a blank line.
pub open spec fn end_paragraph(s: Seq<char>) -> Seq<char> {
    if s.len() >= 2 && s[s.len() - 2] == '\n' && s[s.len() - 1] == '\n' {
        s
    } else if s.len() >= 1 && s[s.len() - 1] == '\n' {
        s.push('\n')
    } else {
        s + seq!['\n', '\n']
    }
}

fn end_paragraph_exec(s: &mut String)
    ensures
        final(s)@ == end_paragraph(old(s)@),
{
    let v = chars_of(s.as_str());
    let n = v.len();
    if n >= 2 && v[n - 2] == '\n' && v[n - 1] == '\n' {
        return;
    }
    push_char(s, '\n');
    if !(n >= 1 && v[n - 1] == '\n') {
        push_char(s, '\n');
        assert(s@ =~= old(s)@ + seq!['\n', '\n']);
    }
}

/// The option chosen for a title or break: always, never, or the default given.
pub open spec fn chosen(o: IncludeOptions, default: bool) -> bool {
    match o {
        IncludeOptions::Always => true,
        IncludeOptions::Default => default,
        IncludeOptions::Never => false,
    }
}

fn chosen_exec(o: IncludeOptions, default: bool) -> (r: bool)
    ensures
        r == chosen(o, default),
{
    match o {
        IncludeOptions::Always => true,
        IncludeOptions::Default => default,
        IncludeOptions::Never => false,
    }
}

/// The depth of the children of an object at `depth`.
pub open spec fn child_depth(depth: u64) -> u64 {
    if depth < u64::MAX {
        (depth + 1) as u64
    } else {
        depth
    }
}

/// What the story export is made from: folders and scenes in story order.
pub enum ExportNode {
    Folder { title: String, compile_status: CompileStatus, children: Vec<ExportNode> },
    Scene { title: String, compile_status: CompileStatus, text: String },
    /// Any other object, which adds nothing to the story.
    Other,
}

/// Exporting one object at `depth` after the text `out`, when the previous object asked
/// for a break (`include_break`): the text afterwards and whether the next object
/// should start with a break.
pub open spec fn export_node_spec(n: ExportNode, depth: u64, opts: ExportOptions, out: Seq<char>, include_break: bool) -> (Seq<char>, bool)
    decreases n,
{
    match n {
        ExportNode::Scene { title, compile_status, text } => {
            if compile_status@ & INCLUDE == INCLUDE {
                let display = chosen(option_of(compile_status@, OVERRIDE_INCLUDE_TITLE, INCLUDE_TITLE), displays_at(opts.scene_title_depth, depth));
                let o1 = if display {
                    out + title_text(depth as nat, title@)
                } else if include_break {
                    out + seq!['-', '-', '-', '-', '\n', '\n']
                } else {
                    out
                };
                (end_paragraph(o1 + smart_quotes(trimmed_lines(text@))),
                    chosen(option_of(compile_status@, OVERRIDE_BREAK_AT_END, BREAK_AT_END), opts.insert_breaks))
            } else {
                (out, include_break)
            }
        },
        ExportNode::Folder { title, compile_status, children } => {
            if compile_status@ & INCLUDE == INCLUDE {
                let display = chosen(option_of(compile_status@, OVERRIDE_INCLUDE_TITLE, INCLUDE_TITLE), displays_at(opts.folder_title_depth, depth));
                let o1 = if display { out + title_text(depth as nat, title@) } else { out };
                let b1 = if display { false } else { include_break };
                let r = export_children(children@, child_depth(depth), opts, o1, b1);
                (r.0, r.1 || chosen(option_of(compile_status@, OVERRIDE_BREAK_AT_END, BREAK_AT_END), opts.insert_breaks))
            } else {
                (out, include_break)
            }
        },
        ExportNode::Other => (out, include_break),
    }
}

/// Exporting a sequence of objects in order, each told whether the one before asked for
/// a break.
pub open spec fn export_children(ns: Seq<ExportNode>, depth: u64, opts: ExportOptions, out: Seq<char>, include_break: bool) -> (Seq<char>, bool)
    decreases ns,
{
    if ns.len() == 0 {
        (out, include_break)
    } else {
        let r = export_children(ns.drop_last(), depth, opts, out, include_break);
        export_node_spec(ns.last(), depth, opts, r.0, r.1)
    }
}

/// `p` is the start of `s`.
pub open spec fn starts_with(s: Seq<char>, p: Seq<char>) -> bool {
    p.len() <= s.len() && s.take(p.len() as int) == p
}

proof fn lemma_end_paragraph_extends(s: Seq<char>)
    ensures
        starts_with(end_paragraph(s), s),
{
    assert(end_paragraph(s).take(s.len() as int) =~= s);
}

proof fn lemma_starts_with_trans(a: Seq<char>, b: Seq<char>, c: Seq<char>)
    requires
        starts_with(a, b),
        starts_with(b, c),
    ensures
        starts_with(a, c),
{
    assert(a.take(c.len() as int) =~= b.take(c.len() as int));
}

/// Exporting only ever adds text after what was written before.
proof fn lemma_export_node_extends(n: ExportNode, depth: u64, opts: ExportOptions, out: Seq<char>, b: bool)
    ensures
        starts_with(export_node_spec(n, depth, opts, out, b).0, out),
    decreases n,
{
    match n {
        ExportNode::Scene { title, compile_status, text } => {
            if compile_status@ & INCLUDE == INCLUDE {
                let display = chosen(option_of(compile_status@, OVERRIDE_INCLUDE_TITLE, INCLUDE_TITLE), displays_at(opts.scene_title_depth, depth));
                let o1 = if display {
                    out + title_text(depth as nat, title@)
                } else if b {
                    out + seq!['-', '-', '-', '-', '\n', '\n']
                } else {
                    out
                };
                let o2 = o1 + smart_quotes(trimmed_lines(text@));
                assert(starts_with(o1, out)) by {
                    assert(o1.take(out.len() as int) =~= out);
                }
                assert(starts_with(o2, o1)) by {
                    assert(o2.take(o1.len() as int) =~= o1);
                }
                lemma_end_paragraph_extends(o2);
                lemma_starts_with_trans(end_paragraph(o2), o2, o1);
                lemma_starts_with_trans(end_paragraph(o2), o1, out);
            } else {
                assert(out.take(out.len() as int) =~= out);
            }
        },
        ExportNode::Folder { title, compile_status, children } => {
            if compile_status@ & INCLUDE == INCLUDE {
                let display = chosen(option_of(compile_status@, OVERRIDE_INCLUDE_TITLE, INCLUDE_TITLE), displays_at(opts.folder_title_depth, depth));
                let o1 = if display { out + title_text(depth as nat, title@) } else { out };
                let b1 = if display { false } else { b };
                assert(starts_with(o1, out)) by {
                    assert(o1.take(out.len() as int) =~= out);
                }
                assert(decreases_to!(n => children));
                lemma_export_children_extends(children@, child_depth(depth), opts, o1, b1);
                lemma_starts_with_trans(export_children(children@, child_depth(depth), opts, o1, b1).0, o1, out);
            } else {
                assert(out.take(out.len() as int) =~= out);
            }
        },
        ExportNode::Other => {
            assert(out.take(out.len() as int) =~= out);
        },
    }
}

proof fn lemma_export_children_extends(ns: Seq<ExportNode>, depth: u64, opts: ExportOptions, out: Seq<char>, b: bool)
    ensures
        starts_with(export_children(ns, depth, opts, out, b).0, out),
    decreases ns,
{
    if ns.len() == 0 {
        assert(out.take(out.len() as int) =~= out);
    } else {
        lemma_export_children_extends(ns.drop_last(), depth, opts, out, b);
        let r = export_children(ns.drop_last(), depth, opts, out, b);
        lemma_export_node_extends(ns.last(), depth, opts, r.0, r.1);
        lemma_starts_with_trans(export_node_spec(ns.last(), depth, opts, r.0, r.1).0, r.0, out);
    }
}

/// An included folder whose title is shown at this depth.
pub open spec fn shows_folder_heading(n: ExportNode, depth: u64, opts: ExportOptions) -> bool {
    n matches ExportNode::Folder { title, compile_status, children }
        && compile_status@ & INCLUDE == INCLUDE
        && chosen(option_of(compile_status@, OVERRIDE_INCLUDE_TITLE, INCLUDE_TITLE), displays_at(opts.folder_title_depth, depth))
}

/// A folder's heading takes the place of the break that the object before it asked for:
/// exporting a folder whose title is shown writes its heading right after what came before,
/// and whether a break was asked for makes no difference to anything it writes (so no
/// `----` is ever written under a folder heading) nor to what it asks of the next object.
pub proof fn folder_heading_takes_the_place_of_a_break(n: ExportNode, depth: u64, opts: ExportOptions, out: Seq<char>, b: bool)
    requires
        shows_folder_heading(n, depth, opts),
    ensures
        export_node_spec(n, depth, opts, out, b) == export_node_spec(n, depth, opts, out, false),
        starts_with(export_node_spec(n, depth, opts, out, b).0, out + title_text(depth as nat, n->Folder_title@)),
{
    match n {
        ExportNode::Folder { title, compile_status, children } => {
            let o1 = out + title_text(depth as nat, title@);
            assert(decreases_to!(n => children));
            lemma_export_children_extends(children@, child_depth(depth), opts, o1, false);
        },
        _ => {},
    }
}

/// An included scene, and whether its title is shown at this depth.
pub open spec fn included_scene(n: ExportNode, depth: u64, opts: ExportOptions) -> Option<bool> {
    match n {
        ExportNode::Scene { title, compile_status, text } => if compile_status@ & INCLUDE == INCLUDE {
            Some(chosen(option_of(compile_status@, OVERRIDE_INCLUDE_TITLE, INCLUDE_TITLE), displays_at(opts.scene_title_depth, depth)))
        } else {
            None
        },
        _ => None,
    }
}

/// An object that is left out of the export: not a folder or scene, or not included.
pub open spec fn left_out(n: ExportNode) -> bool {
    match n {
        ExportNode::Scene { compile_status, .. } => compile_status@ & INCLUDE != INCLUDE,
        ExportNode::Folder { compile_status, .. } => compile_status@ & INCLUDE != INCLUDE,
        ExportNode::Other => true,
    }
}

/// An included scene answers a pending break with a `----` line when its title is not
/// shown, and ignores it when its title is shown (the heading takes its place). An object
/// that is left out writes nothing and passes the pending break on.
pub proof fn scenes_answer_pending_breaks(n: ExportNode, depth: u64, opts: ExportOptions, out: Seq<char>, b: bool)
    ensures
        included_scene(n, depth, opts) == Some(true)
            ==> export_node_spec(n, depth, opts, out, true) == export_node_spec(n, depth, opts, out, false),
        included_scene(n, depth, opts) == Some(false) ==> export_node_spec(n, depth, opts, out, true)
            == export_node_spec(n, depth, opts, out + seq!['-', '-', '-', '-', '\n', '\n'], false),
        left_out(n) ==> export_node_spec(n, depth, opts, out, b) == (out, b),
{
}

} // verus!

verus! {

/// Exports one object at `depth` to `out`; `include_break` says whether the previous
/// object asked for a break. Returns whether the next object should start with a break.
pub fn export_node(n: &ExportNode, depth: u64, opts: &ExportOptions, out: &mut String, include_break: bool) -> (r: bool)
    ensures
        (final(out)@, r) == export_node_spec(*n, depth, *opts, old(out)@, include_break),
    decreases n,
{
    match n {
        ExportNode::Scene { title, compile_status, text } => {
            if compile_status.contains(INCLUDE) {
                let display = chosen_exec(compile_status.include_title(), opts.scene_title_depth.should_display(depth));
                if display {
                    write_title(depth, title.as_str(), out);
                } else if include_break {
                    push_char(out, '-');
                    push_char(out, '-');
                    push_char(out, '-');
                    push_char(out, '-');
                    push_char(out, '\n');
                    push_char(out, '\n');
                    assert(out@ =~= old(out)@ + seq!['-', '-', '-', '-', '\n', '\n']);
                }
                let body = apply_smart_quotes(scene_body(text.as_str()));
                out.append(body.as_str());
                end_paragraph_exec(out);
                chosen_exec(compile_status.break_at_end(), opts.insert_breaks)
            } else {
                include_break
            }
        },
        ExportNode::Folder { title, compile_status, children } => {
            if compile_status.contains(INCLUDE) {
                let display = chosen_exec(compile_status.include_title(), opts.folder_title_depth.should_display(depth));
                let mut b = include_break;
                if display {
                    write_title(depth, title.as_str(), out);
                    b = false;
                }
                let cd = if depth < u64::MAX { depth + 1 } else { depth };
                let ghost o1 = out@;
                let ghost b1 = b;
                let mut i: usize = 0;
                proof {
                    assert forall|k: int| 0 <= k < children@.len() implies decreases_to!(*n => children@[k]) by {
                        assert(decreases_to!(*n => *children));
                        assert(decreases_to!(*children => children@));
                        assert(decreases_to!(children@ => children@[k]));
                    }
                }
                while i < children.len()
                    invariant
                        i <= children.len(),
                        forall|k: int| 0 <= k < children@.len() ==> decreases_to!(*n => children@[k]),
                        (out@, b) == export_children(children@.take(i as int), cd, *opts, o1, b1),
                        cd == child_depth(depth),
                    decreases children.len() - i,
                {
                    proof {
                        assert(children@.take(i + 1).drop_last() =~= children@.take(i as int));
                        assert(children@.take(i + 1).last() == children@[i as int]);
                    }
                    b = export_node(&children[i], cd, opts, out, b);
                    i = i + 1;
                }
                proof {
                    assert(children@.take(i as int) =~= children@);
                }
                let folder_break = chosen_exec(compile_status.break_at_end(), opts.insert_breaks);
                b || folder_break
            } else {
                include_break
            }
        },
        ExportNode::Other => include_break,
    }
}

/// The story text: the objects of the text folder exported in order from depth 1,
/// starting without a break.
pub fn export_text(text_children: &Vec<ExportNode>, export_options: &ExportOptions) -> (r: String)
    ensures
        r@ == export_children(text_children@, 1, *export_options, seq![], false).0,
{
    let mut export_string = String::new();
    let mut include_break = false;
    let mut i: usize = 0;
    while i < text_children.len()
        invariant
            i <= text_children.len(),
            (export_string@, include_break) == export_children(text_children@.take(i as int), 1, *export_options, seq![], false),
        decreases text_children.len() - i,
    {
        proof {
            assert(text_children@.take(i + 1).drop_last() =~= text_children@.take(i as int));
            assert(text_children@.take(i + 1).last() == text_children@[i as int]);
        }
        include_break = export_node(&text_children[i], 1, export_options, &mut export_string, include_break);
        i = i + 1;
    }
    proof {
        assert(text_children@.take(i as int) =~= text_children@);
    }
    export_string
}

} // verus!

verus! {

/// A named piece of an object's notes, as shown in an outline.
pub struct OutlineProperty {
    pub name: String,
    pub value: String,
}

/// What an outline is made from: each object's title, its notes, and its children.
pub struct OutlineNode {
    pub title: String,
    pub properties: Vec<OutlineProperty>,
    pub children: Vec<OutlineNode>,
}

pub open spec fn properties_text(ps: Seq<OutlineProperty>) -> Seq<char>
    decreases ps.len(),
{
    if ps.len() == 0 {
        seq![]
    } else {
        properties_text(ps.drop_last()) + outline_property(ps.last().name@, ps.last().value@)
    }
}

/// The properties of an outline are written one after the other, none left out: the text
/// of a list of properties is the text of its first part followed by the text of the rest,
/// and one property gives exactly its own [`outline_property`] text. So the outline of an
/// object shows, after its heading, every one of its properties in order.
pub proof fn properties_text_concatenates(ps: Seq<OutlineProperty>, qs: Seq<OutlineProperty>, p: OutlineProperty)
    ensures
        properties_text(ps + qs) == properties_text(ps) + properties_text(qs),
        properties_text(seq![p]) == outline_property(p.name@, p.value@),
        properties_text(Seq::<OutlineProperty>::empty()) == Seq::<char>::empty(),
    decreases qs.len(),
{
    let one = seq![p];
    assert(one.drop_last() =~= Seq::<OutlineProperty>::empty());
    assert(properties_text(one.drop_last()) == Seq::<char>::empty());
    assert(properties_text(one) =~= outline_property(p.name@, p.value@));
    if qs.len() == 0 {
        assert(ps + qs =~= ps);
        assert(properties_text(ps) + properties_text(qs) =~= properties_text(ps));
    } else {
        properties_text_concatenates(ps, qs.drop_last(), p);
        assert((ps + qs).drop_last() =~= ps + qs.drop_last());
        assert((ps + qs).last() == qs.last());
        assert(properties_text(ps + qs) =~= properties_text(ps) + properties_text(qs));
    }
}

/// Each property shows in the outline text of a list of properties: the list's text is
/// the text of the properties before it, then its own text, then the text of those after.
pub proof fn every_property_is_in_the_outline(ps: Seq<OutlineProperty>, k: int)
    requires
        0 <= k < ps.len(),
    ensures
        properties_text(ps) == properties_text(ps.take(k)) + outline_property(ps[k].name@, ps[k].value@)
            + properties_text(ps.skip(k + 1)),
{
    properties_text_concatenates(ps.take(k), ps.skip(k), ps[k]);
    assert(ps.take(k) + ps.skip(k) =~= ps);
    properties_text_concatenates(seq![ps[k]], ps.skip(k + 1), ps[k]);
    assert(seq![ps[k]] + ps.skip(k + 1) =~= ps.skip(k));
}

/// The outline of one object at `depth`: its title as a heading, its properties, then
/// the outlines of its children one level deeper.
pub open spec fn outline_text(n: OutlineNode, depth: u64) -> Seq<char>
    decreases n,
{
    title_text(depth as nat, n.title@) + properties_text(n.properties@) + outlines_text(n.children@, child_depth(depth))
}

pub open spec fn outlines_text(ns: Seq<OutlineNode>, depth: u64) -> Seq<char>
    decreases ns,
{
    if ns.len() == 0 {
        seq![]
    } else {
        outlines_text(ns.drop_last(), depth) + outline_text(ns.last(), depth)
    }
}

/// Writes the outline of `n` at `depth` to `export_string`.
pub fn generate_outline(n: &OutlineNode, depth: u64, export_string: &mut String)
    ensures
        final(export_string)@ == old(export_string)@ + outline_text(*n, depth),
    decreases n,
{
    write_title(depth, n.title.as_str(), export_string);
    let ghost after_title = export_string@;
    let mut i: usize = 0;
    while i < n.properties.len()
        invariant
            i <= n.properties.len(),
            export_string@ == after_title + properties_text(n.properties@.take(i as int)),
        decreases n.properties.len() - i,
    {
        proof {
            assert(n.properties@.take(i + 1).drop_last() =~= n.properties@.take(i as int));
            assert(n.properties@.take(i + 1).last() == n.properties@[i as int]);
        }
        write_outline_property(n.properties[i].name.as_str(), n.properties[i].value.as_str(), export_string);
        i = i + 1;
        assert(export_string@ =~= after_title + properties_text(n.properties@.take(i as int)));
    }
    proof {
        assert(n.properties@.take(i as int) =~= n.properties@);
        assert forall|k: int| 0 <= k < n.children@.len() implies decreases_to!(*n => n.children@[k]) by {
            assert(decreases_to!(*n => n.children));
            assert(decreases_to!(n.children => n.children@));
            assert(decreases_to!(n.children@ => n.children@[k]));
        }
    }
    let cd = if depth < u64::MAX { depth + 1 } else { depth };
    let ghost after_props = export_string@;
    let mut j: usize = 0;
    while j < n.children.len()
        invariant
            j <= n.children.len(),
            cd == child_depth(depth),
            forall|k: int| 0 <= k < n.children@.len() ==> decreases_to!(*n => n.children@[k]),
            export_string@ == after_props + outlines_text(n.children@.take(j as int), cd),
        decreases n.children.len() - j,
    {
        proof {
            assert(n.children@.take(j + 1).drop_last() =~= n.children@.take(j as int));
            assert(n.children@.take(j + 1).last() == n.children@[j as int]);
        }
        generate_outline(&n.children[j], cd, export_string);
        j = j + 1;
        assert(export_string@ =~= after_props + outlines_text(n.children@.take(j as int), cd));
    }
    proof {
        assert(n.children@.take(j as int) =~= n.children@);
    }
    assert(export_string@ =~= old(export_string)@ + outline_text(*n, depth));
}

/// The outlines of a list of objects are written one after the other: the outline of a
/// list is the outline of its first part followed by that of the rest, and one object
/// gives exactly its own outline.
pub proof fn outlines_concatenate(ns: Seq<OutlineNode>, ms: Seq<OutlineNode>, n: OutlineNode, depth: u64)
    ensures
        outlines_text(ns + ms, depth) == outlines_text(ns, depth) + outlines_text(ms, depth),
        outlines_text(seq![n], depth) == outline_text(n, depth),
    decreases ms.len(),
{
    let one = seq![n];
    assert(one.drop_last() =~= Seq::<OutlineNode>::empty());
    assert(one.last() == n);
    assert(outlines_text(one.drop_last(), depth) == Seq::<char>::empty());
    assert(outlines_text(one, depth) =~= outline_text(n, depth));
    if ms.len() == 0 {
        assert(ns + ms =~= ns);
        assert(outlines_text(ns, depth) + outlines_text(ms, depth) =~= outlines_text(ns, depth));
    } else {
        outlines_concatenate(ns, ms.drop_last(), n, depth);
        assert((ns + ms).drop_last() =~= ns + ms.drop_last());
        assert((ns + ms).last() == ms.last());
        assert(outlines_text(ns + ms, depth) =~= outlines_text(ns, depth) + outlines_text(ms, depth));
    }
}

/// One section of a project outline: nothing without objects, else a heading, the
/// objects' outlines from depth 2, and a blank line.
pub open spec fn outline_section(heading: Seq<char>, ns: Seq<OutlineNode>) -> Seq<char> {
    if ns.len() == 0 {
        seq![]
    } else {
        title_text(1, heading) + outlines_text(ns, 2) + seq!['\n', '\n']
    }
}

fn write_outline_section(heading: &str, ns: &Vec<OutlineNode>, export_string: &mut String)
    ensures
        final(export_string)@ == old(export_string)@ + outline_section(heading@, ns@),
{
    if ns.len() == 0 {
        assert(export_string@ =~= old(export_string)@ + outline_section(heading@, ns@));
        return;
    }
    write_title(1, heading, export_string);
    let ghost start = export_string@;
    let mut j: usize = 0;
    while j < ns.len()
        invariant
            j <= ns.len(),
            export_string@ == start + outlines_text(ns@.take(j as int), 2),
        decreases ns.len() - j,
    {
        proof {
            assert(ns@.take(j + 1).drop_last() =~= ns@.take(j as int));
            assert(ns@.take(j + 1).last() == ns@[j as int]);
        }
        generate_outline(&ns[j], 2, export_string);
        j = j + 1;
        assert(export_string@ =~= start + outlines_text(ns@.take(j as int), 2));
    }
    push_char(export_string, '\n');
    push_char(export_string, '\n');
    proof {
        assert(ns@.take(j as int) =~= ns@);
        assert(export_string@ =~= old(export_string)@ + outline_section(heading@, ns@));
    }
}

/// The outline of a whole project.
pub open spec fn project_outline(name: Seq<char>, summary: Seq<char>, text: Seq<OutlineNode>, characters: Seq<OutlineNode>, worldbuilding: Seq<OutlineNode>) -> Seq<char> {
    title_text(1, name) + outline_property("Story Summary"@, summary)
        + outline_section("Scenes"@, text) + outline_section("Characters"@, characters)
        + outline_section("Worldbuilding"@, worldbuilding)
}

/// Export an outline to a string (which can be written to a file): the project's name and
/// summary, then the scenes, characters and worldbuilding.
pub fn export_outline(name: &str, summary: &str, text: &Vec<OutlineNode>, characters: &Vec<OutlineNode>, worldbuilding: &Vec<OutlineNode>) -> (r: String)
    ensures
        r@ == project_outline(name@, summary@, text@, characters@, worldbuilding@),
{
    let mut export_string = String::new();
    write_title(1, name, &mut export_string);
    write_outline_property("Story Summary", summary, &mut export_string);
    write_outline_section("Scenes", text, &mut export_string);
    write_outline_section("Characters", characters, &mut export_string);
    write_outline_section("Worldbuilding", worldbuilding, &mut export_string);
    assert(export_string@ =~= project_outline(name@, summary@, text@, characters@, worldbuilding@));
    export_string
}

} // verus!
