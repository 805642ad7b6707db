//! A tiny markdown dialect: `**` toggles strong text, `*` toggles italic text, and a
//! newline resets both. The parser turns a string into styled text runs.
use vstd::prelude::*;
use crate::text::{byte_len, chars_of, char_utf8_len, lemma_byte_len_take, lemma_byte_len_take_le, split_at_char, str_byte_len};

verus! {

/// Formatting that applies to a run of text.
#[derive(Copy, Clone, Debug, PartialEq, Eq, Structural)]
pub struct Style {
    pub strong: bool,
    pub italic: bool,
}

impl Default for Style {
    fn default() -> (s: Self)
        ensures
            s == plain(),
    {
        Style { strong: false, italic: false }
    }
}

/// The style with neither strong nor italic set.
pub open spec fn plain() -> Style {
    Style { strong: false, italic: false }
}

/// One element produced by the parser.
#[derive(Copy, Clone, Debug, PartialEq, Eq)]
pub enum Item<'a> {
    Newline,
    Text(Style, &'a str),
}

/// The mathematical value of an [`Item`].
pub enum ItemV {
    Newline,
    Text(Style, Seq<char>),
}

impl<'a> View for Item<'a> {
    type V = ItemV;

    open spec fn view(&self) -> ItemV {
        match self {
            Item::Newline => ItemV::Newline,
            Item::Text(st, t) => ItemV::Text(*st, t@),
        }
    }
}

/// Characters that end a run of plain text.
pub open spec fn is_special(c: char) -> bool {
    c == '*' || c == '\n'
}

/// Length of the text run at the start of `s`: up to the first `*` or newline,
/// but always at least one character.
pub open spec fn text_end(s: Seq<char>) -> int
    recommends
        s.len() > 0,
    decreases s.len(),
{
    if s.len() <= 1 {
        s.len() as int
    } else if is_special(s[1]) {
        1
    } else {
        1 + text_end(s.drop_first())
    }
}

/// The text run at the start of a non-empty string has between one and all of its characters,
/// and none of them after the first is special.
pub proof fn lemma_text_end(s: Seq<char>)
    requires
        s.len() > 0,
    ensures
        1 <= text_end(s) <= s.len(),
        forall|j: int| 1 <= j < text_end(s) ==> !is_special(#[trigger] s[j]),
        text_end(s) < s.len() ==> is_special(s[text_end(s)]),
    decreases s.len(),
{
    if s.len() > 1 && !is_special(s[1]) {
        lemma_text_end(s.drop_first());
        assert forall|j: int| 1 <= j < text_end(s) implies !is_special(#[trigger] s[j]) by {
            if j >= 2 {
                assert(s[j] == s.drop_first()[j - 1]);
            }
        }
        if text_end(s) < s.len() {
            assert(s[text_end(s)] == s.drop_first()[text_end(s) - 1]);
        }
    }
}

/// Whether `s` starts with the two characters `**`.
pub open spec fn starts_strong(s: Seq<char>) -> bool {
    s.len() >= 2 && s[0] == '*' && s[1] == '*'
}

/// One step of the parser: the item produced from `s` in style `st` (none once the
/// input is used up), the input left afterwards and the style afterwards.
pub open spec fn next_step(s: Seq<char>, st: Style) -> (Option<ItemV>, Seq<char>, Style)
    decreases s.len(),
{
    if s.len() == 0 {
        (None, s, st)
    } else if s[0] == '\n' {
        (Some(ItemV::Newline), s.skip(1), plain())
    } else if starts_strong(s) {
        next_step(s.skip(2), Style { strong: !st.strong, italic: st.italic })
    } else if s[0] == '*' {
        next_step(s.skip(1), Style { strong: st.strong, italic: !st.italic })
    } else {
        let e = text_end(s);
        (Some(ItemV::Text(st, s.take(e))), s.skip(e), st)
    }
}

/// All items that the parser produces from `s`, starting in style `st`.
pub open spec fn parse_items(s: Seq<char>, st: Style) -> Seq<ItemV>
    decreases s.len(),
{
    if s.len() == 0 {
        seq![]
    } else if s[0] == '\n' {
        seq![ItemV::Newline] + parse_items(s.skip(1), plain())
    } else if starts_strong(s) {
        parse_items(s.skip(2), Style { strong: !st.strong, italic: st.italic })
    } else if s[0] == '*' {
        parse_items(s.skip(1), Style { strong: st.strong, italic: !st.italic })
    } else {
        let e = text_end(s);
        proof {
            lemma_text_end(s);
        }
        seq![ItemV::Text(st, s.take(e))] + parse_items(s.skip(e), st)
    }
}

/// Finds the end of the text run at the start of `s`: its length in characters
/// and in bytes.
fn scan_text_end(s: &str) -> (r: (usize, usize))
    requires
        s@.len() > 0,
    ensures
        r.0 == text_end(s@),
        r.1 == byte_len(s@.take(r.0 as int)),
{
    let v = chars_of(s);
    let total = str_byte_len(s);
    let mut k: usize = 1;
    let mut b: usize = char_utf8_len(v[0]);
    proof {
        lemma_byte_len_take(s@, 0);
        assert(s@.take(0) =~= Seq::<char>::empty());
        assert(s@.skip(0) =~= s@);
    }
    while k < v.len() && !(v[k] == '*' || v[k] == '\n')
        invariant
            v@ == s@,
            1 <= k <= v.len(),
            b == byte_len(s@.take(k as int)),
            total == byte_len(s@),
            text_end(s@) == k - 1 + text_end(s@.skip(k - 1)),
        decreases v.len() - k,
    {
        proof {
            lemma_byte_len_take(s@, k as int);
            lemma_byte_len_take_le(s@, k + 1);
            assert(s@.skip(k - 1).drop_first() =~= s@.skip(k as int));
        }
        b = b + char_utf8_len(v[k]);
        k = k + 1;
    }
    proof {
        if k < v.len() {
            assert(s@.skip(k - 1)[1] == s@[k as int]);
        } else {
            assert(s@.skip(k - 1).len() == 1);
        }
    }
    (k, b)
}

} // verus!

verus! {

/// Splits a one-line view of `next_step`: the items of `s` are the item of one
/// step followed by the items of what is left.
pub proof fn lemma_parse_items_step(s: Seq<char>, st: Style)
    ensures
        parse_items(s, st) == (match next_step(s, st) {
            (None, _, _) => Seq::<ItemV>::empty(),
            (Some(i), rest, st2) => seq![i] + parse_items(rest, st2),
        }),
        next_step(s, st).1.len() < s.len() || next_step(s, st).0 is None,
    decreases s.len(),
{
    if s.len() == 0 {
    } else if s[0] == '\n' {
    } else if starts_strong(s) {
        lemma_parse_items_step(s.skip(2), Style { strong: !st.strong, italic: st.italic });
    } else if s[0] == '*' {
        lemma_parse_items_step(s.skip(1), Style { strong: st.strong, italic: !st.italic });
    } else {
        lemma_text_end(s);
    }
}

/// Parser state: the input that is left and the current style.
pub struct Parser<'a> {
    s: &'a str,
    style: Style,
}

impl<'a> Parser<'a> {
    /// The input that has not been parsed yet.
    pub closed spec fn rest(&self) -> Seq<char> {
        self.s@
    }

    /// The style in effect at the current position.
    pub closed spec fn style(&self) -> Style {
        self.style
    }

    pub fn new(s: &'a str) -> (p: Self)
        ensures
            p.rest() == s@,
            p.style() == plain(),
    {
        Self { s, style: Style { strong: false, italic: false } }
    }

    /// Produces the next item, or `None` once the input is used up.
    pub fn next_item(&mut self) -> (r: Option<Item<'a>>)
        ensures
            match next_step(old(self).rest(), old(self).style()) {
                (i, rest, st) => {
                    &&& (match r {
                        Some(x) => i == Some(x@),
                        None => i is None,
                    })
                    &&& final(self).rest() == rest
                    &&& final(self).style() == st
                },
            },
    {
        loop
            invariant
                next_step(self.s@, self.style) == next_step(old(self).s@, old(self).style),
            decreases self.s@.len(),
        {
            if self.s.is_empty() {
                return None;
            }
            let c0 = self.s.get_char(0);
            let w0 = char_utf8_len(c0);
            proof {
                lemma_byte_len_take(self.s@, 0);
                assert(self.s@.take(0) =~= Seq::<char>::empty());
            }
            let (_, tail) = split_at_char(self.s, Ghost(1), w0);
            if c0 == '\n' {
                self.s = tail;
                self.style = Style { strong: false, italic: false };
                return Some(Item::Newline);
            }
            if c0 == '*' {
                if !tail.is_empty() && tail.get_char(0) == '*' {
                    proof {
                        assert(tail@[0] == self.s@[1]);
                        lemma_byte_len_take(tail@, 0);
                        assert(tail@.take(0) =~= Seq::<char>::empty());
                        assert(tail@.skip(1) =~= self.s@.skip(2));
                    }
                    let (_, tail2) = split_at_char(tail, Ghost(1), 1);
                    self.s = tail2;
                    self.style = Style { strong: !self.style.strong, italic: self.style.italic };
                } else {
                    self.s = tail;
                    self.style = Style { strong: self.style.strong, italic: !self.style.italic };
                }
                continue;
            }
            let (k, b) = scan_text_end(self.s);
            proof {
                lemma_text_end(self.s@);
            }
            let (head, rest) = split_at_char(self.s, Ghost(k as int), b);
            let item = Item::Text(self.style, head);
            self.s = rest;
            return Some(item);
        }
    }

    /// Parses all of the remaining input.
    pub fn collect(self) -> (items: Vec<Item<'a>>)
        ensures
            items@.map_values(|i: Item<'a>| i@) == parse_items(self.rest(), self.style()),
    {
        let mut p = self;
        let mut items: Vec<Item<'a>> = Vec::new();
        loop
            invariant
                items@.map_values(|i: Item<'a>| i@) + parse_items(p.rest(), p.style())
                    == parse_items(self.rest(), self.style()),
            decreases p.rest().len(),
        {
            proof {
                lemma_parse_items_step(p.rest(), p.style());
            }
            let ghost before = items@;
            match p.next_item() {
                None => {
                    assert(items@.map_values(|i: Item<'a>| i@) + Seq::<ItemV>::empty()
                        =~= items@.map_values(|i: Item<'a>| i@));
                    return items;
                },
                Some(it) => {
                    items.push(it);
                    assert(items@.map_values(|i: Item<'a>| i@)
                        =~= before.map_values(|i: Item<'a>| i@) + seq![it@]);
                },
            }
        }
    }
}

} // verus!

verus! {

/// The characters that an item stands for.
pub open spec fn item_chars(i: ItemV) -> Seq<char> {
    match i {
        ItemV::Newline => seq!['\n'],
        ItemV::Text(_, t) => t,
    }
}

/// The characters of a sequence of items, in order.
pub open spec fn flatten_items(items: Seq<ItemV>) -> Seq<char>
    decreases items.len(),
{
    if items.len() == 0 {
        seq![]
    } else {
        item_chars(items[0]) + flatten_items(items.drop_first())
    }
}

/// `s` with every `*` removed.
pub open spec fn without_stars(s: Seq<char>) -> Seq<char>
    decreases s.len(),
{
    if s.len() == 0 {
        seq![]
    } else if s[0] == '*' {
        without_stars(s.drop_first())
    } else {
        seq![s[0]] + without_stars(s.drop_first())
    }
}

proof fn lemma_without_stars_concat(a: Seq<char>, b: Seq<char>)
    ensures
        without_stars(a + b) == without_stars(a) + without_stars(b),
    decreases a.len(),
{
    if a.len() == 0 {
        assert(a + b =~= b);
        assert(without_stars(a) + without_stars(b) =~= without_stars(b));
    } else {
        assert((a + b).drop_first() =~= a.drop_first() + b);
        lemma_without_stars_concat(a.drop_first(), b);
        if a[0] != '*' {
            assert(seq![a[0]] + (without_stars(a.drop_first()) + without_stars(b))
                =~= (seq![a[0]] + without_stars(a.drop_first())) + without_stars(b));
        }
    }
}

proof fn lemma_without_stars_plain(s: Seq<char>)
    requires
        forall|j: int| 0 <= j < s.len() ==> #[trigger] s[j] != '*',
    ensures
        without_stars(s) == s,
    decreases s.len(),
{
    if s.len() > 0 {
        lemma_without_stars_plain(s.drop_first());
        assert(seq![s[0]] + s.drop_first() =~= s);
    }
}

proof fn lemma_flatten_cons(i: ItemV, rest: Seq<ItemV>)
    ensures
        flatten_items(seq![i] + rest) == item_chars(i) + flatten_items(rest),
{
    assert((seq![i] + rest).drop_first() =~= rest);
}

/// Parsing loses no text: the items, read back with a newline for each newline item,
/// give the input with every `*` marker removed. Every text item is a non-empty run
/// without markers or newlines.
pub proof fn parse_keeps_text(s: Seq<char>, st: Style)
    ensures
        flatten_items(parse_items(s, st)) == without_stars(s),
        forall|k: int| 0 <= k < parse_items(s, st).len() ==> (#[trigger] parse_items(s, st)[k] matches ItemV::Text(_, t) ==> {
            &&& t.len() > 0
            &&& forall|j: int| 0 <= j < t.len() ==> !is_special(#[trigger] t[j])
        }),
    decreases s.len(),
{
    if s.len() == 0 {
    } else if s[0] == '\n' {
        let rest = parse_items(s.skip(1), plain());
        parse_keeps_text(s.skip(1), plain());
        lemma_flatten_cons(ItemV::Newline, rest);
        assert(s =~= seq![s[0]] + s.skip(1));
        lemma_without_stars_concat(seq![s[0]], s.skip(1));
        lemma_without_stars_plain(seq![s[0]]);
        assert(forall|k: int| 1 <= k < parse_items(s, st).len() ==> parse_items(s, st)[k] == rest[k - 1]);
    } else if starts_strong(s) {
        parse_keeps_text(s.skip(2), Style { strong: !st.strong, italic: st.italic });
        assert(s =~= seq![s[0], s[1]] + s.skip(2));
        lemma_without_stars_concat(seq![s[0], s[1]], s.skip(2));
        assert(seq![s[0], s[1]].drop_first() =~= seq![s[1]]);
        assert(seq![s[1]].drop_first() =~= Seq::<char>::empty());
        assert(without_stars(seq![s[1]]) == without_stars(Seq::<char>::empty()));
        assert(without_stars(seq![s[0], s[1]]) == without_stars(seq![s[1]]));
        assert(without_stars(s.skip(2)) =~= Seq::<char>::empty() + without_stars(s.skip(2)));
    } else if s[0] == '*' {
        parse_keeps_text(s.skip(1), Style { strong: st.strong, italic: !st.italic });
        assert(s =~= seq![s[0]] + s.skip(1));
        lemma_without_stars_concat(seq![s[0]], s.skip(1));
        assert(seq![s[0]].drop_first() =~= Seq::<char>::empty());
    } else {
        let e = text_end(s);
        lemma_text_end(s);
        let head = s.take(e);
        let rest = parse_items(s.skip(e), st);
        parse_keeps_text(s.skip(e), st);
        lemma_flatten_cons(ItemV::Text(st, head), rest);
        assert(s =~= head + s.skip(e));
        lemma_without_stars_concat(head, s.skip(e));
        assert forall|j: int| 0 <= j < head.len() implies #[trigger] head[j] != '*' by {
            if j >= 1 {
                assert(!is_special(s[j]));
            }
        }
        assert forall|j: int| 0 <= j < head.len() implies !is_special(#[trigger] head[j]) by {
            if j >= 1 {
                assert(!is_special(s[j]));
            }
        }
        lemma_without_stars_plain(head);
        assert(forall|k: int| 1 <= k < parse_items(s, st).len() ==> parse_items(s, st)[k] == rest[k - 1]);
    }
}

/// The parser makes at most one item per character of its input, so it stops.
pub proof fn parse_items_bounded(s: Seq<char>, st: Style)
    ensures
        parse_items(s, st).len() <= s.len(),
    decreases s.len(),
{
    if s.len() == 0 {
    } else if s[0] == '\n' {
        parse_items_bounded(s.skip(1), plain());
    } else if starts_strong(s) {
        parse_items_bounded(s.skip(2), Style { strong: !st.strong, italic: st.italic });
    } else if s[0] == '*' {
        parse_items_bounded(s.skip(1), Style { strong: st.strong, italic: !st.italic });
    } else {
        lemma_text_end(s);
        parse_items_bounded(s.skip(text_end(s)), st);
    }
}

proof fn lemma_text_end_before_newline(a: Seq<char>, rest: Seq<char>)
    requires
        a.len() > 0,
        rest.len() > 0,
        rest[0] == '\n',
    ensures
        text_end(a + rest) == text_end(a),
    decreases a.len(),
{
    let s = a + rest;
    if a.len() == 1 {
        assert(s[1] == rest[0]);
    } else {
        assert(s[1] == a[1]);
        if !is_special(a[1]) {
            assert(s.drop_first() =~= a.drop_first() + rest);
            lemma_text_end_before_newline(a.drop_first(), rest);
        }
    }
}

/// A newline resets the style: what follows a newline is parsed as if it were the start
/// of the input, in plain style, whatever came before it; and what comes before it is
/// parsed as if the input ended there.
pub proof fn newline_resets_style(a: Seq<char>, b: Seq<char>, st: Style)
    ensures
        parse_items(a + seq!['\n'] + b, st) == parse_items(a, st) + seq![ItemV::Newline] + parse_items(b, plain()),
    decreases a.len(),
{
    let n = seq!['\n'];
    let s = a + n + b;
    let rest = n + b;
    assert(s =~= a + rest);
    if a.len() == 0 {
        assert(s =~= rest);
        assert(s.skip(1) =~= b);
        assert(parse_items(a, st) =~= Seq::<ItemV>::empty());
        assert(Seq::<ItemV>::empty() + seq![ItemV::Newline] + parse_items(b, plain())
            =~= seq![ItemV::Newline] + parse_items(b, plain()));
    } else {
        assert(s[0] == a[0]);
        if a.len() >= 2 {
            assert(s[1] == a[1]);
        } else {
            assert(s[1] == '\n');
        }
        if a[0] == '\n' {
            assert(s.skip(1) =~= a.skip(1) + n + b);
            newline_resets_style(a.skip(1), b, plain());
            assert(seq![ItemV::Newline] + (parse_items(a.skip(1), plain()) + seq![ItemV::Newline] + parse_items(b, plain()))
                =~= (seq![ItemV::Newline] + parse_items(a.skip(1), plain())) + seq![ItemV::Newline] + parse_items(b, plain()));
        } else if starts_strong(a) {
            assert(starts_strong(s));
            assert(s.skip(2) =~= a.skip(2) + n + b);
            newline_resets_style(a.skip(2), b, Style { strong: !st.strong, italic: st.italic });
        } else if a[0] == '*' {
            assert(!starts_strong(s));
            assert(s.skip(1) =~= a.skip(1) + n + b);
            newline_resets_style(a.skip(1), b, Style { strong: st.strong, italic: !st.italic });
        } else {
            assert(!starts_strong(s));
            lemma_text_end(a);
            lemma_text_end_before_newline(a, rest);
            let e = text_end(a);
            assert(s.take(e) =~= a.take(e));
            assert(s.skip(e) =~= a.skip(e) + n + b);
            newline_resets_style(a.skip(e), b, st);
            let head = seq![ItemV::Text(st, a.take(e))];
            assert(head + (parse_items(a.skip(e), st) + seq![ItemV::Newline] + parse_items(b, plain()))
                =~= (head + parse_items(a.skip(e), st)) + seq![ItemV::Newline] + parse_items(b, plain()));
        }
    }
}

} // verus!
