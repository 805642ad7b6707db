//! Character-level helpers for strings: converting between character indices
//! and UTF-8 byte offsets, splitting at character positions, and building strings.
use vstd::prelude::*;
use vstd::utf8::*;

verus! {

broadcast use vstd::string::group_string_axioms;

/// Number of UTF-8 bytes used to encode the characters `s`.
pub open spec fn byte_len(s: Seq<char>) -> nat {
    encode_utf8(s).len()
}

/// UTF-8 encoding distributes over concatenation.
pub proof fn lemma_encode_concat(a: Seq<char>, b: Seq<char>)
    ensures
        encode_utf8(a + b) == encode_utf8(a) + encode_utf8(b),
    decreases a.len(),
{
    if a.len() == 0 {
        assert(a + b =~= b);
        assert(encode_utf8(a) =~= Seq::<u8>::empty());
        assert(encode_utf8(a) + encode_utf8(b) =~= encode_utf8(b));
    } else {
        assert((a + b).drop_first() =~= a.drop_first() + b);
        assert((a + b)[0] == a[0]);
        lemma_encode_concat(a.drop_first(), b);
        assert(encode_utf8(a + b) =~= encode_scalar(a[0] as u32) + encode_utf8(a.drop_first() + b));
        assert(encode_utf8(a) + encode_utf8(b) =~= encode_scalar(a[0] as u32) + (encode_utf8(a.drop_first()) + encode_utf8(b)));
    }
}

/// The encoding of a one-character string is that character's encoding.
pub proof fn lemma_encode_single(c: char)
    ensures
        encode_utf8(seq![c]) == encode_scalar(c as u32),
{
    let s = seq![c];
    assert(s.drop_first() =~= Seq::<char>::empty());
    assert(encode_utf8(s.drop_first()) =~= Seq::<u8>::empty());
    assert(encode_utf8(s) == encode_scalar(s[0] as u32) + encode_utf8(s.drop_first()));
    assert(encode_scalar(c as u32) + Seq::<u8>::empty() =~= encode_scalar(c as u32));
}

/// The byte length of a single character's encoding is between one and four.
pub proof fn lemma_scalar_len(c: char)
    ensures
        1 <= encode_scalar(c as u32).len() <= 4,
{
}

/// The byte offset of a character position is a character boundary.
pub proof fn lemma_take_is_boundary(s: Seq<char>, k: int)
    requires
        0 <= k <= s.len(),
    ensures
        is_char_boundary(encode_utf8(s), byte_len(s.take(k)) as int),
    decreases k,
{
    broadcast use encode_utf8_valid_utf8;
    if k == 0 {
        assert(s.take(0) =~= Seq::<char>::empty());
    } else {
        let bytes = encode_utf8(s);
        encode_utf8_first_scalar(s);
        assert(pop_first_scalar(bytes) =~= encode_utf8(s.drop_first()));
        lemma_take_is_boundary(s.drop_first(), k - 1);
        assert(s.take(k) =~= seq![s[0]] + s.drop_first().take(k - 1));
        lemma_encode_concat(seq![s[0]], s.drop_first().take(k - 1));
        lemma_encode_single(s[0]);
        lemma_scalar_len(s[0]);
    }
}

/// The byte length of the encoding of a string prefix grows with the prefix.
pub proof fn lemma_byte_len_take(s: Seq<char>, k: int)
    requires
        0 <= k < s.len(),
    ensures
        byte_len(s.take(k + 1)) == byte_len(s.take(k)) + encode_scalar(s[k] as u32).len(),
{
    assert(s.take(k + 1) =~= s.take(k) + seq![s[k]]);
    lemma_encode_concat(s.take(k), seq![s[k]]);
    lemma_encode_single(s[k]);
}

/// A prefix never encodes to more bytes than the whole string.
pub proof fn lemma_byte_len_take_le(s: Seq<char>, k: int)
    requires
        0 <= k <= s.len(),
    ensures
        byte_len(s.take(k)) <= byte_len(s),
{
    assert(s.take(k) + s.skip(k) =~= s);
    lemma_encode_concat(s.take(k), s.skip(k));
}

/// Number of bytes in the UTF-8 encoding of `s`.
pub fn str_byte_len(s: &str) -> (n: usize)
    ensures
        n == byte_len(s@),
{
    let b = s.as_bytes();
    b.len()
}

/// Splits `s` at character position `k`, whose byte offset is `mid`.
pub fn split_at_char<'a>(s: &'a str, Ghost(k): Ghost<int>, mid: usize) -> (res: (&'a str, &'a str))
    requires
        0 <= k <= s@.len(),
        mid == byte_len(s@.take(k)),
    ensures
        res.0@ == s@.take(k),
        res.1@ == s@.skip(k),
{
    proof {
        lemma_take_is_boundary(s@, k);
    }
    let r = s.split_at(mid);
    proof {
        broadcast use encode_utf8_decode_utf8;
        assert(s@.take(k) + s@.skip(k) =~= s@);
        lemma_encode_concat(s@.take(k), s@.skip(k));
        let e = encode_utf8(s@);
        assert(e.subrange(0, mid as int) =~= encode_utf8(s@.take(k)));
        assert(e.subrange(mid as int, e.len() as int) =~= encode_utf8(s@.skip(k)));
        assert(decode_utf8(encode_utf8(r.0@)) == r.0@);
        assert(decode_utf8(encode_utf8(r.1@)) == r.1@);
    }
    r
}

/// Splits off the first `k` characters of `s`, whose characters are those of `v` from `pos`.
pub fn take_chars<'a>(s: &'a str, v: &Vec<char>, pos: usize, k: usize) -> (r: (&'a str, &'a str))
    requires
        s@ == v@.skip(pos as int),
        pos <= v.len(),
        k <= v.len() - pos,
    ensures
        r.0@ == s@.take(k as int),
        r.1@ == s@.skip(k as int),
{
    let total = str_byte_len(s);
    let mut i: usize = 0;
    let mut b: usize = 0;
    proof {
        assert(s@.take(0) =~= Seq::<char>::empty());
    }
    while i < k
        invariant
            s@ == v@.skip(pos as int),
            pos <= v.len(),
            k <= v.len() - pos,
            i <= k,
            b == byte_len(s@.take(i as int)),
            total == byte_len(s@),
        decreases k - i,
    {
        proof {
            lemma_byte_len_take(s@, i as int);
            lemma_byte_len_take_le(s@, i + 1);
        }
        b = b + char_utf8_len(v[pos + i]);
        i = i + 1;
    }
    split_at_char(s, Ghost(k as int), b)
}

/// Index of the first `c` in `s`, if any.
pub open spec fn find_char(s: Seq<char>, c: char) -> Option<int>
    decreases s.len(),
{
    if s.len() == 0 {
        None
    } else if s[0] == c {
        Some(0)
    } else {
        match find_char(s.drop_first(), c) {
            Some(i) => Some(i + 1),
            None => None,
        }
    }
}

pub proof fn lemma_find_char(s: Seq<char>, c: char)
    ensures
        match find_char(s, c) {
            Some(i) => 0 <= i < s.len() && s[i] == c && forall|j: int| 0 <= j < i ==> s[j] != c,
            None => forall|j: int| 0 <= j < s.len() ==> s[j] != c,
        },
    decreases s.len(),
{
    if s.len() > 0 && s[0] != c {
        lemma_find_char(s.drop_first(), c);
        assert forall|j: int| 1 <= j < s.len() implies s[j] == s.drop_first()[j - 1] by {}
    }
}

pub proof fn lemma_find_char_is(s: Seq<char>, c: char, r: Option<int>)
    requires
        match r {
            Some(i) => 0 <= i < s.len() && s[i] == c && forall|j: int| 0 <= j < i ==> s[j] != c,
            None => forall|j: int| 0 <= j < s.len() ==> s[j] != c,
        },
    ensures
        find_char(s, c) == r,
{
    lemma_find_char(s, c);
    match (find_char(s, c), r) {
        (Some(a), Some(b)) => {
            if a < b {
                assert(s[a] != c);
            } else if b < a {
                assert(s[b] != c);
            }
        },
        (Some(a), None) => {
            assert(s[a] != c);
        },
        (None, Some(b)) => {
            assert(s[b] != c);
        },
        (None, None) => {},
    }
}

/// Index, counted from `start`, of the first `c` in `v` at or after `start`.
pub fn find_from(v: &Vec<char>, start: usize, c: char) -> (r: Option<usize>)
    requires
        start <= v.len(),
    ensures
        match r {
            Some(i) => find_char(v@.skip(start as int), c) == Some(i as int) && i < v.len() - start,
            None => find_char(v@.skip(start as int), c) is None,
        },
{
    let mut k = start;
    while k < v.len()
        invariant
            start <= k <= v.len(),
            forall|j: int| start <= j < k ==> v@[j] != c,
        decreases v.len() - k,
    {
        if v[k] == c {
            proof {
                lemma_find_char_is(v@.skip(start as int), c, Some(k - start));
            }
            return Some(k - start);
        }
        k = k + 1;
    }
    proof {
        lemma_find_char_is(v@.skip(start as int), c, None);
    }
    None
}

/// The characters of an optional string.
pub open spec fn opt_chars(o: Option<&str>) -> Option<Seq<char>> {
    match o {
        Some(s) => Some(s@),
        None => None,
    }
}

/// Whether `a` and `b` hold the same characters.
pub fn str_equal(a: &str, b: &str) -> (r: bool)
    ensures
        r == (a@ == b@),
{
    let va = chars_of(a);
    let vb = chars_of(b);
    if va.len() != vb.len() {
        return false;
    }
    let mut i: usize = 0;
    while i < va.len()
        invariant
            va@ == a@,
            vb@ == b@,
            va.len() == vb.len(),
            i <= va.len(),
            forall|j: int| 0 <= j < i ==> va@[j] == vb@[j],
        decreases va.len() - i,
    {
        if va[i] != vb[i] {
            return false;
        }
        i = i + 1;
    }
    assert(a@ =~= b@);
    true
}

/// Appends the character `c` to `s` (`String::push`).
#[verifier::external_body]
pub(crate) fn push_char(s: &mut String, c: char)
    ensures
        final(s)@ == old(s)@.push(c),
{
    s.push(c)
}

/// Number of bytes in the UTF-8 encoding of `c`.
pub fn char_utf8_len(c: char) -> (n: usize)
    ensures
        n == encode_scalar(c as u32).len(),
        1 <= n <= 4,
{
    let v = c as u32;
    if v < 0x80 {
        1
    } else if v < 0x800 {
        2
    } else if v < 0x10000 {
        3
    } else {
        4
    }
}

/// The characters of `s`, in order.
pub fn chars_of(s: &str) -> (v: Vec<char>)
    ensures
        v@ == s@,
{
    let mut v: Vec<char> = Vec::new();
    for c in it: s.chars()
        invariant
            it.seq() == s@,
            v@ == it.seq().take(it.index()),
    {
        v.push(c);
    }
    v
}

/// Whether `c` has the Unicode `White_Space` property.
pub open spec fn is_white_space(c: char) -> bool {
    ||| ('\u{9}' <= c && c <= '\u{d}')
    ||| c == ' '
    ||| c == '\u{85}'
    ||| c == '\u{a0}'
    ||| c == '\u{1680}'
    ||| ('\u{2000}' <= c && c <= '\u{200a}')
    ||| c == '\u{2028}'
    ||| c == '\u{2029}'
    ||| c == '\u{202f}'
    ||| c == '\u{205f}'
    ||| c == '\u{3000}'
}

/// Whether `c` has the Unicode `White_Space` property (what `char::is_whitespace` says).
pub(crate) fn char_is_whitespace(c: char) -> (r: bool)
    ensures
        r == is_white_space(c),
{
    ('\u{9}' <= c && c <= '\u{d}')
        || c == ' '
        || c == '\u{85}'
        || c == '\u{a0}'
        || c == '\u{1680}'
        || ('\u{2000}' <= c && c <= '\u{200a}')
        || c == '\u{2028}'
        || c == '\u{2029}'
        || c == '\u{202f}'
        || c == '\u{205f}'
        || c == '\u{3000}'
}

/// Number of white-space characters at the start of `s`.
pub open spec fn leading_ws(s: Seq<char>) -> nat
    decreases s.len(),
{
    if s.len() > 0 && is_white_space(s[0]) {
        1 + leading_ws(s.drop_first())
    } else {
        0
    }
}

/// Number of white-space characters at the end of `s`.
pub open spec fn trailing_ws(s: Seq<char>) -> nat
    decreases s.len(),
{
    if s.len() > 0 && is_white_space(s.last()) {
        1 + trailing_ws(s.drop_last())
    } else {
        0
    }
}

/// `s` without white space at either end.
pub open spec fn trim_chars(s: Seq<char>) -> Seq<char> {
    let t = s.skip(leading_ws(s) as int);
    t.take(t.len() - trailing_ws(t))
}

proof fn lemma_leading_ws(s: Seq<char>, k: int)
    requires
        0 <= k <= s.len(),
        forall|j: int| 0 <= j < k ==> is_white_space(#[trigger] s[j]),
        k == s.len() || !is_white_space(s[k]),
    ensures
        leading_ws(s) == k,
    decreases k,
{
    if k > 0 {
        lemma_leading_ws(s.drop_first(), k - 1);
    }
}

proof fn lemma_trailing_ws(s: Seq<char>, k: int)
    requires
        0 <= k <= s.len(),
        forall|j: int| s.len() - k <= j < s.len() ==> is_white_space(#[trigger] s[j]),
        k == s.len() || !is_white_space(s[s.len() - 1 - k]),
    ensures
        trailing_ws(s) == k,
    decreases k,
{
    if k > 0 {
        lemma_trailing_ws(s.drop_last(), k - 1);
    }
}

/// `s` without white space at either end (`str::trim`).
pub fn trim(s: &str) -> (r: &str)
    ensures
        r@ == trim_chars(s@),
{
    let v = chars_of(s);
    let mut a: usize = 0;
    while a < v.len() && char_is_whitespace(v[a])
        invariant
            v@ == s@,
            a <= v.len(),
            forall|j: int| 0 <= j < a ==> is_white_space(#[trigger] v@[j]),
        decreases v.len() - a,
    {
        a = a + 1;
    }
    proof {
        lemma_leading_ws(s@, a as int);
        assert(v@.skip(0) =~= v@);
    }
    let (_, t) = take_chars(s, &v, 0, a);
    let mut k: usize = 0;
    while k < v.len() - a && char_is_whitespace(v[v.len() - 1 - k])
        invariant
            v@ == s@,
            a <= v.len(),
            t@ == s@.skip(a as int),
            k <= v.len() - a,
            forall|j: int| t@.len() - k <= j < t@.len() ==> is_white_space(#[trigger] t@[j]),
        decreases v.len() - a - k,
    {
        proof {
            assert(t@[t@.len() - 1 - k] == v@[v.len() - 1 - k]);
        }
        k = k + 1;
    }
    proof {
        if k < v.len() - a {
            assert(t@[t@.len() - 1 - k] == v@[v.len() - 1 - k]);
        }
        lemma_trailing_ws(t@, k as int);
        assert(v@.skip(a as int) =~= t@);
    }
    let (r, _) = take_chars(t, &v, a, v.len() - a - k);
    r
}

} // verus!
