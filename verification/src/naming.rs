//! How file objects are named on disk: an index prefix (`003-`), a name shortened on word
//! boundaries and made safe for file systems, and an extension.
use vstd::prelude::*;
use crate::text::{byte_len, chars_of, char_utf8_len, lemma_byte_len_take, lemma_byte_len_take_le, push_char, str_byte_len, take_chars, trim, trim_chars};

verus! {

/// Whether `c` is one of the ASCII digits `0`-`9`.
pub open spec fn is_digit(c: char) -> bool {
    '0' <= c && c <= '9'
}

pub open spec fn digit_value(c: char) -> int {
    (c as int) - ('0' as int)
}

/// The number that the digits `s` spell in decimal.
pub open spec fn decimal_value(s: Seq<char>) -> int
    decreases s.len(),
{
    if s.len() == 0 {
        0
    } else {
        decimal_value(s.drop_last()) * 10 + digit_value(s.last())
    }
}

pub open spec fn all_digits(s: Seq<char>) -> bool {
    forall|j: int| 0 <= j < s.len() ==> is_digit(#[trigger] s[j])
}

/// What `str::parse::<usize>` gives for `s`: an optional `+`, then one or more
/// decimal digits whose value fits in a `usize`.
pub open spec fn parse_usize(s: Seq<char>) -> Option<int> {
    let d = if s.len() > 0 && s[0] == '+' { s.drop_first() } else { s };
    if d.len() > 0 && all_digits(d) && decimal_value(d) <= usize::MAX {
        Some(decimal_value(d))
    } else {
        None
    }
}

/// Whether `str::parse::<i64>` accepts `s`: an optional sign, then one or more decimal
/// digits whose signed value fits in an `i64`.
pub open spec fn parses_as_i64(s: Seq<char>) -> bool {
    let neg = s.len() > 0 && s[0] == '-';
    let d = if s.len() > 0 && (s[0] == '+' || s[0] == '-') { s.drop_first() } else { s };
    d.len() > 0 && all_digits(d) && (if neg {
        decimal_value(d) <= 0x8000_0000_0000_0000
    } else {
        decimal_value(d) <= 0x7fff_ffff_ffff_ffff
    })
}

proof fn lemma_decimal_value_step(s: Seq<char>, k: int)
    requires
        0 <= k < s.len(),
        all_digits(s),
    ensures
        decimal_value(s.take(k + 1)) == decimal_value(s.take(k)) * 10 + digit_value(s[k]),
        decimal_value(s.take(k + 1)) >= decimal_value(s.take(k)),
{
    assert(s.take(k + 1).drop_last() =~= s.take(k));
    assert(is_digit(s[k]));
    assert(all_digits(s.take(k))) by {
        assert forall|j: int| 0 <= j < s.take(k).len() implies is_digit(#[trigger] s.take(k)[j]) by {
            assert(s.take(k)[j] == s[j]);
        }
    }
    lemma_decimal_value_nonneg(s.take(k));
}

proof fn lemma_decimal_value_nonneg(s: Seq<char>)
    requires
        all_digits(s),
    ensures
        decimal_value(s) >= 0,
    decreases s.len(),
{
    if s.len() > 0 {
        assert(all_digits(s.drop_last())) by {
            assert forall|j: int| 0 <= j < s.drop_last().len() implies is_digit(#[trigger] s.drop_last()[j]) by {
                assert(s.drop_last()[j] == s[j]);
            }
        }
        lemma_decimal_value_nonneg(s.drop_last());
        assert(is_digit(s[s.len() - 1]));
    }
}

proof fn lemma_decimal_value_monotone(s: Seq<char>, k: int)
    requires
        0 <= k <= s.len(),
        all_digits(s),
    ensures
        decimal_value(s.take(k)) <= decimal_value(s),
    decreases s.len() - k,
{
    if k < s.len() {
        lemma_decimal_value_step(s, k);
        lemma_decimal_value_monotone(s, k + 1);
    } else {
        assert(s.take(k) =~= s);
    }
}

/// Value of the digits `v[from..to]`, or `None` if they are not all digits, there are
/// none, or the value exceeds `limit`.
fn decimal_from(v: &Vec<char>, from: usize, to: usize, limit: u64) -> (r: Option<u64>)
    requires
        from <= to <= v.len(),
    ensures
        match r {
            Some(x) => {
                &&& v@.subrange(from as int, to as int).len() > 0
                &&& all_digits(v@.subrange(from as int, to as int))
                &&& decimal_value(v@.subrange(from as int, to as int)) == x
                &&& x <= limit
            },
            None => !(v@.subrange(from as int, to as int).len() > 0 && all_digits(v@.subrange(from as int, to as int))
                && decimal_value(v@.subrange(from as int, to as int)) <= limit),
        },
{
    let ghost d = v@.subrange(from as int, to as int);
    if from == to {
        return None;
    }
    let mut acc: u64 = 0;
    let mut k: usize = from;
    proof {
        assert(d.take(0) =~= Seq::<char>::empty());
    }
    while k < to
        invariant
            from <= k <= to <= v.len(),
            d == v@.subrange(from as int, to as int),
            forall|j: int| from <= j < k ==> is_digit(#[trigger] v@[j]),
            acc == decimal_value(d.take(k - from)),
            acc <= limit,
        decreases to - k,
    {
        let c = v[k];
        if !('0' <= c && c <= '9') {
            proof {
                assert(d[k - from] == c);
            }
            return None;
        }
        let dv = (c as u64) - ('0' as u64);
        proof {
            assert(d[k - from] == c);
            assert forall|j: int| 0 <= j < k + 1 - from implies is_digit(#[trigger] d.take(k + 1 - from)[j]) by {
                assert(d.take(k + 1 - from)[j] == v@[from + j]);
            }
            assert(d.take(k + 1 - from).drop_last() =~= d.take(k - from));
            assert(d.take(k + 1 - from).last() == c);
        }
        let next = match acc.checked_mul(10) {
            Some(m) => m.checked_add(dv),
            None => None,
        };
        match next {
            Some(n) if n <= limit => {
                acc = n;
            },
            _ => {
                proof {
                    if all_digits(d) {
                        lemma_decimal_value_step(d, k - from);
                        lemma_decimal_value_monotone(d, k + 1 - from);
                    }
                }
                return None;
            },
        }
        k = k + 1;
    }
    proof {
        assert(d.take(k - from) =~= d);
        assert forall|j: int| 0 <= j < d.len() implies is_digit(#[trigger] d[j]) by {
            assert(d[j] == v@[from + j]);
        }
    }
    Some(acc)
}

} // verus!

verus! {

/// The position of the first `-` in `name`, if any.
pub open spec fn dash_position(name: Seq<char>) -> Option<int> {
    crate::text::find_char(name, '-')
}

/// The index that a name such as `003-scene` carries: the number before the first `-`.
pub open spec fn index_from_name(name: Seq<char>) -> Option<int> {
    match dash_position(name) {
        Some(p) => parse_usize(name.take(p)),
        None => None,
    }
}

/// Gets the file index from a string if it exists
pub fn get_index_from_name(name: &str) -> (r: Option<usize>)
    ensures
        match r {
            Some(i) => index_from_name(name@) == Some(i as int),
            None => index_from_name(name@) is None,
        },
{
    let v = chars_of(name);
    match crate::text::find_from(&v, 0, '-') {
        None => {
            proof {
                assert(v@.skip(0) =~= v@);
            }
            None
        },
        Some(p) => {
            proof {
                assert(v@.skip(0) =~= v@);
                crate::text::lemma_find_char(name@, '-');
            }
            let ghost pre = name@.take(p as int);
            let start: usize = if p > 0 && v[0] == '+' { 1 } else { 0 };
            proof {
                let d = if pre.len() > 0 && pre[0] == '+' { pre.drop_first() } else { pre };
                assert(v@.subrange(start as int, p as int) =~= d);
            }
            match decimal_from(&v, start, p, usize::MAX as u64) {
                Some(x) => Some(x as usize),
                None => None,
            }
        },
    }
}

/// The character for the decimal digit `d`.
pub open spec fn digit_char(d: int) -> char {
    if d <= 0 {
        '0'
    } else if d == 1 {
        '1'
    } else if d == 2 {
        '2'
    } else if d == 3 {
        '3'
    } else if d == 4 {
        '4'
    } else if d == 5 {
        '5'
    } else if d == 6 {
        '6'
    } else if d == 7 {
        '7'
    } else if d == 8 {
        '8'
    } else {
        '9'
    }
}

/// Decimal digits of `n`, without leading zeros (`0` for zero).
pub open spec fn decimal_digits(n: nat) -> Seq<char>
    decreases n,
{
    if n < 10 {
        seq![digit_char(n as int)]
    } else {
        decimal_digits(n / 10) + seq![digit_char((n % 10) as int)]
    }
}

/// `s` padded with leading zeros to at least `width` characters.
pub open spec fn zero_pad(s: Seq<char>, width: nat) -> Seq<char> {
    if s.len() >= width {
        s
    } else {
        Seq::new((width - s.len()) as nat, |i: int| '0') + s
    }
}

/// A name with its index in front: `{index:03}-{name}`.
pub open spec fn indexed_name(name: Seq<char>, index: nat) -> Seq<char> {
    zero_pad(decimal_digits(index), 3) + seq!['-'] + name
}

fn digit_to_char(d: usize) -> (c: char)
    requires
        d < 10,
    ensures
        c == digit_char(d as int),
{
    match d {
        0 => '0',
        1 => '1',
        2 => '2',
        3 => '3',
        4 => '4',
        5 => '5',
        6 => '6',
        7 => '7',
        8 => '8',
        _ => '9',
    }
}

fn push_decimal(out: &mut String, n: usize)
    ensures
        final(out)@ == old(out)@ + decimal_digits(n as nat),
    decreases n,
{
    if n >= 10 {
        push_decimal(out, n / 10);
    }
    let ghost mid = out@;
    push_char(out, digit_to_char(n % 10));
    proof {
        if n >= 10 {
            assert(mid + seq![digit_char((n % 10) as int)] =~= old(out)@ + decimal_digits(n as nat));
        } else {
            assert(mid =~= old(out)@);
        }
    }
}

proof fn lemma_decimal_digits_len(n: nat)
    ensures
        decimal_digits(n).len() >= 1,
    decreases n,
{
    if n >= 10 {
        lemma_decimal_digits_len(n / 10);
    }
}

/// Just adds an index to a name, no real logic
pub fn add_index_to_name(name: &str, index: usize) -> (r: String)
    ensures
        r@ == indexed_name(name@, index as nat),
{
    let mut digits = String::new();
    push_decimal(&mut digits, index);
    let mut out = String::new();
    let mut pad: usize = 0;
    let dl = digits.as_str().unicode_len();
    proof {
        lemma_decimal_digits_len(index as nat);
    }
    while pad + dl < 3
        invariant
            dl == digits@.len(),
            digits@ == decimal_digits(index as nat),
            out@ == Seq::new(pad as nat, |i: int| '0'),
            pad + dl <= 3 || pad == 0,
        decreases 3 - pad - dl,
    {
        push_char(&mut out, '0');
        pad = pad + 1;
        assert(out@ =~= Seq::new(pad as nat, |i: int| '0'));
    }
    out.append(digits.as_str());
    push_char(&mut out, '-');
    out.append(name);
    proof {
        if dl >= 3 {
            assert(Seq::new(0 as nat, |i: int| '0') + decimal_digits(index as nat) =~= decimal_digits(index as nat));
        }
    }
    out
}

proof fn lemma_digit_char(k: int)
    requires
        0 <= k < 10,
    ensures
        digit_value(digit_char(k)) == k,
        is_digit(digit_char(k)),
{
}

proof fn lemma_digits_are_digits(n: nat)
    ensures
        all_digits(decimal_digits(n)),
        decimal_value(decimal_digits(n)) == n,
    decreases n,
{
    if n >= 10 {
        lemma_digits_are_digits(n / 10);
        let d = decimal_digits(n);
        assert(d.drop_last() =~= decimal_digits(n / 10));
        lemma_digit_char((n % 10) as int);
        assert(d.last() == digit_char((n % 10) as int));
        assert((n / 10) * 10 + n % 10 == n);
        assert(d.len() > 0);
        assert(decimal_value(d) == decimal_value(d.drop_last()) * 10 + digit_value(d.last()));
        assert(decimal_value(d) == (n / 10) * 10 + n % 10);
        assert forall|j: int| 0 <= j < d.len() implies is_digit(#[trigger] d[j]) by {
            if j < d.len() - 1 {
                assert(d[j] == decimal_digits(n / 10)[j]);
            }
        }
    } else {
        let d = seq![digit_char(n as int)];
        assert(d.drop_last() =~= Seq::<char>::empty());
        lemma_digit_char(n as int);
        assert(decimal_value(d) == decimal_value(d.drop_last()) * 10 + digit_value(d.last()));
    }
}

proof fn lemma_leading_zeros(z: nat, s: Seq<char>)
    requires
        all_digits(s),
    ensures
        all_digits(Seq::new(z, |i: int| '0') + s),
        decimal_value(Seq::new(z, |i: int| '0') + s) == decimal_value(s),
    decreases s.len() + z,
{
    let t = Seq::new(z, |i: int| '0') + s;
    assert forall|j: int| 0 <= j < t.len() implies is_digit(#[trigger] t[j]) by {
        if j >= z {
            assert(t[j] == s[j - z]);
        }
    }
    if s.len() > 0 {
        assert(t.drop_last() =~= Seq::new(z, |i: int| '0') + s.drop_last());
        assert(all_digits(s.drop_last())) by {
            assert forall|j: int| 0 <= j < s.drop_last().len() implies is_digit(#[trigger] s.drop_last()[j]) by {
                assert(s.drop_last()[j] == s[j]);
            }
        }
        lemma_leading_zeros(z, s.drop_last());
    } else if z > 0 {
        assert(t.drop_last() =~= Seq::new((z - 1) as nat, |i: int| '0') + s);
        lemma_leading_zeros((z - 1) as nat, s);
    } else {
        assert(t =~= s);
    }
}

/// Reading the index back from a name that an index was added to gives that index.
pub proof fn index_round_trip(name: Seq<char>, index: nat)
    requires
        index <= usize::MAX,
    ensures
        index_from_name(indexed_name(name, index)) == Some(index as int),
{
    let digits = decimal_digits(index);
    lemma_digits_are_digits(index);
    lemma_decimal_digits_len(index);
    let padded = zero_pad(digits, 3);
    let z: nat = if digits.len() >= 3 { 0 } else { (3 - digits.len()) as nat };
    assert(padded =~= Seq::new(z, |i: int| '0') + digits);
    lemma_leading_zeros(z, digits);
    let full = indexed_name(name, index);
    assert forall|j: int| 0 <= j < padded.len() implies full[j] != '-' by {
        assert(full[j] == padded[j]);
        assert(is_digit(padded[j]));
    }
    assert(full[padded.len() as int] == '-');
    crate::text::lemma_find_char_is(full, '-', Some(padded.len() as int));
    assert(full.take(padded.len() as int) =~= padded);
    assert(is_digit(padded[0]));
}

} // verus!

verus! {

/// Cutting the trimmed name `t` before the space at `p` leaves a non-empty name shorter
/// than `max` bytes.
pub open spec fn good_cut(t: Seq<char>, max: nat, p: int) -> bool {
    &&& 0 < p < t.len()
    &&& t[p] == ' '
    &&& byte_len(t.take(p)) < max
}

/// Whether [`truncate_name`] can shorten `name` to `max` bytes: it is short enough
/// already, it can be cut at a space, or `max` bytes end on a character boundary.
pub open spec fn truncatable(name: Seq<char>, max: nat) -> bool {
    let t = trim_chars(name);
    ||| byte_len(t) <= max
    ||| exists|p: int| good_cut(t, max, p)
    ||| exists|k: int| 0 <= k <= t.len() && byte_len(t.take(k)) == max
}

/// The latest space at which [`good_cut`] holds.
pub open spec fn best_cut(t: Seq<char>, max: nat) -> int {
    choose|p: int| good_cut(t, max, p) && forall|q: int| good_cut(t, max, q) ==> q <= p
}

/// The number of characters that take up exactly `max` bytes.
pub open spec fn byte_cut(t: Seq<char>, max: nat) -> int {
    choose|k: int| 0 <= k <= t.len() && byte_len(t.take(k)) == max
}

/// `name` trimmed and, when longer than `max` bytes, cut before the latest space that
/// leaves a non-empty name shorter than `max` bytes, or else after exactly `max` bytes.
pub open spec fn truncated_name(name: Seq<char>, max: nat) -> Seq<char> {
    let t = trim_chars(name);
    if byte_len(t) <= max {
        t
    } else if exists|p: int| good_cut(t, max, p) {
        t.take(best_cut(t, max))
    } else {
        t.take(byte_cut(t, max))
    }
}

/// make sure the name fits within a specified length, trying to split on word boundaries
pub fn truncate_name(name: &str, max_length: usize) -> (r: &str)
    requires
        truncatable(name@, max_length as nat),
    ensures
        r@ == truncated_name(name@, max_length as nat),
        ({
            let t = trim_chars(name@);
            if byte_len(t) <= max_length {
                r@ == t
            } else if exists|p: int| good_cut(t, max_length as nat, p) {
                exists|p: int| {
                    &&& good_cut(t, max_length as nat, p)
                    &&& r@ == t.take(p)
                    &&& forall|q: int| good_cut(t, max_length as nat, q) ==> q <= p
                }
            } else {
                &&& r@.len() <= t.len()
                &&& r@ == t.take(r@.len() as int)
                &&& byte_len(r@) == max_length
            }
        }),
{
    let name = trim(name);
    let ghost t = name@;
    let total = str_byte_len(name);
    if total <= max_length {
        return name;
    }
    let v = chars_of(name);
    // the last space that leaves a short enough, non-empty name before it
    let mut best: usize = 0;
    let mut i: usize = 0;
    let mut b: usize = 0;
    proof {
        assert(t.take(0) =~= Seq::<char>::empty());
    }
    while i < v.len()
        invariant
            v@ == t,
            i <= v.len(),
            b == byte_len(t.take(i as int)),
            total == byte_len(t),
            best < v.len(),
            best == 0 || good_cut(t, max_length as nat, best as int),
            best <= i,
            forall|q: int| good_cut(t, max_length as nat, q) && q < i ==> q <= best,
        decreases v.len() - i,
    {
        proof {
            lemma_byte_len_take(t, i as int);
            lemma_byte_len_take_le(t, i + 1);
        }
        if i > 0 && v[i] == ' ' && b < max_length {
            best = i;
        }
        b = b + char_utf8_len(v[i]);
        i = i + 1;
    }
    proof {
        assert(v@.skip(0) =~= v@);
    }
    if best > 0 {
        proof {
            let c = best_cut(t, max_length as nat);
            assert(good_cut(t, max_length as nat, best as int) && forall|q: int| good_cut(t, max_length as nat, q) ==> q <= best);
            assert(good_cut(t, max_length as nat, c) && forall|q: int| good_cut(t, max_length as nat, q) ==> q <= c);
            assert(c == best);
        }
        let (r, _) = take_chars(name, &v, 0, best);
        return r;
    }
    // no space to cut at: cut at `max_length` bytes
    let mut k: usize = 0;
    let mut bk: usize = 0;
    while k < v.len() && bk < max_length
        invariant
            v@ == t,
            k <= v.len(),
            bk == byte_len(t.take(k as int)),
            total == byte_len(t),
            forall|j: int| 0 <= j < k ==> byte_len(t.take(j)) < max_length,
        decreases v.len() - k,
    {
        proof {
            lemma_byte_len_take(t, k as int);
            lemma_byte_len_take_le(t, k + 1);
        }
        bk = bk + char_utf8_len(v[k]);
        k = k + 1;
    }
    proof {
        assert(t.take(k as int) =~= t.take(k as int));
        if bk != max_length {
            // every prefix up to `k` is too short, every longer one too long
            assert forall|j: int| 0 <= j <= t.len() implies byte_len(t.take(j)) != max_length by {
                if j > k {
                    lemma_byte_len_monotone(t, k as int, j);
                }
            }
        }
        let c = byte_cut(t, max_length as nat);
        assert(0 <= c <= t.len() && byte_len(t.take(c)) == max_length);
        if c < k {
            lemma_byte_len_monotone(t, c, k as int);
        } else if c > k {
            lemma_byte_len_monotone(t, k as int, c);
        }
    }
    let (r, _) = take_chars(name, &v, 0, k);
    r
}

/// Whether [`truncate_name`] can shorten `name` to `max_length` bytes (see
/// [`truncatable`]); a name that it cannot shorten would be cut inside a character.
pub fn is_truncatable(name: &str, max_length: usize) -> (r: bool)
    ensures
        r == truncatable(name@, max_length as nat),
{
    let trimmed = trim(name);
    let ghost t = trimmed@;
    let total = str_byte_len(trimmed);
    if total <= max_length {
        return true;
    }
    proof {
        assert(t.take(0) =~= Seq::<char>::empty());
    }
    if max_length == 0 {
        assert(byte_len(t.take(0)) == max_length);
        return true;
    }
    let v = chars_of(trimmed);
    let mut i: usize = 0;
    let mut b: usize = 0;
    while i < v.len()
        invariant
            v@ == t,
            t == trim_chars(name@),
            i <= v.len(),
            total == byte_len(t),
            b == byte_len(t.take(i as int)),
            forall|q: int| q < i ==> !good_cut(t, max_length as nat, q),
            forall|j: int| 0 <= j <= i ==> byte_len(t.take(j)) != max_length,
        decreases v.len() - i,
    {
        proof {
            lemma_byte_len_take(t, i as int);
            lemma_byte_len_take_le(t, i + 1);
        }
        if i > 0 && v[i] == ' ' && b < max_length {
            assert(good_cut(t, max_length as nat, i as int));
            return true;
        }
        b = b + char_utf8_len(v[i]);
        i = i + 1;
        if b == max_length {
            assert(byte_len(t.take(i as int)) == max_length);
            return true;
        }
    }
    assert(t.take(v.len() as int) =~= t);
    false
}

/// Whether [`calculate_filename`] can compute the file name (see [`filename_computable`]).
pub fn filename_is_computable(name: &str, index: Option<usize>, file_type: &crate::schema::FileTypeInfo) -> (r: bool)
    ensures
        r == filename_computable(name@, index, file_type@),
{
    match index {
        Some(_) => {
            let base: &str = if name.is_empty() { file_type.empty_string_name() } else { name };
            is_truncatable(base, FILENAME_MAX_LENGTH)
        },
        None => true,
    }
}

/// Longer prefixes encode to at least as many bytes; strictly more if longer.
pub proof fn lemma_byte_len_monotone(s: Seq<char>, i: int, j: int)
    requires
        0 <= i < j <= s.len(),
    ensures
        byte_len(s.take(i)) < byte_len(s.take(j)),
    decreases j - i,
{
    lemma_byte_len_take(s, j - 1);
    crate::text::lemma_scalar_len(s[j - 1]);
    if i < j - 1 {
        lemma_byte_len_monotone(s, i, j - 1);
    }
}

} // verus!

verus! {

/// Characters that are awkward in file names: path separators, wildcards, quotes,
/// and control characters.
pub const FILENAME_FILTER: &'static str = r#"[/\?%*:|"<>\x7F\x00-\x1F]"#;

/// the maximum length of a name before we start trying to truncate it
pub const FILENAME_MAX_LENGTH: usize = 30;

/// `s` with every `from` replaced by `to`.
pub open spec fn replace_char(s: Seq<char>, from: char, to: char) -> Seq<char> {
    s.map_values(|c: char| if c == from { to } else { c })
}

/// `s` with every `c` removed.
pub open spec fn remove_char(s: Seq<char>, c: char) -> Seq<char>
    decreases s.len(),
{
    if s.len() == 0 {
        seq![]
    } else if s.last() == c {
        remove_char(s.drop_last(), c)
    } else {
        remove_char(s.drop_last(), c).push(s.last())
    }
}

fn replace_char_exec(s: &str, from: char, to: char) -> (r: String)
    ensures
        r@ == replace_char(s@, from, to),
{
    let v = chars_of(s);
    let mut out = String::new();
    let mut i: usize = 0;
    while i < v.len()
        invariant
            v@ == s@,
            i <= v.len(),
            out@ == replace_char(s@.take(i as int), from, to),
        decreases v.len() - i,
    {
        let c = if v[i] == from { to } else { v[i] };
        push_char(&mut out, c);
        i = i + 1;
        assert(out@ =~= replace_char(s@.take(i as int), from, to));
    }
    assert(s@.take(i as int) =~= s@);
    out
}

fn remove_char_exec(s: &str, c: char) -> (r: String)
    ensures
        r@ == remove_char(s@, c),
{
    let v = chars_of(s);
    let mut out = String::new();
    let mut i: usize = 0;
    while i < v.len()
        invariant
            v@ == s@,
            i <= v.len(),
            out@ == remove_char(s@.take(i as int), c),
        decreases v.len() - i,
    {
        proof {
            assert(s@.take(i + 1).drop_last() =~= s@.take(i as int));
        }
        if v[i] != c {
            push_char(&mut out, v[i]);
        }
        i = i + 1;
    }
    assert(s@.take(i as int) =~= s@);
    out
}

/// A name as it is written on disk: spaces become `_`, apostrophes go, and the
/// characters of [`FILENAME_FILTER`] become `-`.
pub open spec fn file_safe_name(name: Seq<char>) -> Seq<char> {
    crate::regex_ops::replaced_or_same(FILENAME_FILTER@, remove_char(replace_char(name, ' ', '_'), '\''), "-"@)
}

/// Translates a name into something we can put on disk
pub fn process_name_for_filename(name: &str) -> (r: String)
    ensures
        r@ == file_safe_name(name@),
{
    let name = replace_char_exec(name, ' ', '_');
    let name = remove_char_exec(name.as_str(), '\'');
    crate::regex_ops::replace_all_or_keep(FILENAME_FILTER, name, "-")
}

/// The name that a file stem stands for: an index prefix such as `003-` is dropped,
/// underscores become spaces, and white space at the ends goes.
pub open spec fn name_from_stem(stem: Seq<char>) -> Seq<char> {
    let base = match crate::text::find_char(stem, '-') {
        Some(p) => if parses_as_i64(stem.take(p)) { stem.skip(p + 1) } else { stem },
        None => stem,
    };
    trim_chars(replace_char(base, '_', ' '))
}

/// Whether `v[from..to]` is an `i64` in decimal (`str::parse::<i64>`).
fn parses_i64_exec(v: &Vec<char>, to: usize) -> (r: bool)
    requires
        to <= v.len(),
    ensures
        r == parses_as_i64(v@.take(to as int)),
{
    let ghost s = v@.take(to as int);
    let neg = to > 0 && v[0] == '-';
    let start: usize = if to > 0 && (v[0] == '+' || v[0] == '-') { 1 } else { 0 };
    let limit: u64 = if neg { 0x8000_0000_0000_0000 } else { 0x7fff_ffff_ffff_ffff };
    proof {
        let d = if s.len() > 0 && (s[0] == '+' || s[0] == '-') { s.drop_first() } else { s };
        assert(v@.subrange(start as int, to as int) =~= d);
    }
    decimal_from(v, start, to, limit).is_some()
}

/// The name that the file stem `stem` stands for (used when a file has no name in its
/// metadata).
pub fn name_from_file_stem(stem: &str) -> (r: String)
    ensures
        r@ == name_from_stem(stem@),
{
    let v = chars_of(stem);
    let base: &str = match crate::text::find_from(&v, 0, '-') {
        Some(p) => {
            proof {
                assert(v@.skip(0) =~= v@);
                crate::text::lemma_find_char(stem@, '-');
            }
            if parses_i64_exec(&v, p) {
                proof {
                    assert(v@.skip(0) =~= v@);
                }
                let (_, rest) = take_chars(stem, &v, 0, p + 1);
                rest
            } else {
                stem
            }
        },
        None => {
            proof {
                assert(v@.skip(0) =~= v@);
            }
            stem
        },
    };
    let replaced = replace_char_exec(base, '_', ' ');
    let trimmed = trim(replaced.as_str());
    trimmed.to_owned()
}

/// The file name of an object named `name` of type `file_type`: the name (or the
/// type's default name when empty), with the index in front for objects that have one
/// (shortened first), made file safe, and with the type's extension for objects that
/// are files rather than folders.
pub open spec fn file_name_for(name: Seq<char>, index: Option<usize>, file_type: crate::schema::FileTypeV) -> Seq<char> {
    let base = if name.len() == 0 { file_type.empty_string_name } else { name };
    let stem = match index {
        Some(i) => indexed_name(file_safe_name(truncated_name(base, FILENAME_MAX_LENGTH as nat)), i as nat),
        None => file_safe_name(base),
    };
    if file_type.is_folder {
        stem
    } else {
        stem + seq!['.'] + file_type.extension
    }
}

/// Whether [`calculate_filename`] can shorten the name (see [`truncatable`]).
pub open spec fn filename_computable(name: Seq<char>, index: Option<usize>, file_type: crate::schema::FileTypeV) -> bool {
    let base = if name.len() == 0 { file_type.empty_string_name } else { name };
    index is Some ==> truncatable(base, FILENAME_MAX_LENGTH as nat)
}

/// Calculates the filename for a particular object
pub fn calculate_filename(name: &str, index: Option<usize>, file_type: &crate::schema::FileTypeInfo) -> (r: String)
    requires
        filename_computable(name@, index, file_type@),
    ensures
        r@ == file_name_for(name@, index, file_type@),
{
    let base_name: &str = if name.is_empty() { file_type.empty_string_name() } else { name };
    let mut basename = match index {
        Some(i) => {
            let truncated = truncate_name(base_name, FILENAME_MAX_LENGTH);
            let safe = process_name_for_filename(truncated);
            add_index_to_name(safe.as_str(), i)
        },
        None => process_name_for_filename(base_name),
    };
    if !file_type.is_folder() {
        push_char(&mut basename, '.');
        basename.append(file_type.extension());
    }
    basename
}

/// The file name of an object at index `i` carries the index `i` (reading the index
/// back from the name gives it).
pub proof fn file_name_index_round_trip(name: Seq<char>, index: usize, file_type: crate::schema::FileTypeV)
    ensures
        index_from_name(file_name_for(name, Some(index), file_type)) == Some(index as int),
{
    let base = if name.len() == 0 { file_type.empty_string_name } else { name };
    let safe = file_safe_name(truncated_name(base, FILENAME_MAX_LENGTH as nat));
    if file_type.is_folder {
        index_round_trip(safe, index as nat);
    } else {
        let tail = safe + seq!['.'] + file_type.extension;
        assert(indexed_name(safe, index as nat) + seq!['.'] + file_type.extension =~= indexed_name(tail, index as nat));
        index_round_trip(tail, index as nat);
    }
}

} // verus!
