use vstd::prelude::*;

verus! {

/// ASCII whitespace: space, tab, line feed, form feed and carriage return.
pub open spec fn is_space(b: u8) -> bool {
    b == 32 || b == 9 || b == 10 || b == 12 || b == 13
}

/// The first index at or after `i` that holds `b`, or the length when none does.
pub open spec fn find_byte(s: Seq<u8>, i: int, b: u8) -> int
    decreases s.len() - i,
{
    if i >= s.len() {
        s.len() as int
    } else if s[i] == b {
        i
    } else {
        find_byte(s, i + 1, b)
    }
}

/// The first index at or after `i` that holds no whitespace, or the length.
pub open spec fn skip_space(s: Seq<u8>, i: int) -> int
    decreases s.len() - i,
{
    if i >= s.len() {
        s.len() as int
    } else if is_space(s[i]) {
        skip_space(s, i + 1)
    } else {
        i
    }
}

/// The first index at or after `i` that holds whitespace, or the length.
pub open spec fn skip_word(s: Seq<u8>, i: int) -> int
    decreases s.len() - i,
{
    if i >= s.len() {
        s.len() as int
    } else if is_space(s[i]) {
        i
    } else {
        skip_word(s, i + 1)
    }
}

/// The end of `s[..j]` once its trailing whitespace is dropped.
pub open spec fn trim_end_at(s: Seq<u8>, j: int) -> int
    decreases j,
{
    if j <= 0 {
        0
    } else if is_space(s[j - 1]) {
        trim_end_at(s, j - 1)
    } else {
        j
    }
}

/// `s` without leading and trailing ASCII whitespace.
pub open spec fn trim(s: Seq<u8>) -> Seq<u8> {
    let t = s.subrange(skip_space(s, 0), s.len() as int);
    t.subrange(0, trim_end_at(t, t.len() as int))
}

/// The header/body separator `\r\n\r\n` starts at `i`.
pub open spec fn is_separator_at(s: Seq<u8>, i: int) -> bool {
    &&& 0 <= i
    &&& i + 4 <= s.len()
    &&& s[i] == 13 && s[i + 1] == 10 && s[i + 2] == 13 && s[i + 3] == 10
}

/// The first index at or after `i` where the separator starts, or the length.
pub open spec fn find_separator(s: Seq<u8>, i: int) -> int
    decreases s.len() - i,
{
    if i + 4 > s.len() {
        s.len() as int
    } else if is_separator_at(s, i) {
        i
    } else {
        find_separator(s, i + 1)
    }
}

pub open spec fn is_digit(b: u8) -> bool {
    48 <= b <= 57
}

pub open spec fn all_digits(s: Seq<u8>) -> bool {
    forall|i: int| 0 <= i < s.len() ==> is_digit(#[trigger] s[i])
}

/// The number that a sequence of decimal digits spells.
pub open spec fn digits_value(s: Seq<u8>) -> nat
    decreases s.len(),
{
    if s.len() == 0 {
        0
    } else {
        digits_value(s.drop_last()) * 10 + (s.last() - 48) as nat
    }
}

/// The digits of an unsigned decimal: an optional `+`, then the rest.
pub open spec fn unsigned_digits(s: Seq<u8>) -> Seq<u8> {
    if s.len() > 0 && s[0] == 43 {
        s.drop_first()
    } else {
        s
    }
}

/// The value of `s` read as an unsigned decimal that fits in `usize`, if it is one.
pub open spec fn parse_usize_spec(s: Seq<u8>) -> Option<usize> {
    let d = unsigned_digits(s);
    if d.len() > 0 && all_digits(d) && digits_value(d) <= usize::MAX {
        Some(digits_value(d) as usize)
    } else {
        None
    }
}

proof fn lemma_digits_value_prefix_grows(s: Seq<u8>, i: int, j: int)
    requires
        0 <= i <= j <= s.len(),
        all_digits(s),
    ensures
        digits_value(s.subrange(0, i)) <= digits_value(s.subrange(0, j)),
    decreases j - i,
{
    if i < j {
        lemma_digits_value_prefix_grows(s, i, j - 1);
        assert(s.subrange(0, j).drop_last() =~= s.subrange(0, j - 1));
    }
}

/// Index of the first `b` at or after `i`, or the length of `s`.
pub fn find_byte_from(s: &[u8], i: usize, b: u8) -> (r: usize)
    requires
        i <= s@.len(),
    ensures
        r == find_byte(s@, i as int, b),
        i <= r <= s@.len(),
{
    let mut k: usize = i;
    while k < s.len()
        invariant
            i <= k <= s@.len(),
            find_byte(s@, i as int, b) == find_byte(s@, k as int, b),
        decreases s@.len() - k,
    {
        if s[k] == b {
            return k;
        }
        k = k + 1;
    }
    k
}

/// Index of the first non-whitespace byte at or after `i`, or the length of `s`.
pub fn skip_space_from(s: &[u8], i: usize) -> (r: usize)
    requires
        i <= s@.len(),
    ensures
        r == skip_space(s@, i as int),
        i <= r <= s@.len(),
{
    let mut k: usize = i;
    while k < s.len()
        invariant
            i <= k <= s@.len(),
            skip_space(s@, i as int) == skip_space(s@, k as int),
        decreases s@.len() - k,
    {
        let c = s[k];
        if !(c == 32 || c == 9 || c == 10 || c == 12 || c == 13) {
            return k;
        }
        k = k + 1;
    }
    k
}

/// Index of the first whitespace byte at or after `i`, or the length of `s`.
pub fn skip_word_from(s: &[u8], i: usize) -> (r: usize)
    requires
        i <= s@.len(),
    ensures
        r == skip_word(s@, i as int),
        i <= r <= s@.len(),
{
    let mut k: usize = i;
    while k < s.len()
        invariant
            i <= k <= s@.len(),
            skip_word(s@, i as int) == skip_word(s@, k as int),
        decreases s@.len() - k,
    {
        let c = s[k];
        if c == 32 || c == 9 || c == 10 || c == 12 || c == 13 {
            return k;
        }
        k = k + 1;
    }
    k
}

/// Index where the first `\r\n\r\n` starts, or the length of `s`.
pub fn find_separator_from(s: &[u8], i: usize) -> (r: usize)
    requires
        i <= s@.len(),
    ensures
        r == find_separator(s@, i as int),
        r == s@.len() || (i <= r && is_separator_at(s@, r as int)),
{
    let mut k: usize = i;
    while s.len() >= 4 && k <= s.len() - 4
        invariant
            i <= k <= s@.len(),
            find_separator(s@, i as int) == find_separator(s@, k as int),
        decreases s@.len() - k,
    {
        if s[k] == 13 && s[k + 1] == 10 && s[k + 2] == 13 && s[k + 3] == 10 {
            return k;
        }
        k = k + 1;
    }
    s.len()
}

pub fn is_space_byte(c: u8) -> (r: bool)
    ensures
        r == is_space(c),
{
    c == 32 || c == 9 || c == 10 || c == 12 || c == 13
}

/// `s` without its leading and trailing ASCII whitespace.
pub fn trim_bytes(s: &[u8]) -> (r: &[u8])
    ensures
        r@ == trim(s@),
{
    let a = skip_space_from(s, 0);
    let t = vstd::slice::slice_subrange(s, a, s.len());
    let mut j: usize = t.len();
    while j > 0 && is_space_byte(t[j - 1])
        invariant
            j <= t@.len(),
            trim_end_at(t@, t@.len() as int) == trim_end_at(t@, j as int),
        decreases j,
    {
        j = j - 1;
    }
    vstd::slice::slice_subrange(t, 0, j)
}

/// Reads `s` as an unsigned decimal: an optional `+` and at least one digit,
/// with a value that fits in `usize`.
pub fn parse_usize(s: &[u8]) -> (r: Option<usize>)
    ensures
        r == parse_usize_spec(s@),
{
    let d = if s.len() > 0 && s[0] == 43 {
        vstd::slice::slice_subrange(s, 1, s.len())
    } else {
        s
    };
    assert(d@ =~= unsigned_digits(s@));
    if d.len() == 0 {
        return None;
    }
    let mut value: usize = 0;
    let mut i: usize = 0;
    while i < d.len()
        invariant
            i <= d@.len(),
            d@ == unsigned_digits(s@),
            value == digits_value(d@.subrange(0, i as int)),
            forall|j: int| 0 <= j < i ==> is_digit(#[trigger] d@[j]),
        decreases d@.len() - i,
    {
        let c = d[i];
        assert(d@.subrange(0, i + 1).drop_last() =~= d@.subrange(0, i as int));
        if c < 48 || c > 57 {
            assert(!is_digit(d@[i as int]));
            assert(!all_digits(d@));
            return None;
        }
        let digit = (c - 48) as usize;
        if value > (usize::MAX - digit) / 10 {
            proof {
                assert(value * 10 + digit > usize::MAX) by (nonlinear_arith)
                    requires
                        value > (usize::MAX - digit) / 10,
                        digit <= 9,
                ;
                let dv = d@;
                assert(digits_value(dv.subrange(0, i + 1)) == value * 10 + digit);
                if all_digits(dv) {
                    lemma_digits_value_prefix_grows(dv, i + 1, dv.len() as int);
                    assert(dv.subrange(0, dv.len() as int) =~= dv);
                    assert(digits_value(dv) > usize::MAX);
                }
            }
            return None;
        }
        value = value * 10 + digit;
        i = i + 1;
    }
    assert(d@.subrange(0, d@.len() as int) =~= d@);
    Some(value)
}

} // verus!
