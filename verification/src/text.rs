//! Text helpers over the characters of a string: white space, trimming,
//! searching, lines, decimal numbers.
use vstd::prelude::*;

verus! {

/// The characters with the Unicode `White_Space` property.
pub open spec fn is_ws(c: char) -> bool {
    let u = c as u32;
    ||| 0x09 <= u <= 0x0d
    ||| u == 0x20
    ||| u == 0x85
    ||| u == 0xa0
    ||| u == 0x1680
    ||| 0x2000 <= u <= 0x200a
    ||| u == 0x2028
    ||| u == 0x2029
    ||| u == 0x202f
    ||| u == 0x205f
    ||| u == 0x3000
}

/// Whether `c` is white space in the Unicode sense.
pub fn is_whitespace(c: char) -> (b: bool)
    ensures
        b == is_ws(c),
{
    let u = c as u32;
    (0x09 <= u && u <= 0x0d) || u == 0x20 || u == 0x85 || u == 0xa0 || u == 0x1680 || (0x2000
        <= u && u <= 0x200a) || u == 0x2028 || u == 0x2029 || u == 0x202f || u == 0x205f || u
        == 0x3000
}

pub open spec fn is_digit(c: char) -> bool {
    '0' <= c <= '9'
}

/// Appends one character (`String::push`).
#[verifier::external_body]
pub(crate) fn push_char(s: &mut String, c: char)
    ensures
        final(s)@ == old(s)@.push(c),
{
    s.push(c);
}

/// The characters of a string, in order (`str::chars`).
pub fn chars_of(s: &str) -> (v: Vec<char>)
    ensures
        v@ == s@,
{
    broadcast use vstd::string::group_string_axioms;

    let mut v: Vec<char> = Vec::new();
    for c in it: s.chars()
        invariant
            it.seq() == s@,
            v@ == s@.take(it.index() as int),
    {
        v.push(c);
        assert(s@.take(it.index() + 1) =~= s@.take(it.index() as int).push(c));
    }
    assert(s@.take(s@.len() as int) =~= s@);
    v
}

/// A string holding exactly the characters `v[from..to]`.
pub fn string_of_range(v: &[char], from: usize, to: usize) -> (s: String)
    requires
        from <= to <= v@.len(),
    ensures
        s@ == v@.subrange(from as int, to as int),
{
    let mut s = String::new();
    let mut i = from;
    while i < to
        invariant
            from <= i <= to <= v@.len(),
            s@ == v@.subrange(from as int, i as int),
        decreases to - i,
    {
        push_char(&mut s, v[i]);
        assert(v@.subrange(from as int, i + 1) =~= v@.subrange(from as int, i as int).push(v@[i as int]));
        i += 1;
    }
    s
}

/// A copy of a string.
pub fn copy_string(s: &String) -> (r: String)
    ensures
        r@ == s@,
{
    s.clone()
}

// ---------------------------------------------------------------- trimming

pub open spec fn trim_start(s: Seq<char>) -> Seq<char>
    decreases s.len(),
{
    if s.len() > 0 && is_ws(s[0]) {
        trim_start(s.drop_first())
    } else {
        s
    }
}

pub open spec fn trim_end(s: Seq<char>) -> Seq<char>
    decreases s.len(),
{
    if s.len() > 0 && is_ws(s.last()) {
        trim_end(s.drop_last())
    } else {
        s
    }
}

/// The string without leading and trailing white space (`str::trim`).
pub open spec fn trim(s: Seq<char>) -> Seq<char> {
    trim_end(trim_start(s))
}

/// Everything but the trailing occurrences of `c` (`str::trim_end_matches(c)`).
pub open spec fn trim_end_char(s: Seq<char>, c: char) -> Seq<char>
    decreases s.len(),
{
    if s.len() > 0 && s.last() == c {
        trim_end_char(s.drop_last(), c)
    } else {
        s
    }
}

/// Bounds `lo..hi` of `trim(v[from..to])` inside `v`.
pub fn trim_bounds(v: &[char], from: usize, to: usize) -> (r: (usize, usize))
    requires
        from <= to <= v@.len(),
    ensures
        from <= r.0 <= r.1 <= to,
        v@.subrange(r.0 as int, r.1 as int) == trim(v@.subrange(from as int, to as int)),
{
    let mut lo = from;
    while lo < to && is_whitespace(v[lo])
        invariant
            from <= lo <= to <= v@.len(),
            trim_start(v@.subrange(from as int, to as int)) == trim_start(v@.subrange(lo as int, to as int)),
        decreases to - lo,
    {
        assert(v@.subrange(lo as int, to as int).drop_first() =~= v@.subrange(lo + 1, to as int));
        lo += 1;
    }
    assert(trim_start(v@.subrange(lo as int, to as int)) == v@.subrange(lo as int, to as int));
    let mut hi = to;
    while hi > lo && is_whitespace(v[hi - 1])
        invariant
            from <= lo <= hi <= to <= v@.len(),
            trim(v@.subrange(from as int, to as int)) == trim_end(v@.subrange(lo as int, hi as int)),
        decreases hi - lo,
    {
        assert(v@.subrange(lo as int, hi as int).drop_last() =~= v@.subrange(lo as int, hi - 1));
        hi -= 1;
    }
    (lo, hi)
}

/// End `hi'` such that `v[from..hi']` is `v[from..hi]` without trailing `c`.
pub fn trim_end_char_bound(v: &[char], from: usize, hi: usize, c: char) -> (r: usize)
    requires
        from <= hi <= v@.len(),
    ensures
        from <= r <= hi,
        v@.subrange(from as int, r as int) == trim_end_char(v@.subrange(from as int, hi as int), c),
{
    let mut h = hi;
    while h > from && v[h - 1] == c
        invariant
            from <= h <= hi <= v@.len(),
            trim_end_char(v@.subrange(from as int, hi as int), c) == trim_end_char(v@.subrange(from as int, h as int), c),
        decreases h,
    {
        assert(v@.subrange(from as int, h as int).drop_last() =~= v@.subrange(from as int, h - 1));
        h -= 1;
    }
    h
}

/// A string without leading and trailing white space.
pub fn trimmed(s: &str) -> (r: String)
    ensures
        r@ == trim(s@),
{
    let v = chars_of(s);
    let (lo, hi) = trim_bounds(v.as_slice(), 0, v.len());
    assert(v@.subrange(0, v@.len() as int) =~= v@);
    string_of_range(v.as_slice(), lo, hi)
}

// ---------------------------------------------------------------- searching

/// `needle` occurs in `hay` at position `i`.
pub open spec fn occurs_at(hay: Seq<char>, needle: Seq<char>, i: int) -> bool {
    0 <= i && i + needle.len() <= hay.len() && hay.subrange(i, i + needle.len()) == needle
}

/// `hay` holds `needle` somewhere (`str::contains`).
pub open spec fn contains_seq(hay: Seq<char>, needle: Seq<char>) -> bool {
    exists|i: int| occurs_at(hay, needle, i)
}

/// Position of the first occurrence of `needle` in `hay` (`str::find`), in characters.
pub open spec fn first_occurrence(hay: Seq<char>, needle: Seq<char>) -> Option<int> {
    if contains_seq(hay, needle) {
        Some(choose|i: int| occurs_at(hay, needle, i) && forall|j: int| 0 <= j < i ==> !occurs_at(hay, needle, j))
    } else {
        None
    }
}

fn matches_at(hay: &[char], needle: &[char], i: usize) -> (b: bool)
    requires
        i + needle@.len() <= hay@.len(),
    ensures
        b == occurs_at(hay@, needle@, i as int),
{
    let n = hay.len();
    let mut k: usize = 0;
    while k < needle.len()
        invariant
            i + needle@.len() <= hay@.len(),
            n == hay@.len(),
            k <= needle@.len(),
            forall|j: int| 0 <= j < k ==> hay@[i + j] == needle@[j],
        decreases needle@.len() - k,
    {
        if hay[i + k] != needle[k] {
            assert(hay@.subrange(i as int, i + needle@.len())[k as int] != needle@[k as int]);
            return false;
        }
        k += 1;
    }
    assert(hay@.subrange(i as int, i + needle@.len()) =~= needle@);
    true
}

/// Position of the first occurrence of `needle` in `hay`.
pub fn find_seq(hay: &[char], needle: &[char]) -> (r: Option<usize>)
    ensures
        r matches Some(i) ==> first_occurrence(hay@, needle@) == Some(i as int) && occurs_at(hay@, needle@, i as int),
        r is None ==> first_occurrence(hay@, needle@) is None,
{
    if needle.len() > hay.len() {
        return None;
    }
    if needle.len() == 0 {
        assert(occurs_at(hay@, needle@, 0)) by {
            assert(hay@.subrange(0, 0) =~= needle@);
        }
        let ghost c = choose|k: int| occurs_at(hay@, needle@, k) && forall|j: int| 0 <= j < k ==> !occurs_at(hay@, needle@, j);
        assert(c == 0) by {
            if c > 0 {
                assert(!occurs_at(hay@, needle@, 0));
            }
        }
        return Some(0);
    }
    let last = hay.len() - needle.len();
    assert(last < usize::MAX);
    let mut i: usize = 0;
    while i <= last
        invariant
            last == hay@.len() - needle@.len(),
            last < usize::MAX,
            i <= last + 1,
            forall|j: int| 0 <= j < i ==> !occurs_at(hay@, needle@, j),
        decreases last + 1 - i,
    {
        if matches_at(hay, needle, i) {
            let ghost c = choose|k: int| occurs_at(hay@, needle@, k) && forall|j: int| 0 <= j < k ==> !occurs_at(hay@, needle@, j);
            assert(occurs_at(hay@, needle@, i as int));
            assert(c == i) by {
                if c < i {
                } else if c > i {
                    assert(!occurs_at(hay@, needle@, i as int));
                }
            }
            return Some(i);
        }
        i += 1;
    }
    None
}

/// `s` begins with `prefix` (`str::starts_with`).
pub open spec fn starts_with(s: Seq<char>, prefix: Seq<char>) -> bool {
    occurs_at(s, prefix, 0)
}

/// Whether `s` begins with `prefix`.
pub fn begins_with(s: &[char], prefix: &[char]) -> (b: bool)
    ensures
        b == starts_with(s@, prefix@),
{
    if prefix.len() > s.len() {
        false
    } else {
        matches_at(s, prefix, 0)
    }
}

/// Whether `s` is exactly the text `w`.
pub fn is_text(s: &[char], w: &str) -> (b: bool)
    ensures
        b == (s@ == w@),
{
    let v = chars_of(w);
    if v.len() != s.len() {
        return false;
    }
    let b = matches_at(s, v.as_slice(), 0);
    assert(s@.subrange(0, s@.len() as int) =~= s@);
    b
}

/// Whether `hay` holds `needle` (`str::contains`).
pub fn contains(hay: &[char], needle: &[char]) -> (b: bool)
    ensures
        b == contains_seq(hay@, needle@),
{
    find_seq(hay, needle).is_some()
}

// ---------------------------------------------------------------- lines

/// Position of the first `c` in `s`, or its length.
pub open spec fn index_or_len(s: Seq<char>, c: char) -> int
    decreases s.len(),
{
    if s.len() == 0 {
        0
    } else if s[0] == c {
        0
    } else {
        1 + index_or_len(s.drop_first(), c)
    }
}

/// One line without its terminator: a final carriage return is dropped.
pub open spec fn strip_cr(line: Seq<char>) -> Seq<char> {
    if line.len() > 0 && line.last() == '\r' {
        line.drop_last()
    } else {
        line
    }
}

/// The lines of a text as `str::lines` yields them.
pub open spec fn lines(s: Seq<char>) -> Seq<Seq<char>>
    decreases s.len(),
{
    if s.len() == 0 {
        seq![]
    } else {
        let i = index_or_len(s, '\n');
        proof {
            lemma_index_or_len(s, '\n');
        }
        if i >= s.len() {
            seq![strip_cr(s)]
        } else {
            seq![strip_cr(s.subrange(0, i))] + lines(s.subrange(i + 1, s.len() as int))
        }
    }
}

pub proof fn lemma_index_or_len(s: Seq<char>, c: char)
    ensures
        0 <= index_or_len(s, c) <= s.len(),
        forall|j: int| 0 <= j < index_or_len(s, c) ==> s[j] != c,
        index_or_len(s, c) < s.len() ==> s[index_or_len(s, c)] == c,
    decreases s.len(),
{
    if s.len() > 0 && s[0] != c {
        lemma_index_or_len(s.drop_first(), c);
        assert forall|j: int| 0 <= j < index_or_len(s, c) implies s[j] != c by {
            if j > 0 {
                assert(s[j] == s.drop_first()[j - 1]);
            }
        }
    }
}

/// End of the line that starts at `from` (the position of the next newline, or the end).
pub fn line_end(v: &[char], from: usize) -> (r: usize)
    requires
        from <= v@.len(),
    ensures
        r as int == from + index_or_len(v@.subrange(from as int, v@.len() as int), '\n'),
        from <= r <= v@.len(),
{
    let mut i = from;
    while i < v.len() && v[i] != '\n'
        invariant
            from <= i <= v@.len(),
            index_or_len(v@.subrange(from as int, v@.len() as int), '\n') == (i - from)
                + index_or_len(v@.subrange(i as int, v@.len() as int), '\n'),
        decreases v@.len() - i,
    {
        assert(v@.subrange(i as int, v@.len() as int).drop_first() =~= v@.subrange(i + 1, v@.len() as int));
        i += 1;
    }
    i
}

/// End of `v[from..to]` without a final carriage return.
pub fn strip_cr_end(v: &[char], from: usize, to: usize) -> (r: usize)
    requires
        from <= to <= v@.len(),
    ensures
        from <= r <= to,
        v@.subrange(from as int, r as int) == strip_cr(v@.subrange(from as int, to as int)),
{
    if to > from && v[to - 1] == '\r' {
        assert(v@.subrange(from as int, to as int).drop_last() =~= v@.subrange(from as int, to - 1));
        to - 1
    } else {
        to
    }
}

// ---------------------------------------------------------------- numbers

/// Decimal digits of `n`, most significant first, without leading zeros ("0" for zero).
pub open spec fn decimal(n: nat) -> Seq<char>
    decreases n,
{
    if n < 10 {
        seq![digit_char(n)]
    } else {
        decimal(n / 10).push(digit_char(n % 10))
    }
}

pub open spec fn digit_char(d: nat) -> char {
    (d + 48) as char
}

/// `n` in decimal, with a minus sign when negative (how `{}` prints an integer).
pub open spec fn signed_decimal(n: int) -> Seq<char> {
    if n < 0 {
        seq!['-'] + decimal((-n) as nat)
    } else {
        decimal(n as nat)
    }
}

fn digit(d: u64) -> (c: char)
    requires
        d < 10,
    ensures
        c == digit_char(d as nat),
{
    (d as u8 + 48u8) as char
}

/// Appends `n` in decimal.
pub fn push_decimal(s: &mut String, n: u64)
    ensures
        final(s)@ == old(s)@ + decimal(n as nat),
    decreases n,
{
    if n < 10 {
        push_char(s, digit(n));
        assert(decimal(n as nat) == seq![digit_char(n as nat)]);
        assert(old(s)@.push(digit_char(n as nat)) =~= old(s)@ + decimal(n as nat));
    } else {
        push_decimal(s, n / 10);
        push_char(s, digit(n % 10));
        assert(old(s)@ + decimal(n as nat) =~= (old(s)@ + decimal((n / 10) as nat)).push(digit_char((n % 10) as nat)));
    }
}

/// Appends `n` in decimal with a minus sign when negative.
pub fn push_signed(s: &mut String, n: i64)
    ensures
        final(s)@ == old(s)@ + signed_decimal(n as int),
{
    if n < 0 {
        push_char(s, '-');
        let m: u64 = if n == i64::MIN {
            9223372036854775808u64
        } else {
            (-n) as u64
        };
        push_decimal(s, m);
        assert(old(s)@ + signed_decimal(n as int) =~= old(s)@.push('-') + decimal(m as nat));
    } else {
        push_decimal(s, n as u64);
    }
}

/// Value of a string of ASCII digits (0 for the empty string).
pub open spec fn digits_value(s: Seq<char>) -> nat
    decreases s.len(),
{
    if s.len() == 0 {
        0
    } else {
        digits_value(s.drop_last()) * 10 + ((s.last() as u32) - 48) as nat
    }
}

pub open spec fn all_digits(s: Seq<char>) -> bool {
    forall|i: int| 0 <= i < s.len() ==> is_digit(#[trigger] s[i])
}

/// The magnitude and sign `FromStr` reads from a decimal integer: an optional sign
/// (a minus only where `signed`), then one or more ASCII digits.
pub open spec fn spec_sign_and_digits(s: Seq<char>, signed: bool) -> Option<(bool, nat)> {
    let neg = signed && s.len() > 0 && s[0] == '-';
    let has_sign = s.len() > 0 && (s[0] == '+' || neg);
    let body = if has_sign {
        s.drop_first()
    } else {
        s
    };
    if body.len() > 0 && all_digits(body) {
        Some((neg, digits_value(body)))
    } else {
        None
    }
}

/// What `u32::from_str` gives (`str::parse::<u32>`).
pub open spec fn spec_parse_u32(s: Seq<char>) -> Option<u32> {
    match spec_sign_and_digits(s, false) {
        Some((_, v)) => if v <= u32::MAX {
            Some(v as u32)
        } else {
            None
        },
        None => None,
    }
}

/// What `i32::from_str` gives.
pub open spec fn spec_parse_i32(s: Seq<char>) -> Option<i32> {
    match spec_sign_and_digits(s, true) {
        Some((neg, v)) => if neg && v <= 0x8000_0000 {
            Some((-v) as i32)
        } else if !neg && v <= i32::MAX {
            Some(v as i32)
        } else {
            None
        },
        None => None,
    }
}

/// What `i64::from_str` gives.
pub open spec fn spec_parse_i64(s: Seq<char>) -> Option<i64> {
    match spec_sign_and_digits(s, true) {
        Some((neg, v)) => if neg && v <= 0x8000_0000_0000_0000 {
            Some((-v) as i64)
        } else if !neg && v <= i64::MAX {
            Some(v as i64)
        } else {
            None
        },
        None => None,
    }
}

/// Sign and magnitude of a decimal integer, with `None` for a magnitude beyond 2^63.
fn sign_and_digits(s: &[char], signed: bool) -> (r: Option<(bool, u64)>)
    ensures
        r matches Some((neg, v)) ==> spec_sign_and_digits(s@, signed) == Some((neg, v as nat)),
        r is None ==> (spec_sign_and_digits(s@, signed) matches Some((_, v)) ==> v > 0x8000_0000_0000_0000),
{
    let neg = signed && s.len() > 0 && s[0] == '-';
    let has_sign = s.len() > 0 && (s[0] == '+' || neg);
    let start: usize = if has_sign {
        1
    } else {
        0
    };
    let ghost body = if has_sign {
        s@.drop_first()
    } else {
        s@
    };
    assert(body =~= s@.subrange(start as int, s@.len() as int));
    assert(spec_sign_and_digits(s@, signed) == (if body.len() > 0 && all_digits(body) {
        Some((neg, digits_value(body)))
    } else {
        None
    }));
    if start >= s.len() {
        return None;
    }
    let mut v: u64 = 0;
    let mut i = start;
    let mut overflow = false;
    while i < s.len()
        invariant
            start <= i <= s@.len(),
            body == s@.subrange(start as int, s@.len() as int),
            spec_sign_and_digits(s@, signed) == (if body.len() > 0 && all_digits(body) {
                Some((neg, digits_value(body)))
            } else {
                None
            }),
            !overflow ==> v as nat == digits_value(s@.subrange(start as int, i as int)),
            !overflow ==> v <= 0x8000_0000_0000_0000,
            overflow ==> digits_value(s@.subrange(start as int, i as int)) > 0x8000_0000_0000_0000,
            all_digits(s@.subrange(start as int, i as int)),
        decreases s@.len() - i,
    {
        let c = s[i];
        if c < '0' || c > '9' {
            assert(body[i - start] == c);
            assert(!is_digit(body[i - start]));
            assert(!all_digits(body));
            assert(spec_sign_and_digits(s@, signed) is None);
            return None;
        }
        let d = (c as u32 - 48) as u64;
        let ghost prev = s@.subrange(start as int, i as int);
        let ghost next = s@.subrange(start as int, i + 1);
        assert(next.drop_last() =~= prev);
        assert(next.last() == c);
        if !overflow {
            if v > 0x0CCC_CCCC_CCCC_CCCC || v * 10 + d > 0x8000_0000_0000_0000 {
                overflow = true;
            } else {
                v = v * 10 + d;
            }
        } else {
            assert(digits_value(next) >= digits_value(prev)) by (nonlinear_arith)
                requires
                    digits_value(next) == digits_value(prev) * 10 + d,
            ;
        }
        assert(all_digits(next)) by {
            assert forall|j: int| 0 <= j < next.len() implies is_digit(#[trigger] next[j]) by {
                if j < prev.len() {
                    assert(next[j] == prev[j]);
                }
            }
        }
        i += 1;
    }
    if overflow {
        None
    } else {
        Some((neg, v))
    }
}

/// `str::parse::<u32>`.
pub fn parse_u32(s: &[char]) -> (r: Option<u32>)
    ensures
        r == spec_parse_u32(s@),
{
    match sign_and_digits(s, false) {
        Some((_, v)) => if v <= u32::MAX as u64 {
            Some(v as u32)
        } else {
            None
        },
        None => None,
    }
}

/// `str::parse::<i32>`.
pub fn parse_i32(s: &[char]) -> (r: Option<i32>)
    ensures
        r == spec_parse_i32(s@),
{
    match sign_and_digits(s, true) {
        Some((neg, v)) => if neg && v <= 0x8000_0000 {
            Some((0 - v as i64) as i32)
        } else if !neg && v <= i32::MAX as u64 {
            Some(v as i32)
        } else {
            None
        },
        None => None,
    }
}

/// `str::parse::<i64>`.
pub fn parse_i64(s: &[char]) -> (r: Option<i64>)
    ensures
        r == spec_parse_i64(s@),
{
    match sign_and_digits(s, true) {
        Some((neg, v)) => if neg && v == 0x8000_0000_0000_0000 {
            Some(i64::MIN)
        } else if neg && v < 0x8000_0000_0000_0000 {
            Some(0 - v as i64)
        } else if !neg && v <= i64::MAX as u64 {
            Some(v as i64)
        } else {
            None
        },
        None => None,
    }
}

} // verus!
