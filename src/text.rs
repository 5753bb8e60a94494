//! Character-level helpers shared by the line parsers.
use vstd::prelude::*;

verus! {

/// An ASCII decimal digit.
pub open spec fn is_digit(c: char) -> bool {
    '0' <= c && c <= '9'
}

/// An ASCII hexadecimal digit, either case.
pub open spec fn is_hex_digit(c: char) -> bool {
    ('0' <= c && c <= '9') || ('a' <= c && c <= 'f') || ('A' <= c && c <= 'F')
}

/// A digit of the given radix (10 or 16).
pub open spec fn is_radix_digit(c: char, radix: int) -> bool {
    if radix == 16 {
        is_hex_digit(c)
    } else {
        is_digit(c)
    }
}

/// The value of an ASCII decimal or hexadecimal digit.
pub open spec fn digit_value(c: char) -> int {
    if '0' <= c && c <= '9' {
        (c as u32) - ('0' as u32)
    } else if 'a' <= c && c <= 'f' {
        (c as u32) - ('a' as u32) + 10
    } else {
        (c as u32) - ('A' as u32) + 10
    }
}

pub open spec fn all_radix_digits(s: Seq<char>, radix: int) -> bool {
    forall|i: int| 0 <= i < s.len() ==> is_radix_digit(#[trigger] s[i], radix)
}

/// The number that a string of digits writes in the given radix.
pub open spec fn digits_value(s: Seq<char>, radix: int) -> int
    decreases s.len(),
{
    if s.len() == 0 {
        0
    } else {
        digits_value(s.drop_last(), radix) * radix + digit_value(s.last())
    }
}

/// The digits after one optional leading `+`.
pub open spec fn unsigned_digits(s: Seq<char>) -> Seq<char> {
    if s.len() > 0 && s[0] == '+' {
        s.skip(1)
    } else {
        s
    }
}

/// A `u32` written in the given radix: an optional `+`, then one digit or more,
/// with a value that fits.
pub open spec fn unsigned_of(s: Seq<char>, radix: int) -> Option<u32> {
    let d = unsigned_digits(s);
    if d.len() > 0 && all_radix_digits(d, radix) && digits_value(d, radix) <= u32::MAX {
        Some(digits_value(d, radix) as u32)
    } else {
        None
    }
}

/// The digits after one optional leading `+` or `-`.
pub open spec fn signed_digits(s: Seq<char>) -> Seq<char> {
    if s.len() > 0 && (s[0] == '+' || s[0] == '-') {
        s.skip(1)
    } else {
        s
    }
}

/// An `i32` in decimal: an optional `+` or `-`, then one digit or more, with a
/// value that fits.
pub open spec fn signed_of(s: Seq<char>) -> Option<i32> {
    let d = signed_digits(s);
    let neg = s.len() > 0 && s[0] == '-';
    let v = if neg {
        -digits_value(d, 10)
    } else {
        digits_value(d, 10)
    };
    if d.len() > 0 && all_radix_digits(d, 10) && i32::MIN <= v <= i32::MAX {
        Some(v as i32)
    } else {
        None
    }
}

/// A white-space character in Unicode's sense.
pub open spec fn is_white_space(c: char) -> bool {
    c == ' ' || ('\t' <= c && c <= '\r') || c == '\u{85}' || c == '\u{a0}' || c == '\u{1680}'
        || ('\u{2000}' <= c && c <= '\u{200a}') || c == '\u{2028}' || c == '\u{2029}' || c
        == '\u{202f}' || c == '\u{205f}' || c == '\u{3000}'
}

/// The index of the first `c` in `s` at or after `from`, or -1.
pub open spec fn find_from(s: Seq<char>, c: char, from: int) -> int
    decreases s.len() - from,
{
    if from < 0 || from >= s.len() {
        -1
    } else if s[from] == c {
        from
    } else {
        find_from(s, c, from + 1)
    }
}

/// `lit` stands in `s` at index `i`.
pub open spec fn has_at(s: Seq<char>, i: int, lit: Seq<char>) -> bool {
    0 <= i && i + lit.len() <= s.len() && s.subrange(i, i + lit.len()) == lit
}

/// The end of the run of radix digits that starts at `i`.
pub open spec fn run_end(s: Seq<char>, i: int, radix: int) -> int
    decreases s.len() - i,
{
    if i < 0 || i >= s.len() || !is_radix_digit(s[i], radix) {
        i
    } else {
        run_end(s, i + 1, radix)
    }
}

pub proof fn lemma_find_from(s: Seq<char>, c: char, from: int)
    requires
        0 <= from,
    ensures
        find_from(s, c, from) == -1 || (from <= find_from(s, c, from) < s.len() && s[find_from(
            s,
            c,
            from,
        )] == c),
        forall|j: int|
            from <= j < s.len() && (find_from(s, c, from) == -1 || j < find_from(s, c, from))
                ==> s[j] != c,
    decreases s.len() - from,
{
    if from < s.len() && s[from] != c {
        lemma_find_from(s, c, from + 1);
    }
}

pub proof fn lemma_run_end(s: Seq<char>, i: int, radix: int)
    requires
        0 <= i <= s.len(),
    ensures
        i <= run_end(s, i, radix) <= s.len(),
        run_end(s, i, radix) < s.len() ==> !is_radix_digit(s[run_end(s, i, radix)], radix),
        forall|j: int| i <= j < run_end(s, i, radix) ==> is_radix_digit(#[trigger] s[j], radix),
    decreases s.len() - i,
{
    if i < s.len() && is_radix_digit(s[i], radix) {
        lemma_run_end(s, i + 1, radix);
    }
}

pub proof fn lemma_digits_value_nonneg(s: Seq<char>, radix: int)
    requires
        radix == 10 || radix == 16,
        all_radix_digits(s, radix),
    ensures
        digits_value(s, radix) >= 0,
    decreases s.len(),
{
    if s.len() > 0 {
        assert(all_radix_digits(s.drop_last(), radix)) by {
            assert forall|i: int| 0 <= i < s.drop_last().len() implies is_radix_digit(
                #[trigger] s.drop_last()[i],
                radix,
            ) by {
                assert(s.drop_last()[i] == s[i]);
            }
        }
        lemma_digits_value_nonneg(s.drop_last(), radix);
        let p = digits_value(s.drop_last(), radix);
        assert(is_radix_digit(s[s.len() - 1], radix));
        assert(p * radix >= 0) by (nonlinear_arith)
            requires
                p >= 0,
                radix >= 0,
        ;
    }
}

/// A prefix of a string of digits is worth no more than the whole.
pub proof fn lemma_digits_prefix_le(s: Seq<char>, radix: int, k: int)
    requires
        radix == 10 || radix == 16,
        all_radix_digits(s, radix),
        0 <= k <= s.len(),
    ensures
        digits_value(s.take(k), radix) <= digits_value(s, radix),
    decreases s.len(),
{
    if k < s.len() {
        assert(all_radix_digits(s.drop_last(), radix)) by {
            assert forall|i: int| 0 <= i < s.drop_last().len() implies is_radix_digit(
                #[trigger] s.drop_last()[i],
                radix,
            ) by {
                assert(s.drop_last()[i] == s[i]);
            }
        }
        lemma_digits_prefix_le(s.drop_last(), radix, k);
        assert(s.drop_last().take(k) =~= s.take(k));
        lemma_digits_value_nonneg(s.drop_last(), radix);
        let p = digits_value(s.drop_last(), radix);
        assert(is_radix_digit(s[s.len() - 1], radix));
        assert(p * radix >= p) by (nonlinear_arith)
            requires
                p >= 0,
                radix >= 1,
        ;
    } else {
        assert(s.take(k) =~= s);
    }
}

/// The characters of a string, in order.
pub fn chars_of(s: &str) -> (r: Vec<char>)
    ensures
        r@ == s@,
        r@.len() <= usize::MAX,
{
    let mut r: Vec<char> = Vec::new();
    for c in it: s.chars()
        invariant
            r@ == it.seq().take(it.index() as int),
    {
        r.push(c);
    }
    assert(r@ =~= s@);
    let count: usize = r.len();
    assert(r@.len() == count);
    r
}

/// Relies on `String: FromIterator<&char>`: the string holds the characters in order.
#[verifier::external_body]
pub(crate) fn string_of(v: &[char]) -> (r: String)
    ensures
        r@ == v@,
{
    v.iter().collect()
}

/// The characters of `v` from `lo` up to `hi`.
pub fn slice_of(v: &[char], lo: usize, hi: usize) -> (r: Vec<char>)
    requires
        lo <= hi <= v@.len(),
    ensures
        r@ == v@.subrange(lo as int, hi as int),
{
    let mut r: Vec<char> = Vec::new();
    let mut i: usize = lo;
    while i < hi
        invariant
            lo <= i <= hi <= v@.len(),
            r@ == v@.subrange(lo as int, i as int),
        decreases hi - i,
    {
        r.push(v[i]);
        i = i + 1;
        assert(r@ =~= v@.subrange(lo as int, i as int));
    }
    r
}

/// Whether `c` is a digit of the given radix.
pub fn is_digit_char(c: char, radix: u32) -> (r: bool)
    requires
        radix == 10 || radix == 16,
    ensures
        r == is_radix_digit(c, radix as int),
{
    if radix == 16 {
        ('0' <= c && c <= '9') || ('a' <= c && c <= 'f') || ('A' <= c && c <= 'F')
    } else {
        '0' <= c && c <= '9'
    }
}

/// Whether `c` is white space in Unicode's sense.
pub fn is_white_space_char(c: char) -> (r: bool)
    ensures
        r == is_white_space(c),
{
    c == ' ' || ('\t' <= c && c <= '\r') || c == '\u{85}' || c == '\u{a0}' || c == '\u{1680}'
        || ('\u{2000}' <= c && c <= '\u{200a}') || c == '\u{2028}' || c == '\u{2029}' || c
        == '\u{202f}' || c == '\u{205f}' || c == '\u{3000}'
}

/// The first `c` in `v` at or after `from`.
pub fn find_char(v: &[char], c: char, from: usize) -> (r: Option<usize>)
    ensures
        match r {
            Some(i) => i as int == find_from(v@, c, from as int),
            None => find_from(v@, c, from as int) == -1,
        },
{
    let mut i: usize = from;
    while i < v.len()
        invariant
            from <= i,
            find_from(v@, c, from as int) == find_from(v@, c, i as int),
        decreases v.len() - i,
    {
        if v[i] == c {
            return Some(i);
        }
        i = i + 1;
    }
    None
}

/// Whether `lit` stands in `v` at index `i`.
pub fn matches_at(v: &[char], i: usize, lit: &str) -> (r: bool)
    ensures
        r == has_at(v@, i as int, lit@),
{
    let n = lit.unicode_len();
    if i > v.len() || n > v.len() - i {
        return false;
    }
    let mut j: usize = 0;
    while j < n
        invariant
            n == lit@.len(),
            i + n <= v@.len(),
            j <= n,
            forall|k: int| 0 <= k < j ==> v@[i + k] == lit@[k],
        decreases n - j,
    {
        assert(i + j < v.len());
        if v[i + j] != lit.get_char(j) {
            assert(v@.subrange(i as int, i + n)[j as int] != lit@[j as int]);
            return false;
        }
        j = j + 1;
    }
    assert(v@.subrange(i as int, i + n) =~= lit@);
    true
}

/// The end of the run of radix digits that starts at `i`.
pub fn digit_run_end(v: &[char], i: usize, radix: u32) -> (r: usize)
    requires
        i <= v@.len(),
        radix == 10 || radix == 16,
    ensures
        r as int == run_end(v@, i as int, radix as int),
{
    let mut j: usize = i;
    while j < v.len() && is_digit_char(v[j], radix)
        invariant
            i <= j <= v@.len(),
            radix == 10 || radix == 16,
            run_end(v@, i as int, radix as int) == run_end(v@, j as int, radix as int),
        decreases v.len() - j,
    {
        j = j + 1;
    }
    j
}

/// The value of `d` in the given radix when every character is a digit and the
/// value is at most `cap`.
fn magnitude(d: &[char], radix: u32, cap: u64) -> (r: Option<u64>)
    requires
        radix == 10 || radix == 16,
        cap <= 0x1_0000_0000,
    ensures
        match r {
            Some(m) => all_radix_digits(d@, radix as int) && m as int == digits_value(
                d@,
                radix as int,
            ) && m <= cap,
            None => !(all_radix_digits(d@, radix as int) && digits_value(d@, radix as int)
                <= cap),
        },
{
    let mut acc: u64 = 0;
    let mut i: usize = 0;
    assert(d@.take(0) =~= Seq::<char>::empty());
    while i < d.len()
        invariant
            radix == 10 || radix == 16,
            cap <= 0x1_0000_0000,
            i <= d@.len(),
            all_radix_digits(d@.take(i as int), radix as int),
            acc as int == digits_value(d@.take(i as int), radix as int),
            acc <= cap,
        decreases d.len() - i,
    {
        let c = d[i];
        if !is_digit_char(c, radix) {
            return None;
        }
        let dv: u64 = if '0' <= c && c <= '9' {
            (c as u64) - ('0' as u64)
        } else if 'a' <= c && c <= 'f' {
            (c as u64) - ('a' as u64) + 10
        } else {
            (c as u64) - ('A' as u64) + 10
        };
        assert(d@.take(i + 1).drop_last() =~= d@.take(i as int));
        assert(all_radix_digits(d@.take(i + 1), radix as int)) by {
            assert forall|k: int| 0 <= k < i + 1 implies is_radix_digit(
                #[trigger] d@.take(i + 1)[k],
                radix as int,
            ) by {
                if k < i {
                    assert(d@.take(i + 1)[k] == d@.take(i as int)[k]);
                }
            }
        }
        assert(acc * (radix as u64) <= 0x10_0000_0000) by (nonlinear_arith)
            requires
                acc <= 0x1_0000_0000,
                radix <= 16,
        ;
        acc = acc * (radix as u64) + dv;
        i = i + 1;
        if acc > cap {
            proof {
                if all_radix_digits(d@, radix as int) {
                    lemma_digits_prefix_le(d@, radix as int, i as int);
                }
            }
            return None;
        }
    }
    assert(d@.take(i as int) =~= d@);
    Some(acc)
}

/// Parses a `u32` in the given radix as `u32::from_str_radix` does.
pub fn parse_unsigned(s: &[char], radix: u32) -> (r: Option<u32>)
    requires
        radix == 10 || radix == 16,
    ensures
        r == unsigned_of(s@, radix as int),
{
    let d: Vec<char> = if s.len() > 0 && s[0] == '+' {
        slice_of(s, 1, s.len())
    } else {
        slice_of(s, 0, s.len())
    };
    assert(d@ =~= unsigned_digits(s@));
    if d.len() == 0 {
        return None;
    }
    match magnitude(&d, radix, 0xffff_ffff) {
        Some(m) => Some(m as u32),
        None => None,
    }
}

/// Parses an `i32` in decimal as `i32::from_str` does.
pub fn parse_signed(s: &[char]) -> (r: Option<i32>)
    ensures
        r == signed_of(s@),
{
    let neg = s.len() > 0 && s[0] == '-';
    let d: Vec<char> = if s.len() > 0 && (s[0] == '+' || s[0] == '-') {
        slice_of(s, 1, s.len())
    } else {
        slice_of(s, 0, s.len())
    };
    assert(d@ =~= signed_digits(s@));
    if d.len() == 0 {
        return None;
    }
    let cap: u64 = if neg {
        0x8000_0000
    } else {
        0x7fff_ffff
    };
    match magnitude(&d, 10, cap) {
        Some(m) => {
            assert(m as int == digits_value(d@, 10) && m <= cap);
            if neg {
                Some((0 - (m as i64)) as i32)
            } else {
                Some(m as i32)
            }
        },
        None => None,
    }
}

/// `s` without its leading white space.
pub open spec fn trim_start(s: Seq<char>) -> Seq<char>
    decreases s.len(),
{
    if s.len() > 0 && is_white_space(s[0]) {
        trim_start(s.skip(1))
    } else {
        s
    }
}

/// `s` without its trailing white space.
pub open spec fn trim_end(s: Seq<char>) -> Seq<char>
    decreases s.len(),
{
    if s.len() > 0 && is_white_space(s.last()) {
        trim_end(s.drop_last())
    } else {
        s
    }
}

/// `s` without white space at either end, as `str::trim` gives it.
pub open spec fn trimmed(s: Seq<char>) -> Seq<char> {
    trim_end(trim_start(s))
}

/// `s` without white space at either end.
pub fn trim(v: &[char]) -> (r: Vec<char>)
    ensures
        r@ == trimmed(v@),
{
    let mut lo: usize = 0;
    assert(v@.skip(0) =~= v@);
    while lo < v.len() && is_white_space_char(v[lo])
        invariant
            lo <= v@.len(),
            trim_start(v@) == trim_start(v@.skip(lo as int)),
        decreases v.len() - lo,
    {
        assert(v@.skip(lo as int).skip(1) =~= v@.skip(lo + 1));
        lo = lo + 1;
    }
    let mut hi: usize = v.len();
    assert(v@.skip(lo as int) =~= v@.subrange(lo as int, hi as int));
    while hi > lo && is_white_space_char(v[hi - 1])
        invariant
            lo <= hi <= v@.len(),
            trimmed(v@) == trim_end(v@.subrange(lo as int, hi as int)),
        decreases hi,
    {
        assert(v@.subrange(lo as int, hi as int).drop_last() =~= v@.subrange(
            lo as int,
            hi - 1,
        ));
        hi = hi - 1;
    }
    slice_of(v, lo, hi)
}

/// The lower-case hexadecimal digit of value `d`.
pub open spec fn hex_char(d: int) -> char {
    if d < 10 {
        (d + 48) as char
    } else {
        (d + 87) as char
    }
}

pub open spec fn pow16(n: nat) -> nat
    decreases n,
{
    if n == 0 {
        1
    } else {
        16 * pow16((n - 1) as nat)
    }
}

proof fn lemma_pow16_pos(n: nat)
    ensures
        pow16(n) >= 1,
    decreases n,
{
    if n > 0 {
        lemma_pow16_pos((n - 1) as nat);
    }
}

/// `x` as eight lower-case hexadecimal digits, most significant first.
pub open spec fn hex8(x: u32) -> Seq<char> {
    Seq::new(8, |k: int| hex_char(((x as nat) / pow16((7 - k) as nat)) as int % 16))
}

/// `x` as eight lower-case hexadecimal digits, most significant first.
pub fn hex8_chars(x: u32) -> (r: Vec<char>)
    ensures
        r@ == hex8(x),
{
    let mut out: Vec<char> = Vec::new();
    let mut div: u32 = 0x1000_0000;
    assert(pow16(7) == 0x1000_0000) by {
        reveal_with_fuel(pow16, 8);
    }
    let mut k: usize = 0;
    while k < 8
        invariant
            k <= 8,
            k < 8 ==> div as nat == pow16((7 - k) as nat),
            k < 8 ==> div >= 1,
            out@.len() == k,
            forall|j: int| 0 <= j < k ==> out@[j] == hex8(x)[j],
        decreases 8 - k,
    {
        let d: u32 = (x / div) % 16;
        let c: char = if d < 10 {
            ((d as u8) + 48) as char
        } else {
            ((d as u8) + 87) as char
        };
        out.push(c);
        proof {
            if k < 7 {
                let p = pow16((6 - k) as nat);
                assert(pow16((7 - k) as nat) == 16 * p);
                assert((16 * p) / 16 == p) by (nonlinear_arith);
                lemma_pow16_pos((6 - k) as nat);
            }
        }
        div = div / 16;
        k = k + 1;
    }
    assert(out@ =~= hex8(x));
    out
}

/// Whether `v` is exactly `lit`.
pub fn equals_text(v: &[char], lit: &str) -> (r: bool)
    ensures
        r == (v@ == lit@),
{
    let n = lit.unicode_len();
    if v.len() != n {
        return false;
    }
    let m = matches_at(v, 0, lit);
    assert(v@.subrange(0, n as int) =~= v@);
    m
}

/// Whether `c` occurs in `v` between `lo` and `hi`.
pub fn contains_in(v: &[char], c: char, lo: usize, hi: usize) -> (r: bool)
    requires
        lo <= hi <= v@.len(),
    ensures
        r == v@.subrange(lo as int, hi as int).contains(c),
{
    let mut i: usize = lo;
    while i < hi
        invariant
            lo <= i <= hi <= v@.len(),
            forall|j: int| lo <= j < i ==> v@[j] != c,
        decreases hi - i,
    {
        if v[i] == c {
            assert(v@.subrange(lo as int, hi as int)[i - lo] == c);
            return true;
        }
        i = i + 1;
    }
    assert forall|j: int| 0 <= j < hi - lo implies v@.subrange(lo as int, hi as int)[j] != c by {
        assert(v@.subrange(lo as int, hi as int)[j] == v@[lo + j]);
    }
    false
}

/// The number written by the run of hexadecimal digits at `i`, and the end of
/// that run; none when the run is empty or its value does not fit in `u32`.
pub open spec fn hex_at(s: Seq<char>, i: int) -> Option<(u32, int)> {
    let e = run_end(s, i, 16);
    if e > i && digits_value(s.subrange(i, e), 16) <= u32::MAX {
        Some((digits_value(s.subrange(i, e), 16) as u32, e))
    } else {
        None
    }
}

/// The number written by the run of hexadecimal digits at `i`, and its end.
pub fn hex_run(v: &[char], i: usize) -> (r: Option<(u32, usize)>)
    requires
        i <= v@.len(),
    ensures
        match r {
            Some((x, e)) => hex_at(v@, i as int) == Some((x, e as int)),
            None => hex_at(v@, i as int) is None,
        },
{
    let e = digit_run_end(v, i, 16);
    proof {
        lemma_run_end(v@, i as int, 16);
    }
    if e == i {
        return None;
    }
    let d = slice_of(v, i, e);
    assert(all_radix_digits(d@, 16)) by {
        assert forall|k: int| 0 <= k < d@.len() implies is_radix_digit(#[trigger] d@[k], 16) by {
            assert(d@[k] == v@[i + k]);
        }
    }
    assert(is_hex_digit(d@[0]));
    assert(unsigned_digits(d@) == d@);
    match parse_unsigned(&d, 16) {
        Some(x) => Some((x, e)),
        None => None,
    }
}

} // verus!
