use vstd::prelude::*;

use crate::error::ParseIntError;

verus! {

broadcast use vstd::string::group_string_axioms;

/// `c` is an ASCII decimal digit.
pub open spec fn is_digit(c: char) -> bool {
    '0' <= c && c <= '9'
}

/// The value of the decimal digit `c`.
pub open spec fn digit_val(c: char) -> nat {
    ((c as int) - ('0' as int)) as nat
}

/// Every character of `s` is a decimal digit.
pub open spec fn all_digits(s: Seq<char>) -> bool {
    forall|i: int| 0 <= i < s.len() ==> #[trigger] is_digit(s[i])
}

/// The value of the decimal numeral `s` (most significant digit first).
pub open spec fn dec_value(s: Seq<char>) -> nat
    decreases s.len(),
{
    if s.len() == 0 {
        0
    } else {
        dec_value(s.drop_last()) * 10 + digit_val(s.last())
    }
}

/// Reads digits of `s` from index `i` on, left to right, starting from the value `acc`,
/// failing on the first character that is not a digit or the first prefix whose value
/// exceeds `max`.
pub open spec fn scan_digits(s: Seq<char>, i: int, acc: nat, max: nat) -> Result<nat, ParseIntError>
    decreases s.len() - i,
{
    if i >= s.len() {
        Ok(acc)
    } else if !is_digit(s[i]) {
        Err(ParseIntError::InvalidDigit)
    } else if acc * 10 + digit_val(s[i]) > max {
        Err(ParseIntError::PosOverflow)
    } else {
        scan_digits(s, i + 1, acc * 10 + digit_val(s[i]), max)
    }
}

/// Reading an unsigned decimal integer no larger than `max`, as the standard
/// library does: an optional leading `+`, then one or more digits.
pub open spec fn spec_parse_uint(s: Seq<char>, max: nat) -> Result<nat, ParseIntError> {
    if s.len() == 0 {
        Err(ParseIntError::Empty)
    } else if s.len() == 1 && (s[0] == '+' || s[0] == '-') {
        Err(ParseIntError::InvalidDigit)
    } else if s[0] == '+' {
        scan_digits(s, 1, 0, max)
    } else {
        scan_digits(s, 0, 0, max)
    }
}

/// Reads digits of `s` from index `i` on as the magnitude of a negative number
/// no smaller than `-max`.
pub open spec fn scan_neg_digits(s: Seq<char>, i: int, acc: nat, max: nat) -> Result<nat, ParseIntError>
    decreases s.len() - i,
{
    if i >= s.len() {
        Ok(acc)
    } else if !is_digit(s[i]) {
        Err(ParseIntError::InvalidDigit)
    } else if acc * 10 + digit_val(s[i]) > max {
        Err(ParseIntError::NegOverflow)
    } else {
        scan_neg_digits(s, i + 1, acc * 10 + digit_val(s[i]), max)
    }
}

/// Reading an `i32` in decimal, as the standard library does: an optional sign,
/// then one or more digits.
pub open spec fn spec_parse_i32(s: Seq<char>) -> Result<int, ParseIntError> {
    if s.len() == 0 {
        Err(ParseIntError::Empty)
    } else if s.len() == 1 && (s[0] == '+' || s[0] == '-') {
        Err(ParseIntError::InvalidDigit)
    } else if s[0] == '-' {
        match scan_neg_digits(s, 1, 0, 0x8000_0000) {
            Ok(m) => Ok(-(m as int)),
            Err(e) => Err(e),
        }
    } else {
        match spec_parse_uint(s, 0x7fff_ffff) {
            Ok(m) => Ok(m as int),
            Err(e) => Err(e),
        }
    }
}

/// The result of an unsigned read, with the value widened to `nat`.
pub open spec fn nat_result(r: Result<u64, ParseIntError>) -> Result<nat, ParseIntError> {
    match r {
        Ok(x) => Ok(x as nat),
        Err(e) => Err(e),
    }
}

/// Collects the characters of `s` into a vector.
pub fn chars_of(s: &str) -> (v: Vec<char>)
    ensures
        v@ == s@,
{
    let mut v: Vec<char> = Vec::new();
    for c in it: s.chars()
        invariant
            v@ == it.history(),
            it.seq() == s@,
    {
        v.push(c);
    }
    v
}

/// Whether `c` is an ASCII decimal digit.
pub fn is_digit_char(c: char) -> (b: bool)
    ensures
        b == is_digit(c),
{
    '0' <= c && c <= '9'
}

/// The value of the ASCII decimal digit `c`.
pub fn digit_value(c: char) -> (d: u8)
    requires
        is_digit(c),
    ensures
        d == digit_val(c),
        d <= 9,
{
    ((c as u32) - ('0' as u32)) as u8
}

/// Reads the digits of `v[i..hi]`, as `scan_digits` says, into a `u64` no larger than `max`.
fn scan_uint(v: &Vec<char>, lo: usize, start: usize, hi: usize, max: u64) -> (r: Result<u64, ParseIntError>)
    requires
        lo <= start <= hi <= v.len(),
    ensures
        nat_result(r) == scan_digits(v@.subrange(lo as int, hi as int), start - lo, 0, max as nat),
{
    let ghost s = v@.subrange(lo as int, hi as int);
    let mut i = start;
    let mut acc: u64 = 0;
    while i < hi
        invariant
            lo <= start <= i <= hi <= v.len(),
            s == v@.subrange(lo as int, hi as int),
            acc <= max,
            scan_digits(s, start - lo, 0, max as nat) == scan_digits(s, i - lo, acc as nat, max as nat),
        decreases hi - i,
    {
        let c = v[i];
        assert(s[i - lo] == c);
        if !is_digit_char(c) {
            return Err(ParseIntError::InvalidDigit);
        }
        let d = digit_value(c);
        let next: u128 = (acc as u128) * 10 + (d as u128);
        if next > max as u128 {
            return Err(ParseIntError::PosOverflow);
        }
        acc = next as u64;
        i = i + 1;
    }
    Ok(acc)
}

/// Reads `v[lo..hi]` as an unsigned decimal integer no larger than `max`.
pub fn parse_uint(v: &Vec<char>, lo: usize, hi: usize, max: u64) -> (r: Result<u64, ParseIntError>)
    requires
        lo <= hi <= v.len(),
    ensures
        nat_result(r) == spec_parse_uint(v@.subrange(lo as int, hi as int), max as nat),
        r matches Ok(x) ==> x <= max,
{
    let ghost s = v@.subrange(lo as int, hi as int);
    if lo == hi {
        return Err(ParseIntError::Empty);
    }
    let c = v[lo];
    assert(s[0] == c);
    if hi - lo == 1 && (c == '+' || c == '-') {
        return Err(ParseIntError::InvalidDigit);
    }
    let r = if c == '+' {
        scan_uint(v, lo, lo + 1, hi, max)
    } else {
        scan_uint(v, lo, lo, hi, max)
    };
    proof {
        if let Ok(x) = r {
            lemma_scan_bound(s, (if c == '+' { 1int } else { 0int }), 0, max as nat);
        }
    }
    r
}

/// Reads the digits of `v[start..hi]` as the magnitude of a negative number, as
/// `scan_neg_digits` says.
fn scan_neg(v: &Vec<char>, lo: usize, start: usize, hi: usize) -> (r: Result<u32, ParseIntError>)
    requires
        lo <= start <= hi <= v.len(),
    ensures
        match r {
            Ok(x) => scan_neg_digits(v@.subrange(lo as int, hi as int), start - lo, 0, 0x8000_0000)
                == Ok::<nat, ParseIntError>(x as nat),
            Err(e) => scan_neg_digits(v@.subrange(lo as int, hi as int), start - lo, 0, 0x8000_0000)
                == Err::<nat, ParseIntError>(e),
        },
        r matches Ok(x) ==> x <= 0x8000_0000,
{
    let ghost s = v@.subrange(lo as int, hi as int);
    let mut i = start;
    let mut acc: u32 = 0;
    while i < hi
        invariant
            lo <= start <= i <= hi <= v.len(),
            s == v@.subrange(lo as int, hi as int),
            acc <= 0x8000_0000,
            scan_neg_digits(s, start - lo, 0, 0x8000_0000) == scan_neg_digits(s, i - lo, acc as nat, 0x8000_0000),
        decreases hi - i,
    {
        let c = v[i];
        assert(s[i - lo] == c);
        if !is_digit_char(c) {
            return Err(ParseIntError::InvalidDigit);
        }
        let d = digit_value(c);
        let next: u64 = (acc as u64) * 10 + (d as u64);
        if next > 0x8000_0000 {
            return Err(ParseIntError::NegOverflow);
        }
        acc = next as u32;
        i = i + 1;
    }
    Ok(acc)
}

/// Reads `v[lo..hi]` as an `i32` in decimal, as the standard library does.
pub fn parse_i32(v: &Vec<char>, lo: usize, hi: usize) -> (r: Result<i32, ParseIntError>)
    requires
        lo <= hi <= v.len(),
    ensures
        match r {
            Ok(x) => spec_parse_i32(v@.subrange(lo as int, hi as int)) == Ok::<int, ParseIntError>(x as int),
            Err(e) => spec_parse_i32(v@.subrange(lo as int, hi as int)) == Err::<int, ParseIntError>(e),
        },
{
    let ghost s = v@.subrange(lo as int, hi as int);
    if lo == hi {
        return Err(ParseIntError::Empty);
    }
    let c = v[lo];
    assert(s[0] == c);
    if hi - lo == 1 && (c == '+' || c == '-') {
        return Err(ParseIntError::InvalidDigit);
    }
    if c == '-' {
        match scan_neg(v, lo, lo + 1, hi) {
            Ok(m) => {
                let x: i64 = 0 - (m as i64);
                Ok(x as i32)
            },
            Err(e) => Err(e),
        }
    } else {
        match parse_uint(v, lo, hi, 0x7fff_ffff) {
            Ok(m) => Ok(m as i32),
            Err(e) => Err(e),
        }
    }
}

/// A successful scan never exceeds its bound.
proof fn lemma_scan_bound(s: Seq<char>, i: int, acc: nat, max: nat)
    requires
        acc <= max,
    ensures
        scan_digits(s, i, acc, max) matches Ok(x) ==> x <= max,
    decreases s.len() - i,
{
    if i < s.len() && is_digit(s[i]) && acc * 10 + digit_val(s[i]) <= max {
        lemma_scan_bound(s, i + 1, acc * 10 + digit_val(s[i]), max);
    }
}

} // verus!

verus! {

/// The character of the decimal digit `d`.
pub open spec fn spec_digit_char(d: nat) -> char {
    if d == 0 {
        '0'
    } else if d == 1 {
        '1'
    } else if d == 2 {
        '2'
    } else if d == 3 {
        '3'
    } else if d == 4 {
        '4'
    } else if d == 5 {
        '5'
    } else if d == 6 {
        '6'
    } else if d == 7 {
        '7'
    } else if d == 8 {
        '8'
    } else {
        '9'
    }
}

/// The decimal numeral of `n`, without leading zeros (`"0"` for zero).
pub open spec fn dec_digits(n: nat) -> Seq<char>
    decreases n,
{
    if n < 10 {
        seq![spec_digit_char(n)]
    } else {
        dec_digits(n / 10).push(spec_digit_char(n % 10))
    }
}

/// `k` copies of the character `'0'`.
pub open spec fn zeros(k: nat) -> Seq<char> {
    Seq::new(k, |_i: int| '0')
}

/// The decimal numeral of `n`, padded on the left with zeros to at least `width` characters.
pub open spec fn padded(n: nat, width: nat) -> Seq<char> {
    let d = dec_digits(n);
    if d.len() < width {
        zeros((width - d.len()) as nat) + d
    } else {
        d
    }
}

/// The digit character of a digit value is a digit of that value.
pub proof fn lemma_digit_char(d: nat)
    requires
        d <= 9,
    ensures
        is_digit(spec_digit_char(d)),
        digit_val(spec_digit_char(d)) == d,
{
}

/// The numeral of `n` is made of digits, has as many as `spec_digits` says, and has value `n`.
pub proof fn lemma_dec_digits(n: nat)
    ensures
        all_digits(dec_digits(n)),
        dec_value(dec_digits(n)) == n,
        dec_digits(n).len() == crate::utils::spec_digits(n),
        dec_digits(n).len() >= 1,
        n >= 10 ==> dec_digits(n)[0] != '0',
    decreases n,
{
    if n < 10 {
        lemma_digit_char(n);
        let d = dec_digits(n);
        assert(d.drop_last() =~= Seq::<char>::empty());
        assert(dec_value(d.drop_last()) == 0);
        assert(dec_value(d) == dec_value(d.drop_last()) * 10 + digit_val(d.last()));
    } else {
        lemma_dec_digits(n / 10);
        lemma_digit_char(n % 10);
        let d = dec_digits(n);
        assert(d.drop_last() =~= dec_digits(n / 10));
        assert(d.last() == spec_digit_char(n % 10));
        assert(n == (n / 10) * 10 + n % 10);
        assert forall|i: int| 0 <= i < d.len() implies #[trigger] is_digit(d[i]) by {
            if i < d.len() - 1 {
                assert(d[i] == dec_digits(n / 10)[i]);
            }
        }
    }
}

/// Leading zeros do not change the value of a numeral.
pub proof fn lemma_zeros_value(k: nat, d: Seq<char>)
    ensures
        dec_value(zeros(k) + d) == dec_value(zeros(k)) * pow_ten(d.len()) + dec_value(d),
        dec_value(zeros(k)) == 0,
        all_digits(zeros(k)),
    decreases d.len() + k,
{
    if d.len() == 0 {
        assert(zeros(k) + d =~= zeros(k));
        if k > 0 {
            assert(zeros(k).drop_last() =~= zeros((k - 1) as nat));
            lemma_zeros_value((k - 1) as nat, d);
        }
    } else {
        assert((zeros(k) + d).drop_last() =~= zeros(k) + d.drop_last());
        lemma_zeros_value(k, d.drop_last());
    }
}

/// `10^k`, as used by `lemma_zeros_value`.
pub open spec fn pow_ten(k: nat) -> nat {
    crate::utils::pow10(k)
}

/// A padded numeral is made of digits and has value `n`.
pub proof fn lemma_padded(n: nat, width: nat)
    ensures
        all_digits(padded(n, width)),
        dec_value(padded(n, width)) == n,
        padded(n, width).len() == if crate::utils::spec_digits(n) < width {
            width
        } else {
            crate::utils::spec_digits(n)
        },
{
    lemma_dec_digits(n);
    let d = dec_digits(n);
    if d.len() < width {
        let k = (width - d.len()) as nat;
        lemma_zeros_value(k, d);
        assert forall|i: int| 0 <= i < padded(n, width).len() implies #[trigger] is_digit(
            padded(n, width)[i],
        ) by {
            if i < k {
                assert(padded(n, width)[i] == '0');
            } else {
                assert(padded(n, width)[i] == d[i - k]);
            }
        }
    }
}

/// The character of the decimal digit `d`.
pub fn digit_char(d: u8) -> (c: char)
    requires
        d <= 9,
    ensures
        c == spec_digit_char(d as nat),
{
    match d {
        0 => '0',
        1 => '1',
        2 => '2',
        3 => '3',
        4 => '4',
        5 => '5',
        6 => '6',
        7 => '7',
        8 => '8',
        _ => '9',
    }
}

/// Appends the decimal numeral of `n` to `out`.
pub fn push_decimal(out: &mut Vec<char>, n: u64)
    ensures
        final(out)@ == old(out)@ + dec_digits(n as nat),
    decreases n,
{
    if n >= 10 {
        push_decimal(out, n / 10);
    }
    let c = digit_char((n % 10) as u8);
    out.push(c);
    proof {
        if n >= 10 {
            assert(dec_digits(n as nat) == dec_digits((n / 10) as nat).push(spec_digit_char((n % 10) as nat)));
        }
    }
}

/// Appends the decimal numeral of `n`, padded with zeros to at least `width` characters.
pub fn push_padded(out: &mut Vec<char>, n: u64, width: usize)
    requires
        width <= 20,
    ensures
        final(out)@ == old(out)@ + padded(n as nat, width as nat),
{
    let digits = crate::utils::u64_digits(n);
    proof {
        lemma_dec_digits(n as nat);
    }
    let ghost start = out@;
    if digits < width {
        let mut k: usize = 0;
        while k < width - digits
            invariant
                k <= width - digits,
                digits < width,
                out@ == start + zeros(k as nat),
            decreases width - digits - k,
        {
            out.push('0');
            k = k + 1;
            assert(out@ =~= start + zeros(k as nat));
        }
    }
    let ghost mid = out@;
    push_decimal(out, n);
    assert(out@ =~= start + padded(n as nat, width as nat));
}

/// Appends the characters of `s` to `out`.
pub fn push_str(out: &mut Vec<char>, s: &str)
    ensures
        final(out)@ == old(out)@ + s@,
{
    let ghost start = out@;
    for c in it: s.chars()
        invariant
            out@ == start + it.history(),
            it.seq() == s@,
    {
        out.push(c);
    }
}

/// Calls `String::push`, which appends `c` to the end of `s`.
#[verifier::external_body]
fn string_push(s: &mut String, c: char)
    ensures
        final(s)@ == old(s)@.push(c),
{
    s.push(c);
}

/// Builds a `String` holding the characters of `v`.
pub fn string_from_chars(v: &Vec<char>) -> (s: String)
    ensures
        s@ == v@,
{
    let mut s = String::new();
    let mut i: usize = 0;
    while i < v.len()
        invariant
            i <= v.len(),
            s@ == v@.subrange(0, i as int),
        decreases v.len() - i,
    {
        string_push(&mut s, v[i]);
        i = i + 1;
    }
    assert(v@.subrange(0, v@.len() as int) =~= v@);
    s
}

} // verus!

verus! {

/// The first index `j` in `i..hi` such that `s[j]` is not a digit, or `hi`.
pub open spec fn digit_run_end(s: Seq<char>, i: int, hi: int) -> int
    decreases hi - i,
{
    if i >= hi || !is_digit(s[i]) {
        i
    } else {
        digit_run_end(s, i + 1, hi)
    }
}

/// The first index in `i..hi` that does not hold a byte order mark, or `hi`.
pub open spec fn skip_bom(s: Seq<char>, i: int, hi: int) -> int
    decreases hi - i,
{
    if i < hi && s[i] == '\u{feff}' {
        skip_bom(s, i + 1, hi)
    } else {
        i
    }
}

/// The first index in `i..` holding `c`, or the length of `s`.
pub open spec fn find_char(s: Seq<char>, i: int, c: char) -> int
    decreases s.len() - i,
{
    if i >= s.len() || s[i] == c {
        i
    } else {
        find_char(s, i + 1, c)
    }
}

/// Bounds of the run of digits starting at `i`.
pub proof fn lemma_digit_run_end(s: Seq<char>, i: int, hi: int)
    requires
        i <= hi,
    ensures
        i <= digit_run_end(s, i, hi) <= hi,
        forall|k: int| i <= k < digit_run_end(s, i, hi) ==> is_digit(#[trigger] s[k]),
        digit_run_end(s, i, hi) < hi ==> !is_digit(s[digit_run_end(s, i, hi)]),
    decreases hi - i,
{
    if i < hi && is_digit(s[i]) {
        lemma_digit_run_end(s, i + 1, hi);
    }
}

/// Returns the end of the run of digits of `v` starting at `i`, stopping at `hi`.
pub fn digit_run(v: &Vec<char>, i: usize, hi: usize) -> (j: usize)
    requires
        i <= hi <= v.len(),
    ensures
        j == digit_run_end(v@, i as int, hi as int),
        i <= j <= hi,
{
    let mut j = i;
    while j < hi && is_digit_char(v[j])
        invariant
            i <= j <= hi <= v.len(),
            digit_run_end(v@, i as int, hi as int) == digit_run_end(v@, j as int, hi as int),
        decreases hi - j,
    {
        j = j + 1;
    }
    j
}

/// Returns the first index of `v[i..hi]` that is not a byte order mark, or `hi`.
pub fn skip_boms(v: &Vec<char>, i: usize, hi: usize) -> (j: usize)
    requires
        i <= hi <= v.len(),
    ensures
        j == skip_bom(v@, i as int, hi as int),
        i <= j <= hi,
{
    let mut j = i;
    while j < hi && v[j] == '\u{feff}'
        invariant
            i <= j <= hi <= v.len(),
            skip_bom(v@, i as int, hi as int) == skip_bom(v@, j as int, hi as int),
        decreases hi - j,
    {
        j = j + 1;
    }
    j
}

/// Returns the first index at or after `i` where `v` holds `c`, or the length of `v`.
pub fn find(v: &Vec<char>, i: usize, c: char) -> (j: usize)
    requires
        i <= v.len(),
    ensures
        j == find_char(v@, i as int, c),
        i <= j <= v.len(),
{
    let mut j = i;
    while j < v.len() && v[j] != c
        invariant
            i <= j <= v.len(),
            find_char(v@, i as int, c) == find_char(v@, j as int, c),
        decreases v.len() - j,
    {
        j = j + 1;
    }
    j
}

/// Bounds of `find_char`.
pub proof fn lemma_find_char(s: Seq<char>, i: int, c: char)
    requires
        0 <= i <= s.len(),
    ensures
        i <= find_char(s, i, c) <= s.len(),
        find_char(s, i, c) < s.len() ==> s[find_char(s, i, c)] == c,
        forall|k: int| i <= k < find_char(s, i, c) ==> #[trigger] s[k] != c,
    decreases s.len() - i,
{
    if i < s.len() && s[i] != c {
        lemma_find_char(s, i + 1, c);
    }
}

/// Bounds of `skip_bom`.
pub proof fn lemma_skip_bom(s: Seq<char>, i: int, hi: int)
    requires
        i <= hi,
    ensures
        i <= skip_bom(s, i, hi) <= hi,
    decreases hi - i,
{
    if i < hi && s[i] == '\u{feff}' {
        lemma_skip_bom(s, i + 1, hi);
    }
}

} // verus!

verus! {

/// The value of a numeral is at least the value of any of its prefixes.
pub proof fn lemma_dec_value_prefix(s: Seq<char>, i: int)
    requires
        0 <= i <= s.len(),
    ensures
        dec_value(s.take(i)) <= dec_value(s),
    decreases s.len() - i,
{
    if i < s.len() {
        assert(s.drop_last().take(i) =~= s.take(i));
        lemma_dec_value_prefix(s.drop_last(), i);
    } else {
        assert(s.take(i) =~= s);
    }
}

/// Scanning an all-digit numeral whose value fits gives its value.
pub proof fn lemma_scan_digits_value(s: Seq<char>, i: int, max: nat)
    requires
        0 <= i <= s.len(),
        all_digits(s),
        dec_value(s) <= max,
    ensures
        scan_digits(s, i, dec_value(s.take(i)), max) == Ok::<nat, ParseIntError>(dec_value(s)),
    decreases s.len() - i,
{
    if i < s.len() {
        assert(s.take(i + 1).drop_last() =~= s.take(i));
        assert(s.take(i + 1).last() == s[i]);
        assert(is_digit(s[i]));
        lemma_dec_value_prefix(s, i + 1);
        lemma_scan_digits_value(s, i + 1, max);
    } else {
        assert(s.take(i) =~= s);
    }
}

/// Reading an unsigned numeral that is all digits gives its value, when it fits.
pub proof fn lemma_parse_uint_digits(s: Seq<char>, max: nat)
    requires
        s.len() >= 1,
        all_digits(s),
        dec_value(s) <= max,
    ensures
        spec_parse_uint(s, max) == Ok::<nat, ParseIntError>(dec_value(s)),
{
    assert(is_digit(s[0]));
    assert(s.take(0) =~= Seq::<char>::empty());
    lemma_scan_digits_value(s, 0, max);
}

/// Where a run of digits is followed by a non-digit, the run ends there.
pub proof fn lemma_digit_run_exact(s: Seq<char>, i: int, j: int, hi: int)
    requires
        i <= j <= hi,
        forall|k: int| i <= k < j ==> is_digit(#[trigger] s[k]),
        j < hi ==> !is_digit(s[j]),
    ensures
        digit_run_end(s, i, hi) == j,
    decreases j - i,
{
    if i < j {
        lemma_digit_run_exact(s, i + 1, j, hi);
    }
}

} // verus!

verus! {

/// Where no `c` comes before index `j`, and `s[j]` is `c` (or `j` is the end), `j` is
/// where `c` is found.
pub proof fn lemma_find_char_exact(s: Seq<char>, i: int, j: int, c: char)
    requires
        0 <= i <= j <= s.len(),
        forall|k: int| i <= k < j ==> #[trigger] s[k] != c,
        j < s.len() ==> s[j] == c,
    ensures
        find_char(s, i, c) == j,
    decreases j - i,
{
    if i < j {
        lemma_find_char_exact(s, i + 1, j, c);
    }
}

/// Skipping byte order marks in a stretch of `s` is skipping them in that stretch alone.
pub proof fn lemma_skip_bom_shift(s: Seq<char>, t: Seq<char>, off: int, i: int)
    requires
        0 <= off,
        off + t.len() <= s.len(),
        0 <= i <= t.len(),
        s.subrange(off, off + t.len()) == t,
    ensures
        skip_bom(s, off + i, off + t.len()) == off + skip_bom(t, i, t.len() as int),
    decreases t.len() - i,
{
    if i < t.len() {
        assert(s[off + i] == t[i]) by {
            assert(s.subrange(off, off + t.len())[i] == s[off + i]);
        }
        if t[i] == '\u{feff}' {
            lemma_skip_bom_shift(s, t, off, i + 1);
        }
    }
}

/// Minutes and seconds below 60 take two padded digits, milliseconds below 1000 take three.
pub proof fn lemma_small_widths(m: nat, s: nat, ms: nat)
    requires
        m <= 59,
        s <= 59,
        ms <= 999,
    ensures
        padded(m, 2).len() == 2,
        padded(s, 2).len() == 2,
        padded(ms, 3).len() == 3,
{
    reveal_with_fuel(crate::utils::pow10, 4);
    assert(crate::utils::pow10(2) == 100 && crate::utils::pow10(3) == 1000);
    crate::text::lemma_padded(m, 2);
    crate::text::lemma_padded(s, 2);
    crate::text::lemma_padded(ms, 3);
    crate::utils::lemma_digits_bound(m, 2);
    crate::utils::lemma_digits_bound(s, 2);
    crate::utils::lemma_digits_bound(ms, 3);
}

} // verus!
