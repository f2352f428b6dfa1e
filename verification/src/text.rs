//! Character-level helpers shared by the amount and date grammars.

use vstd::prelude::*;

verus! {

pub open spec fn is_digit_char(c: char) -> bool {
    '0' <= c && c <= '9'
}

/// The numeric value of a decimal digit character.
pub open spec fn digit_val(c: char) -> int {
    c as int - '0' as int
}

pub open spec fn all_digit_chars(s: Seq<char>) -> bool {
    forall|i: int| 0 <= i < s.len() ==> is_digit_char(#[trigger] s[i])
}

/// The number a digit string denotes, most significant digit first.
pub open spec fn digits_val(s: Seq<char>) -> int
    decreases s.len(),
{
    if s.len() == 0 {
        0
    } else {
        digits_val(s.drop_last()) * 10 + digit_val(s.last())
    }
}

pub open spec fn pow10(k: nat) -> int
    decreases k,
{
    if k == 0 {
        1
    } else {
        10 * pow10((k - 1) as nat)
    }
}

pub proof fn lemma_pow10_pos(k: nat)
    ensures
        pow10(k) >= 1,
    decreases k,
{
    if k > 0 {
        lemma_pow10_pos((k - 1) as nat);
    }
}

pub proof fn lemma_digits_val_bounds(s: Seq<char>)
    requires
        all_digit_chars(s),
    ensures
        0 <= digits_val(s) < pow10(s.len() as nat),
    decreases s.len(),
{
    if s.len() > 0 {
        assert(all_digit_chars(s.drop_last()));
        lemma_digits_val_bounds(s.drop_last());
        lemma_pow10_pos((s.len() - 1) as nat);
        assert(is_digit_char(s.last()));
    }
}

pub proof fn lemma_digits_val_push(s: Seq<char>, c: char)
    ensures
        digits_val(s.push(c)) == digits_val(s) * 10 + digit_val(c),
{
    assert(s.push(c).drop_last() =~= s);
}

pub proof fn lemma_subrange_push(s: Seq<char>, a: int, i: int)
    requires
        0 <= a <= i < s.len(),
    ensures
        s.subrange(a, i + 1) == s.subrange(a, i).push(s[i]),
{
    assert(s.subrange(a, i + 1) =~= s.subrange(a, i).push(s[i]));
}

pub proof fn lemma_pow10_concrete()
    ensures
        pow10(0) == 1,
        pow10(1) == 10,
        pow10(2) == 100,
        pow10(3) == 1000,
        pow10(4) == 10000,
        pow10(5) == 100000,
        pow10(6) == 1000000,
        pow10(7) == 10000000,
        pow10(8) == 100000000,
{
    assert(pow10(0) == 1);
    assert(pow10(1) == 10);
    assert(pow10(2) == 100);
    assert(pow10(3) == 1000);
    assert(pow10(4) == 10000);
    assert(pow10(5) == 100000);
    assert(pow10(6) == 1000000);
    assert(pow10(7) == 10000000);
    assert(pow10(8) == 100000000);
}

pub proof fn lemma_pow10_mono(a: nat, c: nat)
    requires
        a <= c,
    ensures
        pow10(a) <= pow10(c),
    decreases c,
{
    if a < c {
        lemma_pow10_mono(a, (c - 1) as nat);
        lemma_pow10_pos((c - 1) as nat);
    }
}

pub open spec fn is_space_char(c: char) -> bool {
    c == ' ' || c == '\t' || c == '\n' || c == '\r'
}

/// `s` without its leading run of spaces.
pub open spec fn trim_front(s: Seq<char>) -> Seq<char>
    decreases s.len(),
{
    if s.len() > 0 && is_space_char(s[0]) {
        trim_front(s.subrange(1, s.len() as int))
    } else {
        s
    }
}

/// `s` without its trailing run of spaces.
pub open spec fn trim_back(s: Seq<char>) -> Seq<char>
    decreases s.len(),
{
    if s.len() > 0 && is_space_char(s.last()) {
        trim_back(s.drop_last())
    } else {
        s
    }
}

/// `s` without leading and trailing spaces.
pub open spec fn trimmed(s: Seq<char>) -> Seq<char> {
    trim_back(trim_front(s))
}

proof fn lemma_trim_front_at(s: Seq<char>, k: int)
    requires
        0 <= k <= s.len(),
        forall|j: int| 0 <= j < k ==> is_space_char(#[trigger] s[j]),
        k < s.len() ==> !is_space_char(s[k]),
    ensures
        trim_front(s) == s.subrange(k, s.len() as int),
    decreases k,
{
    if k == 0 {
        assert(s.subrange(0, s.len() as int) =~= s);
    } else {
        let s1 = s.subrange(1, s.len() as int);
        assert(forall|j: int| 0 <= j < k - 1 ==> is_space_char(#[trigger] s1[j]));
        lemma_trim_front_at(s1, k - 1);
        assert(s1.subrange(k - 1, s1.len() as int) =~= s.subrange(k, s.len() as int));
    }
}

proof fn lemma_trim_back_at(s: Seq<char>, k: int)
    requires
        0 <= k <= s.len(),
        forall|j: int| k <= j < s.len() ==> is_space_char(#[trigger] s[j]),
        k > 0 ==> !is_space_char(s[k - 1]),
    ensures
        trim_back(s) == s.subrange(0, k),
    decreases s.len() - k,
{
    if k == s.len() {
        if k == 0 {
            assert(s.subrange(0, 0) =~= s);
        } else {
            assert(s.subrange(0, k) =~= s);
        }
    } else {
        let s1 = s.drop_last();
        assert(s1 =~= s.subrange(0, s.len() - 1));
        lemma_trim_back_at(s1, k);
        assert(s1.subrange(0, k) =~= s.subrange(0, k));
    }
}

/// Relies on String's FromIterator over characters: the collected string
/// holds exactly the characters of the vector, in order.
#[verifier::external_body]
pub fn chars_to_string(v: &Vec<char>) -> (r: String)
    ensures
        r@ == v@,
{
    v.iter().collect()
}

/// The character of a single decimal digit.
pub open spec fn digit_char(d: int) -> char {
    if d == 0 {
        '0'
    } else if d == 1 {
        '1'
    } else if d == 2 {
        '2'
    } else if d == 3 {
        '3'
    } else if d == 4 {
        '4'
    } else if d == 5 {
        '5'
    } else if d == 6 {
        '6'
    } else if d == 7 {
        '7'
    } else if d == 8 {
        '8'
    } else {
        '9'
    }
}

/// The decimal digits of a non-negative number, without leading zeros
/// (a lone zero for 0).
pub open spec fn nat_digits(n: int) -> Seq<char>
    decreases n,
{
    if n < 10 {
        seq![digit_char(n)]
    } else {
        nat_digits(n / 10).push(digit_char(n % 10))
    }
}

/// The low `k` decimal digits of a number, zero-padded to width `k`.
pub open spec fn padded_digits(n: int, k: nat) -> Seq<char>
    decreases k,
{
    if k == 0 {
        Seq::<char>::empty()
    } else {
        padded_digits(n / 10, (k - 1) as nat).push(digit_char(n % 10))
    }
}

pub fn digit_char_of(d: u128) -> (c: char)
    requires
        d < 10,
    ensures
        c == digit_char(d as int),
{
    if d == 0 {
        '0'
    } else if d == 1 {
        '1'
    } else if d == 2 {
        '2'
    } else if d == 3 {
        '3'
    } else if d == 4 {
        '4'
    } else if d == 5 {
        '5'
    } else if d == 6 {
        '6'
    } else if d == 7 {
        '7'
    } else if d == 8 {
        '8'
    } else {
        '9'
    }
}

pub fn push_nat_digits(out: &mut Vec<char>, n: u128)
    ensures
        final(out)@ == old(out)@ + nat_digits(n as int),
    decreases n,
{
    if n < 10 {
        out.push(digit_char_of(n));
        proof {
            assert(old(out)@.push(digit_char(n as int)) =~= old(out)@ + nat_digits(n as int));
        }
    } else {
        push_nat_digits(out, n / 10);
        out.push(digit_char_of(n % 10));
        proof {
            assert((old(out)@ + nat_digits(n as int / 10)).push(digit_char(n as int % 10))
                =~= old(out)@ + nat_digits(n as int));
        }
    }
}

pub fn push_padded_digits(out: &mut Vec<char>, n: u128, k: usize)
    ensures
        final(out)@ == old(out)@ + padded_digits(n as int, k as nat),
    decreases k,
{
    if k > 0 {
        push_padded_digits(out, n / 10, k - 1);
        out.push(digit_char_of(n % 10));
        proof {
            assert((old(out)@ + padded_digits(n as int / 10, (k - 1) as nat)).push(
                digit_char(n as int % 10),
            ) =~= old(out)@ + padded_digits(n as int, k as nat));
        }
    } else {
        proof {
            assert(old(out)@ + padded_digits(n as int, 0) =~= old(out)@);
        }
    }
}

pub fn is_space(c: char) -> (b: bool)
    ensures
        b == is_space_char(c),
{
    c == ' ' || c == '\t' || c == '\n' || c == '\r'
}

pub fn is_digit(c: char) -> (b: bool)
    ensures
        b == is_digit_char(c),
{
    '0' <= c && c <= '9'
}

/// The numeric value of a digit character, as executable code.
pub fn digit_value(c: char) -> (d: u32)
    requires
        is_digit_char(c),
    ensures
        d == digit_val(c),
        d <= 9,
{
    c as u32 - '0' as u32
}

/// `s` without leading and trailing ASCII spaces; user-supplied amounts are
/// trimmed this way before parsing.
pub fn trim_spaces(s: &str) -> (r: &str)
    ensures
        r@ == trimmed(s@),
{
    let n = s.unicode_len();
    let mut lo: usize = 0;
    while lo < n && is_space(s.get_char(lo))
        invariant
            0 <= lo <= n,
            n == s@.len(),
            forall|j: int| 0 <= j < lo ==> is_space_char(#[trigger] s@[j]),
        decreases n - lo,
    {
        lo = lo + 1;
    }
    let mut hi: usize = n;
    while hi > lo && is_space(s.get_char(hi - 1))
        invariant
            lo <= hi <= n,
            n == s@.len(),
            forall|j: int| hi <= j < n ==> is_space_char(#[trigger] s@[j]),
        decreases hi,
    {
        hi = hi - 1;
    }
    let r = s.substring_char(lo, hi);
    proof {
        lemma_trim_front_at(s@, lo as int);
        let s1 = s@.subrange(lo as int, n as int);
        assert(forall|j: int| hi - lo <= j < s1.len() ==> is_space_char(#[trigger] s1[j]));
        lemma_trim_back_at(s1, hi - lo);
        assert(s1.subrange(0, hi - lo) =~= s@.subrange(lo as int, hi as int));
    }
    r
}


/// The integer text after the optional leading sign.
pub open spec fn int_body(s: Seq<char>) -> Seq<char> {
    if s.len() >= 1 && (s[0] == '-' || s[0] == '+') {
        s.subrange(1, s.len() as int)
    } else {
        s
    }
}

pub open spec fn int_negative(s: Seq<char>) -> bool {
    s.len() >= 1 && s[0] == '-'
}

/// Optional sign, then one or more digits.
pub open spec fn valid_int_text(s: Seq<char>) -> bool {
    int_body(s).len() >= 1 && all_digit_chars(int_body(s))
}

/// The signed value an integer text denotes.
pub open spec fn int_text_val(s: Seq<char>) -> int {
    if int_negative(s) {
        -digits_val(int_body(s))
    } else {
        digits_val(int_body(s))
    }
}

/// Parses a signed decimal integer that fits a thirty-two-bit identifier.
pub fn parse_i32(s: &str) -> (r: Option<i32>)
    ensures
        valid_int_text(s@) && i32::MIN <= int_text_val(s@) <= i32::MAX ==> r == Some(
            int_text_val(s@) as i32,
        ),
        !(valid_int_text(s@) && i32::MIN <= int_text_val(s@) <= i32::MAX) ==> r is None,
{
    let n = s.unicode_len();
    if n == 0 {
        return None;
    }
    let c0 = s.get_char(0);
    let has_sign = c0 == '-' || c0 == '+';
    let neg = c0 == '-';
    let start: usize = if has_sign {
        1
    } else {
        0
    };
    let ghost b = int_body(s@);
    proof {
        assert(b =~= s@.subrange(start as int, n as int));
    }
    if start == n {
        return None;
    }
    let mut acc: u64 = 0;
    let mut big = false;
    let mut j: usize = start;
    while j < n
        invariant
            start <= j <= n,
            n == s@.len(),
            start < n,
            start <= 1,
            b == s@.subrange(start as int, n as int),
            b == int_body(s@),
            forall|x: int| start <= x < j ==> is_digit_char(#[trigger] s@[x]),
            !big ==> acc == digits_val(s@.subrange(start as int, j as int)) && acc
                <= 0x8000_0000u64,
            big ==> digits_val(s@.subrange(start as int, j as int)) > 0x8000_0000,
        decreases n - j,
    {
        let c = s.get_char(j);
        if !is_digit(c) {
            proof {
                let p = j - start;
                assert(b[p as int] == s@[j as int]);
                assert(!all_digit_chars(b));
            }
            return None;
        }
        let d = digit_value(c);
        proof {
            lemma_subrange_push(s@, start as int, j as int);
            lemma_digits_val_push(s@.subrange(start as int, j as int), s@[j as int]);
        }
        if big {
            proof {
                let prev = digits_val(s@.subrange(start as int, j as int));
                assert(prev * 10 > 0x8000_0000 * 10) by (nonlinear_arith)
                    requires
                        prev > 0x8000_0000,
                ;
            }
        } else {
            let next = acc * 10 + d as u64;
            if next > 0x8000_0000 {
                big = true;
            } else {
                acc = next;
            }
        }
        j = j + 1;
    }
    proof {
        assert(s@.subrange(start as int, n as int) == b);
        assert(valid_int_text(s@));
    }
    if big {
        return None;
    }
    if neg {
        Some((-(acc as i64)) as i32)
    } else {
        if acc >= 0x8000_0000 {
            None
        } else {
            Some(acc as i32)
        }
    }
}

/// Two characters are one letter, ignoring ASCII case.
pub open spec fn chars_ci_equal(a: char, b: char) -> bool {
    a == b || (65 <= a as int <= 90 && b as int == a as int + 32) || (65 <= b as int <= 90
        && a as int == b as int + 32)
}

/// Two texts are equal ignoring ASCII case.
pub open spec fn text_ci_equal(a: Seq<char>, b: Seq<char>) -> bool {
    a.len() == b.len() && forall|i: int| 0 <= i < a.len() ==> chars_ci_equal(a[i], b[i])
}

fn char_ci_eq(a: char, b: char) -> (r: bool)
    ensures
        r == chars_ci_equal(a, b),
{
    let av = a as u32;
    let bv = b as u32;
    a == b || (65 <= av && av <= 90 && bv == av + 32) || (65 <= bv && bv <= 90 && av == bv + 32)
}

/// Compares two texts, ignoring ASCII case.
pub fn eq_ignore_ascii_case(a: &str, b: &str) -> (r: bool)
    ensures
        r == text_ci_equal(a@, b@),
{
    let n = a.unicode_len();
    let m = b.unicode_len();
    if n != m {
        return false;
    }
    let mut i: usize = 0;
    while i < n
        invariant
            0 <= i <= n,
            n == a@.len(),
            n == b@.len(),
            forall|j: int| 0 <= j < i ==> chars_ci_equal(#[trigger] a@[j], b@[j]),
        decreases n - i,
    {
        if !char_ci_eq(a.get_char(i), b.get_char(i)) {
            return false;
        }
        i = i + 1;
    }
    true
}

} // verus!
