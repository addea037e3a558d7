//! Small verified helpers over strings and decimal numbers: equality,
//! prefix stripping, lexicographic order, and conversions between
//! integers and their decimal digit strings.
use vstd::prelude::*;

verus! {

/// `c` is one of the ten ASCII decimal digits.
pub open spec fn is_dec_digit(c: char) -> bool {
    48 <= c as u32 <= 57
}

/// Numeric value of a decimal digit character.
pub open spec fn digit_val(c: char) -> int {
    c as u32 - 48
}

/// Every character of `s` is a decimal digit.
pub open spec fn all_dec_digits(s: Seq<char>) -> bool {
    forall|i: int| 0 <= i < s.len() ==> is_dec_digit(#[trigger] s[i])
}

/// Value of a digit string, most significant digit first.
pub open spec fn digits_val(s: Seq<char>) -> int
    decreases s.len(),
{
    if s.len() == 0 {
        0
    } else {
        digits_val(s.drop_last()) * 10 + digit_val(s.last())
    }
}

/// What Rust's unsigned `parse` accepts: an optional `+`, then one or
/// more decimal digits. The value is unbounded here; executable parsers
/// add their own range check.
pub open spec fn spec_parse_uint(s: Seq<char>) -> Option<int> {
    let ds = if s.len() > 0 && s[0] == '+' {
        s.skip(1)
    } else {
        s
    };
    if ds.len() > 0 && all_dec_digits(ds) {
        Some(digits_val(ds))
    } else {
        None
    }
}

/// What Rust's signed `parse` accepts: an optional sign, then one or
/// more decimal digits.
pub open spec fn spec_parse_sint(s: Seq<char>) -> Option<int> {
    if s.len() > 0 && s[0] == '-' {
        let ds = s.skip(1);
        if ds.len() > 0 && all_dec_digits(ds) {
            Some(-digits_val(ds))
        } else {
            None
        }
    } else {
        spec_parse_uint(s)
    }
}

pub proof fn lemma_digits_val_nonneg(s: Seq<char>)
    requires
        all_dec_digits(s),
    ensures
        digits_val(s) >= 0,
    decreases s.len(),
{
    if s.len() > 0 {
        assert(all_dec_digits(s.drop_last()));
        lemma_digits_val_nonneg(s.drop_last());
    }
}

/// The value of a digit string never drops when more digits follow.
pub proof fn lemma_digits_val_prefix_le(s: Seq<char>, i: int)
    requires
        all_dec_digits(s),
        0 <= i <= s.len(),
    ensures
        digits_val(s.take(i)) <= digits_val(s),
    decreases s.len() - i,
{
    if i < s.len() {
        let t = s.take(i + 1);
        assert(t.drop_last() =~= s.take(i));
        assert(all_dec_digits(t)) by {
            assert(forall|j: int| 0 <= j < t.len() ==> t[j] == s[j]);
        }
        assert(all_dec_digits(s.take(i)));
        lemma_digits_val_nonneg(s.take(i));
        assert(digits_val(t) == digits_val(s.take(i)) * 10 + digit_val(s[i]));
        lemma_digits_val_prefix_le(s, i + 1);
    } else {
        assert(s.take(i) =~= s);
    }
}

/// String equality, specified over the character views.
pub fn str_eq(a: &str, b: &str) -> (r: bool)
    ensures
        r == (a@ == b@),
{
    let sa = String::from_str(a);
    let sb = String::from_str(b);
    sa == sb
}

/// `s` split as `p` followed by a remainder, when `p` is a prefix of `s`.
pub fn strip_prefix_str<'a>(s: &'a str, p: &str) -> (r: Option<&'a str>)
    ensures
        match r {
            Some(rest) => s@ == p@ + rest@,
            None => !(s@.len() >= p@.len() && s@.subrange(0, p@.len() as int) == p@),
        },
{
    let sl = s.unicode_len();
    let pl = p.unicode_len();
    if sl < pl {
        return None;
    }
    let head = s.substring_char(0, pl);
    if str_eq(head, p) {
        let rest = s.substring_char(pl, sl);
        proof {
            assert(s@ =~= p@ + rest@);
        }
        Some(rest)
    } else {
        None
    }
}

/// Lexicographic order on character sequences, by Unicode scalar value;
/// this agrees with Rust's ordering on strings.
pub open spec fn lex_le(a: Seq<char>, b: Seq<char>) -> bool
    decreases a.len(),
{
    if a.len() == 0 {
        true
    } else if b.len() == 0 {
        false
    } else if a[0] == b[0] {
        lex_le(a.skip(1), b.skip(1))
    } else {
        (a[0] as u32) < (b[0] as u32)
    }
}

/// Executable lexicographic comparison of two strings.
pub fn str_lex_le(a: &str, b: &str) -> (r: bool)
    ensures
        r == lex_le(a@, b@),
{
    let al = a.unicode_len();
    let bl = b.unicode_len();
    let mut i: usize = 0;
    proof {
        assert(a@.skip(0) =~= a@);
        assert(b@.skip(0) =~= b@);
    }
    loop
        invariant
            i <= al,
            i <= bl,
            al == a@.len(),
            bl == b@.len(),
            a@.subrange(0, i as int) == b@.subrange(0, i as int),
            lex_le(a@, b@) == lex_le(a@.skip(i as int), b@.skip(i as int)),
        decreases al - i,
    {
        if i >= al {
            assert(a@.skip(i as int).len() == 0);
            return true;
        }
        if i >= bl {
            assert(b@.skip(i as int).len() == 0 && a@.skip(i as int).len() > 0);
            return false;
        }
        let ca = a.get_char(i);
        let cb = b.get_char(i);
        assert(a@.skip(i as int)[0] == a@[i as int]);
        assert(b@.skip(i as int)[0] == b@[i as int]);
        if ca as u32 != cb as u32 {
            assert(ca as u32 == cb as u32 ==> ca == cb) by {
                assert(ca as u32 == cb as u32 ==> ca == cb);
            }
            return (ca as u32) < (cb as u32);
        }
        proof {
            assert(a@.skip(i as int).skip(1) =~= a@.skip(i + 1));
            assert(b@.skip(i as int).skip(1) =~= b@.skip(i + 1));
            assert(a@.subrange(0, i + 1) =~= b@.subrange(0, i + 1));
        }
        i = i + 1;
    }
}

/// Index of the first occurrence of `c` in `s`, or -1 when absent.
pub open spec fn first_idx(s: Seq<char>, c: char) -> int
    decreases s.len(),
{
    if s.len() == 0 {
        -1
    } else if s[0] == c {
        0
    } else {
        let r = first_idx(s.skip(1), c);
        if r < 0 {
            -1
        } else {
            1 + r
        }
    }
}

pub proof fn lemma_first_idx_at(s: Seq<char>, c: char, i: int)
    requires
        0 <= i < s.len(),
        s[i] == c,
        forall|j: int| 0 <= j < i ==> s[j] != c,
    ensures
        first_idx(s, c) == i,
    decreases i,
{
    if i > 0 {
        assert(forall|j: int| 0 <= j < i - 1 ==> s.skip(1)[j] == s[j + 1]);
        lemma_first_idx_at(s.skip(1), c, i - 1);
    }
}

pub proof fn lemma_first_idx_none(s: Seq<char>, c: char)
    requires
        forall|j: int| 0 <= j < s.len() ==> s[j] != c,
    ensures
        first_idx(s, c) == -1,
    decreases s.len(),
{
    if s.len() > 0 {
        assert(forall|j: int| 0 <= j < s.len() - 1 ==> s.skip(1)[j] == s[j + 1]);
        lemma_first_idx_none(s.skip(1), c);
    }
}

/// Number of occurrences of `c` in `s`.
pub open spec fn count_char(s: Seq<char>, c: char) -> int
    decreases s.len(),
{
    if s.len() == 0 {
        0
    } else {
        count_char(s.drop_last(), c) + if s.last() == c {
            1int
        } else {
            0int
        }
    }
}

pub proof fn lemma_count_char_nonneg(s: Seq<char>, c: char)
    ensures
        count_char(s, c) >= 0,
    decreases s.len(),
{
    if s.len() > 0 {
        lemma_count_char_nonneg(s.drop_last(), c);
    }
}

/// A character is absent exactly when its count is zero.
pub proof fn lemma_count_char_zero(s: Seq<char>, c: char)
    ensures
        (count_char(s, c) == 0) <==> (forall|j: int| 0 <= j < s.len() ==> s[j] != c),
    decreases s.len(),
{
    if s.len() > 0 {
        lemma_count_char_zero(s.drop_last(), c);
        lemma_count_char_nonneg(s.drop_last(), c);
        assert(forall|j: int| 0 <= j < s.len() - 1 ==> s[j] == s.drop_last()[j]);
        if count_char(s, c) == 0 {
            assert(forall|j: int| 0 <= j < s.len() ==> s[j] != c) by {
                assert(s.last() != c);
                assert(forall|j: int| 0 <= j < s.len() - 1 ==> s[j] != c);
            }
        }
    }
}

/// Two characters agree up to ASCII case: equal, or one is an ASCII
/// capital letter and the other its lowercase form.
pub open spec fn char_eq_ascii_ci(a: char, b: char) -> bool {
    ||| a == b
    ||| (65 <= a as u32 <= 90 && b as u32 == a as u32 + 32)
    ||| (65 <= b as u32 <= 90 && a as u32 == b as u32 + 32)
}

/// Equality up to ASCII case, as `str::eq_ignore_ascii_case` decides it.
pub open spec fn ascii_eq_ci(a: Seq<char>, b: Seq<char>) -> bool {
    a.len() == b.len() && forall|i: int|
        0 <= i < a.len() ==> char_eq_ascii_ci(#[trigger] a[i], #[trigger] b[i])
}

/// Executable ASCII-case-insensitive string comparison.
pub fn str_eq_ignore_ascii_case(a: &str, b: &str) -> (r: bool)
    ensures
        r == ascii_eq_ci(a@, b@),
{
    let al = a.unicode_len();
    let bl = b.unicode_len();
    if al != bl {
        return false;
    }
    let mut i: usize = 0;
    while i < al
        invariant
            i <= al,
            al == a@.len(),
            bl == b@.len(),
            al == bl,
            forall|j: int| 0 <= j < i ==> char_eq_ascii_ci(#[trigger] a@[j], #[trigger] b@[j]),
        decreases al - i,
    {
        let ca = a.get_char(i) as u32;
        let cb = b.get_char(i) as u32;
        let ok = ca == cb || (65 <= ca && ca <= 90 && cb == ca + 32) || (65 <= cb && cb <= 90
            && ca == cb + 32);
        if !ok {
            return false;
        }
        i = i + 1;
    }
    true
}

/// First index of `c` in `s`, scanning left to right.
pub fn find_char(s: &str, c: char) -> (r: Option<usize>)
    ensures
        match r {
            Some(i) => i < s@.len() && s@[i as int] == c && forall|j: int|
                0 <= j < i ==> s@[j] != c,
            None => forall|j: int| 0 <= j < s@.len() ==> s@[j] != c,
        },
{
    let l = s.unicode_len();
    let mut i: usize = 0;
    while i < l
        invariant
            i <= l,
            l == s@.len(),
            forall|j: int| 0 <= j < i ==> s@[j] != c,
        decreases l - i,
    {
        if s.get_char(i) == c {
            return Some(i);
        }
        i = i + 1;
    }
    None
}

/// Decimal digits of `s[from..]` as a `u64`; `None` when the range is
/// empty, holds a non-digit, or exceeds `u64::MAX`.
pub fn parse_digits_u64(s: &str, from: usize) -> (r: Option<u64>)
    requires
        from <= s@.len(),
    ensures
        ({
            let t = s@.skip(from as int);
            match r {
                Some(v) => t.len() > 0 && all_dec_digits(t) && digits_val(t) == v as int,
                None => !(t.len() > 0 && all_dec_digits(t) && digits_val(t) <= u64::MAX),
            }
        }),
{
    let ghost t = s@.skip(from as int);
    let l = s.unicode_len();
    if from >= l {
        return None;
    }
    let mut i: usize = from;
    let mut acc: u64 = 0;
    while i < l
        invariant
            from <= i <= l,
            l == s@.len(),
            t == s@.skip(from as int),
            all_dec_digits(t.take(i - from)),
            acc as int == digits_val(t.take(i - from)),
        decreases l - i,
    {
        let c = s.get_char(i);
        let cv = c as u32;
        assert(t[i - from] == s@[i as int]);
        if cv < 48 || cv > 57 {
            assert(!is_dec_digit(t[i - from]));
            return None;
        }
        let d = (cv - 48) as u64;
        proof {
            let tp = t.take(i - from + 1);
            assert(tp.drop_last() =~= t.take(i - from));
            assert(tp.last() == t[i - from]);
            assert(digits_val(tp) == digits_val(t.take(i - from)) * 10 + digit_val(c));
        }
        let step: Option<u64> = match acc.checked_mul(10) {
            Some(m) => m.checked_add(d),
            None => None,
        };
        match step {
            Some(v) => {
                acc = v;
            },
            None => {
                proof {
                    assert(digits_val(t.take(i - from + 1)) > u64::MAX);
                    if all_dec_digits(t) {
                        lemma_digits_val_prefix_le(t, i - from + 1);
                    }
                }
                return None;
            },
        }
        i = i + 1;
    }
    proof {
        assert(t.take(i - from) =~= t);
    }
    Some(acc)
}

/// `u64` parsing with Rust's `parse` syntax: optional `+`, then digits.
pub fn parse_u64_str(s: &str) -> (r: Option<u64>)
    ensures
        match r {
            Some(v) => spec_parse_uint(s@) == Some(v as int),
            None => !(spec_parse_uint(s@) matches Some(v) && 0 <= v <= u64::MAX),
        },
{
    let l = s.unicode_len();
    if l == 0 {
        return None;
    }
    let from: usize = if s.get_char(0) == '+' {
        1
    } else {
        0
    };
    proof {
        if s@[0] == '+' {
            assert(s@.skip(1) =~= s@.skip(from as int));
        } else {
            assert(s@.skip(0) =~= s@);
        }
    }
    parse_digits_u64(s, from)
}

/// `i64` parsing with Rust's `parse` syntax: optional sign, then digits.
pub fn parse_i64_str(s: &str) -> (r: Option<i64>)
    ensures
        match r {
            Some(v) => spec_parse_sint(s@) == Some(v as int),
            None => !(spec_parse_sint(s@) matches Some(v) && i64::MIN <= v <= i64::MAX),
        },
{
    let l = s.unicode_len();
    if l == 0 {
        return None;
    }
    if s.get_char(0) == '-' {
        proof {
            assert(s@.skip(1) =~= s@.skip(1int));
        }
        match parse_digits_u64(s, 1) {
            Some(m) => {
                proof {
                    lemma_digits_val_nonneg(s@.skip(1));
                }
                if m <= 9223372036854775807u64 {
                    Some(-(m as i64))
                } else if m == 9223372036854775808u64 {
                    Some(i64::MIN)
                } else {
                    None
                }
            },
            None => {
                proof {
                    if s@.skip(1).len() > 0 && all_dec_digits(s@.skip(1)) {
                        lemma_digits_val_nonneg(s@.skip(1));
                    }
                }
                None
            },
        }
    } else {
        match parse_u64_str(s) {
            Some(v) => {
                if v <= 9223372036854775807u64 {
                    Some(v as i64)
                } else {
                    None
                }
            },
            None => {
                proof {
                    let ds = if s@.len() > 0 && s@[0] == '+' {
                        s@.skip(1)
                    } else {
                        s@
                    };
                    if ds.len() > 0 && all_dec_digits(ds) {
                        lemma_digits_val_nonneg(ds);
                    }
                }
                None
            },
        }
    }
}

/// `i32` parsing with Rust's `parse` syntax.
pub fn parse_i32_str(s: &str) -> (r: Option<i32>)
    ensures
        match r {
            Some(v) => spec_parse_sint(s@) == Some(v as int),
            None => !(spec_parse_sint(s@) matches Some(v) && i32::MIN <= v <= i32::MAX),
        },
{
    match parse_i64_str(s) {
        Some(v) => {
            if -2147483648i64 <= v && v <= 2147483647i64 {
                Some(v as i32)
            } else {
                None
            }
        },
        None => None,
    }
}

/// `u32` parsing with Rust's `parse` syntax.
pub fn parse_u32_str(s: &str) -> (r: Option<u32>)
    ensures
        match r {
            Some(v) => spec_parse_uint(s@) == Some(v as int),
            None => !(spec_parse_uint(s@) matches Some(v) && 0 <= v <= u32::MAX),
        },
{
    match parse_u64_str(s) {
        Some(v) => {
            if v <= 4294967295u64 {
                Some(v as u32)
            } else {
                None
            }
        },
        None => None,
    }
}

/// Digit character for a value below ten.
pub open spec fn digit_char(d: int) -> char {
    if d == 0 {
        '0'
    } else if d == 1 {
        '1'
    } else if d == 2 {
        '2'
    } else if d == 3 {
        '3'
    } else if d == 4 {
        '4'
    } else if d == 5 {
        '5'
    } else if d == 6 {
        '6'
    } else if d == 7 {
        '7'
    } else if d == 8 {
        '8'
    } else {
        '9'
    }
}

/// Decimal digit string of a non-negative integer, no leading zeros.
pub open spec fn dec_digits(n: int) -> Seq<char>
    decreases n,
{
    if n < 10 {
        seq![digit_char(n)]
    } else {
        dec_digits(n / 10).push(digit_char(n % 10))
    }
}

/// Decimal string of an integer, with a leading minus sign if negative.
pub open spec fn dec_int(n: int) -> Seq<char> {
    if n < 0 {
        seq!['-'] + dec_digits(-n)
    } else {
        dec_digits(n)
    }
}

pub fn digit_str(d: u64) -> (r: &'static str)
    requires
        d < 10,
    ensures
        r@ =~= seq![digit_char(d as int)],
{
    proof {
        reveal_strlit("0");
        reveal_strlit("1");
        reveal_strlit("2");
        reveal_strlit("3");
        reveal_strlit("4");
        reveal_strlit("5");
        reveal_strlit("6");
        reveal_strlit("7");
        reveal_strlit("8");
        reveal_strlit("9");
    }
    if d == 0 {
        "0"
    } else if d == 1 {
        "1"
    } else if d == 2 {
        "2"
    } else if d == 3 {
        "3"
    } else if d == 4 {
        "4"
    } else if d == 5 {
        "5"
    } else if d == 6 {
        "6"
    } else if d == 7 {
        "7"
    } else if d == 8 {
        "8"
    } else {
        "9"
    }
}

/// Decimal rendering of a `u64`.
pub fn u64_to_string(n: u64) -> (r: String)
    ensures
        r@ == dec_digits(n as int),
    decreases n,
{
    let d = digit_str(n % 10);
    if n < 10 {
        d.to_owned()
    } else {
        let pre = u64_to_string(n / 10);
        let r = pre.concat(d);
        proof {
            assert(r@ =~= dec_digits(n as int));
        }
        r
    }
}

/// Decimal rendering of an `i64`, matching Rust's `Display`.
pub fn i64_to_string(n: i64) -> (r: String)
    ensures
        r@ == dec_int(n as int),
{
    if n >= 0 {
        u64_to_string(n as u64)
    } else {
        let m: u64 = if n == i64::MIN {
            9223372036854775808u64
        } else {
            (-n) as u64
        };
        let digits = u64_to_string(m);
        let mut r = String::from_str("-");
        r.append(digits.as_str());
        proof {
            reveal_strlit("-");
            assert(r@ =~= dec_int(n as int));
        }
        r
    }
}

/// Decimal rendering of an `i32`.
pub fn i32_to_string(n: i32) -> (r: String)
    ensures
        r@ == dec_int(n as int),
{
    i64_to_string(n as i64)
}

} // verus!
