use vstd::prelude::*;

verus! {

/// True for an ASCII decimal digit.
pub open spec fn is_digit(c: char) -> bool {
    48 <= c as u32 <= 57
}

/// The numeric value of an ASCII digit.
pub open spec fn digit_of(c: char) -> int {
    c as u32 - 48
}

/// The ASCII digit for a value below ten.
pub open spec fn digit_char(d: int) -> char {
    if d == 0 {
        '0'
    } else if d == 1 {
        '1'
    } else if d == 2 {
        '2'
    } else if d == 3 {
        '3'
    } else if d == 4 {
        '4'
    } else if d == 5 {
        '5'
    } else if d == 6 {
        '6'
    } else if d == 7 {
        '7'
    } else if d == 8 {
        '8'
    } else {
        '9'
    }
}

/// The decimal rendering of a natural number, most significant digit first.
pub open spec fn dec_digits(n: nat) -> Seq<char>
    decreases n,
{
    if n < 10 {
        seq![digit_char(n as int)]
    } else {
        dec_digits(n / 10).push(digit_char((n % 10) as int))
    }
}

/// True when every character of the sequence is a decimal digit.
pub open spec fn all_digits(s: Seq<char>) -> bool {
    forall|i: int| 0 <= i < s.len() ==> is_digit(#[trigger] s[i])
}

/// The value of a plain digit string.
pub open spec fn digits_val(s: Seq<char>) -> int
    decreases s.len(),
{
    if s.len() == 0 {
        0
    } else {
        digits_val(s.drop_last()) * 10 + digit_of(s.last())
    }
}

/// True when the sequence is a well-formed integer literal: an optional
/// sign followed by at least one digit and nothing else.
pub open spec fn int_literal_ok(s: Seq<char>) -> bool {
    if s.len() == 0 {
        false
    } else if s[0] == '-' || s[0] == '+' {
        s.len() > 1 && all_digits(s.subrange(1, s.len() as int))
    } else {
        all_digits(s)
    }
}

/// The mathematical value of a well-formed integer literal.
pub open spec fn int_literal_val(s: Seq<char>) -> int {
    if s.len() > 0 && s[0] == '-' {
        -digits_val(s.subrange(1, s.len() as int))
    } else if s.len() > 0 && s[0] == '+' {
        digits_val(s.subrange(1, s.len() as int))
    } else {
        digits_val(s)
    }
}

proof fn lemma_digits_val_nonneg(s: Seq<char>)
    requires
        all_digits(s),
    ensures
        digits_val(s) >= 0,
    decreases s.len(),
{
    if s.len() > 0 {
        assert(forall|i: int| 0 <= i < s.len() - 1 ==> is_digit(#[trigger] s.drop_last()[i]));
        lemma_digits_val_nonneg(s.drop_last());
    }
}

/// A digit string is worth at least any of its prefixes.
proof fn lemma_digits_val_prefix(s: Seq<char>, k: int)
    requires
        all_digits(s),
        0 <= k <= s.len(),
    ensures
        digits_val(s) >= digits_val(s.subrange(0, k)),
    decreases s.len(),
{
    if k == s.len() {
        assert(s.subrange(0, k) =~= s);
    } else {
        let d = s.drop_last();
        assert(forall|i: int| 0 <= i < d.len() ==> is_digit(#[trigger] d[i]));
        lemma_digits_val_prefix(d, k);
        assert(d.subrange(0, k) =~= s.subrange(0, k));
        lemma_digits_val_nonneg(d);
        assert(digits_val(s) == digits_val(d) * 10 + digit_of(s.last()));
        assert(digits_val(d) * 10 >= digits_val(d)) by (nonlinear_arith)
            requires digits_val(d) >= 0;
    }
}

fn digit_value(c: char) -> (d: u64)
    requires
        is_digit(c),
    ensures
        d == digit_of(c),
        d < 10,
{
    (c as u32 - 48) as u64
}

/// Parses a decimal integer literal into a 64-bit signed value.
///
/// Accepts an optional leading `+` or `-` followed by one or more digits;
/// returns the value exactly when the literal is well formed and fits.
pub fn parse_i64(s: &str) -> (r: Option<i64>)
    ensures
        r is Some <==> int_literal_ok(s@) && i64::MIN <= int_literal_val(s@) <= i64::MAX,
        r matches Some(v) ==> v as int == int_literal_val(s@),
{
    let len = s.unicode_len();
    if len == 0 {
        return None;
    }
    let c0 = s.get_char(0);
    let neg: bool = c0 == '-';
    let start: usize = if c0 == '-' || c0 == '+' {
        1
    } else {
        0
    };
    if start == len {
        return None;
    }
    let limit: u64 = if neg {
        9223372036854775808
    } else {
        9223372036854775807
    };
    let ghost digits: Seq<char> = s@.subrange(start as int, len as int);
    let mut acc: u64 = 0;
    let mut i: usize = start;
    while i < len
        invariant
            len == s@.len(),
            start <= i <= len,
            start < len,
            start == 0 || start == 1,
            neg == (s@[0] == '-'),
            start == 1 <==> (s@[0] == '-' || s@[0] == '+'),
            limit == if neg {
                9223372036854775808u64
            } else {
                9223372036854775807u64
            },
            digits == s@.subrange(start as int, len as int),
            forall|j: int| 0 <= j < i - start ==> is_digit(#[trigger] digits[j]),
            acc == digits_val(digits.subrange(0, i - start)),
            acc <= limit,
            limit >= 9223372036854775807,
        decreases len - i,
    {
        let c = s.get_char(i);
        proof {
            assert(digits[i - start] == s@[i as int]);
        }
        let x = c as u32;
        if !(48 <= x && x <= 57) {
            proof {
                assert(!is_digit(digits[i - start]));
                assert(!all_digits(digits));
                if start == 0 {
                    assert(digits =~= s@);
                }
            }
            return None;
        }
        let d = digit_value(c);
        let ghost pre = digits.subrange(0, i - start);
        let ghost ext = digits.subrange(0, i + 1 - start);
        proof {
            assert(ext.drop_last() =~= pre);
            assert(ext.last() == digits[i - start]);
        }
        if acc > (limit - d) / 10 {
            proof {
                assert(acc * 10 + d > limit) by (nonlinear_arith)
                    requires
                        acc > (limit - d) / 10,
                        d < 10,
                        d <= limit,
                        acc >= 0,
                        limit >= 0;
                assert(digits_val(ext) > limit);
                if int_literal_ok(s@) {
                    if start == 0 {
                        assert(digits =~= s@);
                    }
                    assert(all_digits(digits));
                    lemma_digits_val_prefix(digits, i + 1 - start);
                    assert(digits.subrange(0, i + 1 - start) == ext);
                    assert(digits_val(digits) > limit);
                    if start == 1 {
                        assert(s@.subrange(1, s@.len() as int) == digits);
                        if s@[0] == '-' {
                            assert(int_literal_val(s@) == -digits_val(digits));
                            assert(int_literal_val(s@) < i64::MIN);
                        } else {
                            assert(int_literal_val(s@) == digits_val(digits));
                            assert(int_literal_val(s@) > i64::MAX);
                        }
                    } else {
                        assert(int_literal_val(s@) == digits_val(digits));
                        assert(int_literal_val(s@) > i64::MAX);
                    }
                }
            }
            return None;
        }
        acc = acc * 10 + d;
        i += 1;
    }
    proof {
        assert(digits.subrange(0, len - start) =~= digits);
        if start == 0 {
            assert(digits =~= s@);
        } else {
            assert(s@.subrange(1, s@.len() as int) == digits);
        }
        assert(int_literal_ok(s@));
    }
    if neg {
        if acc == 9223372036854775808 {
            Some(i64::MIN)
        } else {
            Some(-(acc as i64))
        }
    } else {
        Some(acc as i64)
    }
}

/// Parses a decimal integer literal into a 32-bit signed value.
pub fn parse_i32(s: &str) -> (r: Option<i32>)
    ensures
        r is Some <==> int_literal_ok(s@) && i32::MIN <= int_literal_val(s@) <= i32::MAX,
        r matches Some(v) ==> v as int == int_literal_val(s@),
{
    match parse_i64(s) {
        Some(v) => {
            if -2147483648 <= v && v <= 2147483647 {
                Some(v as i32)
            } else {
                None
            }
        },
        None => None,
    }
}

/// Parses a boolean literal: exactly `true` or `false`.
pub fn parse_bool(s: &str) -> (r: Option<bool>)
    ensures
        r == Some(true) <==> s@ == "true"@,
        r == Some(false) <==> s@ == "false"@,
        r is None <==> s@ != "true"@ && s@ != "false"@,
{
    proof {
        reveal_strlit("true");
        reveal_strlit("false");
        assert("true"@.len() == 4);
        assert("false"@.len() == 5);
        assert("true"@ != "false"@);
    }
    if crate::text::str_eq(s, "true") {
        Some(true)
    } else if crate::text::str_eq(s, "false") {
        Some(false)
    } else {
        None
    }
}

/// One transition of the real-literal recognizer.
///
/// States: 0 start, 1 after sign, 2 integer digits, 3 lone dot, 4 fraction
/// digits, 5 after exponent mark, 6 after exponent sign, 7 exponent digits,
/// 8 reject.
pub open spec fn real_step(st: int, c: char) -> int {
    if st == 0 {
        if c == '+' || c == '-' {
            1
        } else if is_digit(c) {
            2
        } else if c == '.' {
            3
        } else {
            8
        }
    } else if st == 1 {
        if is_digit(c) {
            2
        } else if c == '.' {
            3
        } else {
            8
        }
    } else if st == 2 {
        if is_digit(c) {
            2
        } else if c == '.' {
            4
        } else if c == 'e' || c == 'E' {
            5
        } else {
            8
        }
    } else if st == 3 {
        if is_digit(c) {
            4
        } else {
            8
        }
    } else if st == 4 {
        if is_digit(c) {
            4
        } else if c == 'e' || c == 'E' {
            5
        } else {
            8
        }
    } else if st == 5 {
        if c == '+' || c == '-' {
            6
        } else if is_digit(c) {
            7
        } else {
            8
        }
    } else if st == 6 || st == 7 {
        if is_digit(c) {
            7
        } else {
            8
        }
    } else {
        8
    }
}

/// The recognizer state after reading the whole sequence.
pub open spec fn real_state(s: Seq<char>) -> int
    decreases s.len(),
{
    if s.len() == 0 {
        0
    } else {
        real_step(real_state(s.drop_last()), s.last())
    }
}

/// True when the sequence is a well-formed real-number literal: an optional
/// sign, digits with an optional fractional part (or a fraction alone), and
/// an optional exponent.
pub open spec fn is_real_literal(s: Seq<char>) -> bool {
    real_state(s) == 2 || real_state(s) == 4 || real_state(s) == 7
}

fn real_step_exec(st: u32, c: char) -> (r: u32)
    requires
        st <= 8,
    ensures
        r == real_step(st as int, c),
        r <= 8,
{
    let x = c as u32;
    let dig: bool = 48 <= x && x <= 57;
    if st == 0 {
        if c == '+' || c == '-' {
            1
        } else if dig {
            2
        } else if c == '.' {
            3
        } else {
            8
        }
    } else if st == 1 {
        if dig {
            2
        } else if c == '.' {
            3
        } else {
            8
        }
    } else if st == 2 {
        if dig {
            2
        } else if c == '.' {
            4
        } else if c == 'e' || c == 'E' {
            5
        } else {
            8
        }
    } else if st == 3 {
        if dig {
            4
        } else {
            8
        }
    } else if st == 4 {
        if dig {
            4
        } else if c == 'e' || c == 'E' {
            5
        } else {
            8
        }
    } else if st == 5 {
        if c == '+' || c == '-' {
            6
        } else if dig {
            7
        } else {
            8
        }
    } else if st == 6 || st == 7 {
        if dig {
            7
        } else {
            8
        }
    } else {
        8
    }
}

/// Checks whether the text is a well-formed real-number literal.
pub fn check_real_literal(s: &str) -> (r: bool)
    ensures
        r == is_real_literal(s@),
{
    let len = s.unicode_len();
    let mut st: u32 = 0;
    let mut i: usize = 0;
    while i < len
        invariant
            len == s@.len(),
            i <= len,
            st <= 8,
            st == real_state(s@.subrange(0, i as int)),
        decreases len - i,
    {
        let c = s.get_char(i);
        let ghost pre = s@.subrange(0, i as int);
        let ghost ext = s@.subrange(0, i + 1);
        proof {
            assert(ext.drop_last() =~= pre);
            assert(ext.last() == s@[i as int]);
        }
        st = real_step_exec(st, c);
        i += 1;
    }
    proof {
        assert(s@.subrange(0, len as int) =~= s@);
    }
    st == 2 || st == 4 || st == 7
}

fn append_digit(s: &mut String, d: u64)
    requires
        d < 10,
    ensures
        final(s)@ == old(s)@.push(digit_char(d as int)),
{
    proof {
        reveal_strlit("0");
        reveal_strlit("1");
        reveal_strlit("2");
        reveal_strlit("3");
        reveal_strlit("4");
        reveal_strlit("5");
        reveal_strlit("6");
        reveal_strlit("7");
        reveal_strlit("8");
        reveal_strlit("9");
    }
    if d == 0 {
        s.append("0");
    } else if d == 1 {
        s.append("1");
    } else if d == 2 {
        s.append("2");
    } else if d == 3 {
        s.append("3");
    } else if d == 4 {
        s.append("4");
    } else if d == 5 {
        s.append("5");
    } else if d == 6 {
        s.append("6");
    } else if d == 7 {
        s.append("7");
    } else if d == 8 {
        s.append("8");
    } else {
        s.append("9");
    }
    proof {
        assert(s@ =~= old(s)@.push(digit_char(d as int)));
    }
}

/// The decimal digits of `ds`, read back to front, as characters.
spec fn rev_digit_chars(ds: Seq<u64>) -> Seq<char> {
    Seq::new(ds.len(), |i: int| digit_char(ds[ds.len() - 1 - i] as int))
}

/// Renders a 64-bit unsigned value in decimal.
pub fn fmt_u64(n: u64) -> (r: String)
    ensures
        r@ == dec_digits(n as nat),
{
    let mut digits: Vec<u64> = Vec::new();
    let mut m: u64 = n;
    if m == 0 {
        digits.push(0);
        proof {
            assert(rev_digit_chars(digits@) =~= dec_digits(n as nat));
        }
    } else {
        while m > 0
            invariant
                forall|j: int| 0 <= j < digits@.len() ==> #[trigger] digits@[j] < 10,
                if m > 0 {
                    dec_digits(n as nat) == dec_digits(m as nat) + rev_digit_chars(digits@)
                } else {
                    dec_digits(n as nat) == rev_digit_chars(digits@)
                },
            decreases m,
        {
            let d = m % 10;
            let ghost ds = digits@;
            digits.push(d);
            let m2 = m / 10;
            proof {
                assert(rev_digit_chars(digits@) =~= seq![digit_char(d as int)]
                    + rev_digit_chars(ds));
                if m >= 10 {
                    assert(dec_digits(m as nat) == dec_digits((m / 10) as nat).push(
                        digit_char((m % 10) as int)));
                    assert(dec_digits((m2 as nat)).push(digit_char(d as int))
                        + rev_digit_chars(ds) =~= dec_digits(m2 as nat) + rev_digit_chars(
                        digits@));
                } else {
                    assert(m2 == 0);
                    assert(dec_digits(m as nat) =~= seq![digit_char(d as int)]);
                }
            }
            m = m2;
        }
    }
    let mut out = String::new();
    let total = digits.len();
    let mut i: usize = total;
    proof {
        assert(out@ =~= rev_digit_chars(digits@).subrange(0, 0));
    }
    while i > 0
        invariant
            total == digits@.len(),
            i <= total,
            forall|j: int| 0 <= j < digits@.len() ==> #[trigger] digits@[j] < 10,
            dec_digits(n as nat) == rev_digit_chars(digits@),
            out@ == rev_digit_chars(digits@).subrange(0, total - i),
        decreases i,
    {
        i -= 1;
        let d = digits[i];
        append_digit(&mut out, d);
        proof {
            assert(rev_digit_chars(digits@)[total - i - 1] == digit_char(
                digits@[i as int] as int));
            assert(out@ =~= rev_digit_chars(digits@).subrange(0, total - i));
        }
    }
    proof {
        assert(rev_digit_chars(digits@).subrange(0, total as int) =~= rev_digit_chars(
            digits@));
    }
    out
}

/// Renders a machine word in decimal.
pub fn fmt_usize(n: usize) -> (r: String)
    ensures
        r@ == dec_digits(n as nat),
{
    fmt_u64(n as u64)
}

} // verus!
