//! Character and string utilities: decimal digits, integer rendering and
//! parsing, and small string-building helpers.

use vstd::prelude::*;

verus! {

/// The character for a single decimal digit value.
pub open spec fn digit_char(d: int) -> char {
    if d == 0 {
        '0'
    } else if d == 1 {
        '1'
    } else if d == 2 {
        '2'
    } else if d == 3 {
        '3'
    } else if d == 4 {
        '4'
    } else if d == 5 {
        '5'
    } else if d == 6 {
        '6'
    } else if d == 7 {
        '7'
    } else if d == 8 {
        '8'
    } else {
        '9'
    }
}

/// The value of a decimal digit character, or -1 for any other character.
pub open spec fn digit_value(c: char) -> int {
    if c == '0' {
        0
    } else if c == '1' {
        1
    } else if c == '2' {
        2
    } else if c == '3' {
        3
    } else if c == '4' {
        4
    } else if c == '5' {
        5
    } else if c == '6' {
        6
    } else if c == '7' {
        7
    } else if c == '8' {
        8
    } else if c == '9' {
        9
    } else {
        -1
    }
}

pub open spec fn is_digit_char(c: char) -> bool {
    digit_value(c) >= 0
}

pub proof fn lemma_digit_char_value(d: int)
    requires
        0 <= d <= 9,
    ensures
        digit_value(digit_char(d)) == d,
{
}

/// A nonnegative number rendered with exactly `width` digits (leading
/// zeros included); only meaningful when the number fits the width.
pub open spec fn dec_fixed(n: int, width: int) -> Seq<char>
    decreases width,
{
    if width <= 0 {
        Seq::empty()
    } else {
        dec_fixed(n / 10, width - 1).push(digit_char(n % 10))
    }
}

/// A positive number rendered without leading zeros; empty for zero.
pub open spec fn dec_trim(n: int) -> Seq<char>
    decreases n,
{
    if n <= 0 {
        Seq::empty()
    } else {
        dec_trim(n / 10).push(digit_char(n % 10))
    }
}

/// A signed number rendered the way decimal formatting renders it:
/// a minus sign for negatives and a lone zero for zero.
pub open spec fn dec_int(n: int) -> Seq<char> {
    if n == 0 {
        seq!['0']
    } else if n < 0 {
        seq!['-'] + dec_trim(-n)
    } else {
        dec_trim(n)
    }
}

/// The numeric value of a digit string, most significant digit first.
pub open spec fn digits_val(s: Seq<char>) -> int
    decreases s.len(),
{
    if s.len() == 0 {
        0
    } else {
        digits_val(s.drop_last()) * 10 + digit_value(s.last())
    }
}

pub open spec fn all_digits(s: Seq<char>) -> bool {
    forall|i: int| 0 <= i < s.len() ==> is_digit_char(#[trigger] s[i])
}

pub proof fn lemma_digits_val_nonneg(s: Seq<char>)
    requires
        all_digits(s),
    ensures
        digits_val(s) >= 0,
    decreases s.len(),
{
    if s.len() > 0 {
        assert(is_digit_char(s[s.len() - 1]));
        lemma_digits_val_nonneg(s.drop_last());
    }
}

pub open spec fn pow10(k: int) -> int
    decreases k,
{
    if k <= 0 {
        1
    } else {
        10 * pow10(k - 1)
    }
}

pub proof fn lemma_digits_val_upper(s: Seq<char>)
    requires
        all_digits(s),
    ensures
        digits_val(s) < pow10(s.len() as int),
    decreases s.len(),
{
    if s.len() > 0 {
        assert(is_digit_char(s[s.len() - 1]));
        lemma_digits_val_upper(s.drop_last());
    }
}

/// Reading back a fixed-width rendering gives the number again.
pub proof fn lemma_dec_fixed_val(n: int, width: int)
    requires
        0 <= width,
        0 <= n < pow10(width),
    ensures
        digits_val(dec_fixed(n, width)) == n,
        dec_fixed(n, width).len() == width,
        all_digits(dec_fixed(n, width)),
    decreases width,
{
    if width <= 0 {
    } else {
        assert(0 <= n / 10 < pow10(width - 1)) by (nonlinear_arith)
            requires 0 <= n < 10 * pow10(width - 1);
        lemma_dec_fixed_val(n / 10, width - 1);
        let s = dec_fixed(n, width);
        assert(s.drop_last() =~= dec_fixed(n / 10, width - 1));
        lemma_digit_char_value(n % 10);
        assert(forall|i: int| 0 <= i < s.len() ==> is_digit_char(#[trigger] s[i])) by {
            assert(forall|i: int| 0 <= i < s.len() - 1 ==> s[i] == dec_fixed(n / 10, width - 1)[i]);
        }
    }
}

pub proof fn lemma_pow10_le(a: int, b: int)
    requires
        a <= b,
    ensures
        pow10(a) <= pow10(b),
    decreases b - a,
{
    if b <= 0 {
    } else if a < b {
        lemma_pow10_le(a, b - 1);
        assert(pow10(b) == 10 * pow10(b - 1));
        assert(pow10(b - 1) >= 1) by {
            lemma_pow10_pos(b - 1);
        }
    }
}

pub proof fn lemma_pow10_pos(k: int)
    ensures
        pow10(k) >= 1,
    decreases k,
{
    if k > 0 {
        lemma_pow10_pos(k - 1);
    }
}

/// A digit string is worth at least any of its prefixes.
pub proof fn lemma_digits_val_prefix(s: Seq<char>, k: int)
    requires
        all_digits(s),
        0 <= k <= s.len(),
    ensures
        digits_val(s.take(k)) <= digits_val(s),
    decreases s.len(),
{
    if k < s.len() {
        assert(s.drop_last().take(k) =~= s.take(k));
        lemma_digits_val_prefix(s.drop_last(), k);
        lemma_digits_val_nonneg(s.drop_last());
        assert(is_digit_char(s[s.len() - 1]));
        assert(digits_val(s.drop_last()) * 10 >= digits_val(s.drop_last()));
    } else {
        assert(s.take(k) =~= s);
    }
}

/// The sign-and-digits body of integer text: the text after an optional
/// single leading sign.
pub open spec fn int_text_body(s: Seq<char>) -> Seq<char> {
    if s.len() > 0 && (s[0] == '+' || s[0] == '-') {
        s.drop_first()
    } else {
        s
    }
}

/// What parsing signed decimal text as a 64-bit integer yields: the
/// value when the text is an optional sign followed by one or more
/// digits and the value fits, nothing otherwise.
pub open spec fn parse_i64_spec(s: Seq<char>) -> Option<int> {
    let body = int_text_body(s);
    if body.len() == 0 || !all_digits(body) {
        None
    } else {
        let v = if s.len() > 0 && s[0] == '-' {
            -digits_val(body)
        } else {
            digits_val(body)
        };
        if i64::MIN <= v <= i64::MAX {
            Some(v)
        } else {
            None
        }
    }
}

/// Parse signed decimal text as an `i64`.
pub fn parse_i64(s: &str) -> (r: Option<i64>)
    ensures
        parse_i64_spec(s@) is Some ==> r is Some && r->0 == parse_i64_spec(s@)->0,
        parse_i64_spec(s@) is None ==> r is None,
{
    let n = s.unicode_len();
    let ghost body = int_text_body(s@);
    let mut start: usize = 0;
    let mut neg = false;
    if n > 0 {
        let c = s.get_char(0);
        if c == '+' {
            start = 1;
        } else if c == '-' {
            neg = true;
            start = 1;
        }
    }
    proof {
        assert(body =~= s@.subrange(start as int, n as int));
    }
    if start >= n {
        return None;
    }
    let bound: i128 = 9223372036854775808;
    let mut acc: i128 = 0;
    let mut i: usize = start;
    while i < n
        invariant
            start <= i <= n,
            n == s@.len(),
            start < n,
            body == int_text_body(s@),
            body == s@.subrange(start as int, n as int),
            neg <==> (s@.len() > 0 && s@[0] == '-'),
            all_digits(body.take(i - start)),
            0 <= acc <= bound,
            bound == 9223372036854775808,
            acc == digits_val(body.take(i - start)),
        decreases n - i,
    {
        let c = s.get_char(i);
        let d = digit_of_char(c);
        proof {
            assert(body.take(i - start + 1).drop_last() =~= body.take(i - start));
            assert(body.take(i - start + 1).last() == s@[i as int]);
        }
        if d < 0 {
            proof {
                assert(!is_digit_char(body[i - start]));
                assert(!all_digits(body));
                assert(parse_i64_spec(s@) is None);
            }
            return None;
        }
        let next: i128 = acc * 10 + d as i128;
        proof {
            assert(all_digits(body.take(i - start + 1)));
        }
        if next > bound {
            proof {
                assert(digits_val(body.take(i - start + 1)) == next);
                if all_digits(body) {
                    lemma_digits_val_prefix(body, i - start + 1);
                    assert(digits_val(body) > bound);
                    assert(digits_val(body) > i64::MAX);
                    assert(-digits_val(body) < i64::MIN);
                }
                assert(parse_i64_spec(s@) is None);
            }
            return None;
        }
        acc = next;
        i = i + 1;
    }
    proof {
        assert(body.take(n - start) =~= body);
    }
    if neg {
        if acc > bound {
            return None;
        }
        let v: i128 = -acc;
        proof {
            assert(i64::MIN <= v <= i64::MAX);
        }
        Some(v as i64)
    } else {
        if acc >= bound {
            proof {
                assert(digits_val(body) > i64::MAX);
            }
            return None;
        }
        Some(acc as i64)
    }
}

/// The digit value of a character, or -1 when it is not a digit.
pub fn digit_of_char(c: char) -> (r: i64)
    ensures
        r == digit_value(c),
{
    if c == '0' {
        0
    } else if c == '1' {
        1
    } else if c == '2' {
        2
    } else if c == '3' {
        3
    } else if c == '4' {
        4
    } else if c == '5' {
        5
    } else if c == '6' {
        6
    } else if c == '7' {
        7
    } else if c == '8' {
        8
    } else if c == '9' {
        9
    } else {
        -1
    }
}

/// A one-character string slice for a digit value.
pub fn digit_str(d: i64) -> (r: &'static str)
    requires
        0 <= d <= 9,
    ensures
        r@ =~= seq![digit_char(d as int)],
{
    proof {
        reveal_strlit("0");
        reveal_strlit("1");
        reveal_strlit("2");
        reveal_strlit("3");
        reveal_strlit("4");
        reveal_strlit("5");
        reveal_strlit("6");
        reveal_strlit("7");
        reveal_strlit("8");
        reveal_strlit("9");
    }
    match d {
        0 => "0",
        1 => "1",
        2 => "2",
        3 => "3",
        4 => "4",
        5 => "5",
        6 => "6",
        7 => "7",
        8 => "8",
        _ => "9",
    }
}

/// Append the fixed-width decimal rendering of `n` to `out`.
pub fn push_dec_fixed(out: &mut String, n: i64, width: u32)
    requires
        0 <= n < pow10(width as int),
        width <= 9,
    ensures
        final(out)@ == old(out)@ + dec_fixed(n as int, width as int),
    decreases width,
{
    if width == 0 {
        proof {
            assert(old(out)@ + dec_fixed(n as int, 0) =~= old(out)@);
        }
        return ;
    }
    proof {
        assert(0 <= n as int / 10 < pow10(width as int - 1)) by (nonlinear_arith)
            requires 0 <= n < 10 * pow10(width as int - 1);
    }
    push_dec_fixed(out, n / 10, width - 1);
    let d = n % 10;
    out.append(digit_str(d));
    proof {
        assert(final(out)@ =~= old(out)@ + dec_fixed(n as int, width as int));
    }
}

/// Append the unsigned trimmed decimal rendering of `n` to `out`.
pub fn push_dec_trim(out: &mut String, n: i128)
    requires
        0 <= n,
    ensures
        final(out)@ == old(out)@ + dec_trim(n as int),
    decreases n,
{
    if n == 0 {
        proof {
            assert(old(out)@ + dec_trim(0) =~= old(out)@);
        }
        return ;
    }
    push_dec_trim(out, n / 10);
    let d = (n % 10) as i64;
    out.append(digit_str(d));
    proof {
        assert(final(out)@ =~= old(out)@ + dec_trim(n as int));
    }
}

/// The decimal rendering of a signed 64-bit number.
pub fn render_i64(n: i64) -> (r: String)
    ensures
        r@ == dec_int(n as int),
{
    let mut out = String::new();
    if n == 0 {
        proof {
            reveal_strlit("0");
        }
        out.append("0");
        proof {
            assert(out@ =~= dec_int(0));
        }
    } else if n < 0 {
        proof {
            reveal_strlit("-");
        }
        out.append("-");
        let wide: i128 = n as i128;
        push_dec_trim(&mut out, -wide);
        proof {
            assert(out@ =~= dec_int(n as int));
        }
    } else {
        push_dec_trim(&mut out, n as i128);
        proof {
            assert(out@ =~= dec_int(n as int));
        }
    }
    out
}

/// Concatenation of two string slices.
pub fn str_concat(a: &str, b: &str) -> (r: String)
    ensures
        r@ == a@ + b@,
{
    let mut s = a.to_owned();
    s.append(b);
    s
}

/// The whitespace characters this crate trims and splits on: the
/// Unicode White_Space set.
pub open spec fn is_space(c: char) -> bool {
    ||| c == ' ' || c == '\t' || c == '\n' || c == '\r' || c == '\u{b}' || c == '\u{c}'
    ||| c == '\u{85}' || c == '\u{a0}' || c == '\u{1680}'
    ||| (0x2000 <= (c as u32) && (c as u32) <= 0x200a)
    ||| c == '\u{2028}' || c == '\u{2029}' || c == '\u{202f}' || c == '\u{205f}' || c == '\u{3000}'
}

pub fn is_space_exec(c: char) -> (r: bool)
    ensures
        r == is_space(c),
{
    c == ' ' || c == '\t' || c == '\n' || c == '\r' || c == '\u{b}' || c == '\u{c}'
        || c == '\u{85}' || c == '\u{a0}' || c == '\u{1680}' || ((c as u32) >= 0x2000 && (c as u32)
        <= 0x200a) || c == '\u{2028}' || c == '\u{2029}' || c == '\u{202f}' || c == '\u{205f}'
        || c == '\u{3000}'
}

/// The subsequence left after trimming spaces from both ends.
pub open spec fn trimmed(s: Seq<char>) -> Seq<char>
    decreases s.len(),
{
    if s.len() == 0 {
        s
    } else if is_space(s[0]) {
        trimmed(s.drop_first())
    } else if is_space(s.last()) {
        trimmed(s.drop_last())
    } else {
        s
    }
}

/// Trim surrounding whitespace, returning a fresh string.
pub fn trim_spaces(s: &str) -> (r: String)
    ensures
        r@ == trimmed(s@),
{
    let n = s.unicode_len();
    let mut lo: usize = 0;
    let mut hi: usize = n;
    proof {
        assert(s@.subrange(0, n as int) =~= s@);
    }
    while lo < hi && is_space_exec(s.get_char(lo))
        invariant
            0 <= lo <= hi <= n,
            n == s@.len(),
            trimmed(s@) == trimmed(s@.subrange(lo as int, hi as int)),
            hi == n,
        decreases hi - lo,
    {
        proof {
            assert(s@.subrange(lo as int, hi as int).drop_first() =~= s@.subrange(
                lo as int + 1,
                hi as int,
            ));
        }
        lo = lo + 1;
    }
    while lo < hi && is_space_exec(s.get_char(hi - 1))
        invariant
            0 <= lo <= hi <= n,
            n == s@.len(),
            trimmed(s@) == trimmed(s@.subrange(lo as int, hi as int)),
            lo < hi ==> !is_space(s@[lo as int]),
        decreases hi,
    {
        proof {
            assert(s@.subrange(lo as int, hi as int).drop_last() =~= s@.subrange(
                lo as int,
                hi as int - 1,
            ));
        }
        hi = hi - 1;
    }
    let mut out = String::new();
    let mut i: usize = lo;
    while i < hi
        invariant
            lo <= i <= hi <= n,
            n == s@.len(),
            out@ == s@.subrange(lo as int, i as int),
        decreases hi - i,
    {
        let piece = char_str_at(s, i);
        out.append(piece.as_str());
        proof {
            assert(s@.subrange(lo as int, i as int + 1) =~= s@.subrange(lo as int, i as int)
                + seq![s@[i as int]]);
        }
        i = i + 1;
    }
    proof {
        if lo < hi {
            assert(!is_space(s@.subrange(lo as int, hi as int)[0]));
            assert(!is_space(s@.subrange(lo as int, hi as int).last()));
        } else {
            assert(s@.subrange(lo as int, hi as int).len() == 0);
        }
        assert(trimmed(s@.subrange(lo as int, hi as int)) =~= s@.subrange(lo as int, hi as int));
    }
    out
}

/// A one-character string holding character `i` of `s`.
pub fn char_str_at(s: &str, i: usize) -> (r: String)
    requires
        i < s@.len(),
        i < usize::MAX,
    ensures
        r@ =~= seq![s@[i as int]],
{
    let piece = s.substring_char(i, i + 1);
    proof {
        assert(piece@ =~= seq![s@[i as int]]);
    }
    piece.to_owned()
}

/// Character equality up to ASCII case.
pub open spec fn char_eq_ci(x: char, y: char) -> bool {
    ||| x == y
    ||| ((x as u32) + 32 == (y as u32) && 65 <= (x as u32) <= 90)
    ||| ((y as u32) + 32 == (x as u32) && 65 <= (y as u32) <= 90)
}

/// Sequence equality up to ASCII case.
pub open spec fn seq_eq_ci(a: Seq<char>, b: Seq<char>) -> bool {
    a.len() == b.len() && (forall|i: int| 0 <= i < a.len() ==> char_eq_ci(#[trigger] a[i], b[i]))
}

/// Whether two strings are equal up to ASCII case.
pub fn str_eq_ci(a: &str, b: &str) -> (r: bool)
    ensures
        r == seq_eq_ci(a@, b@),
{
    let an = a.unicode_len();
    let bn = b.unicode_len();
    if an != bn {
        return false;
    }
    let mut i: usize = 0;
    while i < an
        invariant
            0 <= i <= an,
            an == a@.len(),
            an == b@.len(),
            forall|j: int| 0 <= j < i ==> char_eq_ci(#[trigger] a@[j], b@[j]),
        decreases an - i,
    {
        let x = a.get_char(i);
        let y = b.get_char(i);
        let same = x == y || ((x as u32) + 32 == (y as u32) && 65 <= (x as u32) && (x as u32) <= 90)
            || ((y as u32) + 32 == (x as u32) && 65 <= (y as u32) && (y as u32) <= 90);
        if !same {
            return false;
        }
        i = i + 1;
    }
    true
}

/// Lexicographic comparison of two character sequences by code point,
/// the order strings sort in.
pub open spec fn lex_lt(a: Seq<char>, b: Seq<char>) -> bool
    decreases a.len(),
{
    if b.len() == 0 {
        false
    } else if a.len() == 0 {
        true
    } else if a[0] != b[0] {
        (a[0] as u32) < (b[0] as u32)
    } else {
        lex_lt(a.drop_first(), b.drop_first())
    }
}

/// Whether `a` sorts strictly before `b`.
pub fn str_lex_lt(a: &str, b: &str) -> (r: bool)
    ensures
        r == lex_lt(a@, b@),
{
    let an = a.unicode_len();
    let bn = b.unicode_len();
    let mut i: usize = 0;
    proof {
        assert(a@.skip(0) =~= a@);
        assert(b@.skip(0) =~= b@);
    }
    loop
        invariant
            0 <= i <= an,
            i <= bn,
            an == a@.len(),
            bn == b@.len(),
            lex_lt(a@, b@) == lex_lt(a@.skip(i as int), b@.skip(i as int)),
        decreases an - i,
    {
        proof {
            let sa = a@.skip(i as int);
            let sb = b@.skip(i as int);
            if i < an && i < bn {
                assert(sa[0] == a@[i as int]);
                assert(sb[0] == b@[i as int]);
                assert(sa.drop_first() =~= a@.skip(i as int + 1));
                assert(sb.drop_first() =~= b@.skip(i as int + 1));
            }
        }
        if i >= bn {
            return false;
        }
        if i >= an {
            return true;
        }
        let ca = a.get_char(i);
        let cb = b.get_char(i);
        if ca != cb {
            return (ca as u32) < (cb as u32);
        }
        i = i + 1;
    }
}


/// Lexicographic order is total: two sequences are equal or one sorts
/// strictly before the other.
pub proof fn lemma_lex_lt_total(a: Seq<char>, b: Seq<char>)
    ensures
        a == b || lex_lt(a, b) || lex_lt(b, a),
    decreases a.len(),
{
    if a.len() == 0 && b.len() == 0 {
        assert(a =~= b);
    } else if b.len() == 0 || a.len() == 0 {
    } else if a[0] != b[0] {
        vstd::utf8::char_u32_cast(a[0], a[0] as u32);
        vstd::utf8::char_u32_cast(b[0], b[0] as u32);
    } else {
        lemma_lex_lt_total(a.drop_first(), b.drop_first());
        if a.drop_first() == b.drop_first() {
            assert(a.drop_first().len() == a.len() - 1);
            assert(b.drop_first().len() == b.len() - 1);
            assert forall|i: int| 0 <= i < a.len() implies a[i] == b[i] by {
                if i >= 1 {
                    assert(a.drop_first()[i - 1] == b.drop_first()[i - 1]);
                }
            }
            assert(a =~= b);
        }
    }
}

/// Lexicographic order is transitive.
pub proof fn lemma_lex_lt_trans(a: Seq<char>, b: Seq<char>, c: Seq<char>)
    requires
        lex_lt(a, b),
        lex_lt(b, c),
    ensures
        lex_lt(a, c),
    decreases a.len(),
{
    if c.len() == 0 {
    } else if a.len() == 0 {
    } else if b.len() == 0 {
    } else {
        if a[0] == b[0] && b[0] == c[0] {
            lemma_lex_lt_trans(a.drop_first(), b.drop_first(), c.drop_first());
        }
    }
}

} // verus!
