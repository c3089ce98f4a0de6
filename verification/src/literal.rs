use vstd::prelude::*;
use crate::bigint::big_val;
use crate::bigint::big_from_u64;
use crate::bigint::big_add;
use crate::bigint::big_mul;
use crate::bigint::big_neg;

verus! {

/// The value of a digit character in radices up to 36, or -1 when the
/// character is no digit.
pub open spec fn digit_of(c: char) -> int {
    if '0' <= c && c <= '9' {
        c as int - '0' as int
    } else if 'a' <= c && c <= 'z' {
        c as int - 'a' as int + 10
    } else if 'A' <= c && c <= 'Z' {
        c as int - 'A' as int + 10
    } else {
        -1
    }
}

/// Folds digit characters left to right into `acc`; underscores are skipped;
/// a character that is no digit of the radix fails the parse.
pub open spec fn parse_digits(t: Seq<char>, radix: int, acc: int) -> Option<int>
    decreases t.len(),
{
    if t.len() == 0 {
        Some(acc)
    } else if t[0] == '_' {
        parse_digits(t.drop_first(), radix, acc)
    } else if 0 <= digit_of(t[0]) && digit_of(t[0]) < radix {
        parse_digits(t.drop_first(), radix, acc * radix + digit_of(t[0]))
    } else {
        None
    }
}

/// The radix named by a leading `0b`, `0o` or `0x`, or ten.
pub open spec fn num_radix(t: Seq<char>) -> int {
    if t.len() >= 2 && t[0] == '0' && t[1] == 'b' {
        2
    } else if t.len() >= 2 && t[0] == '0' && t[1] == 'o' {
        8
    } else if t.len() >= 2 && t[0] == '0' && t[1] == 'x' {
        16
    } else {
        10
    }
}

/// How many characters the radix prefix takes.
pub open spec fn num_prefix_len(t: Seq<char>) -> int {
    if num_radix(t) == 10 {
        0
    } else {
        2
    }
}

/// The token after its radix prefix.
pub open spec fn num_after(t: Seq<char>) -> Seq<char> {
    t.skip(num_prefix_len(t))
}

/// Whether the token carries a minus sign.
pub open spec fn num_neg(t: Seq<char>) -> bool {
    num_after(t).len() > 0 && num_after(t)[0] == '-'
}

/// The digit characters of the token: what is left after prefix and sign.
pub open spec fn num_digits(t: Seq<char>) -> Seq<char> {
    let after = num_after(t);
    if after.len() > 0 && (after[0] == '-' || after[0] == '+') {
        after.drop_first()
    } else {
        after
    }
}

/// The integer a numeric literal token denotes, if it is one: an optional
/// radix prefix, an optional sign, then digits of the radix with
/// underscores ignored.
pub open spec fn parse_num(t: Seq<char>) -> Option<int> {
    if t.len() == 0 || num_after(t).len() == 0 {
        None
    } else {
        match parse_digits(num_digits(t), num_radix(t), 0) {
            Some(n) => Some(
                if num_neg(t) {
                    -n
                } else {
                    n
                },
            ),
            None => None,
        }
    }
}

/// The code point a character literal token denotes, if it is one: a single
/// character between single quotes, or one of the escapes `\n`, `\t`, `\r`.
pub open spec fn parse_char_lit(t: Seq<char>) -> Option<u32> {
    if t.len() == 3 && t[0] == '\'' && t[2] == '\'' && t[1] != '\\' {
        Some(t[1] as u32)
    } else if t.len() == 4 && t[0] == '\'' && t[3] == '\'' && t[1] == '\\' && t[2] == 'n' {
        Some('\n' as u32)
    } else if t.len() == 4 && t[0] == '\'' && t[3] == '\'' && t[1] == '\\' && t[2] == 't' {
        Some('\t' as u32)
    } else if t.len() == 4 && t[0] == '\'' && t[3] == '\'' && t[1] == '\\' && t[2] == 'r' {
        Some('\r' as u32)
    } else {
        None
    }
}

/// What the integer-literal fallback parser makes of a token: first the
/// character literal shape, then the numeric one.
pub open spec fn int_literal_value(t: Seq<char>) -> Option<int> {
    match parse_char_lit(t) {
        Some(c) => Some(c as int),
        None => parse_num(t),
    }
}

/// Whether a token has the string literal shape: at least two characters,
/// the first and the last a double quote.
pub open spec fn is_string_literal(t: Seq<char>) -> bool {
    t.len() >= 2 && t[0] == '"' && t[t.len() - 1] == '"'
}

/// The contents of a string literal: the characters between the quotes,
/// taken verbatim.
pub open spec fn string_literal_contents(t: Seq<char>) -> Seq<char> {
    t.subrange(1, t.len() - 1)
}

/// Ten to the power of `e`.
pub open spec fn pow10(e: nat) -> int
    decreases e,
{
    if e == 0 {
        1
    } else {
        10 * pow10((e - 1) as nat)
    }
}

/// The decimal digit character of a value below ten.
pub open spec fn digit_char(d: nat) -> char
    recommends
        d < 10,
{
    if d == 0 {
        '0'
    } else if d == 1 {
        '1'
    } else if d == 2 {
        '2'
    } else if d == 3 {
        '3'
    } else if d == 4 {
        '4'
    } else if d == 5 {
        '5'
    } else if d == 6 {
        '6'
    } else if d == 7 {
        '7'
    } else if d == 8 {
        '8'
    } else {
        '9'
    }
}

/// The decimal digit characters of a non-negative integer, most significant
/// first, without leading zeroes.
pub open spec fn dec_digit_chars(n: nat) -> Seq<char>
    decreases n,
{
    if n < 10 {
        seq![digit_char(n)]
    } else {
        dec_digit_chars(n / 10) + seq![digit_char(n % 10)]
    }
}

/// The decimal text of an integer, as characters.
pub open spec fn dec_chars(n: int) -> Seq<char> {
    if n < 0 {
        seq!['-'] + dec_digit_chars((-n) as nat)
    } else {
        dec_digit_chars(n as nat)
    }
}

/// Parsing a concatenation folds the left part first, then the right.
proof fn lemma_parse_digits_append(a: Seq<char>, b: Seq<char>, radix: int, acc: int)
    ensures
        parse_digits(a + b, radix, acc) == (match parse_digits(a, radix, acc) {
            Some(m) => parse_digits(b, radix, m),
            None => None,
        }),
    decreases a.len(),
{
    if a.len() == 0 {
        assert(a + b =~= b);
    } else {
        assert((a + b)[0] == a[0]);
        assert((a + b).drop_first() =~= a.drop_first() + b);
        if a[0] == '_' {
            lemma_parse_digits_append(a.drop_first(), b, radix, acc);
        } else if 0 <= digit_of(a[0]) && digit_of(a[0]) < radix {
            lemma_parse_digits_append(a.drop_first(), b, radix, acc * radix + digit_of(a[0]));
        }
    }
}

/// The decimal digits of `n` are digit characters, and folding them onto
/// `acc` scales `acc` past them and adds `n`.
proof fn lemma_dec_digits_parse(n: nat, acc: int)
    ensures
        forall|i: int|
            0 <= i < dec_digit_chars(n).len() ==> '0' <= #[trigger] dec_digit_chars(n)[i]
                && dec_digit_chars(n)[i] <= '9',
        parse_digits(dec_digit_chars(n), 10, acc) == Some(
            acc * pow10(dec_digit_chars(n).len() as nat) + n,
        ),
    decreases n,
{
    if n < 10 {
        let c = digit_char(n);
        assert(digit_of(c) == n);
        assert(dec_digit_chars(n) =~= seq![c]);
        assert(seq![c].drop_first() =~= Seq::<char>::empty());
        assert(parse_digits(Seq::<char>::empty(), 10, acc * 10 + n) == Some(acc * 10 + n));
        assert(parse_digits(seq![c], 10, acc) == Some(acc * 10 + n));
        assert(pow10(0) == 1);
        assert(pow10(1) == 10);
        assert(acc * pow10(1) == acc * 10);
    } else {
        let a = dec_digit_chars(n / 10);
        let c = digit_char(n % 10);
        lemma_dec_digits_parse(n / 10, acc);
        lemma_parse_digits_append(a, seq![c], 10, acc);
        let la = a.len() as nat;
        let m = acc * pow10(la) + n / 10;
        assert(digit_of(c) == n % 10);
        assert(seq![c].drop_first() =~= Seq::<char>::empty());
        assert(parse_digits(Seq::<char>::empty(), 10, m * 10 + n % 10) == Some(m * 10 + n % 10));
        assert(parse_digits(seq![c], 10, m) == Some(m * 10 + n % 10));
        assert(parse_digits(dec_digit_chars(n), 10, acc) == Some(m * 10 + n % 10));
        assert((acc * pow10(la) + n / 10) * 10 + n % 10 == acc * (10 * pow10(la)) + ((n / 10) * 10
            + n % 10)) by (nonlinear_arith);
        assert((n / 10) * 10 + n % 10 == n);
        assert(dec_digit_chars(n).len() == a.len() + 1);
        assert(pow10((la + 1) as nat) == 10 * pow10(la));
        assert(m * 10 + n % 10 == acc * pow10((la + 1) as nat) + n);
        assert(forall|i: int|
            0 <= i < dec_digit_chars(n).len() ==> '0' <= #[trigger] dec_digit_chars(n)[i]
                && dec_digit_chars(n)[i] <= '9');
    }
}

/// The decimal digit characters encode as the decimal digit bytes.
proof fn lemma_dec_digit_chars_encode(n: nat)
    ensures
        vstd::utf8::encode_utf8(dec_digit_chars(n)) == crate::bigint::dec_digits(n),
    decreases n,
{
    lemma_dec_digits_parse(n, 0);
    if n < 10 {
        let c = digit_char(n);
        crate::textutil::lemma_ascii_encode_scalar(c);
        assert(dec_digit_chars(n).drop_first() =~= Seq::<char>::empty());
        assert(vstd::utf8::encode_utf8(Seq::<char>::empty()) =~= Seq::<u8>::empty());
        assert(vstd::utf8::encode_utf8(dec_digit_chars(n)) =~= seq![c as u8]);
        assert(c as u8 == n + ('0' as u8));
        assert(crate::bigint::dec_digits(n) =~= seq![(n + ('0' as u8)) as u8]);
    } else {
        let c = digit_char(n % 10);
        lemma_dec_digit_chars_encode(n / 10);
        crate::textutil::lemma_encode_utf8_append(dec_digit_chars(n / 10), seq![c]);
        crate::textutil::lemma_ascii_encode_scalar(c);
        assert(seq![c].drop_first() =~= Seq::<char>::empty());
        assert(vstd::utf8::encode_utf8(Seq::<char>::empty()) =~= Seq::<u8>::empty());
        assert(vstd::utf8::encode_utf8(seq![c]) =~= seq![c as u8]);
        assert(c as u8 == n % 10 + ('0' as u8));
        assert(vstd::utf8::encode_utf8(dec_digit_chars(n)) =~= crate::bigint::dec_digits(n));
    }
}

/// The decimal text bytes of an integer decode to its decimal characters:
/// what the decimal-formatting word pushes reads back as `dec_chars`.
pub proof fn lemma_dec_bytes_decode(n: int)
    ensures
        vstd::utf8::valid_utf8(crate::bigint::dec_bytes(n)),
        vstd::utf8::decode_utf8(crate::bigint::dec_bytes(n)) == dec_chars(n),
{
    if n < 0 {
        lemma_dec_digit_chars_encode((-n) as nat);
        crate::textutil::lemma_encode_utf8_append(seq!['-'], dec_digit_chars((-n) as nat));
        crate::textutil::lemma_ascii_encode_scalar('-');
        assert(seq!['-'].drop_first() =~= Seq::<char>::empty());
        assert(vstd::utf8::encode_utf8(Seq::<char>::empty()) =~= Seq::<u8>::empty());
        assert(vstd::utf8::encode_utf8(seq!['-']) =~= seq![('-' as u8)]);
        assert(vstd::utf8::encode_utf8(dec_chars(n)) =~= crate::bigint::dec_bytes(n));
    } else {
        lemma_dec_digit_chars_encode(n as nat);
        assert(vstd::utf8::encode_utf8(dec_chars(n)) =~= crate::bigint::dec_bytes(n));
    }
    vstd::utf8::encode_utf8_valid_utf8(dec_chars(n));
    vstd::utf8::encode_utf8_decode_utf8(dec_chars(n));
}

/// Printing an integer in decimal and parsing the text as a numeric literal
/// gives the integer back.
pub proof fn lemma_decimal_roundtrip(n: int)
    ensures
        parse_num(dec_chars(n)) == Some(n),
        parse_num(vstd::utf8::decode_utf8(crate::bigint::dec_bytes(n))) == Some(n),
{
    lemma_dec_bytes_decode(n);
    if n < 0 {
        let a = dec_digit_chars((-n) as nat);
        lemma_dec_digits_parse((-n) as nat, 0);
        let t = dec_chars(n);
        assert(t[0] == '-');
        assert(t.len() >= 2);
        assert('0' <= a[0] && a[0] <= '9');
        assert(t[1] == a[0]);
        assert(num_radix(t) == 10 && num_prefix_len(t) == 0);
        assert(num_after(t) =~= t);
        assert(num_neg(t));
        assert(num_digits(t) =~= a);
        assert(parse_digits(a, 10, 0) == Some(0 * pow10(a.len() as nat) + (-n)));
        assert(0 * pow10(a.len() as nat) == 0) by (nonlinear_arith);
    } else {
        let t = dec_chars(n);
        lemma_dec_digits_parse(n as nat, 0);
        assert('0' <= t[0] && t[0] <= '9');
        if t.len() >= 2 {
            assert('0' <= t[1] && t[1] <= '9');
        }
        assert(num_radix(t) == 10 && num_prefix_len(t) == 0);
        assert(num_after(t) =~= t);
        assert(!num_neg(t));
        assert(num_digits(t) =~= t);
        assert(parse_digits(t, 10, 0) == Some(0 * pow10(t.len() as nat) + n));
        assert(0 * pow10(t.len() as nat) == 0) by (nonlinear_arith);
    }
}

/// Exact test for the value of a digit character.
pub fn digit_value(c: char) -> (r: i8)
    ensures
        r as int == digit_of(c),
{
    if '0' <= c && c <= '9' {
        (c as u32 - '0' as u32) as i8
    } else if 'a' <= c && c <= 'z' {
        (c as u32 - 'a' as u32 + 10) as i8
    } else if 'A' <= c && c <= 'Z' {
        (c as u32 - 'A' as u32 + 10) as i8
    } else {
        -1
    }
}

/// Parses a numeric literal token, or says that the token is none.
pub fn parse_num_token(t: &Vec<char>) -> (r: Option<num::BigInt>)
    ensures
        match r {
            Some(b) => parse_num(t@) == Some(big_val(b)),
            None => parse_num(t@) is None,
        },
{
    let n = t.len();
    if n == 0 {
        return None;
    }
    let mut radix: u64 = 10;
    let mut i: usize = 0;
    if n >= 2 && t[0] == '0' {
        if t[1] == 'b' {
            radix = 2;
            i = 2;
        } else if t[1] == 'o' {
            radix = 8;
            i = 2;
        } else if t[1] == 'x' {
            radix = 16;
            i = 2;
        }
    }
    assert(radix == num_radix(t@) && i == num_prefix_len(t@));
    if i >= n {
        return None;
    }
    assert(num_after(t@)[0] == t@[i as int]);
    let mut neg = false;
    if t[i] == '-' {
        neg = true;
        i = i + 1;
    } else if t[i] == '+' {
        i = i + 1;
    }
    assert(neg == num_neg(t@));
    assert(num_digits(t@) =~= t@.skip(i as int));
    let radix_big = big_from_u64(radix);
    let mut acc = big_from_u64(0);
    let mut j: usize = i;
    while j < n
        invariant
            i <= j <= n == t@.len(),
            num_prefix_len(t@) < t@.len(),
            radix == num_radix(t@),
            big_val(radix_big) == num_radix(t@),
            neg == num_neg(t@),
            num_digits(t@) == t@.skip(i as int),
            parse_digits(t@.skip(j as int), num_radix(t@), big_val(acc)) == parse_digits(
                num_digits(t@),
                num_radix(t@),
                0,
            ),
        decreases n - j,
    {
        let c = t[j];
        proof {
            assert(t@.skip(j as int)[0] == c);
            assert(t@.skip(j as int).drop_first() =~= t@.skip(j as int + 1));
        }
        let ghost acc_old = acc;
        if c != '_' {
            let d = digit_value(c);
            if d < 0 || d as u64 >= radix {
                proof {
                    assert(parse_digits(t@.skip(j as int), num_radix(t@), big_val(acc)) is None);
                    assert(parse_num(t@) is None);
                }
                return None;
            }
            let step = big_mul(&acc, &radix_big);
            acc = big_add(&step, &big_from_u64(d as u64));
            proof {
                assert(big_val(acc) == big_val(acc_old) * num_radix(t@) + digit_of(c));
                assert(parse_digits(t@.skip(j as int), num_radix(t@), big_val(acc_old))
                    == parse_digits(t@.skip(j as int + 1), num_radix(t@), big_val(acc)));
            }
        }
        j = j + 1;
    }
    assert(t@.skip(n as int) =~= Seq::<char>::empty());
    if neg {
        let r = big_neg(&acc);
        Some(r)
    } else {
        Some(acc)
    }
}

/// Parses a character literal token, or says that the token is none.
pub fn parse_char_token(t: &Vec<char>) -> (r: Option<u32>)
    ensures
        r == parse_char_lit(t@),
{
    let n = t.len();
    if n == 3 && t[0] == '\'' && t[2] == '\'' && t[1] != '\\' {
        Some(t[1] as u32)
    } else if n == 4 && t[0] == '\'' && t[3] == '\'' && t[1] == '\\' && t[2] == 'n' {
        Some('\n' as u32)
    } else if n == 4 && t[0] == '\'' && t[3] == '\'' && t[1] == '\\' && t[2] == 't' {
        Some('\t' as u32)
    } else if n == 4 && t[0] == '\'' && t[3] == '\'' && t[1] == '\\' && t[2] == 'r' {
        Some('\r' as u32)
    } else {
        None
    }
}

} // verus!
