//! Decimal integers and floating-point literals, read and written as text.
use vstd::prelude::*;
use crate::text::string_of;

verus! {

/// Whether `c` is an ASCII decimal digit.
pub open spec fn is_digit(c: char) -> bool {
    '0' <= c && c <= '9'
}

/// The value of the decimal digit `c`.
pub open spec fn digit_value(c: char) -> int {
    c as int - '0' as int
}

/// The character of the decimal digit `d` (`0 <= d < 10`).
pub open spec fn digit_char(d: int) -> char {
    (d + '0' as int) as char
}

/// The value of the decimal numeral `d` (all of whose characters are digits).
pub open spec fn digits_value(d: Seq<char>) -> int
    decreases d.len(),
{
    if d.len() == 0 {
        0
    } else {
        10 * digits_value(d.drop_last()) + digit_value(d.last())
    }
}

/// The first position at or after `i` that does not hold a digit
/// (`d.len()` when the digits run to the end).
pub open spec fn first_non_digit(d: Seq<char>, i: int) -> int
    decreases d.len() - i,
{
    if 0 <= i < d.len() && is_digit(d[i]) {
        first_non_digit(d, i + 1)
    } else {
        i
    }
}

/// The shortest decimal numeral of `n`, without sign or leading zeros.
pub open spec fn decimal(n: nat) -> Seq<char>
    decreases n,
{
    if n < 10 {
        seq![digit_char(n as int)]
    } else {
        decimal(n / 10).push(digit_char((n % 10) as int))
    }
}

/// Why a text is not a decimal integer of a given type, as `std`'s integer
/// parsing reports it.
#[derive(Clone, Copy, Debug, PartialEq, Eq, Structural)]
pub enum IntErrorKind {
    Empty,
    InvalidDigit,
    PosOverflow,
    NegOverflow,
}

/// The reading of `s` as a decimal integer in `[lo, hi]`: an optional sign
/// followed by digits only. The digits are taken from left to right, and the
/// first digit that is not one, or that takes the value out of range, decides
/// the error.
pub open spec fn int_reading(s: Seq<char>, lo: int, hi: int) -> Result<int, IntErrorKind> {
    if s.len() == 0 {
        Err(IntErrorKind::Empty)
    } else if s.len() == 1 && (s[0] == '+' || s[0] == '-') {
        Err(IntErrorKind::InvalidDigit)
    } else {
        let neg = s[0] == '-';
        let d = if s[0] == '+' || s[0] == '-' {
            s.drop_first()
        } else {
            s
        };
        let j = first_non_digit(d, 0);
        let v = digits_value(d.take(j));
        if !neg && v > hi {
            Err(IntErrorKind::PosOverflow)
        } else if neg && -v < lo {
            Err(IntErrorKind::NegOverflow)
        } else if j < d.len() {
            Err(IntErrorKind::InvalidDigit)
        } else if neg {
            Ok(-v)
        } else {
            Ok(v)
        }
    }
}

/// The message with which `std` describes each integer parse error.
pub open spec fn int_error_text(e: IntErrorKind) -> Seq<char> {
    match e {
        IntErrorKind::Empty => "cannot parse integer from empty string"@,
        IntErrorKind::InvalidDigit => "invalid digit found in string"@,
        IntErrorKind::PosOverflow => "number too large to fit in target type"@,
        IntErrorKind::NegOverflow => "number too small to fit in target type"@,
    }
}

impl IntErrorKind {
    /// The message that describes this error.
    pub fn text(&self) -> (t: &'static str)
        ensures
            t@ == int_error_text(*self),
    {
        match self {
            IntErrorKind::Empty => "cannot parse integer from empty string",
            IntErrorKind::InvalidDigit => "invalid digit found in string",
            IntErrorKind::PosOverflow => "number too large to fit in target type",
            IntErrorKind::NegOverflow => "number too small to fit in target type",
        }
    }
}

/// A run of digits stops at the first non-digit.
pub proof fn lemma_first_non_digit_at(d: Seq<char>, i: int, k: int)
    requires
        0 <= i <= k <= d.len(),
        forall|m: int| i <= m < k ==> is_digit(#[trigger] d[m]),
        k == d.len() || !is_digit(d[k]),
    ensures
        first_non_digit(d, i) == k,
    decreases k - i,
{
    if i < k {
        lemma_first_non_digit_at(d, i + 1, k);
    }
}

/// A run of digits reaches at least past every digit of an all-digit prefix.
pub proof fn lemma_first_non_digit_past(d: Seq<char>, i: int, k: int)
    requires
        0 <= i <= k <= d.len(),
        forall|m: int| i <= m < k ==> is_digit(#[trigger] d[m]),
    ensures
        k <= first_non_digit(d, i) <= d.len(),
    decreases d.len() - i,
{
    if i < d.len() && is_digit(d[i]) {
        if i < k {
            lemma_first_non_digit_past(d, i + 1, k);
        } else {
            lemma_first_non_digit_past(d, i + 1, i + 1);
        }
    }
}

/// Appending a digit multiplies the value by ten and adds the digit.
pub proof fn lemma_digits_value_step(d: Seq<char>, m: int)
    requires
        0 <= m < d.len(),
    ensures
        digits_value(d.take(m + 1)) == 10 * digits_value(d.take(m)) + digit_value(d[m]),
{
    assert(d.take(m + 1).drop_last() =~= d.take(m));
}

/// A longer run of digits has at least the value of a shorter one.
pub proof fn lemma_digits_value_monotone(d: Seq<char>, m: int, k: int)
    requires
        0 <= m <= k <= d.len(),
        forall|i: int| 0 <= i < k ==> is_digit(#[trigger] d[i]),
    ensures
        0 <= digits_value(d.take(m)) <= digits_value(d.take(k)),
    decreases k,
{
    if k > 0 {
        lemma_digits_value_step(d, k - 1);
        if m < k {
            lemma_digits_value_monotone(d, m, k - 1);
        } else {
            lemma_digits_value_monotone(d, k - 1, k - 1);
        }
    } else {
        assert(d.take(0) =~= Seq::<char>::empty());
    }
}

/// Reads `s` as a decimal integer in `[-neg_limit, pos_limit]`.
fn read_integer(s: &[char], neg_limit: u64, pos_limit: u64) -> (r: Result<i128, IntErrorKind>)
    ensures
        match r {
            Ok(v) => int_reading(s@, -(neg_limit as int), pos_limit as int) == Ok::<int, IntErrorKind>(v as int),
            Err(e) => int_reading(s@, -(neg_limit as int), pos_limit as int) == Err::<int, IntErrorKind>(e),
        },
        r matches Ok(v) ==> -(neg_limit as int) <= v <= pos_limit as int,
{
    let n = s.len();
    if n == 0 {
        return Err(IntErrorKind::Empty);
    }
    if n == 1 && (s[0] == '+' || s[0] == '-') {
        return Err(IntErrorKind::InvalidDigit);
    }
    let neg = s[0] == '-';
    let start: usize = if s[0] == '+' || s[0] == '-' { 1 } else { 0 };
    let ghost d = s@.subrange(start as int, n as int);
    assert(d =~= (if s@[0] == '+' || s@[0] == '-' { s@.drop_first() } else { s@ }));
    let limit: u128 = if neg { neg_limit as u128 } else { pos_limit as u128 };
    let mut acc: u128 = 0;
    let mut i: usize = start;
    assert(d.take(0) =~= Seq::<char>::empty());
    while i < n
        invariant
            start <= i <= n == s@.len(),
            d == s@.subrange(start as int, n as int),
            d == (if s@[0] == '+' || s@[0] == '-' { s@.drop_first() } else { s@ }),
            neg == (s@[0] == '-'),
            n >= 1,
            !(n == 1 && (s@[0] == '+' || s@[0] == '-')),
            limit == (if neg { neg_limit as u128 } else { pos_limit as u128 }),
            acc <= limit,
            acc == digits_value(d.take(i - start)),
            forall|m: int| 0 <= m < i - start ==> is_digit(#[trigger] d[m]),
        decreases n - i,
    {
        let c = s[i];
        assert(c == d[i - start]);
        if !('0' <= c && c <= '9') {
            proof {
                lemma_first_non_digit_at(d, 0, i - start);
            }
            return Err(IntErrorKind::InvalidDigit);
        }
        let dv = ((c as u32) - ('0' as u32)) as u128;
        proof {
            lemma_digits_value_step(d, i - start);
        }
        let next = acc * 10 + dv;
        if next > limit {
            proof {
                assert forall|m: int| 0 <= m < i - start + 1 implies is_digit(#[trigger] d[m]) by {}
                lemma_first_non_digit_past(d, 0, i - start + 1);
                let j = first_non_digit(d, 0);
                assert forall|m: int| 0 <= m < j implies is_digit(#[trigger] d[m]) by {
                    if !is_digit(d[m]) {
                        lemma_first_non_digit_before(d, 0, m);
                    }
                }
                lemma_digits_value_monotone(d, i - start + 1, j);
            }
            return Err(if neg { IntErrorKind::NegOverflow } else { IntErrorKind::PosOverflow });
        }
        acc = next;
        i = i + 1;
    }
    proof {
        lemma_first_non_digit_at(d, 0, d.len() as int);
        assert(d.take(d.len() as int) =~= d);
    }
    if neg {
        Ok(-(acc as i128))
    } else {
        Ok(acc as i128)
    }
}

/// A run of digits ends no later than any non-digit after its start.
pub proof fn lemma_first_non_digit_before(d: Seq<char>, i: int, m: int)
    requires
        0 <= i <= m < d.len(),
        !is_digit(d[m]),
    ensures
        first_non_digit(d, i) <= m,
    decreases m - i,
{
    if i < m && is_digit(d[i]) {
        lemma_first_non_digit_before(d, i + 1, m);
    }
}

/// Reads `s` as an `i64` exactly as `str::parse::<i64>` does.
pub fn parse_i64(s: &[char]) -> (r: Result<i64, IntErrorKind>)
    ensures
        match r {
            Ok(v) => int_reading(s@, i64::MIN as int, i64::MAX as int) == Ok::<int, IntErrorKind>(v as int),
            Err(e) => int_reading(s@, i64::MIN as int, i64::MAX as int) == Err::<int, IntErrorKind>(e),
        },
{
    match read_integer(s, 0x8000_0000_0000_0000u64, 0x7fff_ffff_ffff_ffffu64) {
        Ok(v) => Ok(v as i64),
        Err(e) => Err(e),
    }
}

/// Reads `s` as an `i32` exactly as `str::parse::<i32>` does.
pub fn parse_i32(s: &[char]) -> (r: Result<i32, IntErrorKind>)
    ensures
        match r {
            Ok(v) => int_reading(s@, i32::MIN as int, i32::MAX as int) == Ok::<int, IntErrorKind>(v as int),
            Err(e) => int_reading(s@, i32::MIN as int, i32::MAX as int) == Err::<int, IntErrorKind>(e),
        },
{
    match read_integer(s, 0x8000_0000u64, 0x7fff_ffffu64) {
        Ok(v) => Ok(v as i32),
        Err(e) => Err(e),
    }
}


/// The decimal digit character for `d < 10`.
pub fn digit_of(d: u64) -> (c: char)
    requires
        d < 10,
    ensures
        c == digit_char(d as int),
{
    ((d as u8) + 48u8) as char
}

/// The shortest decimal numeral of `n`.
pub fn decimal_chars(n: u64) -> (r: Vec<char>)
    ensures
        r@ == decimal(n as nat),
    decreases n,
{
    if n < 10 {
        let mut r: Vec<char> = Vec::new();
        r.push(digit_of(n));
        assert(r@ =~= seq![digit_char(n as int)]);
        r
    } else {
        let mut r = decimal_chars(n / 10);
        r.push(digit_of(n % 10));
        r
    }
}

/// The shortest decimal numeral of `n`, as a string.
pub fn decimal_string(n: u64) -> (s: String)
    ensures
        s@ == decimal(n as nat),
{
    let cs = decimal_chars(n);
    string_of(cs.as_slice())
}

/// A decimal numeral consists of digits and denotes the number it was made from.
pub proof fn lemma_decimal_digits(n: nat)
    ensures
        decimal(n).len() >= 1,
        forall|i: int| 0 <= i < decimal(n).len() ==> is_digit(#[trigger] decimal(n)[i]),
        digits_value(decimal(n)) == n,
    decreases n,
{
    let c = digit_char((n % 10) as int);
    assert(digit_value(c) == n % 10);
    if n < 10 {
        assert(decimal(n).drop_last() =~= Seq::<char>::empty());
        assert(decimal(n).last() == c);
        assert(digits_value(decimal(n)) == 10 * digits_value(decimal(n).drop_last()) + digit_value(c));
    } else {
        assert(n == 10 * (n / 10) + n % 10);
        lemma_decimal_digits(n / 10);
        let p = decimal(n / 10);
        assert(decimal(n).drop_last() =~= p);
        assert(decimal(n).last() == c);
        assert(digits_value(decimal(n)) == 10 * digits_value(p) + digit_value(c));
        assert forall|i: int| 0 <= i < decimal(n).len() implies is_digit(#[trigger] decimal(n)[i]) by {
            if i < p.len() {
                assert(decimal(n)[i] == p[i]);
            }
        }
    }
}

/// Reading back the decimal numeral of a number gives the number:
/// `decimal_chars` and `parse_i64`/`parse_i32` are inverse on the
/// non-negative values of the target type.
pub proof fn lemma_decimal_reads_back(n: nat, lo: int, hi: int)
    requires
        lo <= 0,
        n <= hi,
    ensures
        int_reading(decimal(n), lo, hi) == Ok::<int, IntErrorKind>(n as int),
{
    lemma_decimal_digits(n);
    let d = decimal(n);
    assert(is_digit(d[0]));
    lemma_first_non_digit_at(d, 0, d.len() as int);
    assert(d.take(d.len() as int) =~= d);
}

/// The value that an optional sign and digits denote.
pub open spec fn signed_value(sign: Seq<char>, d: Seq<char>) -> int {
    if sign == seq!['-'] {
        -digits_value(d)
    } else {
        digits_value(d)
    }
}

/// Every optional sign followed by one or more digits reads as the number it
/// denotes, when that number is in range.
pub proof fn lemma_int_grammar_accepted(sign: Seq<char>, d: Seq<char>, lo: int, hi: int)
    requires
        optional_sign(sign),
        all_digits(d),
        d.len() > 0,
        lo <= 0 <= hi,
        lo <= signed_value(sign, d) <= hi,
    ensures
        int_reading(sign + d, lo, hi) == Ok::<int, IntErrorKind>(signed_value(sign, d)),
{
    let s = sign + d;
    lemma_first_non_digit_at(d, 0, d.len() as int);
    assert(d.take(d.len() as int) =~= d);
    if sign.len() == 0 {
        assert(s =~= d);
        assert(is_digit(d[0]));
    } else {
        assert(s[0] == sign[0]);
        assert(s.drop_first() =~= d);
    }
}

/// Every text that reads as an integer is an optional sign followed by one
/// or more digits, and reads as the number they denote.
pub proof fn lemma_int_reading_has_grammar(s: Seq<char>, lo: int, hi: int)
    requires
        int_reading(s, lo, hi) is Ok,
    ensures
        exists|sign: Seq<char>, d: Seq<char>|
            optional_sign(sign) && all_digits(d) && d.len() > 0 && s == sign + d
                && int_reading(s, lo, hi) == Ok::<int, IntErrorKind>(#[trigger] signed_value(sign, d)),
{
    let n0: int = if s[0] == '+' || s[0] == '-' { 1 } else { 0 };
    let sign = s.take(n0);
    let d = s.skip(n0);
    assert(s =~= sign + d);
    if n0 == 1 {
        assert(sign =~= seq![s[0]]);
        assert(s.drop_first() =~= d);
    } else {
        assert(sign =~= Seq::<char>::empty());
        assert(s =~= d);
    }
    lemma_first_non_digit_facts(d, 0);
    assert(d.take(d.len() as int) =~= d);
    assert(signed_value(sign, d) == digits_value(d) || signed_value(sign, d) == -digits_value(d));
}


/// `c` with an ASCII capital letter replaced by its small letter.
pub open spec fn ascii_lower(c: char) -> char {
    if 'A' <= c && c <= 'Z' {
        ((c as int) + 32) as char
    } else {
        c
    }
}

/// `s` with its ASCII capital letters made small.
pub open spec fn lowercase(s: Seq<char>) -> Seq<char> {
    Seq::new(s.len(), |i: int| ascii_lower(s[i]))
}

/// Whether `c` is a sign.
pub open spec fn is_sign(c: char) -> bool {
    c == '+' || c == '-'
}

/// `t` without a leading sign.
pub open spec fn unsigned_part(t: Seq<char>) -> Seq<char> {
    if t.len() > 0 && is_sign(t[0]) {
        t.drop_first()
    } else {
        t
    }
}

/// `Exp ::= 'e' Sign? Digit+`, with the `e` already taken: an optional sign
/// followed by one or more digits and nothing else.
pub open spec fn is_exponent_digits(e: Seq<char>) -> bool {
    let k: int = if e.len() > 0 && is_sign(e[0]) { 1 } else { 0 };
    let r = first_non_digit(e, k);
    r > k && r == e.len()
}

/// `Number ::= ( Digit+ | Digit+ '.' Digit* | Digit* '.' Digit+ ) Exp?`:
/// digits, an optional point with digits after it, at least one digit in
/// all, then either the end or an exponent.
pub open spec fn is_decimal_number(b: Seq<char>) -> bool {
    let i = first_non_digit(b, 0);
    let point = i < b.len() && b[i] == '.';
    let j = if point { first_non_digit(b, i + 1) } else { i };
    let fraction_digits = if point { j - (i + 1) } else { 0 };
    &&& i > 0 || fraction_digits > 0
    &&& j == b.len() || (b[j] == 'e' && is_exponent_digits(b.subrange(j + 1, b.len() as int)))
}

/// The texts that `str::parse::<f64>` (and `::<f32>`) accept, as their
/// documentation gives the grammar, matched after lowercasing:
/// `Float ::= Sign? ( 'inf' | 'infinity' | 'nan' | Number )`.
/// No white space is allowed around the literal. Only ASCII letters occur in
/// the grammar, and no other character lowercases to one of its letters, so
/// lowercasing the ASCII letters is enough.
pub open spec fn is_float_literal(s: Seq<char>) -> bool {
    let b = unsigned_part(lowercase(s));
    ||| b == seq!['i', 'n', 'f']
    ||| b == seq!['i', 'n', 'f', 'i', 'n', 'i', 't', 'y']
    ||| b == seq!['n', 'a', 'n']
    ||| is_decimal_number(b)
}

/// Whether every character of `d` is a decimal digit.
pub open spec fn all_digits(d: Seq<char>) -> bool {
    forall|i: int| 0 <= i < d.len() ==> is_digit(#[trigger] d[i])
}

/// Whether `s` is an optional sign: nothing, `+` or `-`.
pub open spec fn optional_sign(s: Seq<char>) -> bool {
    s.len() == 0 || s == seq!['+'] || s == seq!['-']
}

/// The text that `std`'s float grammar builds from its parts:
/// `Sign? Digit* ('.' Digit*)? ([eE] Sign? Digit+)?`, laid side by side.
pub open spec fn float_text_of(
    sign: Seq<char>,
    int_digits: Seq<char>,
    point: bool,
    frac_digits: Seq<char>,
    exp: Option<(char, Seq<char>, Seq<char>)>,
) -> Seq<char> {
    sign + int_digits + (if point { seq!['.'] } else { Seq::<char>::empty() }) + frac_digits + match exp {
        Some((e, es, ed)) => seq![e] + es + ed,
        None => Seq::<char>::empty(),
    }
}

/// Lowercasing goes character by character.
proof fn lemma_lowercase_concat(x: Seq<char>, y: Seq<char>)
    ensures
        lowercase(x + y) == lowercase(x) + lowercase(y),
{
    assert(lowercase(x + y) =~= lowercase(x) + lowercase(y));
}

/// Text without ASCII capitals lowercases to itself.
proof fn lemma_lowercase_plain(x: Seq<char>)
    requires
        forall|i: int| 0 <= i < x.len() ==> !('A' <= #[trigger] x[i] && x[i] <= 'Z'),
    ensures
        lowercase(x) == x,
{
    assert(lowercase(x) =~= x);
}

/// Whether the parts make a `Number` of `std`'s float grammar with an
/// optional sign: digits with at least one digit in all, a point before any
/// fraction digits, and an exponent of `e` or `E`, an optional sign and at
/// least one digit.
pub open spec fn float_parts(
    sign: Seq<char>,
    int_digits: Seq<char>,
    point: bool,
    frac_digits: Seq<char>,
    exp: Option<(char, Seq<char>, Seq<char>)>,
) -> bool {
    &&& optional_sign(sign)
    &&& all_digits(int_digits)
    &&& all_digits(frac_digits)
    &&& point || frac_digits.len() == 0
    &&& int_digits.len() > 0 || frac_digits.len() > 0
    &&& exp matches Some((e, es, ed)) ==> (e == 'e' || e == 'E') && optional_sign(es) && all_digits(ed) && ed.len() > 0
}

/// The mantissa part of a float text: integer digits, an optional point,
/// fraction digits.
pub open spec fn mantissa_of(int_digits: Seq<char>, point: bool, frac_digits: Seq<char>) -> Seq<char> {
    int_digits + (if point { seq!['.'] } else { Seq::<char>::empty() }) + frac_digits
}

/// The exponent part of a float text with its marker lowercased.
pub open spec fn lowered_exponent(exp: Option<(char, Seq<char>, Seq<char>)>) -> Seq<char> {
    match exp {
        Some((e, es, ed)) => seq!['e'] + es + ed,
        None => Seq::<char>::empty(),
    }
}

/// Lowercasing a float text only lowers its exponent marker.
proof fn lemma_lowercase_float_text(
    sign: Seq<char>,
    int_digits: Seq<char>,
    point: bool,
    frac_digits: Seq<char>,
    exp: Option<(char, Seq<char>, Seq<char>)>,
)
    requires
        optional_sign(sign),
        all_digits(int_digits),
        all_digits(frac_digits),
        exp matches Some((e, es, ed)) ==> (e == 'e' || e == 'E') && optional_sign(es) && all_digits(ed),
    ensures
        lowercase(float_text_of(sign, int_digits, point, frac_digits, exp))
            == sign + (mantissa_of(int_digits, point, frac_digits) + lowered_exponent(exp)),
{
    let mant = mantissa_of(int_digits, point, frac_digits);
    let tail: Seq<char> = match exp {
        Some((e, es, ed)) => seq![e] + es + ed,
        None => Seq::<char>::empty(),
    };
    assert(float_text_of(sign, int_digits, point, frac_digits, exp) =~= sign + (mant + tail));
    lemma_lowercase_plain(sign);
    assert forall|i: int| 0 <= i < mant.len() implies !('A' <= #[trigger] mant[i] && mant[i] <= 'Z') by {
        if i < int_digits.len() {
            assert(mant[i] == int_digits[i]);
        } else if point && i == int_digits.len() {
            assert(mant[i] == '.');
        } else {
            let d: int = if point { int_digits.len() + 1int } else { int_digits.len() as int };
            assert(mant[i] == frac_digits[i - d]);
        }
    }
    lemma_lowercase_plain(mant);
    lemma_lowercase_concat(sign, mant + tail);
    lemma_lowercase_concat(mant, tail);
    match exp {
        Some((e, es, ed)) => {
            lemma_lowercase_plain(es);
            lemma_lowercase_plain(ed);
            lemma_lowercase_concat(seq![e] + es, ed);
            lemma_lowercase_concat(seq![e], es);
            assert(lowercase(seq![e]) =~= seq!['e']);
        },
        None => {
            assert(lowercase(tail) =~= tail);
        },
    }
}

/// A mantissa of the grammar followed by a lowered exponent of the grammar
/// is a `Number`.
proof fn lemma_grammar_number(
    int_digits: Seq<char>,
    point: bool,
    frac_digits: Seq<char>,
    exp: Option<(char, Seq<char>, Seq<char>)>,
)
    requires
        all_digits(int_digits),
        all_digits(frac_digits),
        point || frac_digits.len() == 0,
        int_digits.len() > 0 || frac_digits.len() > 0,
        exp matches Some((e, es, ed)) ==> optional_sign(es) && all_digits(ed) && ed.len() > 0,
    ensures
        is_decimal_number(mantissa_of(int_digits, point, frac_digits) + lowered_exponent(exp)),
{
    let mant = mantissa_of(int_digits, point, frac_digits);
    let ltail = lowered_exponent(exp);
    let lcore = mant + ltail;
    let a: int = int_digits.len() as int;
    let f: int = frac_digits.len() as int;
    let p: int = if point { 1 } else { 0 };
    let mend = a + p + f;
    assert(mant.len() == mend);
    assert forall|m: int| 0 <= m < a implies is_digit(#[trigger] lcore[m]) by {
        assert(lcore[m] == int_digits[m]);
    }
    if ltail.len() > 0 {
        assert(lcore[mend] == 'e');
    }
    if point {
        assert(lcore[a] == '.');
        lemma_first_non_digit_at(lcore, 0, a);
        assert forall|m: int| a + 1 <= m < a + 1 + f implies is_digit(#[trigger] lcore[m]) by {
            assert(lcore[m] == frac_digits[m - a - 1]);
        }
        lemma_first_non_digit_at(lcore, a + 1, a + 1 + f);
    } else {
        lemma_first_non_digit_at(lcore, 0, a);
    }
    match exp {
        Some((e, es, ed)) => {
            let ex = lcore.subrange(mend + 1, lcore.len() as int);
            assert(ex =~= es + ed);
            let k: int = es.len() as int;
            if k == 0 {
                assert(ex[0] == ed[0]);
            } else {
                assert(ex[0] == es[0]);
            }
            assert forall|m: int| k <= m < ex.len() implies is_digit(#[trigger] ex[m]) by {
                assert(ex[m] == ed[m - k]);
            }
            lemma_first_non_digit_at(ex, k, ex.len() as int);
            assert(is_exponent_digits(ex));
        },
        None => {},
    }
}

/// Every text that `std`'s float grammar
/// `Sign? ( Digit+ | Digit+ '.' Digit* | Digit* '.' Digit+ ) ( [eE] Sign? Digit+ )?`
/// produces is a floating-point literal: any mantissa, with or without a
/// point, followed by any exponent marker, any exponent sign and any number
/// of exponent digits.
pub proof fn lemma_float_grammar_accepted(
    sign: Seq<char>,
    int_digits: Seq<char>,
    point: bool,
    frac_digits: Seq<char>,
    exp: Option<(char, Seq<char>, Seq<char>)>,
)
    requires
        float_parts(sign, int_digits, point, frac_digits, exp),
    ensures
        is_float_literal(float_text_of(sign, int_digits, point, frac_digits, exp)),
{
    lemma_lowercase_float_text(sign, int_digits, point, frac_digits, exp);
    lemma_grammar_number(int_digits, point, frac_digits, exp);
    let lcore = mantissa_of(int_digits, point, frac_digits) + lowered_exponent(exp);
    if int_digits.len() > 0 {
        assert(lcore[0] == int_digits[0]);
    } else {
        assert(lcore[0] == '.');
    }
    if sign.len() == 0 {
        assert(sign + lcore =~= lcore);
    } else {
        assert((sign + lcore).drop_first() =~= lcore);
    }
    assert(unsigned_part(sign + lcore) == lcore);
}

/// An optional sign followed by a word.
pub open spec fn signed_word(sign: Seq<char>, w: Seq<char>) -> Seq<char> {
    sign + w
}

/// Whether `w` is `inf`, `infinity` or `nan`, in any case.
pub open spec fn is_special_float_word(w: Seq<char>) -> bool {
    let l = lowercase(w);
    ||| l == seq!['i', 'n', 'f']
    ||| l == seq!['i', 'n', 'f', 'i', 'n', 'i', 't', 'y']
    ||| l == seq!['n', 'a', 'n']
}

/// Whether `s` is a text of `std`'s float grammar:
/// `Sign? ( 'inf' | 'infinity' | 'nan' | Number )` with the words in any
/// case, `Number ::= ( Digit+ | Digit+ '.' Digit* | Digit* '.' Digit+ ) Exp?`
/// and `Exp ::= [eE] Sign? Digit+`.
pub open spec fn float_grammar(s: Seq<char>) -> bool {
    ||| exists|sign: Seq<char>, w: Seq<char>|
        optional_sign(sign) && is_special_float_word(w) && s == #[trigger] signed_word(sign, w)
    ||| exists|sign: Seq<char>, a: Seq<char>, point: bool, f: Seq<char>, exp: Option<(char, Seq<char>, Seq<char>)>|
        float_parts(sign, a, point, f, exp) && s == #[trigger] float_text_of(sign, a, point, f, exp)
}

/// Lowercasing a character keeps digits, points and signs, and yields `e`
/// only from `e` or `E`.
proof fn lemma_ascii_lower_keeps(c: char)
    ensures
        is_digit(ascii_lower(c)) ==> c == ascii_lower(c),
        ascii_lower(c) == '.' ==> c == '.',
        is_sign(ascii_lower(c)) ==> c == ascii_lower(c),
        is_sign(c) ==> ascii_lower(c) == c,
        ascii_lower(c) == 'e' ==> c == 'e' || c == 'E',
{
    if 'A' <= c && c <= 'Z' {
        assert('a' <= ascii_lower(c) && ascii_lower(c) <= 'z');
    }
}

/// Where a run of digits from `i` ends: all digits before, a non-digit (or
/// the end) there.
proof fn lemma_first_non_digit_facts(d: Seq<char>, i: int)
    requires
        0 <= i <= d.len(),
    ensures
        i <= first_non_digit(d, i) <= d.len(),
        forall|m: int| i <= m < first_non_digit(d, i) ==> is_digit(#[trigger] d[m]),
        first_non_digit(d, i) < d.len() ==> !is_digit(d[first_non_digit(d, i)]),
    decreases d.len() - i,
{
    if i < d.len() && is_digit(d[i]) {
        lemma_first_non_digit_facts(d, i + 1);
    }
}

/// Characters that lowercase to digits are those digits.
proof fn lemma_digits_before_lowering(w: Seq<char>, lo: int, hi: int)
    requires
        0 <= lo <= hi <= w.len(),
        forall|m: int| lo <= m < hi ==> is_digit(#[trigger] lowercase(w)[m]),
    ensures
        forall|m: int| lo <= m < hi ==> is_digit(#[trigger] w[m]),
        all_digits(w.subrange(lo, hi)),
{
    assert forall|m: int| lo <= m < hi implies is_digit(#[trigger] w[m]) by {
        assert(is_digit(lowercase(w)[m]));
        lemma_ascii_lower_keeps(w[m]);
    }
    let d = w.subrange(lo, hi);
    assert forall|m: int| 0 <= m < d.len() implies is_digit(#[trigger] d[m]) by {
        assert(d[m] == w[lo + m]);
    }
}

/// The exponent after position `j` of a literal's lowered body `b`, split
/// into its sign and digits as they stand in the body `w`.
proof fn lemma_exponent_parts(w: Seq<char>, j: int)
    requires
        0 <= j < w.len(),
        is_exponent_digits(lowercase(w).subrange(j + 1, w.len() as int)),
    ensures
        ({
            let ex = lowercase(w).subrange(j + 1, w.len() as int);
            let k: int = if ex.len() > 0 && is_sign(ex[0]) { 1 } else { 0 };
            &&& j + 1 + k <= w.len()
            &&& optional_sign(w.subrange(j + 1, j + 1 + k))
            &&& all_digits(w.subrange(j + 1 + k, w.len() as int))
            &&& w.subrange(j + 1 + k, w.len() as int).len() > 0
        }),
{
    let b = lowercase(w);
    let ex = b.subrange(j + 1, w.len() as int);
    let k: int = if ex.len() > 0 && is_sign(ex[0]) { 1 } else { 0 };
    lemma_first_non_digit_facts(ex, k);
    if k == 1 {
        assert(ex[0] == b[j + 1]);
        lemma_ascii_lower_keeps(w[j + 1]);
        assert(w.subrange(j + 1, j + 2) =~= seq![w[j + 1]]);
    } else {
        assert(w.subrange(j + 1, j + 1) =~= Seq::<char>::empty());
    }
    assert forall|m: int| j + 1 + k <= m < w.len() implies is_digit(#[trigger] b[m]) by {
        assert(ex[m - j - 1] == b[m]);
    }
    lemma_digits_before_lowering(w, j + 1 + k, w.len() as int);
}

/// The parts of a literal that is a `Number` after its sign.
#[verifier::rlimit(30)]
proof fn lemma_number_has_parts(s: Seq<char>, sign: Seq<char>, w: Seq<char>)
    requires
        optional_sign(sign),
        s == sign + w,
        is_decimal_number(lowercase(w)),
    ensures
        exists|a: Seq<char>, point: bool, f: Seq<char>, exp: Option<(char, Seq<char>, Seq<char>)>|
            float_parts(sign, a, point, f, exp) && s == #[trigger] float_text_of(sign, a, point, f, exp),
{
    let b = lowercase(w);
    lemma_first_non_digit_facts(b, 0);
    let i = first_non_digit(b, 0);
    let point = i < b.len() && b[i] == '.';
    if i < b.len() {
        lemma_ascii_lower_keeps(w[i]);
    }
    if point {
        lemma_first_non_digit_facts(b, i + 1);
    }
    let j = if point { first_non_digit(b, i + 1) } else { i };
    lemma_digits_before_lowering(w, 0, i);
    let a = w.subrange(0, i);
    let f: Seq<char> = if point { w.subrange(i + 1, j) } else { Seq::<char>::empty() };
    if point {
        lemma_digits_before_lowering(w, i + 1, j);
    }
    let pt: Seq<char> = if point { seq!['.'] } else { Seq::<char>::empty() };
    assert(w.subrange(0, j) =~= a + pt + f);
    if j == b.len() {
        let exp: Option<(char, Seq<char>, Seq<char>)> = None;
        assert(w =~= w.subrange(0, j));
        assert(s =~= float_text_of(sign, a, point, f, exp));
        assert(float_parts(sign, a, point, f, exp));
    } else {
        assert(b[j] == 'e');
        lemma_ascii_lower_keeps(w[j]);
        lemma_exponent_parts(w, j);
        let ex = b.subrange(j + 1, b.len() as int);
        let k: int = if ex.len() > 0 && is_sign(ex[0]) { 1 } else { 0 };
        let es = w.subrange(j + 1, j + 1 + k);
        let ed = w.subrange(j + 1 + k, w.len() as int);
        let exp = Some((w[j], es, ed));
        assert(w =~= w.subrange(0, j) + (seq![w[j]] + es + ed));
        assert(s =~= float_text_of(sign, a, point, f, exp));
        assert(float_parts(sign, a, point, f, exp));
    }
}

/// The floating-point literals are exactly the texts of `std`'s float
/// grammar: every text the grammar produces is accepted, and every
/// accepted text is one the grammar produces.
pub proof fn lemma_float_literal_iff_grammar(s: Seq<char>)
    ensures
        is_float_literal(s) <==> float_grammar(s),
{
    if float_grammar(s) {
        if exists|sign: Seq<char>, w: Seq<char>|
            optional_sign(sign) && is_special_float_word(w) && s == #[trigger] signed_word(sign, w) {
            let (sign, w) = choose|sign: Seq<char>, w: Seq<char>|
                optional_sign(sign) && is_special_float_word(w) && s == #[trigger] signed_word(sign, w);
            lemma_lowercase_plain(sign);
            lemma_lowercase_concat(sign, w);
            let l = lowercase(w);
            assert(l[0] == 'i' || l[0] == 'n');
            if sign.len() == 0 {
                assert(sign + l =~= l);
            } else {
                assert((sign + l).drop_first() =~= l);
            }
            assert(unsigned_part(lowercase(s)) == l);
        } else {
            let (sign, a, point, f, exp) = choose|sign: Seq<char>, a: Seq<char>, point: bool, f: Seq<char>, exp: Option<(char, Seq<char>, Seq<char>)>|
                float_parts(sign, a, point, f, exp) && s == #[trigger] float_text_of(sign, a, point, f, exp);
            lemma_float_grammar_accepted(sign, a, point, f, exp);
        }
    }
    if is_float_literal(s) {
        let n0: int = if s.len() > 0 && is_sign(s[0]) { 1 } else { 0 };
        let sign = s.take(n0);
        let w = s.skip(n0);
        assert(s =~= sign + w);
        if n0 == 1 {
            assert(sign =~= seq![s[0]]);
        } else {
            assert(sign =~= Seq::<char>::empty());
        }
        lemma_lowercase_plain(sign);
        lemma_lowercase_concat(sign, w);
        if s.len() > 0 {
            lemma_ascii_lower_keeps(s[0]);
            assert(lowercase(s)[0] == ascii_lower(s[0]));
        }
        if n0 == 1 {
            assert(lowercase(s).drop_first() =~= lowercase(w));
        } else {
            assert(lowercase(s) == lowercase(w));
        }
        assert(unsigned_part(lowercase(s)) == lowercase(w));
        if is_special_float_word(w) {
            assert(s == signed_word(sign, w));
        } else {
            lemma_number_has_parts(s, sign, w);
        }
    }
}

/// The message with which `std` describes a rejected floating-point text.
pub open spec fn float_error_text(s: Seq<char>) -> Seq<char> {
    if s.len() == 0 {
        "cannot parse float from empty string"@
    } else {
        "invalid float literal"@
    }
}

/// The end of the run of digits in `t` that starts at `i`.
fn digit_run(t: &[char], i: usize) -> (r: usize)
    requires
        i <= t@.len(),
    ensures
        r == first_non_digit(t@, i as int),
        i <= r <= t@.len(),
{
    let mut k = i;
    while k < t.len() && '0' <= t[k] && t[k] <= '9'
        invariant
            i <= k <= t@.len(),
            first_non_digit(t@, i as int) == first_non_digit(t@, k as int),
        decreases t@.len() - k,
    {
        k = k + 1;
    }
    k
}

/// Whether `t[from..]` is exactly the characters `word`.
fn rest_equals(t: &[char], from: usize, word: &[char]) -> (b: bool)
    requires
        from <= t@.len(),
    ensures
        b == (t@.subrange(from as int, t@.len() as int) == word@),
{
    let n = t.len();
    if n - from != word.len() {
        proof {
            assert(t@.subrange(from as int, t@.len() as int).len() != word@.len());
        }
        return false;
    }
    let mut k: usize = 0;
    while k < word.len()
        invariant
            n == t@.len(),
            from + word@.len() == n,
            k <= word@.len(),
            forall|m: int| 0 <= m < k ==> t@[from + m] == word@[m],
        decreases word@.len() - k,
    {
        if t[from + k] != word[k] {
            proof {
                assert(t@.subrange(from as int, t@.len() as int)[k as int] != word@[k as int]);
            }
            return false;
        }
        k = k + 1;
    }
    assert(t@.subrange(from as int, t@.len() as int) =~= word@);
    true
}

/// `s` with its ASCII capital letters made small.
fn lowercase_chars(s: &[char]) -> (t: Vec<char>)
    ensures
        t@ == lowercase(s@),
{
    let mut t: Vec<char> = Vec::new();
    let mut i: usize = 0;
    while i < s.len()
        invariant
            i <= s@.len(),
            t@ == lowercase(s@).take(i as int),
        decreases s@.len() - i,
    {
        let c = s[i];
        let l = if 'A' <= c && c <= 'Z' { (((c as u32) + 32) as u8) as char } else { c };
        t.push(l);
        i = i + 1;
        assert(t@ =~= lowercase(s@).take(i as int));
    }
    assert(t@ =~= lowercase(s@));
    t
}

/// Whether `t[start..]` matches `Number`.
fn is_number_from(t: &[char], start: usize) -> (ok: bool)
    requires
        start <= t@.len(),
    ensures
        ok == is_decimal_number(t@.subrange(start as int, t@.len() as int)),
{
    let ghost b = t@.subrange(start as int, t@.len() as int);
    let n = t.len();
    let i = digit_run(t, start);
    let point = i < n && t[i] == '.';
    let j = if point { digit_run(t, i + 1) } else { i };
    proof {
        lemma_first_non_digit_shift_at(t@, start as int, start as int);
        assert(first_non_digit(b, 0) == i - start);
        if i < n {
            assert(b[i - start] == t@[i as int]);
        }
        if point {
            lemma_first_non_digit_shift_at(t@, start as int, i + 1);
            assert(first_non_digit(b, i - start + 1) == j - start);
        }
    }
    let digits_seen = i > start || (point && j > i + 1);
    if !digits_seen {
        return false;
    }
    if j == n {
        return true;
    }
    proof {
        assert(b[j - start] == t@[j as int]);
    }
    if t[j] != 'e' {
        return false;
    }
    let k: usize = if j + 1 < n && (t[j + 1] == '+' || t[j + 1] == '-') { j + 2 } else { j + 1 };
    let r = digit_run(t, k);
    proof {
        let e = b.subrange((j - start) + 1, b.len() as int);
        assert(e =~= t@.subrange(j + 1, t@.len() as int));
        if e.len() > 0 {
            assert(e[0] == t@[j + 1]);
        }
        lemma_first_non_digit_shift_at(t@, j + 1, k as int);
    }
    r > k && r == n
}

/// Whether `s` is a floating-point literal that `str::parse::<f64>` accepts.
pub fn is_float_text(s: &[char]) -> (b: bool)
    ensures
        b == is_float_literal(s@),
{
    let t = lowercase_chars(s);
    let start: usize = if t.len() > 0 && (t[0] == '+' || t[0] == '-') { 1 } else { 0 };
    assert(unsigned_part(t@) =~= t@.subrange(start as int, t@.len() as int));
    if rest_equals(&t, start, &['i', 'n', 'f']) {
        return true;
    }
    if rest_equals(&t, start, &['i', 'n', 'f', 'i', 'n', 'i', 't', 'y']) {
        return true;
    }
    if rest_equals(&t, start, &['n', 'a', 'n']) {
        return true;
    }
    is_number_from(&t, start)
}

/// Runs of digits in a suffix of `t` sit at the same places as in `t`.
pub proof fn lemma_first_non_digit_shift(t: Seq<char>, start: int, r: int)
    requires
        0 <= start <= t.len(),
        start <= r,
    ensures
        forall|p: int| start <= p <= t.len() ==>
            first_non_digit(t.subrange(start, t.len() as int), p - start)
                == first_non_digit(t, p) - start,
{
    assert forall|p: int| start <= p <= t.len() implies
        first_non_digit(t.subrange(start, t.len() as int), p - start)
            == first_non_digit(t, p) - start by {
        lemma_first_non_digit_shift_at(t, start, p);
    }
}

/// Runs of digits in a suffix of `t` sit at the same places as in `t`, at one position.
pub proof fn lemma_first_non_digit_shift_at(t: Seq<char>, start: int, p: int)
    requires
        0 <= start <= p <= t.len(),
    ensures
        first_non_digit(t.subrange(start, t.len() as int), p - start) == first_non_digit(t, p) - start,
    decreases t.len() - p,
{
    let u = t.subrange(start, t.len() as int);
    if p < t.len() {
        assert(u[p - start] == t[p]);
        if is_digit(t[p]) {
            lemma_first_non_digit_shift_at(t, start, p + 1);
        }
    }
}

} // verus!
