//! Reading single fields of a catalog row: cutting, trimming and typed values.
use vstd::prelude::*;
use vstd::utf8::*;
use crate::number::{float_error_text, int_error_text, int_reading, is_float_literal, is_float_text, lowercase, parse_i32, parse_i64, IntErrorKind};
use crate::text::{chars_of, string_of, trim, trim_chars};

verus! {

/// A floating-point literal that `str::parse::<f64>` (and `::<f32>`) accepts,
/// kept as text. Converting it to a float is left to the caller, since the
/// library computes no floating-point values.
pub struct FloatText {
    text: String,
}

impl View for FloatText {
    type V = Seq<char>;

    closed spec fn view(&self) -> Seq<char> {
        self.text@
    }
}

impl FloatText {
    #[verifier::type_invariant]
    spec fn is_literal(self) -> bool {
        is_float_literal(self.text@)
    }

    /// The literal `cs`, if `cs` is one.
    pub fn from_chars(cs: &[char]) -> (r: Option<FloatText>)
        ensures
            r is Some <==> is_float_literal(cs@),
            r matches Some(f) ==> f@ == cs@,
    {
        if is_float_text(cs) {
            Some(FloatText { text: string_of(cs) })
        } else {
            None
        }
    }

    /// The text of the literal.
    pub fn as_str(&self) -> (s: &str)
        ensures
            s@ == self@,
            is_float_literal(s@),
    {
        proof {
            use_type_invariant(self);
        }
        self.text.as_str()
    }
}

/// A value that a field of a catalog row can hold, read from the field's text
/// as `str::parse` reads it.
pub trait FieldValue: Sized {
    /// Whether `text` is the text of some value of this type.
    spec fn readable(text: Seq<char>) -> bool;

    /// Whether `text` is the text of `value`.
    spec fn denotes(text: Seq<char>, value: Self) -> bool;

    /// How `str::parse` describes why `text` is not the text of a value.
    spec fn why_unreadable(text: Seq<char>) -> Seq<char>;

    /// The value that `text` denotes, or why it denotes none.
    fn read_value(text: &[char]) -> (r: Result<Self, &'static str>)
        ensures
            r is Ok <==> Self::readable(text@),
            r matches Ok(v) ==> Self::denotes(text@, v),
            r matches Err(m) ==> m@ == Self::why_unreadable(text@),
    ;
}

/// The message for a rejected integer text, or nothing for an integer.
pub open spec fn int_rejection_text(text: Seq<char>, lo: int, hi: int) -> Seq<char> {
    match int_reading(text, lo, hi) {
        Err(e) => int_error_text(e),
        Ok(_) => Seq::empty(),
    }
}

impl FieldValue for i64 {
    open spec fn readable(text: Seq<char>) -> bool {
        int_reading(text, i64::MIN as int, i64::MAX as int) is Ok
    }

    open spec fn denotes(text: Seq<char>, value: i64) -> bool {
        int_reading(text, i64::MIN as int, i64::MAX as int) == Ok::<int, IntErrorKind>(value as int)
    }

    open spec fn why_unreadable(text: Seq<char>) -> Seq<char> {
        int_rejection_text(text, i64::MIN as int, i64::MAX as int)
    }

    fn read_value(text: &[char]) -> (r: Result<i64, &'static str>) {
        match parse_i64(text) {
            Ok(v) => Ok(v),
            Err(e) => Err(e.text()),
        }
    }
}

impl FieldValue for i32 {
    open spec fn readable(text: Seq<char>) -> bool {
        int_reading(text, i32::MIN as int, i32::MAX as int) is Ok
    }

    open spec fn denotes(text: Seq<char>, value: i32) -> bool {
        int_reading(text, i32::MIN as int, i32::MAX as int) == Ok::<int, IntErrorKind>(value as int)
    }

    open spec fn why_unreadable(text: Seq<char>) -> Seq<char> {
        int_rejection_text(text, i32::MIN as int, i32::MAX as int)
    }

    fn read_value(text: &[char]) -> (r: Result<i32, &'static str>) {
        match parse_i32(text) {
            Ok(v) => Ok(v),
            Err(e) => Err(e.text()),
        }
    }
}

impl FieldValue for FloatText {
    open spec fn readable(text: Seq<char>) -> bool {
        is_float_literal(text)
    }

    open spec fn denotes(text: Seq<char>, value: FloatText) -> bool {
        value@ == text
    }

    open spec fn why_unreadable(text: Seq<char>) -> Seq<char> {
        float_error_text(text)
    }

    fn read_value(text: &[char]) -> (r: Result<FloatText, &'static str>) {
        match FloatText::from_chars(text) {
            Some(v) => Ok(v),
            None => Err(float_error_str(text)),
        }
    }
}

/// What an optional field holds: nothing when its trimmed text is empty,
/// otherwise the value that text denotes, if it denotes one.
pub open spec fn optional_reading<T: FieldValue>(s: Seq<char>, r: Option<T>) -> bool {
    let t = trim(s);
    if t.len() == 0 {
        r is None
    } else {
        &&& (r is Some <==> T::readable(t))
        &&& (r matches Some(v) ==> T::denotes(t, v))
    }
}

/// What an optional text field holds: nothing when its trimmed text is empty,
/// the trimmed text otherwise.
pub open spec fn text_reading(s: Seq<char>, r: Option<String>) -> bool {
    &&& (r is None <==> trim(s).len() == 0)
    &&& (r matches Some(v) ==> v@ == trim(s))
}

/// Reads an optional field given as characters.
pub fn parse_optional_chars<T: FieldValue>(s: &[char]) -> (r: Option<T>)
    ensures
        optional_reading(s@, r),
{
    let t = trim_chars(s);
    if t.len() == 0 {
        None
    } else {
        match T::read_value(&t) {
            Ok(v) => Some(v),
            Err(_) => None,
        }
    }
}

/// Reads an optional field: `None` for blank text or text that is not a value
/// of `T`, the value otherwise.
pub fn parse_optional<T: FieldValue>(s: &str) -> (r: Option<T>)
    ensures
        optional_reading(s@, r),
{
    let cs = chars_of(s);
    parse_optional_chars(&cs)
}

/// Reads an optional text field given as characters.
pub fn parse_optional_string_chars(s: &[char]) -> (r: Option<String>)
    ensures
        text_reading(s@, r),
{
    let t = trim_chars(s);
    if t.len() == 0 {
        None
    } else {
        Some(string_of(&t))
    }
}

/// Reads an optional text field: `None` for blank text, the trimmed text otherwise.
pub fn parse_optional_string(s: &str) -> (r: Option<String>)
    ensures
        text_reading(s@, r),
{
    let cs = chars_of(s);
    parse_optional_string_chars(&cs)
}

/// Whether a flag field says yes: its trimmed text, lowercased, is one of
/// `1`, `true`, `yes`, `y`. (Only ASCII letters lowercase to the letters of
/// these words, so lowercasing the ASCII letters decides as full Unicode
/// lowercasing does.)
pub open spec fn says_yes(s: Seq<char>) -> bool {
    let t = lowercase(trim(s));
    ||| t == seq!['1']
    ||| t == seq!['t', 'r', 'u', 'e']
    ||| t == seq!['y', 'e', 's']
    ||| t == seq!['y']
}

/// Whether `a` and `b` hold the same characters.
pub fn same_chars(a: &[char], b: &[char]) -> (r: bool)
    ensures
        r == (a@ == b@),
{
    if a.len() != b.len() {
        return false;
    }
    let mut i: usize = 0;
    while i < a.len()
        invariant
            a@.len() == b@.len(),
            i <= a@.len(),
            forall|k: int| 0 <= k < i ==> a@[k] == b@[k],
        decreases a@.len() - i,
    {
        if a[i] != b[i] {
            return false;
        }
        i = i + 1;
    }
    assert(a@ =~= b@);
    true
}

/// Reads a yes/no flag field.
pub fn parse_boolean(s: &str) -> (b: bool)
    ensures
        b == says_yes(s@),
{
    let cs = chars_of(s);
    parse_boolean_chars(&cs)
}

/// Reads a yes/no flag field given as characters.
pub fn parse_boolean_chars(s: &[char]) -> (b: bool)
    ensures
        b == says_yes(s@),
{
    let t = trim_chars(s);
    let l = lower_chars(&t);
    let one = ['1'];
    let true_word = ['t', 'r', 'u', 'e'];
    let yes_word = ['y', 'e', 's'];
    let y_word = ['y'];
    assert(one@ =~= seq!['1']);
    assert(true_word@ =~= seq!['t', 'r', 'u', 'e']);
    assert(yes_word@ =~= seq!['y', 'e', 's']);
    assert(y_word@ =~= seq!['y']);
    same_chars(&l, &one) || same_chars(&l, &true_word) || same_chars(&l, &yes_word) || same_chars(
        &l,
        &y_word,
    )
}

/// `s` with its ASCII capital letters made small.
pub fn lower_chars(s: &[char]) -> (t: Vec<char>)
    ensures
        t@ == lowercase(s@),
{
    let mut t: Vec<char> = Vec::new();
    let mut i: usize = 0;
    while i < s.len()
        invariant
            i <= s@.len(),
            t@ == lowercase(s@).take(i as int),
        decreases s@.len() - i,
    {
        let c = s[i];
        let l = if 'A' <= c && c <= 'Z' { (((c as u32) + 32) as u8) as char } else { c };
        t.push(l);
        i = i + 1;
        assert(t@ =~= lowercase(s@).take(i as int));
    }
    assert(t@ =~= lowercase(s@));
    t
}

/// The end of a cut `[start, end)` in a text of `len` bytes: `end`, or the
/// end of the text when it is shorter.
pub open spec fn cut_end(len: int, end: int) -> int {
    if end < len {
        end
    } else {
        len
    }
}

/// The bytes of `bytes[start..end]`, clipped to the text; empty when the text
/// ends before `start`.
pub open spec fn cut_bytes(bytes: Seq<u8>, start: int, end: int) -> Seq<u8> {
    if start >= bytes.len() {
        Seq::empty()
    } else {
        bytes.subrange(start, cut_end(bytes.len() as int, end))
    }
}

/// Whether the cut `[start, end)` can be taken from a text with UTF-8 bytes
/// `bytes`: it starts past the end, or it runs forward and both its ends fall
/// on character boundaries (slicing a `str` elsewhere panics).
pub open spec fn can_cut(bytes: Seq<u8>, start: int, end: int) -> bool {
    ||| start >= bytes.len()
    ||| {
        &&& start <= cut_end(bytes.len() as int, end)
        &&& is_char_boundary(bytes, start)
        &&& is_char_boundary(bytes, cut_end(bytes.len() as int, end))
    }
}

/// A boundary of a text is a boundary of any prefix of it that reaches that far.
proof fn lemma_boundary_in_prefix(bytes: Seq<u8>, e: int, start: int)
    requires
        valid_utf8(bytes),
        0 <= start <= e <= bytes.len(),
        is_char_boundary(bytes, start),
        is_char_boundary(bytes, e),
    ensures
        is_char_boundary(bytes.subrange(0, e), start),
{
    broadcast use valid_utf8_split, is_char_boundary_start_end_of_seq;

    let head = bytes.subrange(0, e);
    assert(valid_utf8(head));
    if start == e {
        assert(head.len() == e);
    } else {
        is_char_boundary_iff_not_is_continuation_byte(bytes, start);
        is_char_boundary_iff_not_is_continuation_byte(head, start);
    }
}

/// The field of `line` between byte offsets `start` and `end`, clipped to the
/// line; empty when the line ends before `start`.
pub fn extract_range(line: &str, start: usize, end: usize) -> (r: &str)
    requires
        can_cut(encode_utf8(line@), start as int, end as int),
    ensures
        encode_utf8(r@) == cut_bytes(encode_utf8(line@), start as int, end as int),
        r@ == decode_utf8(cut_bytes(encode_utf8(line@), start as int, end as int)),
{
    broadcast use encode_utf8_valid_utf8, encode_utf8_decode_utf8;

    let len = line.as_bytes().len();
    if start >= len {
        let empty = "";
        proof {
            reveal_strlit("");
            assert(empty@ =~= Seq::<char>::empty());
            assert(encode_utf8(empty@) =~= Seq::<u8>::empty());
            assert(cut_bytes(encode_utf8(line@), start as int, end as int) =~= Seq::<u8>::empty());
        }
        return empty;
    }
    let e = if end < len { end } else { len };
    let (head, _) = line.split_at(e);
    proof {
        lemma_boundary_in_prefix(encode_utf8(line@), e as int, start as int);
    }
    let (_, mid) = head.split_at(start);
    assert(encode_utf8(mid@) =~= encode_utf8(line@).subrange(start as int, e as int));
    mid
}

/// Whether the cut `[start, end)` can be taken from `line`.
pub fn cut_ok(line: &str, start: usize, end: usize) -> (b: bool)
    ensures
        b == can_cut(encode_utf8(line@), start as int, end as int),
{
    let len = line.as_bytes().len();
    if start >= len {
        return true;
    }
    let e = if end < len { end } else { len };
    start <= e && line.is_char_boundary(start) && line.is_char_boundary(e)
}

/// The trimmed text of a field of `line` cut at fixed byte offsets.
pub open spec fn cut_field(line: Seq<char>, start: int, end: int) -> Seq<char> {
    trim(decode_utf8(cut_bytes(encode_utf8(line), start, end)))
}

/// The trimmed text of the field of `line` between byte offsets `start` and `end`.
pub fn cut_trimmed(line: &str, start: usize, end: usize) -> (f: Vec<char>)
    requires
        can_cut(encode_utf8(line@), start as int, end as int),
    ensures
        f@ == cut_field(line@, start as int, end as int),
{
    let piece = extract_range(line, start, end);
    let cs = chars_of(piece);
    trim_chars(&cs)
}

/// The report for a field whose text is not a value: the field's label, its
/// text in quotes, and the reason.
pub open spec fn parse_failure(label: Seq<char>, text: Seq<char>, why: Seq<char>) -> Seq<char> {
    label + text + "' - "@ + why
}

/// The report for a field whose text is not a value.
pub fn parse_failure_text(label: &str, text: &[char], why: &str) -> (m: String)
    ensures
        m@ == parse_failure(label@, text@, why@),
{
    let mut m = String::new();
    m.append(label);
    let t = string_of(text);
    m.append(t.as_str());
    m.append("' - ");
    m.append(why);
    m
}

/// The message with which `std` rejects `text` as a floating-point number.
pub fn float_error_str(text: &[char]) -> (m: &'static str)
    ensures
        m@ == float_error_text(text@),
{
    if text.len() == 0 {
        "cannot parse float from empty string"
    } else {
        "invalid float literal"
    }
}


/// What a nullable CSV cell holds: nothing when it is empty or `null`,
/// otherwise the value its text denotes, or the reason it denotes none.
pub open spec fn nullable_reading<T: FieldValue>(s: Seq<char>, r: Result<Option<T>, String>) -> bool {
    if s.len() == 0 || s == seq!['n', 'u', 'l', 'l'] {
        r matches Ok(v) && v is None
    } else if T::readable(s) {
        r matches Ok(v) && (v matches Some(x) && T::denotes(s, x))
    } else {
        r matches Err(e) && e@ == T::why_unreadable(s)
    }
}

/// Reads a nullable CSV cell: empty and `null` cells hold nothing, any other
/// cell must hold a value of `T`.
pub fn nullable_field<T: FieldValue>(s: &str) -> (r: Result<Option<T>, String>)
    ensures
        nullable_reading(s@, r),
{
    let cs = chars_of(s);
    let null_word = ['n', 'u', 'l', 'l'];
    assert(null_word@ =~= seq!['n', 'u', 'l', 'l']);
    if cs.len() == 0 || same_chars(&cs, &null_word) {
        return Ok(None);
    }
    match T::read_value(&cs) {
        Ok(v) => Ok(Some(v)),
        Err(why) => {
            let mut e = String::new();
            e.append(why);
            Err(e)
        },
    }
}

/// `s` without leading and trailing white space, as a new string.
pub fn trimmed(s: &str) -> (r: String)
    ensures
        r@ == trim(s@),
{
    let cs = chars_of(s);
    string_of(&trim_chars(&cs))
}

} // verus!
