//! Character-level text handling: white space, trimming, and string assembly.
use vstd::prelude::*;

verus! {

/// The Unicode `White_Space` property, the notion of white space that
/// `str::trim` and `char::is_whitespace` use.
pub open spec fn is_white_space(c: char) -> bool {
    let u = c as u32;
    ||| 0x9 <= u <= 0xD
    ||| u == 0x20
    ||| u == 0x85
    ||| u == 0xA0
    ||| u == 0x1680
    ||| 0x2000 <= u <= 0x200A
    ||| u == 0x2028
    ||| u == 0x2029
    ||| u == 0x202F
    ||| u == 0x205F
    ||| u == 0x3000
}

/// `s` without its leading white space.
pub open spec fn trim_start(s: Seq<char>) -> Seq<char>
    decreases s.len(),
{
    if s.len() > 0 && is_white_space(s[0]) {
        trim_start(s.drop_first())
    } else {
        s
    }
}

/// `s` without its trailing white space.
pub open spec fn trim_end(s: Seq<char>) -> Seq<char>
    decreases s.len(),
{
    if s.len() > 0 && is_white_space(s.last()) {
        trim_end(s.drop_last())
    } else {
        s
    }
}

/// `s` without leading and trailing white space.
pub open spec fn trim(s: Seq<char>) -> Seq<char> {
    trim_end(trim_start(s))
}

/// Whether `c` has the Unicode `White_Space` property.
pub fn is_white_space_char(c: char) -> (b: bool)
    ensures
        b == is_white_space(c),
{
    let u = c as u32;
    (0x9 <= u && u <= 0xD) || u == 0x20 || u == 0x85 || u == 0xA0 || u == 0x1680 || (0x2000 <= u
        && u <= 0x200A) || u == 0x2028 || u == 0x2029 || u == 0x202F || u == 0x205F || u == 0x3000
}

/// The characters of `s`, in order.
pub fn chars_of(s: &str) -> (cs: Vec<char>)
    ensures
        cs@ == s@,
{
    let mut cs: Vec<char> = Vec::new();
    for c in it: s.chars()
        invariant
            cs@ == it.seq().take(it.index() as int),
    {
        cs.push(c);
    }
    cs
}


/// Skipping a white-space prefix does not change what `trim_start` leaves.
pub proof fn lemma_trim_start_skip(s: Seq<char>, i: int)
    requires
        0 <= i <= s.len(),
        forall|j: int| 0 <= j < i ==> is_white_space(#[trigger] s[j]),
    ensures
        trim_start(s) == trim_start(s.subrange(i, s.len() as int)),
    decreases i,
{
    if i > 0 {
        assert(s.drop_first() =~= s.subrange(1, s.len() as int));
        let t = s.drop_first();
        assert forall|j: int| 0 <= j < i - 1 implies is_white_space(#[trigger] t[j]) by {
            assert(t[j] == s[j + 1]);
        }
        lemma_trim_start_skip(t, i - 1);
        assert(t.subrange(i - 1, t.len() as int) =~= s.subrange(i, s.len() as int));
    } else {
        assert(s.subrange(0, s.len() as int) =~= s);
    }
}

/// Skipping a white-space suffix does not change what `trim_end` leaves.
pub proof fn lemma_trim_end_skip(s: Seq<char>, i: int)
    requires
        0 <= i <= s.len(),
        forall|j: int| i <= j < s.len() ==> is_white_space(#[trigger] s[j]),
    ensures
        trim_end(s) == trim_end(s.subrange(0, i)),
    decreases s.len() - i,
{
    if i < s.len() {
        let t = s.drop_last();
        assert forall|j: int| i <= j < t.len() implies is_white_space(#[trigger] t[j]) by {
            assert(t[j] == s[j]);
        }
        lemma_trim_end_skip(t, i);
        assert(t.subrange(0, i) =~= s.subrange(0, i));
    } else {
        assert(s.subrange(0, i) =~= s);
    }
}

/// The positions `(a, b)` such that `s[a..b]` is `s` without leading and
/// trailing white space.
pub fn trim_bounds(s: &[char]) -> (r: (usize, usize))
    ensures
        r.0 <= r.1 <= s@.len(),
        s@.subrange(r.0 as int, r.1 as int) == trim(s@),
{
    let n = s.len();
    let mut a: usize = 0;
    while a < n && is_white_space_char(s[a])
        invariant
            a <= n == s@.len(),
            forall|j: int| 0 <= j < a ==> is_white_space(#[trigger] s@[j]),
        decreases n - a,
    {
        a = a + 1;
    }
    proof {
        lemma_trim_start_skip(s@, a as int);
    }
    let ghost rest = s@.subrange(a as int, n as int);
    assert(trim_start(s@) == rest);
    let mut b: usize = n;
    while b > a && is_white_space_char(s[b - 1])
        invariant
            a <= b <= n == s@.len(),
            rest == s@.subrange(a as int, n as int),
            forall|j: int| b <= j < n ==> is_white_space(#[trigger] s@[j]),
        decreases b,
    {
        b = b - 1;
    }
    proof {
        assert forall|j: int| b - a <= j < rest.len() implies is_white_space(#[trigger] rest[j]) by {
            assert(rest[j] == s@[a + j]);
        }
        lemma_trim_end_skip(rest, (b - a) as int);
        let kept = rest.subrange(0, (b - a) as int);
        assert(kept =~= s@.subrange(a as int, b as int));
        if kept.len() > 0 {
            assert(kept.last() == s@[b - 1]);
        }
    }
    (a, b)
}

/// The characters `s[from..to]` as a vector.
pub fn copy_range(s: &[char], from: usize, to: usize) -> (r: Vec<char>)
    requires
        from <= to <= s@.len(),
    ensures
        r@ == s@.subrange(from as int, to as int),
{
    let mut r: Vec<char> = Vec::new();
    let mut i = from;
    while i < to
        invariant
            from <= i <= to <= s@.len(),
            r@ == s@.subrange(from as int, i as int),
        decreases to - i,
    {
        r.push(s[i]);
        i = i + 1;
        assert(r@ =~= s@.subrange(from as int, i as int));
    }
    r
}

/// The characters of `s` without leading and trailing white space.
pub fn trim_chars(s: &[char]) -> (r: Vec<char>)
    ensures
        r@ == trim(s@),
{
    let (a, b) = trim_bounds(s);
    copy_range(s, a, b)
}

/// A `String` holding exactly the characters `cs`.
///
/// Calls `String::from_iter` over `&char`; the contract claims that the
/// resulting string consists of the given characters in order, which is what
/// collecting characters into a `String` documents.
#[verifier::external_body]
pub(crate) fn string_of(cs: &[char]) -> (s: String)
    ensures
        s@ == cs@,
{
    String::from_iter(cs)
}


/// The first position at or after `i` that holds `c` (`s.len()` if none).
pub open spec fn first_index_of(s: Seq<char>, c: char, i: int) -> int
    decreases s.len() - i,
{
    if 0 <= i < s.len() && s[i] != c {
        first_index_of(s, c, i + 1)
    } else {
        i
    }
}

/// The pieces of `s` between occurrences of `sep`, as `str::split` yields
/// them: one more piece than there are separators, empty pieces included.
pub open spec fn split_on(s: Seq<char>, sep: char) -> Seq<Seq<char>>
    decreases s.len(),
{
    let i = first_index_of(s, sep, 0);
    if 0 <= i < s.len() {
        seq![s.take(i)] + split_on(s.skip(i + 1), sep)
    } else {
        seq![s]
    }
}

/// The pieces `parts` put back together with `sep` between them.
pub open spec fn join_with(parts: Seq<Seq<char>>, sep: char) -> Seq<char>
    decreases parts.len(),
{
    if parts.len() <= 1 {
        if parts.len() == 1 {
            parts[0]
        } else {
            Seq::empty()
        }
    } else {
        parts[0].push(sep) + join_with(parts.drop_first(), sep)
    }
}

/// The search for `c` stops at its first occurrence.
pub proof fn lemma_first_index_of_at(s: Seq<char>, c: char, i: int, k: int)
    requires
        0 <= i <= k <= s.len(),
        forall|m: int| i <= m < k ==> #[trigger] s[m] != c,
        k == s.len() || s[k] == c,
    ensures
        first_index_of(s, c, i) == k,
    decreases k - i,
{
    if i < k {
        lemma_first_index_of_at(s, c, i + 1, k);
    }
}

/// The views of a vector of strings.
pub open spec fn string_views(v: Seq<String>) -> Seq<Seq<char>> {
    Seq::new(v.len(), |i: int| v[i]@)
}

/// The views of a vector of character vectors.
pub open spec fn piece_views(v: Seq<Vec<char>>) -> Seq<Seq<char>> {
    Seq::new(v.len(), |i: int| v[i]@)
}

/// Strings holding the given pieces of text, in order.
pub fn strings_of(pieces: &Vec<Vec<char>>) -> (r: Vec<String>)
    ensures
        string_views(r@) == piece_views(pieces@),
{
    let mut r: Vec<String> = Vec::new();
    let mut i: usize = 0;
    while i < pieces.len()
        invariant
            i <= pieces@.len(),
            string_views(r@) == piece_views(pieces@).take(i as int),
        decreases pieces@.len() - i,
    {
        let ghost before = string_views(r@);
        let piece = string_of(pieces[i].as_slice());
        assert(piece@ == piece_views(pieces@)[i as int]);
        r.push(piece);
        assert(string_views(r@) =~= before.push(piece@));
        i = i + 1;
        assert(string_views(r@) =~= piece_views(pieces@).take(i as int));
    }
    assert(piece_views(pieces@).take(i as int) =~= piece_views(pieces@));
    r
}

/// Splits `s` at every `sep`, as `str::split` with a character pattern does.
pub fn split_pieces(s: &[char], sep: char) -> (parts: Vec<Vec<char>>)
    ensures
        piece_views(parts@) == split_on(s@, sep),
{
    let n = s.len();
    let mut parts: Vec<Vec<char>> = Vec::new();
    let mut start: usize = 0;
    let mut i: usize = 0;
    assert(s@.skip(0) =~= s@);
    assert(piece_views(parts@) + split_on(s@.skip(0), sep) =~= split_on(s@, sep));
    while i < n
        invariant
            n == s@.len(),
            start <= i <= n,
            forall|m: int| start <= m < i ==> #[trigger] s@[m] != sep,
            piece_views(parts@) + split_on(s@.skip(start as int), sep) == split_on(s@, sep),
        decreases n - i,
    {
        if s[i] == sep {
            let ghost rest = s@.skip(start as int);
            proof {
                assert forall|m: int| 0 <= m < i - start implies #[trigger] rest[m] != sep by {
                    assert(rest[m] == s@[start + m]);
                }
                assert(rest[i - start] == sep);
                lemma_first_index_of_at(rest, sep, 0, i - start);
                assert(rest.take(i - start) =~= s@.subrange(start as int, i as int));
                assert(rest.skip(i - start + 1) =~= s@.skip(i + 1));
            }
            let piece = copy_range(s, start, i);
            let ghost before = piece_views(parts@);
            parts.push(piece);
            assert(piece_views(parts@) =~= before.push(piece@));
            start = i + 1;
            assert(piece_views(parts@) + split_on(s@.skip(start as int), sep) =~= split_on(s@, sep));
        }
        i = i + 1;
    }
    let ghost rest = s@.skip(start as int);
    proof {
        assert forall|m: int| 0 <= m < rest.len() implies #[trigger] rest[m] != sep by {
            assert(rest[m] == s@[start + m]);
        }
        lemma_first_index_of_at(rest, sep, 0, rest.len() as int);
        assert(rest =~= s@.subrange(start as int, n as int));
    }
    let piece = copy_range(s, start, n);
    let ghost before = piece_views(parts@);
    parts.push(piece);
    assert(piece_views(parts@) =~= before.push(piece@));
    assert(piece_views(parts@) =~= split_on(s@, sep));
    parts
}

/// Splitting at `sep` and joining with `sep` gives back the text, and no
/// piece holds `sep`.
pub proof fn lemma_split_join(s: Seq<char>, sep: char)
    ensures
        join_with(split_on(s, sep), sep) == s,
        forall|k: int, m: int|
            0 <= k < split_on(s, sep).len() && 0 <= m < split_on(s, sep)[k].len()
                ==> split_on(s, sep)[k][m] != sep,
    decreases s.len(),
{
    let i = first_index_of(s, sep, 0);
    lemma_first_index_of_range(s, sep, 0);
    if 0 <= i < s.len() {
        lemma_split_join(s.skip(i + 1), sep);
        let rest = split_on(s.skip(i + 1), sep);
        let parts = split_on(s, sep);
        assert(parts =~= seq![s.take(i)] + rest);
        lemma_split_nonempty(s.skip(i + 1), sep);
        assert(parts.drop_first() =~= rest);
        assert(s =~= s.take(i).push(sep) + s.skip(i + 1));
        assert forall|k: int, m: int| 0 <= k < parts.len() && 0 <= m < parts[k].len()
            implies parts[k][m] != sep by {
            if k > 0 {
                assert(parts[k] == rest[k - 1]);
            }
        }
    } else {
        let parts = split_on(s, sep);
        assert(parts =~= seq![s]);
    }
}

/// `split_on` always yields at least one piece.
pub proof fn lemma_split_nonempty(s: Seq<char>, sep: char)
    ensures
        split_on(s, sep).len() >= 1,
    decreases s.len(),
{
    let i = first_index_of(s, sep, 0);
    if 0 <= i < s.len() {
        lemma_split_nonempty(s.skip(i + 1), sep);
    }
}

/// The first occurrence lies within the text and has no earlier occurrence.
pub proof fn lemma_first_index_of_range(s: Seq<char>, c: char, i: int)
    requires
        0 <= i <= s.len(),
    ensures
        i <= first_index_of(s, c, i) <= s.len(),
        forall|m: int| i <= m < first_index_of(s, c, i) ==> #[trigger] s[m] != c,
        first_index_of(s, c, i) < s.len() ==> s[first_index_of(s, c, i)] == c,
    decreases s.len() - i,
{
    if i < s.len() && s[i] != c {
        lemma_first_index_of_range(s, c, i + 1);
    }
}


/// The length of `s` without its trailing white space.
pub fn trim_end_len(s: &[char]) -> (r: usize)
    ensures
        r == trim_end(s@).len(),
        r <= s@.len(),
{
    let n = s.len();
    let mut b: usize = n;
    while b > 0 && is_white_space_char(s[b - 1])
        invariant
            b <= n == s@.len(),
            forall|j: int| b <= j < n ==> is_white_space(#[trigger] s@[j]),
        decreases b,
    {
        b = b - 1;
    }
    proof {
        lemma_trim_end_skip(s@, b as int);
        let kept = s@.subrange(0, b as int);
        if b > 0 {
            assert(kept.last() == s@[b - 1]);
        }
    }
    b
}


/// What `trim_end` leaves is a prefix of the text.
pub proof fn lemma_trim_end_is_prefix(s: Seq<char>)
    ensures
        trim_end(s).len() <= s.len(),
        trim_end(s) == s.subrange(0, trim_end(s).len() as int),
    decreases s.len(),
{
    if s.len() > 0 && is_white_space(s.last()) {
        lemma_trim_end_is_prefix(s.drop_last());
        assert(s.drop_last().subrange(0, trim_end(s).len() as int) =~= s.subrange(0, trim_end(s).len() as int));
    } else {
        assert(s.subrange(0, s.len() as int) =~= s);
    }
}


/// What `trim_start` leaves is empty or starts with a non-white-space character.
pub proof fn lemma_trim_start_edge(s: Seq<char>)
    ensures
        trim_start(s).len() == 0 || !is_white_space(trim_start(s)[0]),
    decreases s.len(),
{
    if s.len() > 0 && is_white_space(s[0]) {
        lemma_trim_start_edge(s.drop_first());
    }
}

/// What `trim_end` leaves is empty or ends with a non-white-space character.
pub proof fn lemma_trim_end_edge(s: Seq<char>)
    ensures
        trim_end(s).len() == 0 || !is_white_space(trim_end(s).last()),
    decreases s.len(),
{
    if s.len() > 0 && is_white_space(s.last()) {
        lemma_trim_end_edge(s.drop_last());
    }
}

/// Trimming trimmed text changes nothing: a field trimmed before it is
/// read (as the catalog readers do) reads as if it were trimmed once.
pub proof fn lemma_trim_idempotent(s: Seq<char>)
    ensures
        trim(trim(s)) == trim(s),
{
    let a = trim_start(s);
    let t = trim(s);
    lemma_trim_start_edge(s);
    lemma_trim_end_edge(a);
    lemma_trim_end_is_prefix(a);
    if t.len() > 0 {
        assert(t[0] == a[0]);
        assert(trim_start(t) == t);
        assert(trim_end(t) == t);
    } else {
        assert(trim_start(t) == t);
        assert(trim_end(t) == t);
    }
}

} // verus!
