//! Character- and byte-level helpers for UTF-8 text.
//!
//! Header text is addressed by byte offsets (fields sit at fixed byte
//! positions), while users see characters. The model of a `&str` is its byte
//! sequence `s.spec_bytes()` (`encode_utf8(s@)`); the model of a `String` `r`
//! is `encode_utf8(r@)`. The lemmas here connect the two views.
use vstd::prelude::*;
use vstd::string::*;
use vstd::utf8::*;

verus! {

broadcast use vstd::utf8::group_utf8_lib;

/// The UTF-8 encoding of a concatenation is the concatenation of the encodings.
pub broadcast proof fn lemma_encode_concat(a: Seq<char>, b: Seq<char>)
    ensures
        #[trigger] encode_utf8(a + b) == encode_utf8(a) + encode_utf8(b),
    decreases a.len(),
{
    if a.len() == 0 {
        assert(a + b =~= b);
        assert(encode_utf8(a) + encode_utf8(b) =~= encode_utf8(b));
    } else {
        lemma_encode_concat(a.drop_first(), b);
        assert((a + b).drop_first() =~= a.drop_first() + b);
        assert((a + b)[0] == a[0]);
        assert(encode_utf8(a + b) =~= encode_utf8(a) + encode_utf8(b));
    }
}

/// Encoding a sequence extended by one character appends that character's bytes.
pub proof fn lemma_encode_push(a: Seq<char>, c: char)
    ensures
        encode_utf8(a.push(c)) == encode_utf8(a) + encode_scalar(c as u32),
{
    reveal_with_fuel(encode_utf8, 2);
    lemma_encode_concat(a, seq![c]);
    assert(a.push(c) =~= a + seq![c]);
    assert(seq![c].drop_first() =~= Seq::<char>::empty());
    assert(encode_utf8(seq![c]) =~= encode_scalar(c as u32));
}

/// A character whose code point is below 0x80 is encoded as that single byte.
pub proof fn lemma_encode_ascii_char(c: char)
    requires
        (c as u32) < 0x80,
    ensures
        encode_scalar(c as u32) == seq![c as u8],
{
    let v = c as u32;
    assert(v & 0x7F == v) by (bit_vector)
        requires
            v < 0x80,
    ;
}

/// An ASCII character on its own is encoded as its single byte.
pub proof fn lemma_encode_ascii_single(c: char)
    requires
        (c as u32) < 0x80,
    ensures
        encode_utf8(seq![c]) == seq![c as u8],
{
    reveal_with_fuel(encode_utf8, 2);
    assert(seq![c].drop_first() =~= Seq::<char>::empty());
    lemma_encode_ascii_char(c);
    assert(encode_utf8(seq![c]) =~= seq![c as u8]);
}

/// The number of bytes in the UTF-8 encoding of `c`.
pub open spec fn char_width(c: char) -> nat {
    encode_scalar(c as u32).len()
}

/// Byte length of one character's UTF-8 encoding.
pub fn char_byte_len(c: char) -> (n: usize)
    ensures
        n == char_width(c),
        1 <= n <= 4,
{
    proof {
        char_is_scalar(c);
    }
    let v = c as u32;
    if v < 0x80 {
        1
    } else if v < 0x800 {
        2
    } else if v < 0x10000 {
        3
    } else {
        4
    }
}

/// The characters of `s`, one by one.
pub fn chars_of(s: &str) -> (v: Vec<char>)
    ensures
        v@ == s@,
{
    let mut v: Vec<char> = Vec::new();
    for c in it: s.chars()
        invariant
            v@ == it.seq().take(it.index() as int),
            it.seq() == s@,
    {
        v.push(c);
    }
    v
}

/// Character-wise equality of two string slices.
pub fn str_eq(a: &str, b: &str) -> (r: bool)
    ensures
        r == (a@ == b@),
{
    let x = chars_of(a);
    let y = chars_of(b);
    if x.len() != y.len() {
        return false;
    }
    let n = x.len();
    for i in 0..n
        invariant
            n == x@.len(),
            n == y@.len(),
            x@ == a@,
            y@ == b@,
            forall|j: int| 0 <= j < i ==> x@[j] == y@[j],
    {
        if x[i] != y[i] {
            assert(x@[i as int] != y@[i as int]);
            return false;
        }
    }
    assert(x@ =~= y@);
    true
}

/// Appends one character (`String::push`).
#[verifier::external_body]
pub(crate) fn push_char(s: &mut String, c: char)
    ensures
        final(s)@ == old(s)@.push(c),
{
    s.push(c)
}

/// In a valid UTF-8 sequence, character boundaries of a suffix that starts at
/// a boundary are exactly the boundaries of the whole sequence.
pub proof fn lemma_boundary_in_suffix(b: Seq<u8>, start: int, i: int)
    requires
        valid_utf8(b),
        0 <= start <= b.len(),
        0 <= i <= b.len() - start,
        is_char_boundary(b, start),
        is_char_boundary(b, start + i),
    ensures
        valid_utf8(b.subrange(start, b.len() as int)),
        is_char_boundary(b.subrange(start, b.len() as int), i),
{
    let c = b.subrange(start, b.len() as int);
    valid_utf8_split(b, start);
    if i == c.len() {
        is_char_boundary_start_end_of_seq(c);
    } else {
        is_char_boundary_iff_not_is_continuation_byte(c, i);
        is_char_boundary_iff_not_is_continuation_byte(b, start + i);
        assert(c[i] == b[start + i]);
    }
}

/// In a valid UTF-8 sequence, every position whose byte is ASCII is a boundary.
pub proof fn lemma_ascii_byte_is_boundary(b: Seq<u8>, i: int)
    requires
        valid_utf8(b),
        0 <= i < b.len(),
        b[i] < 0x80,
    ensures
        is_char_boundary(b, i),
{
    is_char_boundary_iff_not_is_continuation_byte(b, i);
}

/// In a valid UTF-8 sequence, the position right after an ASCII byte is a boundary.
pub proof fn lemma_boundary_after_ascii(b: Seq<u8>, j: int)
    requires
        valid_utf8(b),
        0 <= j < b.len(),
        b[j] < 0x80,
    ensures
        is_char_boundary(b, j + 1),
{
    if j + 1 == b.len() {
        is_char_boundary_start_end_of_seq(b);
    } else {
        is_char_boundary_iff_not_is_continuation_byte(b, j);
        valid_utf8_split(b, j);
        let c = b.subrange(j, b.len() as int);
        assert(c[0] == b[j]);
        assert(valid_first_scalar(c));
        let d = pop_first_scalar(c);
        assert(d =~= b.subrange(j + 1, b.len() as int));
        assert(valid_utf8(d));
        assert(valid_first_scalar(d));
        assert(d[0] == b[j + 1]);
        is_char_boundary_iff_not_is_continuation_byte(b, j + 1);
    }
}

/// A piece of a valid UTF-8 sequence cut at two boundaries is valid, and its
/// boundaries are those of the whole sequence, shifted.
pub proof fn lemma_boundary_in_subrange(b: Seq<u8>, s: int, e: int, i: int)
    requires
        valid_utf8(b),
        0 <= s <= e <= b.len(),
        is_char_boundary(b, s),
        is_char_boundary(b, e),
        0 <= i <= e - s,
    ensures
        valid_utf8(b.subrange(s, e)),
        is_char_boundary(b.subrange(s, e), i) <==> is_char_boundary(b, s + i),
{
    let suffix = b.subrange(s, b.len() as int);
    lemma_boundary_in_suffix(b, s, e - s);
    valid_utf8_split(suffix, e - s);
    let sub = b.subrange(s, e);
    assert(suffix.subrange(0, e - s) =~= sub);
    is_char_boundary_start_end_of_seq(sub);
    if 0 < i < e - s {
        is_char_boundary_iff_not_is_continuation_byte(sub, i);
        is_char_boundary_iff_not_is_continuation_byte(b, s + i);
        assert(sub[i] == b[s + i]);
    }
}

/// The length of `s` in bytes.
pub fn byte_len(s: &str) -> (n: usize)
    ensures
        n == s.spec_bytes().len(),
{
    s.as_bytes().len()
}

/// The piece of `s` between two byte offsets that are character boundaries.
pub fn byte_slice<'a>(s: &'a str, start: usize, end: usize) -> (r: &'a str)
    requires
        start <= end <= s.spec_bytes().len(),
        is_char_boundary(s.spec_bytes(), start as int),
        is_char_boundary(s.spec_bytes(), end as int),
    ensures
        r.spec_bytes() == s.spec_bytes().subrange(start as int, end as int),
        r@ == decode_utf8(s.spec_bytes().subrange(start as int, end as int)),
{
    let ghost b = s.spec_bytes();
    proof {
        encode_utf8_valid_utf8(s@);
    }
    let (_, rest) = s.split_at(start);
    proof {
        lemma_boundary_in_suffix(b, start as int, end - start);
    }
    let (mid, _) = rest.split_at(end - start);
    proof {
        assert(mid.spec_bytes() =~= b.subrange(start as int, end as int));
        encode_utf8_decode_utf8(mid@);
    }
    mid
}

/// The Unicode `White_Space` property (the characters for which
/// `char::is_whitespace` holds).
pub open spec fn is_white_space(c: char) -> bool {
    ||| ('\u{9}' <= c && c <= '\u{d}')
    ||| c == ' '
    ||| c == '\u{85}'
    ||| c == '\u{a0}'
    ||| c == '\u{1680}'
    ||| ('\u{2000}' <= c && c <= '\u{200a}')
    ||| c == '\u{2028}'
    ||| c == '\u{2029}'
    ||| c == '\u{202f}'
    ||| c == '\u{205f}'
    ||| c == '\u{3000}'
}

/// Whether `c` has the Unicode `White_Space` property.
pub fn is_white_space_char(c: char) -> (r: bool)
    ensures
        r == is_white_space(c),
{
    ('\u{9}' <= c && c <= '\u{d}') || c == ' ' || c == '\u{85}' || c == '\u{a0}' || c
        == '\u{1680}' || ('\u{2000}' <= c && c <= '\u{200a}') || c == '\u{2028}' || c
        == '\u{2029}' || c == '\u{202f}' || c == '\u{205f}' || c == '\u{3000}'
}

/// `s` without its trailing white space.
pub open spec fn trim_end_chars(s: Seq<char>) -> Seq<char>
    decreases s.len(),
{
    if s.len() > 0 && is_white_space(s.last()) {
        trim_end_chars(s.drop_last())
    } else {
        s
    }
}

/// `s` without its leading white space.
pub open spec fn trim_start_chars(s: Seq<char>) -> Seq<char>
    decreases s.len(),
{
    if s.len() > 0 && is_white_space(s[0]) {
        trim_start_chars(s.drop_first())
    } else {
        s
    }
}

/// `s` without leading and trailing white space.
pub open spec fn trim_chars(s: Seq<char>) -> Seq<char> {
    trim_start_chars(trim_end_chars(s))
}

/// Trimming trailing white space keeps a prefix, and trimming again changes nothing.
pub proof fn lemma_trim_end_prefix(s: Seq<char>)
    ensures
        trim_end_chars(s).len() <= s.len(),
        trim_end_chars(s) == s.take(trim_end_chars(s).len() as int),
        trim_end_chars(trim_end_chars(s)) == trim_end_chars(s),
    decreases s.len(),
{
    if s.len() > 0 && is_white_space(s.last()) {
        lemma_trim_end_prefix(s.drop_last());
        let t = trim_end_chars(s.drop_last());
        assert(s.drop_last().take(t.len() as int) =~= s.take(t.len() as int));
    } else {
        assert(s.take(s.len() as int) =~= s);
    }
}

/// Characters whose encoding holds no `\n` byte include no `\n`.
pub proof fn lemma_no_newline_char(v: Seq<char>)
    requires
        forall|j: int| 0 <= j < encode_utf8(v).len() ==> #[trigger] encode_utf8(v)[j] != 0x0Au8,
    ensures
        forall|i: int| 0 <= i < v.len() ==> #[trigger] v[i] != '\n',
{
    assert forall|i: int| 0 <= i < v.len() implies #[trigger] v[i] != '\n' by {
        if v[i] == '\n' {
            let a = v.take(i);
            let b = v.skip(i);
            assert(v =~= a + b);
            lemma_encode_concat(a, b);
            assert(b =~= seq![v[i]] + b.drop_first());
            lemma_encode_concat(seq![v[i]], b.drop_first());
            lemma_encode_ascii_single('\n');
            assert(encode_utf8(v)[encode_utf8(a).len() as int] == 0x0Au8);
        }
    }
}

/// Removes trailing white space (as `str::trim_end`).
pub fn trim_end(s: &str) -> (r: &str)
    ensures
        r@ == trim_end_chars(s@),
{
    let v = chars_of(s);
    let mut k = v.len();
    assert(s@.take(k as int) =~= s@);
    while k > 0 && is_white_space_char(v[k - 1])
        invariant
            k <= v@.len(),
            v@ == s@,
            trim_end_chars(s@) == trim_end_chars(s@.take(k as int)),
        decreases k,
    {
        assert(s@.take(k as int).drop_last() =~= s@.take(k - 1));
        k = k - 1;
    }
    assert(trim_end_chars(s@.take(k as int)) == s@.take(k as int));
    s.substring_char(0, k)
}

/// Removes leading white space (as `str::trim_start`).
pub fn trim_start(s: &str) -> (r: &str)
    ensures
        r@ == trim_start_chars(s@),
{
    let v = chars_of(s);
    let n = v.len();
    let mut k: usize = 0;
    assert(s@.skip(0) =~= s@);
    while k < n && is_white_space_char(v[k])
        invariant
            k <= n,
            n == v@.len(),
            v@ == s@,
            trim_start_chars(s@) == trim_start_chars(s@.skip(k as int)),
        decreases n - k,
    {
        assert(s@.skip(k as int).drop_first() =~= s@.skip(k + 1));
        k = k + 1;
    }
    assert(trim_start_chars(s@.skip(k as int)) == s@.skip(k as int));
    assert(s@.subrange(k as int, n as int) =~= s@.skip(k as int));
    s.substring_char(k, n)
}

/// Removes leading and trailing white space (as `str::trim`).
pub fn trim<'a>(s: &'a str) -> (r: &'a str)
    ensures
        r@ == trim_chars(s@),
{
    trim_start(trim_end(s))
}

} // verus!
