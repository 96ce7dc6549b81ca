//! Reading and writing the fields of a header.
//!
//! A header is addressed by bytes: the field called `name` occupies the bytes
//! `field_offset(name) .. field_offset(name) + field_width(name)` of every
//! header, wherever the template put it. Writing a field pads (or cuts) the
//! value to exactly that many bytes; reading it takes those bytes and drops
//! trailing white space.
use vstd::prelude::*;
use vstd::string::*;
use vstd::utf8::*;
use crate::template::{
    field_in_template, field_offset, field_width, find_field, first_match_from, marker_bytes,
    match_at, template_bytes, underscore_run,
};
use crate::text::{
    byte_len, byte_slice, char_byte_len, char_width, chars_of, lemma_encode_concat, lemma_encode_push,
    trim_end, trim_end_chars,
};

verus! {

broadcast use vstd::utf8::group_utf8_lib, crate::text::lemma_encode_concat;

/// The longest prefix of `v` whose UTF-8 encoding fits in `w` bytes, taken
/// character by character.
pub open spec fn fit_prefix(v: Seq<char>, w: int) -> Seq<char>
    decreases v.len(),
{
    if v.len() == 0 || char_width(v[0]) > w {
        seq![]
    } else {
        seq![v[0]] + fit_prefix(v.drop_first(), w - char_width(v[0]))
    }
}

/// `n` space characters.
pub open spec fn spaces(n: nat) -> Seq<char> {
    Seq::new(n, |i: int| ' ')
}

/// `v` cut or filled with spaces to exactly `w` bytes.
pub open spec fn pad_chars(v: Seq<char>, w: nat) -> Seq<char> {
    let p = fit_prefix(v, w as int);
    p + spaces((w - encode_utf8(p).len()) as nat)
}

/// The bytes of `hb` with the field called `name` replaced by `value`, padded
/// to the field's width.
pub open spec fn with_field(hb: Seq<u8>, name: Seq<char>, value: Seq<char>) -> Seq<u8> {
    let off = field_offset(name);
    let w = field_width(name);
    hb.take(off) + encode_utf8(pad_chars(value, w as nat)) + hb.skip(off + w)
}

/// The text of the field called `name` in the header with bytes `hb`: the
/// field's bytes without trailing white space, or nothing when the header is
/// too short to hold the field.
pub open spec fn field_text(hb: Seq<u8>, name: Seq<char>) -> Seq<char> {
    let off = field_offset(name);
    let w = field_width(name);
    if off + w <= hb.len() {
        trim_end_chars(decode_utf8(hb.subrange(off, off + w)))
    } else {
        seq![]
    }
}

/// The field called `name` can be written into the header with bytes `hb`:
/// the field lies inside the header and starts and ends on character boundaries.
pub open spec fn field_writable(hb: Seq<u8>, name: Seq<char>) -> bool {
    let off = field_offset(name);
    let w = field_width(name);
    &&& field_in_template(name)
    &&& off + w <= hb.len()
    &&& is_char_boundary(hb, off)
    &&& is_char_boundary(hb, off + w)
}

/// The field called `name` can be read from the header with bytes `hb`: when
/// the header is long enough, the field starts and ends on character boundaries.
pub open spec fn field_readable(hb: Seq<u8>, name: Seq<char>) -> bool {
    let off = field_offset(name);
    let w = field_width(name);
    &&& field_in_template(name)
    &&& off + w <= hb.len() ==> is_char_boundary(hb, off) && is_char_boundary(hb, off + w)
}

/// The part of a value kept by padding is a prefix of it, and fits.
pub proof fn lemma_fit_prefix_width(v: Seq<char>, w: int)
    requires
        0 <= w,
    ensures
        encode_utf8(fit_prefix(v, w)).len() <= w,
        fit_prefix(v, w).len() <= v.len(),
        fit_prefix(v, w) == v.take(fit_prefix(v, w).len() as int),
    decreases v.len(),
{
    if v.len() == 0 || char_width(v[0]) > w {
        assert(v.take(0) =~= Seq::<char>::empty());
    } else {
        let rest = fit_prefix(v.drop_first(), w - char_width(v[0]));
        lemma_fit_prefix_width(v.drop_first(), w - char_width(v[0]));
        lemma_encode_concat(seq![v[0]], rest);
        reveal_with_fuel(encode_utf8, 2);
        assert(encode_utf8(seq![v[0]]) =~= encode_scalar(v[0] as u32));
        assert(seq![v[0]] + rest =~= v.take(rest.len() + 1 as int));
    }
}

/// The encoding of `n` spaces is `n` bytes long.
pub proof fn lemma_spaces_bytes(n: nat)
    ensures
        encode_utf8(spaces(n)).len() == n,
        is_ascii_chars(spaces(n)),
        forall|i: int| 0 <= i < n ==> #[trigger] encode_utf8(spaces(n))[i] == 0x20u8,
{
    assert(is_ascii_chars(spaces(n)));
    is_ascii_chars_encode_utf8(spaces(n));
}

/// A padded value is exactly `w` bytes long.
pub proof fn lemma_pad_width(v: Seq<char>, w: nat)
    ensures
        encode_utf8(pad_chars(v, w)).len() == w,
{
    lemma_fit_prefix_width(v, w as int);
    let p = fit_prefix(v, w as int);
    lemma_spaces_bytes((w - encode_utf8(p).len()) as nat);
}

/// `value` cut or filled with spaces to exactly `width` bytes: its characters
/// are kept one by one while they fit, then spaces fill the rest.
pub fn pad(value: &str, width: usize) -> (r: String)
    ensures
        r@ == pad_chars(value@, width as nat),
        encode_utf8(r@).len() == width,
{
    let v = chars_of(value);
    let n = v.len();
    let mut used: usize = 0;
    let mut k: usize = 0;
    assert(v@.take(0) =~= Seq::<char>::empty());
    assert(v@.skip(0) =~= v@);
    while k < n && char_byte_len(v[k]) <= width - used
        invariant
            n == v@.len(),
            v@ == value@,
            k <= n,
            used <= width,
            used == encode_utf8(v@.take(k as int)).len(),
            fit_prefix(v@, width as int) == v@.take(k as int) + fit_prefix(
                v@.skip(k as int),
                width - used,
            ),
        decreases n - k,
    {
        let cw = char_byte_len(v[k]);
        proof {
            let s = v@.skip(k as int);
            assert(s[0] == v@[k as int]);
            assert(s.drop_first() =~= v@.skip(k + 1));
            assert(v@.take(k + 1) =~= v@.take(k as int).push(v@[k as int]));
            lemma_encode_push(v@.take(k as int), v@[k as int]);
            assert(v@.take(k as int) + (seq![v@[k as int]] + fit_prefix(
                v@.skip(k + 1),
                width - used - cw,
            )) =~= v@.take(k + 1) + fit_prefix(v@.skip(k + 1), width - (used + cw)));
        }
        used = used + cw;
        k = k + 1;
    }
    proof {
        if k < n {
            assert(v@.skip(k as int)[0] == v@[k as int]);
        }
        assert(fit_prefix(v@.skip(k as int), width - used) =~= Seq::<char>::empty());
        assert(fit_prefix(v@, width as int) =~= v@.take(k as int));
    }
    let prefix = value.substring_char(0, k);
    let mut r = String::from_str(prefix);
    let ghost base = used;
    proof {
        reveal_strlit(" ");
        assert(spaces(0) =~= Seq::<char>::empty());
        assert(r@ =~= v@.take(k as int) + spaces(0));
    }
    while used < width
        invariant
            base <= used <= width,
            base == encode_utf8(v@.take(k as int)).len(),
            r@ == v@.take(k as int) + spaces((used - base) as nat),
            " "@ == seq![' '],
        decreases width - used,
    {
        r.append(" ");
        proof {
            assert(spaces((used + 1 - base) as nat) =~= spaces((used - base) as nat).push(' '));
            assert(r@ =~= v@.take(k as int) + spaces((used + 1 - base) as nat));
        }
        used = used + 1;
    }
    proof {
        lemma_pad_width(value@, width as nat);
    }
    r
}

/// The text of the field called `name` in `header` (its bytes without
/// trailing white space), or an empty string when `header` is too short.
pub fn get_field_value(header: &str, name: &str) -> (r: String)
    requires
        field_readable(header.spec_bytes(), name@),
    ensures
        r@ == field_text(header.spec_bytes(), name@),
{
    let (offset, width) = find_field(name);
    let len = byte_len(header);
    if offset <= len && width <= len - offset {
        let s = byte_slice(header, offset, offset + width);
        String::from_str(trim_end(s))
    } else {
        String::new()
    }
}

/// In the concatenation of two valid UTF-8 sequences, the seam is a character boundary.
pub proof fn lemma_boundary_at_seam(x: Seq<u8>, y: Seq<u8>)
    requires
        valid_utf8(x),
        valid_utf8(y),
    ensures
        valid_utf8(x + y),
        is_char_boundary(x + y, x.len() as int),
{
    valid_utf8_concat(x, y);
    if y.len() == 0 {
        assert(x + y =~= x);
        is_char_boundary_start_end_of_seq(x);
    } else {
        is_char_boundary_iff_not_is_continuation_byte(x + y, x.len() as int);
        assert((x + y)[x.len() as int] == y[0]);
    }
}

/// `header` with the field called `name` replaced by `value`, padded (or cut)
/// to the field's width; every other byte is kept.
pub fn set_field_value(header: &str, name: &str, value: &str) -> (r: String)
    requires
        field_writable(header.spec_bytes(), name@),
    ensures
        encode_utf8(r@) == with_field(header.spec_bytes(), name@, value@),
{
    let (offset, width) = find_field(name);
    let padded = pad(value, width);
    let ghost hb = header.spec_bytes();
    proof {
        encode_utf8_valid_utf8(header@);
        is_char_boundary_start_end_of_seq(hb);
    }
    let before = byte_slice(header, 0, offset);
    let len = byte_len(header);
    let after = byte_slice(header, offset + width, len);
    let mut result = String::from_str(before);
    result.append(padded.as_str());
    result.append(after);
    proof {
        assert(hb.subrange(0, offset as int) =~= hb.take(offset as int));
        assert(hb.subrange(offset + width, hb.len() as int) =~= hb.skip(offset + width));
        assert(result@ == before@ + padded@ + after@);
    }
    result
}

/// Writing a field keeps the header's length.
pub proof fn lemma_with_field_len(hb: Seq<u8>, name: Seq<char>, value: Seq<char>)
    requires
        field_in_template(name),
        field_offset(name) + field_width(name) <= hb.len(),
    ensures
        with_field(hb, name, value).len() == hb.len(),
{
    lemma_field_offset_nonneg(name);
    lemma_pad_width(value, field_width(name) as nat);
}

/// Field offsets and widths are never negative, and the marker is inside the template.
pub proof fn lemma_field_offset_nonneg(name: Seq<char>)
    requires
        field_in_template(name),
    ensures
        0 <= field_offset(name),
        field_offset(name) + field_width(name) <= template_bytes().len(),
        1 <= field_width(name),
{
    lemma_first_match_in_bounds(template_bytes(), marker_bytes(name), 0);
    lemma_underscore_run_in_bounds(
        template_bytes(),
        field_offset(name) + marker_bytes(name).len(),
    );
}

proof fn lemma_first_match_in_bounds(t: Seq<u8>, m: Seq<u8>, i: int)
    ensures
        first_match_from(t, m, i) matches Some(k) ==> i <= k && k + m.len() <= t.len(),
    decreases t.len() + 1 - i,
{
    if !(i < 0 || i + m.len() > t.len()) && !match_at(t, m, i) {
        lemma_first_match_in_bounds(t, m, i + 1);
    }
}

proof fn lemma_underscore_run_in_bounds(t: Seq<u8>, i: int)
    requires
        0 <= i <= t.len(),
    ensures
        i + underscore_run(t, i) <= t.len(),
    decreases t.len() - i,
{
    if i < t.len() && t[i] == 0x5Fu8 {
        lemma_underscore_run_in_bounds(t, i + 1);
    }
}

/// A value that fits its field and does not end in white space reads back
/// unchanged from the padded field.
pub proof fn lemma_pad_trim(v: Seq<char>, w: nat)
    requires
        encode_utf8(v).len() <= w,
        trim_end_chars(v) == v,
    ensures
        trim_end_chars(pad_chars(v, w)) == v,
{
    lemma_fit_prefix_all(v, w as int);
    lemma_trim_end_spaces(v, (w - encode_utf8(v).len()) as nat);
}

proof fn lemma_fit_prefix_all(v: Seq<char>, w: int)
    requires
        encode_utf8(v).len() <= w,
    ensures
        fit_prefix(v, w) == v,
    decreases v.len(),
{
    if v.len() > 0 {
        assert(v =~= seq![v[0]] + v.drop_first());
        lemma_encode_concat(seq![v[0]], v.drop_first());
        reveal_with_fuel(encode_utf8, 2);
        assert(encode_utf8(seq![v[0]]) =~= encode_scalar(v[0] as u32));
        lemma_fit_prefix_all(v.drop_first(), w - char_width(v[0]));
    }
}

proof fn lemma_trim_end_spaces(v: Seq<char>, n: nat)
    requires
        trim_end_chars(v) == v,
    ensures
        trim_end_chars(v + spaces(n)) == v,
    decreases n,
{
    if n == 0 {
        assert(v + spaces(0) =~= v);
    } else {
        assert((v + spaces(n)).drop_last() =~= v + spaces((n - 1) as nat));
        lemma_trim_end_spaces(v, (n - 1) as nat);
    }
}

/// Writing a field then reading it gives back the trimmed padded value; a
/// value that fits its field and has no trailing white space comes back as it
/// was written.
pub proof fn lemma_read_after_write(hb: Seq<u8>, name: Seq<char>, value: Seq<char>)
    requires
        field_in_template(name),
        field_offset(name) + field_width(name) <= hb.len(),
    ensures
        field_text(with_field(hb, name, value), name) == trim_end_chars(
            pad_chars(value, field_width(name) as nat),
        ),
        encode_utf8(value).len() <= field_width(name) && trim_end_chars(value) == value
            ==> field_text(with_field(hb, name, value), name) == value,
{
    let off = field_offset(name);
    let w = field_width(name);
    let p = encode_utf8(pad_chars(value, w as nat));
    lemma_field_offset_nonneg(name);
    lemma_pad_width(value, w as nat);
    let h2 = with_field(hb, name, value);
    assert(h2.subrange(off, off + w) =~= p);
    if encode_utf8(value).len() <= w && trim_end_chars(value) == value {
        lemma_pad_trim(value, w as nat);
    }
}

/// Writing one field leaves the text of a field that does not overlap it unchanged.
pub proof fn lemma_write_keeps_other_field(
    hb: Seq<u8>,
    name: Seq<char>,
    other: Seq<char>,
    value: Seq<char>,
)
    requires
        field_in_template(name),
        field_in_template(other),
        field_offset(name) + field_width(name) <= hb.len(),
        field_offset(other) + field_width(other) <= field_offset(name) || field_offset(name)
            + field_width(name) <= field_offset(other),
    ensures
        field_text(with_field(hb, name, value), other) == field_text(hb, other),
{
    let off = field_offset(name);
    let w = field_width(name);
    let o2 = field_offset(other);
    let w2 = field_width(other);
    lemma_field_offset_nonneg(name);
    lemma_field_offset_nonneg(other);
    lemma_pad_width(value, w as nat);
    let h2 = with_field(hb, name, value);
    if o2 + w2 <= h2.len() {
        assert(h2.subrange(o2, o2 + w2) =~= hb.subrange(o2, o2 + w2));
    }
}

} // verus!
