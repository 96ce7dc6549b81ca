//! Lines of text: splitting, framing each line with comment delimiters, and
//! cutting the header off the top of a document.
//!
//! Lines follow the usual convention: they end at `\n`, a `\r` right before
//! that `\n` is not part of the line, and the last line needs no `\n`.
use vstd::prelude::*;
use vstd::string::*;
use vstd::utf8::*;
use crate::text::{
    byte_len, byte_slice, lemma_ascii_byte_is_boundary, lemma_boundary_after_ascii,
    lemma_boundary_in_subrange, lemma_encode_ascii_single, lemma_encode_concat,
};

verus! {

broadcast use vstd::utf8::group_utf8_lib;

/// Number of lines of a header.
pub const HEADER_LINES: usize = 10;

/// Width in bytes of every line of a header.
pub const HEADER_WIDTH: usize = 80;

/// The offset of the first `\n` in `b` at or after `i`, or `b.len()` when there is none.
pub open spec fn next_newline(b: Seq<u8>, i: int) -> int
    decreases b.len() - i,
{
    if i < 0 || i >= b.len() {
        b.len() as int
    } else if b[i] == 0x0Au8 {
        i
    } else {
        next_newline(b, i + 1)
    }
}

/// A line without the `\r` that ended it.
pub open spec fn strip_cr(l: Seq<u8>) -> Seq<u8> {
    if l.len() > 0 && l.last() == 0x0Du8 {
        l.drop_last()
    } else {
        l
    }
}

/// The lines of `b` that start at or after offset `i` (where `i` is the start of a line).
pub open spec fn lines_from(b: Seq<u8>, i: int) -> Seq<Seq<u8>>
    decreases b.len() - i,
{
    if i < 0 || i >= b.len() {
        seq![]
    } else {
        let j = next_newline(b, i);
        proof {
            lemma_next_newline_bounds(b, i);
        }
        if j < b.len() {
            seq![strip_cr(b.subrange(i, j))] + lines_from(b, j + 1)
        } else {
            seq![b.subrange(i, j)]
        }
    }
}

/// The lines of `b`.
pub open spec fn lines(b: Seq<u8>) -> Seq<Seq<u8>> {
    lines_from(b, 0)
}

/// One line framed by the delimiters: when the line is at least twice as wide
/// as `left`, its first and last `left.len()` bytes are replaced by `left` and
/// `right`; a shorter line is kept as it is.
pub open spec fn delimit_line(l: Seq<u8>, left: Seq<u8>, right: Seq<u8>) -> Seq<u8> {
    let w = left.len() as int;
    if l.len() >= 2 * w {
        left + l.subrange(w, l.len() - w) + right
    } else {
        l
    }
}

/// Every line framed by the delimiters and ended by `\n`.
pub open spec fn delimit_lines(ls: Seq<Seq<u8>>, left: Seq<u8>, right: Seq<u8>) -> Seq<u8>
    decreases ls.len(),
{
    if ls.len() == 0 {
        seq![]
    } else {
        delimit_line(ls[0], left, right) + seq![0x0Au8] + delimit_lines(
            ls.drop_first(),
            left,
            right,
        )
    }
}

/// Cutting every line of `b` that is at least `2 * w` wide at `w` bytes from
/// either end falls on character boundaries.
pub open spec fn delimitable(b: Seq<u8>, w: int) -> bool {
    forall|k: int|
        0 <= k < lines(b).len() ==> {
            let l = #[trigger] lines(b)[k];
            l.len() >= 2 * w ==> is_char_boundary(l, w) && is_char_boundary(l, l.len() - w)
        }
}

/// The given lines, each followed by `\n`.
pub open spec fn join_lines(ls: Seq<Seq<u8>>) -> Seq<u8>
    decreases ls.len(),
{
    if ls.len() == 0 {
        seq![]
    } else {
        ls[0] + seq![0x0Au8] + join_lines(ls.drop_first())
    }
}

/// The header at the top of a document with bytes `b`: its first ten lines,
/// each followed by `\n`, provided it has at least ten lines and each of them
/// is exactly 80 bytes wide.
pub open spec fn header_of(b: Seq<u8>) -> Option<Seq<u8>> {
    let ls = lines(b);
    if ls.len() < HEADER_LINES {
        None
    } else if exists|k: int| 0 <= k < HEADER_LINES && #[trigger] ls[k].len() != HEADER_WIDTH {
        None
    } else {
        Some(join_lines(ls.take(HEADER_LINES as int)))
    }
}

/// Where the line starting at `i` ends (before `\r\n` or `\n`, or at the end
/// of the text), and where its `\n` is.
pub open spec fn line_end(b: Seq<u8>, i: int) -> int {
    let j = next_newline(b, i);
    if j < b.len() && j > i && b[j - 1] == 0x0Du8 {
        j - 1
    } else {
        j
    }
}

pub proof fn lemma_next_newline_bounds(b: Seq<u8>, i: int)
    requires
        0 <= i <= b.len(),
    ensures
        i <= next_newline(b, i) <= b.len(),
        next_newline(b, i) < b.len() ==> b[next_newline(b, i)] == 0x0Au8,
    decreases b.len() - i,
{
    if i < b.len() && b[i] != 0x0Au8 {
        lemma_next_newline_bounds(b, i + 1);
    }
}

/// The line starting at `i`, with where it ends.
proof fn lemma_line_at(b: Seq<u8>, i: int)
    requires
        0 <= i < b.len(),
    ensures
        lines_from(b, i).len() > 0,
        lines_from(b, i)[0] == b.subrange(i, line_end(b, i)),
        i <= line_end(b, i) <= next_newline(b, i) <= b.len(),
        next_newline(b, i) < b.len() ==> lines_from(b, i).drop_first() == lines_from(
            b,
            next_newline(b, i) + 1,
        ),
        next_newline(b, i) == b.len() ==> lines_from(b, i).drop_first() == Seq::<Seq<u8>>::empty(),
{
    lemma_next_newline_bounds(b, i);
    let j = next_newline(b, i);
    if j < b.len() {
        let l = b.subrange(i, j);
        if l.len() > 0 && l.last() == 0x0Du8 {
            assert(l.drop_last() =~= b.subrange(i, j - 1));
        }
        assert((seq![strip_cr(l)] + lines_from(b, j + 1)).drop_first() =~= lines_from(b, j + 1));
    } else {
        assert(seq![b.subrange(i, j)].drop_first() =~= Seq::<Seq<u8>>::empty());
    }
}

/// Framing a line with delimiters of equal width keeps its width.
pub proof fn lemma_framing_keeps_width(l: Seq<u8>, left: Seq<u8>, right: Seq<u8>)
    requires
        left.len() == right.len(),
    ensures
        delimit_line(l, left, right).len() == l.len(),
{
}

/// A line as cut from valid UTF-8 text: valid UTF-8 itself, without `\n`.
pub open spec fn clean_line(l: Seq<u8>) -> bool {
    &&& valid_utf8(l)
    &&& forall|j: int| 0 <= j < l.len() ==> #[trigger] l[j] != 0x0Au8
}

/// No byte from `i` up to the next `\n` is a `\n`.
proof fn lemma_no_newline_before(b: Seq<u8>, i: int)
    requires
        0 <= i <= b.len(),
    ensures
        forall|k: int| i <= k < next_newline(b, i) ==> #[trigger] b[k] != 0x0Au8,
    decreases b.len() - i,
{
    if i < b.len() && b[i] != 0x0Au8 {
        lemma_no_newline_before(b, i + 1);
    }
}

/// The lines of valid UTF-8 text from a line start `i` on are clean.
proof fn lemma_lines_from_clean(b: Seq<u8>, i: int)
    requires
        valid_utf8(b),
        0 <= i <= b.len(),
        is_char_boundary(b, i),
    ensures
        forall|k: int| 0 <= k < lines_from(b, i).len() ==> #[trigger] clean_line(lines_from(b, i)[k]),
    decreases b.len() - i,
{
    if i < b.len() {
        lemma_line_at(b, i);
        lemma_next_newline_bounds(b, i);
        lemma_no_newline_before(b, i);
        let j = next_newline(b, i);
        let e = line_end(b, i);
        if e < b.len() {
            lemma_ascii_byte_is_boundary(b, e);
        } else {
            is_char_boundary_start_end_of_seq(b);
        }
        lemma_boundary_in_subrange(b, i, e, 0);
        let first = b.subrange(i, e);
        assert forall|q: int| 0 <= q < first.len() implies #[trigger] first[q] != 0x0Au8 by {
            assert(first[q] == b[i + q]);
        }
        assert(clean_line(first));
        let ls = lines_from(b, i);
        if j < b.len() {
            lemma_boundary_after_ascii(b, j);
            lemma_lines_from_clean(b, j + 1);
            assert forall|k: int| 0 <= k < ls.len() implies #[trigger] clean_line(ls[k]) by {
                if k > 0 {
                    assert(ls[k] == ls.drop_first()[k - 1]);
                }
            }
        } else {
            assert forall|k: int| 0 <= k < ls.len() implies #[trigger] clean_line(ls[k]) by {
                if k > 0 {
                    assert(ls[k] == ls.drop_first()[k - 1]);
                }
            }
        }
    }
}

/// Clean lines of 80 bytes, each followed by `\n`: valid UTF-8 whose `\n`
/// bytes stand exactly at the end of each 81-byte row.
proof fn lemma_join_clean_rows(ls: Seq<Seq<u8>>)
    requires
        forall|k: int| 0 <= k < ls.len() ==> #[trigger] clean_line(ls[k]) && ls[k].len() == 80,
    ensures
        valid_utf8(join_lines(ls)),
        join_lines(ls).len() == 81 * ls.len(),
        forall|i: int|
            0 <= i < 81 * ls.len() ==> (#[trigger] join_lines(ls)[i] == 0x0Au8 <==> i % 81 == 80),
    decreases ls.len(),
{
    if ls.len() == 0 {
        assert(valid_utf8(Seq::<u8>::empty())) by {
            is_char_boundary_start_end_of_seq(Seq::<u8>::empty());
        }
    } else {
        let rest = ls.drop_first();
        assert forall|k: int| 0 <= k < rest.len() implies #[trigger] clean_line(rest[k])
            && rest[k].len() == 80 by {
            assert(rest[k] == ls[k + 1]);
        }
        lemma_join_clean_rows(rest);
        let nl = seq![0x0Au8];
        lemma_encode_ascii_single('\n');
        encode_utf8_valid_utf8(seq!['\n']);
        assert(valid_utf8(nl));
        assert(clean_line(ls[0]));
        valid_utf8_concat(ls[0], nl);
        valid_utf8_concat(ls[0] + nl, join_lines(rest));
        let jl = join_lines(ls);
        assert(jl == ls[0] + nl + join_lines(rest));
        assert forall|i: int| 0 <= i < 81 * ls.len() implies (#[trigger] jl[i] == 0x0Au8 <==> i % 81
            == 80) by {
            if i < 80 {
                assert(jl[i] == ls[0][i]);
            } else if i > 80 {
                assert(jl[i] == join_lines(rest)[i - 81]);
                assert((i - 81) % 81 == i % 81);
            }
        }
    }
}

/// The header found at the top of valid UTF-8 text is valid UTF-8, 810 bytes
/// long, with its `\n` bytes exactly at the end of each 81-byte row.
pub proof fn lemma_header_shape(b: Seq<u8>)
    requires
        valid_utf8(b),
        header_of(b) is Some,
    ensures
        valid_utf8(header_of(b)->0),
        header_of(b)->0.len() == 810,
        forall|i: int|
            0 <= i < 810 ==> (#[trigger] header_of(b)->0[i] == 0x0Au8 <==> i % 81 == 80),
{
    is_char_boundary_start_end_of_seq(b);
    lemma_lines_from_clean(b, 0);
    let all = lines(b);
    let ls = all.take(10);
    assert(!(exists|k: int| 0 <= k < 10 && #[trigger] all[k].len() != 80));
    assert forall|k: int| 0 <= k < ls.len() implies #[trigger] clean_line(ls[k]) && ls[k].len()
        == 80 by {
        assert(ls[k] == all[k]);
        assert(all[k].len() == 80);
    }
    lemma_join_clean_rows(ls);
}

/// The offset of the next `\n` at or after `i` (or the length of `b`).
fn find_newline(b: &[u8], i: usize) -> (j: usize)
    requires
        i <= b@.len(),
    ensures
        j == next_newline(b@, i as int),
{
    let n = b.len();
    let mut j = i;
    while j < n && b[j] != 0x0Au8
        invariant
            i <= j <= n,
            n == b@.len(),
            next_newline(b@, i as int) == next_newline(b@, j as int),
        decreases n - j,
    {
        j = j + 1;
    }
    j
}

/// One line of `template` (the bytes `start .. end`) framed by `left` and `right`.
fn delimit_piece(template: &str, start: usize, end: usize, left: &str, right: &str) -> (r: String)
    requires
        start <= end <= template.spec_bytes().len(),
        is_char_boundary(template.spec_bytes(), start as int),
        is_char_boundary(template.spec_bytes(), end as int),
        ({
            let l = template.spec_bytes().subrange(start as int, end as int);
            let w = left.spec_bytes().len() as int;
            l.len() >= 2 * w ==> is_char_boundary(l, w) && is_char_boundary(l, l.len() - w)
        }),
    ensures
        encode_utf8(r@) == delimit_line(
            template.spec_bytes().subrange(start as int, end as int),
            left.spec_bytes(),
            right.spec_bytes(),
        ),
{
    let ghost b = template.spec_bytes();
    let ghost line = b.subrange(start as int, end as int);
    let width = byte_len(left);
    proof {
        encode_utf8_valid_utf8(template@);
    }
    if end - start >= width && end - start - width >= width {
        proof {
            lemma_boundary_in_subrange(b, start as int, end as int, width as int);
            lemma_boundary_in_subrange(b, start as int, end as int, line.len() - width);
        }
        let inner = byte_slice(template, start + width, end - width);
        let mut r = String::from_str(left);
        r.append(inner);
        r.append(right);
        proof {
            assert(inner.spec_bytes() =~= line.subrange(width as int, line.len() - width));
            lemma_encode_concat(left@ + inner@, right@);
            lemma_encode_concat(left@, inner@);
        }
        r
    } else {
        let whole = byte_slice(template, start, end);
        String::from_str(whole)
    }
}

proof fn lemma_delimit_invariant_step(
    all: Seq<Seq<u8>>,
    k: int,
    done: Seq<u8>,
    piece: Seq<u8>,
    lb: Seq<u8>,
    rb: Seq<u8>,
)
    requires
        0 <= k < all.len(),
        delimit_lines(all, lb, rb) == done + delimit_lines(all.skip(k), lb, rb),
        piece == delimit_line(all[k], lb, rb),
    ensures
        delimit_lines(all, lb, rb) == done + piece + seq![0x0Au8] + delimit_lines(
            all.skip(k + 1),
            lb,
            rb,
        ),
{
    let rest = all.skip(k);
    assert(rest[0] == all[k]);
    assert(rest.drop_first() =~= all.skip(k + 1));
    assert(done + (piece + seq![0x0Au8] + delimit_lines(all.skip(k + 1), lb, rb)) =~= done + piece
        + seq![0x0Au8] + delimit_lines(all.skip(k + 1), lb, rb));
}

/// `template` with every line framed by `left` and `right` (see `delimit_line`)
/// and ended by `\n`.
pub fn apply_delimiters(template: &str, left: &str, right: &str) -> (r: String)
    requires
        delimitable(template.spec_bytes(), left.spec_bytes().len() as int),
    ensures
        encode_utf8(r@) == delimit_lines(
            lines(template.spec_bytes()),
            left.spec_bytes(),
            right.spec_bytes(),
        ),
{
    let b = template.as_bytes();
    let n = b.len();
    let ghost lb = left.spec_bytes();
    let ghost rb = right.spec_bytes();
    let ghost all = lines(b@);
    let mut result = String::new();
    let mut pos: usize = 0;
    let ghost mut k: int = 0;
    proof {
        reveal_strlit("\n");
        lemma_encode_ascii_single('\n');
        encode_utf8_valid_utf8(template@);
        is_char_boundary_start_end_of_seq(b@);
        assert(all.skip(0) =~= all);
        assert(encode_utf8(result@) =~= Seq::<u8>::empty());
    }
    while pos < n
        invariant
            n == b@.len(),
            b@ == template.spec_bytes(),
            lb == left.spec_bytes(),
            rb == right.spec_bytes(),
            all == lines(b@),
            delimitable(b@, lb.len() as int),
            valid_utf8(b@),
            pos <= n,
            is_char_boundary(b@, pos as int),
            0 <= k <= all.len(),
            lines_from(b@, pos as int) == all.skip(k),
            delimit_lines(all, lb, rb) == encode_utf8(result@) + delimit_lines(
                all.skip(k),
                lb,
                rb,
            ),
            "\n"@ == seq!['\n'],
            encode_utf8(seq!['\n']) == seq![0x0Au8],
        decreases n - pos,
    {
        let j = find_newline(b, pos);
        let end = if j < n && j > pos && b[j - 1] == 0x0Du8 {
            j - 1
        } else {
            j
        };
        proof {
            lemma_line_at(b@, pos as int);
            lemma_next_newline_bounds(b@, pos as int);
            assert(all.skip(k)[0] == all[k]);
            assert(all.skip(k).drop_first() =~= all.skip(k + 1));
            if j < n {
                lemma_ascii_byte_is_boundary(b@, j as int);
                lemma_boundary_after_ascii(b@, j as int);
            }
            if end < j {
                lemma_ascii_byte_is_boundary(b@, end as int);
            }
            assert(b@.subrange(pos as int, end as int) == all[k]);
        }
        let piece = delimit_piece(template, pos, end, left, right);
        let ghost before = result@;
        result.append(piece.as_str());
        result.append("\n");
        proof {
            lemma_encode_concat(before + piece@, seq!['\n']);
            lemma_encode_concat(before, piece@);
            lemma_delimit_invariant_step(all, k, encode_utf8(before), encode_utf8(piece@), lb, rb);
            k = k + 1;
        }
        if j < n {
            pos = j + 1;
        } else {
            pos = n;
            proof {
                assert(all.skip(k) =~= Seq::<Seq<u8>>::empty());
                assert(lines_from(b@, n as int) =~= Seq::<Seq<u8>>::empty());
            }
        }
    }
    proof {
        assert(lines_from(b@, pos as int) =~= Seq::<Seq<u8>>::empty());
        assert(delimit_lines(all.skip(k), lb, rb) =~= Seq::<u8>::empty());
    }
    result
}

proof fn lemma_join_lines_push(ls: Seq<Seq<u8>>, l: Seq<u8>)
    ensures
        join_lines(ls.push(l)) == join_lines(ls) + l + seq![0x0Au8],
    decreases ls.len(),
{
    if ls.len() == 0 {
        reveal_with_fuel(join_lines, 2);
        assert(ls.push(l).drop_first() =~= Seq::<Seq<u8>>::empty());
        assert(join_lines(ls.push(l)) =~= join_lines(ls) + l + seq![0x0Au8]);
    } else {
        lemma_join_lines_push(ls.drop_first(), l);
        assert(ls.push(l).drop_first() =~= ls.drop_first().push(l));
        assert(join_lines(ls.push(l)) =~= join_lines(ls) + l + seq![0x0Au8]);
    }
}

/// The header at the top of `text`: its first ten lines, each followed by
/// `\n`, when `text` has at least ten lines and each of them is exactly 80
/// bytes wide; `None` otherwise.
pub fn extract_header(text: &str) -> (r: Option<String>)
    ensures
        match r {
            Some(h) => header_of(text.spec_bytes()) == Some(encode_utf8(h@)),
            None => header_of(text.spec_bytes()) is None,
        },
{
    let b = text.as_bytes();
    let n = b.len();
    let ghost all = lines(b@);
    let mut result = String::new();
    let mut pos: usize = 0;
    let mut count: usize = 0;
    proof {
        reveal_strlit("\n");
        encode_utf8_valid_utf8(text@);
        is_char_boundary_start_end_of_seq(b@);
        assert(all.skip(0) =~= all);
        assert(all.take(0) =~= Seq::<Seq<u8>>::empty());
    }
    while count < HEADER_LINES
        invariant
            n == b@.len(),
            b@ == text.spec_bytes(),
            all == lines(b@),
            valid_utf8(b@),
            pos <= n,
            is_char_boundary(b@, pos as int),
            count <= HEADER_LINES,
            count <= all.len(),
            lines_from(b@, pos as int) == all.skip(count as int),
            forall|i: int| 0 <= i < count ==> #[trigger] all[i].len() == HEADER_WIDTH,
            encode_utf8(result@) == join_lines(all.take(count as int)),
            "\n"@ == seq!['\n'],
        decreases HEADER_LINES - count,
    {
        if pos >= n {
            proof {
                assert(lines_from(b@, pos as int) =~= Seq::<Seq<u8>>::empty());
                assert(all.len() == count) by {
                    assert(all.skip(count as int).len() == 0);
                }
            }
            return None;
        }
        let j = find_newline(b, pos);
        let end = if j < n && j > pos && b[j - 1] == 0x0Du8 {
            j - 1
        } else {
            j
        };
        proof {
            lemma_line_at(b@, pos as int);
            assert(all.skip(count as int)[0] == all[count as int]);
            assert(all.skip(count as int).drop_first() =~= all.skip(count + 1));
            lemma_next_newline_bounds(b@, pos as int);
            if j < n {
                lemma_ascii_byte_is_boundary(b@, j as int);
                lemma_boundary_after_ascii(b@, j as int);
            }
            if end < j {
                lemma_ascii_byte_is_boundary(b@, end as int);
            }
        }
        let ghost line = b@.subrange(pos as int, end as int);
        assert(line == all[count as int]);
        if end - pos != HEADER_WIDTH {
            proof {
                if all.len() >= HEADER_LINES {
                    assert(all[count as int].len() != HEADER_WIDTH);
                }
            }
            return None;
        }
        let piece = byte_slice(text, pos, end);
        let ghost before = result@;
        result.append(piece);
        result.append("\n");
        proof {
            lemma_encode_ascii_single('\n');
            lemma_encode_concat(before + piece@, seq!['\n']);
            lemma_encode_concat(before, piece@);
            assert(all.take(count + 1) =~= all.take(count as int).push(line));
            lemma_join_lines_push(all.take(count as int), line);
        }
        count = count + 1;
        if j < n {
            pos = j + 1;
        } else {
            pos = n;
            proof {
                assert(all.skip(count as int) =~= Seq::<Seq<u8>>::empty());
                assert(lines_from(b@, n as int) =~= Seq::<Seq<u8>>::empty());
            }
        }
    }
    proof {
        assert(!(exists|k: int| 0 <= k < HEADER_LINES && #[trigger] all[k].len() != HEADER_WIDTH));
    }
    Some(result)
}

} // verus!
