//! The header of a file: reading its fields and rendering a new one.
use vstd::prelude::*;
use vstd::string::*;
use vstd::utf8::*;
use crate::datetime::{
    date_text, format_date, kept_date, local_now, parse_date_or, LocalTime,
};
use crate::delimiters::{ascii_lowercase, get_delimiters, style_for, unicode_lowercase, CommentStyle};
use crate::fields::{
    field_readable, field_text, field_writable, get_field_value, lemma_boundary_at_seam,
    lemma_field_offset_nonneg, lemma_pad_width, pad_chars, set_field_value, with_field,
};
use crate::lines::{
    apply_delimiters, delimit_lines, delimitable, header_of, lemma_header_shape, lines, lines_from,
    strip_cr,
};
use crate::template::{
    field_in_template, field_offset, field_width, lemma_template_layout, template_bytes,
    AUTHOR_FIELD, CREATEDAT_FIELD, CREATEDBY_FIELD, FILENAME_FIELD, GENERIC_TEMPLATE,
    UPDATEDAT_FIELD, UPDATEDBY_FIELD,
};
use crate::text::{
    byte_len, lemma_ascii_byte_is_boundary, lemma_boundary_in_subrange, lemma_encode_concat,
    lemma_no_newline_char, lemma_trim_end_prefix, trim_chars, trim_end_chars,
};

verus! {

broadcast use vstd::utf8::group_utf8_lib;

/// What a header says about its file.
pub struct HeaderInfo {
    pub filename: String,
    pub author: String,
    pub created_by: String,
    pub created_at: LocalTime,
    pub updated_by: String,
    pub updated_at: LocalTime,
}

impl HeaderInfo {
    /// Both dates are valid.
    pub open spec fn wf(&self) -> bool {
        self.created_at.valid() && self.updated_at.valid()
    }

    /// The values of the fields.
    pub open spec fn fields(&self) -> HeaderFields {
        HeaderFields {
            filename: self.filename@,
            author: self.author@,
            created_by: self.created_by@,
            created_at: self.created_at,
            updated_by: self.updated_by@,
            updated_at: self.updated_at,
        }
    }
}

/// The values written into the fields of a header.
pub struct HeaderFields {
    pub filename: Seq<char>,
    pub author: Seq<char>,
    pub created_by: Seq<char>,
    pub created_at: LocalTime,
    pub updated_by: Seq<char>,
    pub updated_at: LocalTime,
}

impl HeaderFields {
    /// Both dates are valid.
    pub open spec fn valid(&self) -> bool {
        self.created_at.valid() && self.updated_at.valid()
    }
}

/// `name` is one of the six fields of a header.
pub open spec fn is_header_field(name: Seq<char>) -> bool {
    ||| name == FILENAME_FIELD@
    ||| name == AUTHOR_FIELD@
    ||| name == CREATEDAT_FIELD@
    ||| name == CREATEDBY_FIELD@
    ||| name == UPDATEDAT_FIELD@
    ||| name == UPDATEDBY_FIELD@
}

/// Every field of a header can be read from the text with bytes `hb`.
pub open spec fn header_readable(hb: Seq<u8>) -> bool {
    &&& field_readable(hb, FILENAME_FIELD@)
    &&& field_readable(hb, AUTHOR_FIELD@)
    &&& field_readable(hb, CREATEDAT_FIELD@)
    &&& field_readable(hb, CREATEDBY_FIELD@)
    &&& field_readable(hb, UPDATEDAT_FIELD@)
    &&& field_readable(hb, UPDATEDBY_FIELD@)
}

/// Whether the field called `name` can be read from `header` (the fields of
/// a header are cut at fixed byte offsets, which must fall between characters).
fn field_is_readable(header: &str, name: &str) -> (r: bool)
    requires
        field_in_template(name@),
    ensures
        r == field_readable(header.spec_bytes(), name@),
{
    let (offset, width) = crate::template::find_field(name);
    let len = byte_len(header);
    if offset <= len && width <= len - offset {
        header.is_char_boundary(offset) && header.is_char_boundary(offset + width)
    } else {
        true
    }
}

/// Whether every field can be read from `header`.
pub fn header_is_readable(header: &str) -> (r: bool)
    ensures
        r == header_readable(header.spec_bytes()),
{
    proof {
        lemma_template_layout();
    }
    field_is_readable(header, FILENAME_FIELD) && field_is_readable(header, AUTHOR_FIELD)
        && field_is_readable(header, CREATEDAT_FIELD) && field_is_readable(header, CREATEDBY_FIELD)
        && field_is_readable(header, UPDATEDAT_FIELD) && field_is_readable(header, UPDATEDBY_FIELD)
}

/// The fields of `header` read at `now`: each date is the one written there
/// or `now` (see `kept_date`).
pub fn header_info_at(header: &str, now: LocalTime) -> (r: HeaderInfo)
    requires
        header_readable(header.spec_bytes()),
        now.valid(),
    ensures
        r.wf(),
        r.filename@ == field_text(header.spec_bytes(), FILENAME_FIELD@),
        r.author@ == field_text(header.spec_bytes(), AUTHOR_FIELD@),
        r.created_by@ == field_text(header.spec_bytes(), CREATEDBY_FIELD@),
        r.updated_by@ == field_text(header.spec_bytes(), UPDATEDBY_FIELD@),
        kept_date(field_text(header.spec_bytes(), CREATEDAT_FIELD@), now, r.created_at),
        kept_date(field_text(header.spec_bytes(), UPDATEDAT_FIELD@), now, r.updated_at),
{
    let created_text = get_field_value(header, CREATEDAT_FIELD);
    let updated_text = get_field_value(header, UPDATEDAT_FIELD);
    HeaderInfo {
        filename: get_field_value(header, FILENAME_FIELD),
        author: get_field_value(header, AUTHOR_FIELD),
        created_by: get_field_value(header, CREATEDBY_FIELD),
        created_at: parse_date_or(created_text.as_str(), now),
        updated_by: get_field_value(header, UPDATEDBY_FIELD),
        updated_at: parse_date_or(updated_text.as_str(), now),
    }
}

/// The fields of `header`, read at the current time (see `header_info_at`).
pub fn get_header_info(header: &str) -> (r: HeaderInfo)
    requires
        header_readable(header.spec_bytes()),
    ensures
        r.wf(),
        r.filename@ == field_text(header.spec_bytes(), FILENAME_FIELD@),
        r.author@ == field_text(header.spec_bytes(), AUTHOR_FIELD@),
        r.created_by@ == field_text(header.spec_bytes(), CREATEDBY_FIELD@),
        r.updated_by@ == field_text(header.spec_bytes(), UPDATEDBY_FIELD@),
{
    header_info_at(header, local_now())
}

/// The author line of a header: `user <mail>`.
pub open spec fn author_text(user: Seq<char>, mail: Seq<char>) -> Seq<char> {
    user + seq![' ', '<'] + mail + seq!['>']
}

/// The field values of a new header for `filename`, written by `user` with
/// address `mail` at `now`; where a header exists, `creator` holds its
/// creator and creation date, which the new header keeps.
pub open spec fn updated_fields(
    user: Seq<char>,
    mail: Seq<char>,
    filename: Seq<char>,
    creator: Option<(Seq<char>, LocalTime)>,
    now: LocalTime,
) -> HeaderFields {
    HeaderFields {
        filename,
        author: author_text(user, mail),
        created_by: match creator {
            Some(c) => c.0,
            None => user,
        },
        created_at: match creator {
            Some(c) => c.1,
            None => now,
        },
        updated_by: user,
        updated_at: now,
    }
}

/// The creator and creation date of an existing header's information.
pub open spec fn creator_of(existing: Option<&HeaderInfo>) -> Option<(Seq<char>, LocalTime)> {
    match existing {
        Some(e) => Some((e.created_by@, e.created_at)),
        None => None,
    }
}

/// The information of a new header for `filename`, written by `user` with
/// address `mail` at `now`; an existing header keeps its creator and creation date.
pub fn make_header_info(
    user: &str,
    mail: &str,
    filename: &str,
    existing: Option<&HeaderInfo>,
    now: LocalTime,
) -> (r: HeaderInfo)
    requires
        now.valid(),
        existing matches Some(e) ==> e.wf(),
    ensures
        r.wf(),
        r.fields() == updated_fields(user@, mail@, filename@, creator_of(existing), now),
        r.filename@ == filename@,
        r.author@ == author_text(user@, mail@),
        r.updated_by@ == user@,
        r.updated_at == now,
        match existing {
            Some(e) => r.created_by@ == e.created_by@ && r.created_at == e.created_at,
            None => r.created_by@ == user@ && r.created_at == now,
        },
{
    let mut author = String::from_str(user);
    author.append(" <");
    author.append(mail);
    author.append(">");
    proof {
        reveal_strlit(" <");
        reveal_strlit(">");
        assert(author@ =~= author_text(user@, mail@));
    }
    let (created_by, created_at) = match existing {
        Some(e) => (e.created_by.clone(), e.created_at),
        None => (String::from_str(user), now),
    };
    HeaderInfo {
        filename: String::from_str(filename),
        author,
        created_by,
        created_at,
        updated_by: String::from_str(user),
        updated_at: now,
    }
}

/// The template framed by the delimiters of `style`.
pub open spec fn delimited_template(style: CommentStyle) -> Seq<u8> {
    delimit_lines(lines(template_bytes()), encode_utf8(style.left()), encode_utf8(style.right()))
}

/// The bytes of the header rendered with the field values `f` and the delimiters of `style`:
/// the framed template with each field filled in.
pub open spec fn rendered(style: CommentStyle, f: HeaderFields) -> Seq<u8> {
    let h0 = delimited_template(style);
    let h1 = with_field(h0, FILENAME_FIELD@, f.filename);
    let h2 = with_field(h1, AUTHOR_FIELD@, f.author);
    let h3 = with_field(h2, CREATEDAT_FIELD@, date_text(f.created_at));
    let h4 = with_field(h3, CREATEDBY_FIELD@, f.created_by);
    let h5 = with_field(h4, UPDATEDAT_FIELD@, date_text(f.updated_at));
    with_field(h5, UPDATEDBY_FIELD@, f.updated_by)
}

/// The header for a file with the given language id and name, filled with `info`.
pub fn render_header(language_id: &str, filename: &str, info: &HeaderInfo) -> (r: String)
    requires
        info.wf(),
    ensures
        encode_utf8(r@) == rendered(
            style_for(unicode_lowercase(language_id@), filename@),
            info.fields(),
        ),
        is_ascii_chars(language_id@) ==> encode_utf8(r@) == rendered(
            style_for(ascii_lowercase(language_id@), filename@),
            info.fields(),
        ),
{
    proof {
        lemma_template_layout();
    }
    let (left, right) = get_delimiters(language_id, filename);
    let ghost style = style_for(unicode_lowercase(language_id@), filename@);
    proof {
        lemma_style_bytes(style);
        lemma_template_delimitable(encode_utf8(style.left()).len() as int);
    }
    let template = apply_delimiters(GENERIC_TEMPLATE, left, right);
    proof {
        lemma_delimited_edges(style);
    }
    let created_at = format_date(&info.created_at);
    let updated_at = format_date(&info.updated_at);
    let h1 = set_field_value(template.as_str(), FILENAME_FIELD, info.filename.as_str());
    proof {
        lemma_edges_preserved(encode_utf8(template@), FILENAME_FIELD@, info.filename@);
    }
    let h2 = set_field_value(h1.as_str(), AUTHOR_FIELD, info.author.as_str());
    proof {
        lemma_edges_preserved(encode_utf8(h1@), AUTHOR_FIELD@, info.author@);
    }
    let h3 = set_field_value(h2.as_str(), CREATEDAT_FIELD, created_at.as_str());
    proof {
        lemma_edges_preserved(encode_utf8(h2@), CREATEDAT_FIELD@, created_at@);
    }
    let h4 = set_field_value(h3.as_str(), CREATEDBY_FIELD, info.created_by.as_str());
    proof {
        lemma_edges_preserved(encode_utf8(h3@), CREATEDBY_FIELD@, info.created_by@);
    }
    let h5 = set_field_value(h4.as_str(), UPDATEDAT_FIELD, updated_at.as_str());
    proof {
        lemma_edges_preserved(encode_utf8(h4@), UPDATEDAT_FIELD@, updated_at@);
    }
    set_field_value(h5.as_str(), UPDATEDBY_FIELD, info.updated_by.as_str())
}

/// The delimiters of a style are one- to three-byte ASCII strings of equal
/// length, without line breaks.
pub proof fn lemma_style_bytes(style: CommentStyle)
    ensures
        ({
            let lb = encode_utf8(style.left());
            let rb = encode_utf8(style.right());
            &&& lb.len() == rb.len()
            &&& 1 <= lb.len() <= 3
            &&& forall|j: int| 0 <= j < lb.len() ==> #[trigger] lb[j] < 0x80 && lb[j] != 0x0Au8 && lb[j] != 0x0Du8
            &&& forall|j: int| 0 <= j < rb.len() ==> #[trigger] rb[j] < 0x80 && rb[j] != 0x0Au8 && rb[j] != 0x0Du8
        }),
{
    reveal_strlit("/* ");
    reveal_strlit(" */");
    reveal_strlit("# ");
    reveal_strlit(" #");
    reveal_strlit("-- ");
    reveal_strlit(" --");
    reveal_strlit("(* ");
    reveal_strlit(" *)");
    reveal_strlit("%% ");
    reveal_strlit(" %%");
    reveal_strlit(";; ");
    reveal_strlit(" ;;");
    let l = style.left();
    let r = style.right();
    assert(is_ascii_chars(l));
    assert(is_ascii_chars(r));
    is_ascii_chars_encode_utf8(l);
    is_ascii_chars_encode_utf8(r);
}

/// A byte sequence of ASCII bytes only is valid UTF-8, and each of its
/// positions is a character boundary.
pub proof fn lemma_ascii_bytes_boundaries(l: Seq<u8>)
    requires
        forall|j: int| 0 <= j < l.len() ==> #[trigger] l[j] < 0x80,
    ensures
        valid_utf8(l),
        forall|i: int| 0 <= i <= l.len() ==> #[trigger] is_char_boundary(l, i),
{
    assert(valid_utf8(l.subrange(0, 0)));
    partial_valid_utf8_extend_ascii_block(l, 0, l.len() as int);
    assert(l.subrange(0, l.len() as int) =~= l);
    assert forall|i: int| 0 <= i <= l.len() implies #[trigger] is_char_boundary(l, i) by {
        if i == l.len() {
            is_char_boundary_start_end_of_seq(l);
        } else {
            is_char_boundary_iff_not_is_continuation_byte(l, i);
        }
    }
}

proof fn lemma_lines_ascii(b: Seq<u8>, i: int)
    requires
        forall|j: int| 0 <= j < b.len() ==> #[trigger] b[j] < 0x80,
    ensures
        forall|k: int, j: int|
            0 <= k < lines_from(b, i).len() && 0 <= j < lines_from(b, i)[k].len()
                ==> #[trigger] lines_from(b, i)[k][j] < 0x80,
    decreases b.len() - i,
{
    if 0 <= i < b.len() {
        crate::lines::lemma_next_newline_bounds(b, i);
        let nl = crate::lines::next_newline(b, i);
        let ls = lines_from(b, i);
        if nl < b.len() {
            lemma_lines_ascii(b, nl + 1);
            let rest = lines_from(b, nl + 1);
            assert forall|k: int, j: int|
                0 <= k < ls.len() && 0 <= j < ls[k].len() implies #[trigger] ls[k][j] < 0x80 by {
                if k == 0 {
                    let l = b.subrange(i, nl);
                    if l.len() > 0 && l.last() == 0x0Du8 {
                        assert(ls[0][j] == l[j]);
                    }
                    assert(ls[0][j] == l[j]);
                } else {
                    assert(ls[k] == rest[k - 1]);
                }
            }
        } else {
            assert forall|k: int, j: int|
                0 <= k < ls.len() && 0 <= j < ls[k].len() implies #[trigger] ls[k][j] < 0x80 by {
                assert(ls[k][j] == b[i + j]);
            }
        }
    }
}

/// Every line of the template can be framed by delimiters of any width.
pub proof fn lemma_template_delimitable(w: int)
    requires
        0 <= w,
    ensures
        delimitable(template_bytes(), w),
{
    lemma_template_layout();
    let tb = template_bytes();
    lemma_lines_ascii(tb, 0);
    assert forall|k: int| 0 <= k < lines(tb).len() implies {
        let l = #[trigger] lines(tb)[k];
        l.len() >= 2 * w ==> is_char_boundary(l, w) && is_char_boundary(l, l.len() - w)
    } by {
        let l = lines(tb)[k];
        assert forall|j: int| 0 <= j < l.len() implies #[trigger] l[j] < 0x80 by {
            assert(lines_from(tb, 0)[k][j] < 0x80);
        }
        lemma_ascii_bytes_boundaries(l);
    }
}

proof fn lemma_next_newline_exact(b: Seq<u8>, i: int, j: int)
    requires
        0 <= i <= j < b.len(),
        b[j] == 0x0Au8,
        forall|k: int| i <= k < j ==> #[trigger] b[k] != 0x0Au8,
    ensures
        crate::lines::next_newline(b, i) == j,
    decreases j - i,
{
    if i < j {
        lemma_next_newline_exact(b, i + 1, j);
    }
}

/// Line `q` of the template (80 bytes, without its `\n`).
pub open spec fn template_row(q: int) -> Seq<u8> {
    template_bytes().subrange(81 * q, 81 * q + 80)
}

/// The template's lines from line `r` on: rows `r` to 10, then an empty line.
proof fn lemma_template_lines_from(r: int)
    requires
        0 <= r <= 11,
    ensures
        lines_from(template_bytes(), 81 * r) == Seq::new((11 - r) as nat, |q: int| template_row(r + q)).push(
            Seq::<u8>::empty(),
        ),
    decreases 11 - r,
{
    lemma_template_layout();
    let tb = template_bytes();
    if r == 11 {
        lemma_next_newline_exact(tb, 891, 891);
        assert(tb.subrange(891, 891) =~= Seq::<u8>::empty());
        assert(lines_from(tb, 892) =~= Seq::<Seq<u8>>::empty());
        assert(strip_cr(Seq::<u8>::empty()) =~= Seq::<u8>::empty());
        assert(lines_from(tb, 891) =~= Seq::new(0, |q: int| template_row(r + q)).push(
            Seq::<u8>::empty(),
        ));
    } else {
        assert forall|k: int| 81 * r <= k < 81 * r + 80 implies #[trigger] tb[k] != 0x0Au8 by {
            assert(k % 81 == k - 81 * r);
        }
        assert(tb[81 * r + 80] == 0x0Au8) by {
            assert((81 * r + 80) % 81 == 80);
        }
        lemma_next_newline_exact(tb, 81 * r, 81 * r + 80);
        assert(tb.subrange(81 * r, 81 * r + 80).last() == tb[81 * r + 79]);
        assert(strip_cr(tb.subrange(81 * r, 81 * r + 80)) == template_row(r));
        lemma_template_lines_from(r + 1);
        assert(81 * (r + 1) == 81 * r + 80 + 1);
        assert(seq![template_row(r)] + Seq::new((11 - (r + 1)) as nat, |q: int| template_row(r + 1 + q)).push(
            Seq::<u8>::empty(),
        ) =~= Seq::new((11 - r) as nat, |q: int| template_row(r + q)).push(Seq::<u8>::empty()));
    }
}

/// The byte at column `c` (below 80) of a line of 80 bytes framed by `lb` and `rb`.
pub open spec fn framed_cell(l: Seq<u8>, c: int, lb: Seq<u8>, rb: Seq<u8>) -> u8 {
    let w = lb.len() as int;
    if c < w {
        lb[c]
    } else if c < 80 - w {
        l[c]
    } else {
        rb[c - (80 - w)]
    }
}

#[verifier::rlimit(40)]
proof fn lemma_delimit_rows(ls: Seq<Seq<u8>>, lb: Seq<u8>, rb: Seq<u8>)
    requires
        forall|q: int| 0 <= q < ls.len() ==> #[trigger] ls[q].len() == 80,
        lb.len() == rb.len(),
        2 * lb.len() <= 80,
    ensures
        delimit_lines(ls, lb, rb).len() == 81 * ls.len(),
        forall|i: int|
            0 <= i < 81 * ls.len() ==> #[trigger] delimit_lines(ls, lb, rb)[i] == if i % 81 == 80 {
                0x0Au8
            } else {
                framed_cell(ls[i / 81], i % 81, lb, rb)
            },
    decreases ls.len(),
{
    if ls.len() > 0 {
        let rest = ls.drop_first();
        lemma_delimit_rows(rest, lb, rb);
        let d = delimit_lines(ls, lb, rb);
        let first = crate::lines::delimit_line(ls[0], lb, rb);
        let w = lb.len() as int;
        assert(first =~= lb + ls[0].subrange(w, 80 - w) + rb);
        assert forall|i: int| 0 <= i < 81 * ls.len() implies #[trigger] d[i] == if i % 81 == 80 {
            0x0Au8
        } else {
            framed_cell(ls[i / 81], i % 81, lb, rb)
        } by {
            if i >= 81 {
                assert(d[i] == delimit_lines(rest, lb, rb)[i - 81]);
                assert((i - 81) % 81 == i % 81);
                assert((i - 81) / 81 == i / 81 - 1);
                assert(rest[(i - 81) / 81] == ls[i / 81]);
            } else {
                assert(i % 81 == i);
                assert(i / 81 == 0);
            }
        }
    }
}

proof fn lemma_delimit_lines_push(ls: Seq<Seq<u8>>, l: Seq<u8>, lb: Seq<u8>, rb: Seq<u8>)
    ensures
        delimit_lines(ls.push(l), lb, rb) == delimit_lines(ls, lb, rb) + crate::lines::delimit_line(
            l,
            lb,
            rb,
        ) + seq![0x0Au8],
    decreases ls.len(),
{
    if ls.len() == 0 {
        reveal_with_fuel(delimit_lines, 2);
        assert(ls.push(l).drop_first() =~= Seq::<Seq<u8>>::empty());
        assert(delimit_lines(ls.push(l), lb, rb) =~= delimit_lines(ls, lb, rb)
            + crate::lines::delimit_line(l, lb, rb) + seq![0x0Au8]);
    } else {
        lemma_delimit_lines_push(ls.drop_first(), l, lb, rb);
        assert(ls.push(l).drop_first() =~= ls.drop_first().push(l));
        assert(delimit_lines(ls.push(l), lb, rb) =~= delimit_lines(ls, lb, rb)
            + crate::lines::delimit_line(l, lb, rb) + seq![0x0Au8]);
    }
}

/// The template framed by the delimiters of a style: 892 bytes; its lines
/// keep their `\n` at column 80, start with the left delimiter, end with the
/// right one, and keep the template's bytes in between.
pub proof fn lemma_delimited_template(style: CommentStyle)
    ensures
        ({
            let d = delimited_template(style);
            let lb = encode_utf8(style.left());
            let rb = encode_utf8(style.right());
            &&& d.len() == 892
            &&& d[891] == 0x0Au8
            &&& forall|i: int|
                0 <= i < 891 ==> #[trigger] d[i] == if i % 81 == 80 {
                    0x0Au8
                } else {
                    framed_cell(template_row(i / 81), i % 81, lb, rb)
                }
        }),
{
    lemma_style_bytes(style);
    lemma_template_lines_from(0);
    let lb = encode_utf8(style.left());
    let rb = encode_utf8(style.right());
    let rows = Seq::new(11, |q: int| template_row(q));
    assert(Seq::new((11 - 0) as nat, |q: int| template_row(0 + q)) =~= rows);
    assert(lines(template_bytes()) == rows.push(Seq::<u8>::empty()));
    lemma_template_layout();
    assert forall|q: int| 0 <= q < rows.len() implies #[trigger] rows[q].len() == 80 by {}
    lemma_delimit_rows(rows, lb, rb);
    lemma_delimit_lines_push(rows, Seq::<u8>::empty(), lb, rb);
    let d = delimited_template(style);
    assert(crate::lines::delimit_line(Seq::<u8>::empty(), lb, rb) =~= Seq::<u8>::empty());
    assert forall|i: int| 0 <= i < 891 implies #[trigger] d[i] == if i % 81 == 80 {
        0x0Au8
    } else {
        framed_cell(template_row(i / 81), i % 81, lb, rb)
    } by {
        assert(d[i] == delimit_lines(rows, lb, rb)[i]);
        assert(rows[i / 81] == template_row(i / 81));
    }
}

/// Both ends of the field called `name` are character boundaries of `h`.
pub open spec fn field_edges(h: Seq<u8>, name: Seq<char>) -> bool {
    &&& is_char_boundary(h, field_offset(name))
    &&& is_char_boundary(h, field_offset(name) + field_width(name))
}

/// `h` is a valid header-sized text into which every field can be written.
pub open spec fn fillable(h: Seq<u8>) -> bool {
    &&& valid_utf8(h)
    &&& h.len() == 892
    &&& field_edges(h, FILENAME_FIELD@)
    &&& field_edges(h, AUTHOR_FIELD@)
    &&& field_edges(h, CREATEDAT_FIELD@)
    &&& field_edges(h, CREATEDBY_FIELD@)
    &&& field_edges(h, UPDATEDAT_FIELD@)
    &&& field_edges(h, UPDATEDBY_FIELD@)
}

/// Every field can be written into the template framed by any style.
proof fn lemma_delimited_edges(style: CommentStyle)
    ensures
        fillable(delimited_template(style)),
{
    lemma_delimited_template(style);
    lemma_template_layout();
    let d = delimited_template(style);
    let lb = encode_utf8(style.left());
    let rb = encode_utf8(style.right());
    lemma_style_bytes(style);
    assert(valid_utf8(d)) by {
        assert forall|j: int| 0 <= j < d.len() implies #[trigger] d[j] < 0x80 by {
            if j < 891 {
                if j % 81 != 80 {
                    let c = j % 81;
                    let w = lb.len() as int;
                    if c >= w && c < 80 - w {
                        assert(template_row(j / 81)[c] == template_bytes()[81 * (j / 81) + c]);
                    }
                }
            }
        }
        lemma_ascii_bytes_boundaries(d);
    }
    assert forall|j: int| 0 <= j < d.len() implies #[trigger] d[j] < 0x80 by {
        if j < 891 {
            if j % 81 != 80 {
                let c = j % 81;
                let w = lb.len() as int;
                if c >= w && c < 80 - w {
                    assert(template_row(j / 81)[c] == template_bytes()[81 * (j / 81) + c]);
                }
            }
        }
    }
    lemma_ascii_bytes_boundaries(d);
}

proof fn lemma_write_keeps_boundary(h: Seq<u8>, name: Seq<char>, v: Seq<char>, p: int)
    requires
        valid_utf8(h),
        field_writable(h, name),
        0 <= p <= h.len(),
        is_char_boundary(h, p),
        p <= field_offset(name) || field_offset(name) + field_width(name) <= p,
    ensures
        valid_utf8(with_field(h, name, v)),
        with_field(h, name, v).len() == h.len(),
        is_char_boundary(with_field(h, name, v), p),
{
    let off = field_offset(name);
    let w = field_width(name);
    lemma_field_offset_nonneg(name);
    lemma_pad_width(v, w as nat);
    let a = h.take(off);
    let pb = encode_utf8(pad_chars(v, w as nat));
    let c = h.skip(off + w);
    valid_utf8_split(h, off);
    is_char_boundary_start_end_of_seq(h);
    lemma_boundary_in_subrange(h, off + w, h.len() as int, 0);
    assert(h.subrange(0, off) =~= a);
    assert(h.subrange(off + w, h.len() as int) =~= c);
    lemma_boundary_at_seam(a, pb);
    lemma_boundary_at_seam(a + pb, c);
    let h2 = with_field(h, name, v);
    assert(h2 =~= (a + pb) + c);
    if p < off {
        is_char_boundary_iff_not_is_continuation_byte(h, p);
        is_char_boundary_iff_not_is_continuation_byte(h2, p);
        assert(h2[p] == h[p]);
    } else if p == off {
        lemma_boundary_at_seam(a, pb + c);
        assert(h2 =~= a + (pb + c));
    } else if p == off + w {
    } else if p == h.len() {
        is_char_boundary_start_end_of_seq(h2);
    } else {
        is_char_boundary_iff_not_is_continuation_byte(h, p);
        is_char_boundary_iff_not_is_continuation_byte(h2, p);
        assert(h2[p] == h[p]);
    }
}

/// The last write to a field wins: after writing `v1` into a field of the
/// text `h`, the field can be written again, and writing `v2` then gives the
/// same bytes as writing `v2` alone.
pub proof fn lemma_last_write_wins(h: Seq<char>, name: Seq<char>, v1: Seq<char>, v2: Seq<char>)
    requires
        field_writable(encode_utf8(h), name),
    ensures
        field_writable(with_field(encode_utf8(h), name, v1), name),
        with_field(with_field(encode_utf8(h), name, v1), name, v2) == with_field(
            encode_utf8(h),
            name,
            v2,
        ),
{
    let hb = encode_utf8(h);
    let off = field_offset(name);
    let w = field_width(name);
    lemma_field_offset_nonneg(name);
    lemma_write_keeps_boundary(hb, name, v1, off);
    lemma_write_keeps_boundary(hb, name, v1, off + w);
    crate::fields::lemma_pad_width(v1, w as nat);
    crate::fields::lemma_pad_width(v2, w as nat);
    let h1 = with_field(hb, name, v1);
    assert(h1.take(off) =~= hb.take(off));
    assert(h1.skip(off + w) =~= hb.skip(off + w));
    assert(with_field(h1, name, v2) =~= with_field(hb, name, v2));
}

/// Writing one field of the text `h` leaves every other field as it was: the
/// result is text again, the other field can still be read from it, and it
/// reads as before.
pub proof fn lemma_write_keeps_other_field_readable(
    h: Seq<char>,
    name: Seq<char>,
    other: Seq<char>,
    v: Seq<char>,
)
    requires
        is_header_field(name),
        is_header_field(other),
        name != other,
        field_writable(encode_utf8(h), name),
        field_readable(encode_utf8(h), other),
    ensures
        valid_utf8(with_field(encode_utf8(h), name, v)),
        field_readable(with_field(encode_utf8(h), name, v), other),
        field_text(with_field(encode_utf8(h), name, v), other) == field_text(encode_utf8(h), other),
{
    lemma_template_layout();
    let hb = encode_utf8(h);
    let on = field_offset(name);
    let wn = field_width(name);
    let oo = field_offset(other);
    let wo = field_width(other);
    lemma_field_offset_nonneg(name);
    lemma_field_offset_nonneg(other);
    assert(oo + wo <= on || on + wn <= oo);
    is_char_boundary_start_end_of_seq(hb);
    lemma_write_keeps_boundary(hb, name, v, 0);
    if oo + wo <= hb.len() {
        lemma_write_keeps_boundary(hb, name, v, oo);
        lemma_write_keeps_boundary(hb, name, v, oo + wo);
    }
    crate::fields::lemma_write_keeps_other_field(hb, name, other, v);
}

/// Writing any field keeps every field writable.
pub proof fn lemma_edges_preserved(h: Seq<u8>, name: Seq<char>, v: Seq<char>)
    requires
        fillable(h),
        is_header_field(name),
    ensures
        fillable(with_field(h, name, v)),
        field_writable(h, name),
{
    lemma_template_layout();
    let fields = seq![
        FILENAME_FIELD@,
        AUTHOR_FIELD@,
        CREATEDAT_FIELD@,
        CREATEDBY_FIELD@,
        UPDATEDAT_FIELD@,
        UPDATEDBY_FIELD@,
    ];
    assert forall|k: int| 0 <= k < 6 implies #[trigger] field_edges(
        with_field(h, name, v),
        fields[k],
    ) by {
        let g = fields[k];
        lemma_write_keeps_boundary(h, name, v, field_offset(g));
        lemma_write_keeps_boundary(h, name, v, field_offset(g) + field_width(g));
    }
    assert(field_edges(with_field(h, name, v), fields[0]));
    assert(field_edges(with_field(h, name, v), fields[1]));
    assert(field_edges(with_field(h, name, v), fields[2]));
    assert(field_edges(with_field(h, name, v), fields[3]));
    assert(field_edges(with_field(h, name, v), fields[4]));
    assert(field_edges(with_field(h, name, v), fields[5]));
    lemma_write_keeps_boundary(h, name, v, 0);
}

/// `v` holds no line break.
pub open spec fn no_newline(v: Seq<char>) -> bool {
    forall|i: int| 0 <= i < v.len() ==> #[trigger] v[i] != '\n'
}

/// A value that reads back from a field `w` bytes wide as it was written: no
/// line break, no trailing white space, at most `w` bytes.
pub open spec fn fits_field(v: Seq<char>, w: int) -> bool {
    &&& no_newline(v)
    &&& trim_end_chars(v) == v
    &&& encode_utf8(v).len() <= w
}

proof fn lemma_encode_no_newline(v: Seq<char>)
    requires
        no_newline(v),
    ensures
        forall|j: int| 0 <= j < encode_utf8(v).len() ==> #[trigger] encode_utf8(v)[j] != 0x0Au8,
    decreases v.len(),
{
    if v.len() > 0 {
        let rest = v.drop_first();
        assert(no_newline(rest)) by {
            assert forall|i: int| 0 <= i < rest.len() implies #[trigger] rest[i] != '\n' by {
                assert(rest[i] == v[i + 1]);
            }
        }
        lemma_encode_no_newline(rest);
        let c = v[0] as u32;
        let e = encode_scalar(c);
        assert forall|j: int| 0 <= j < e.len() implies #[trigger] e[j] != 0x0Au8 by {
            assert(v[0] != '\n');
            assert(c != 0x0A) by {
                if c == 0x0A {
                    char_u32_cast(v[0], c);
                    assert((0x0Au32 as char) == '\n');
                }
            }
            if has_width_1_encoding(c) {
                assert((c & 0x7F) as u8 != 0x0Au8) by (bit_vector)
                    requires
                        c <= 0x7F,
                        c != 0x0A,
                ;
            } else {
                assert(forall|x: u8| #![auto] (0xC0u8 | x) != 0x0Au8) by (bit_vector);
                assert(forall|x: u8| #![auto] (0xE0u8 | x) != 0x0Au8) by (bit_vector);
                assert(forall|x: u8| #![auto] (0xF0u8 | x) != 0x0Au8) by (bit_vector);
                assert(forall|x: u8| #![auto] (0x80u8 | x) != 0x0Au8) by (bit_vector);
            }
        }
        assert forall|j: int| 0 <= j < encode_utf8(v).len() implies #[trigger] encode_utf8(v)[j]
            != 0x0Au8 by {
            if j < e.len() {
                assert(encode_utf8(v)[j] == e[j]);
            } else {
                assert(encode_utf8(v)[j] == encode_utf8(rest)[j - e.len()]);
            }
        }
    }
}

proof fn lemma_pad_no_newline(v: Seq<char>, w: nat)
    requires
        no_newline(v),
    ensures
        forall|j: int|
            0 <= j < encode_utf8(pad_chars(v, w)).len() ==> #[trigger] encode_utf8(
                pad_chars(v, w),
            )[j] != 0x0Au8,
{
    crate::fields::lemma_fit_prefix_width(v, w as int);
    let p = pad_chars(v, w);
    assert(no_newline(p)) by {
        let f = crate::fields::fit_prefix(v, w as int);
        assert forall|i: int| 0 <= i < p.len() implies #[trigger] p[i] != '\n' by {
            if i < f.len() {
                assert(p[i] == v[i]);
            }
        }
    }
    lemma_encode_no_newline(p);
}

/// The first ten lines of `h` are 80 bytes wide, each ended by `\n` and not
/// by `\r\n`.
pub open spec fn ten_rows(h: Seq<u8>) -> bool {
    &&& h.len() >= 810
    &&& forall|i: int| 0 <= i < 810 ==> (#[trigger] h[i] == 0x0Au8 <==> i % 81 == 80)
    &&& forall|i: int| 0 <= i < 810 && i % 81 == 79 ==> #[trigger] h[i] != 0x0Du8
}

proof fn lemma_ten_rows_delimited(style: CommentStyle)
    ensures
        ten_rows(delimited_template(style)),
{
    lemma_delimited_template(style);
    lemma_style_bytes(style);
    lemma_template_layout();
    let d = delimited_template(style);
    let lb = encode_utf8(style.left());
    let w = lb.len() as int;
    assert forall|i: int| 0 <= i < 810 implies (#[trigger] d[i] == 0x0Au8 <==> i % 81 == 80) by {
        if i % 81 != 80 {
            let c = i % 81;
            if c >= w && c < 80 - w {
                assert(template_row(i / 81)[c] == template_bytes()[81 * (i / 81) + c]);
                assert(81 * (i / 81) + c == i);
            }
        }
    }
}

proof fn lemma_with_field_bytes(h: Seq<u8>, name: Seq<char>, v: Seq<char>)
    requires
        field_in_template(name),
        field_offset(name) + field_width(name) <= h.len(),
    ensures
        with_field(h, name, v).len() == h.len(),
        forall|p: int|
            0 <= p < h.len() && (p < field_offset(name) || field_offset(name) + field_width(name)
                <= p) ==> #[trigger] with_field(h, name, v)[p] == h[p],
        forall|p: int|
            field_offset(name) <= p < field_offset(name) + field_width(name) ==> #[trigger] with_field(
                h,
                name,
                v,
            )[p] == encode_utf8(pad_chars(v, field_width(name) as nat))[p - field_offset(name)],
{
    lemma_field_offset_nonneg(name);
    lemma_pad_width(v, field_width(name) as nat);
}

proof fn lemma_ten_rows_write(h: Seq<u8>, name: Seq<char>, v: Seq<char>)
    requires
        ten_rows(h),
        field_in_template(name),
        field_offset(name) + field_width(name) <= 810,
        field_offset(name) % 81 + field_width(name) <= 79,
        no_newline(v),
    ensures
        ten_rows(with_field(h, name, v)),
{
    let off = field_offset(name);
    let w = field_width(name);
    lemma_field_offset_nonneg(name);
    lemma_with_field_bytes(h, name, v);
    lemma_pad_no_newline(v, w as nat);
    let h2 = with_field(h, name, v);
    assert forall|i: int| 0 <= i < 810 implies (#[trigger] h2[i] == 0x0Au8 <==> i % 81 == 80) by {
        if off <= i < off + w {
            assert(i % 81 == off % 81 + (i - off));
        }
    }
    assert forall|i: int| 0 <= i < 810 && i % 81 == 79 implies #[trigger] h2[i] != 0x0Du8 by {
        if off <= i < off + w {
            assert(i % 81 == off % 81 + (i - off));
        }
    }
}

proof fn lemma_with_field_keeps_span(h: Seq<u8>, name: Seq<char>, v: Seq<char>, a: int, b: int)
    requires
        field_in_template(name),
        field_offset(name) + field_width(name) <= h.len(),
        0 <= a <= b <= h.len(),
        b <= field_offset(name) || field_offset(name) + field_width(name) <= a,
    ensures
        with_field(h, name, v).subrange(a, b) == h.subrange(a, b),
{
    lemma_with_field_bytes(h, name, v);
    assert(with_field(h, name, v).subrange(a, b) =~= h.subrange(a, b));
}

proof fn lemma_rows_lines(b: Seq<u8>, r: int)
    requires
        0 <= r <= 10,
        ten_rows(b),
    ensures
        lines_from(b, 81 * r).len() >= 10 - r,
        forall|k: int|
            0 <= k < 10 - r ==> #[trigger] lines_from(b, 81 * r)[k] == b.subrange(
                81 * (r + k),
                81 * (r + k) + 80,
            ),
    decreases 10 - r,
{
    if r < 10 {
        let i = 81 * r;
        assert forall|k: int| i <= k < i + 80 implies #[trigger] b[k] != 0x0Au8 by {
            assert(k % 81 == k - i);
        }
        assert(b[i + 80] == 0x0Au8) by {
            assert((i + 80) % 81 == 80);
        }
        assert(b[i + 79] != 0x0Du8) by {
            assert((i + 79) % 81 == 79);
        }
        lemma_next_newline_exact(b, i, i + 80);
        assert(b.subrange(i, i + 80).last() == b[i + 79]);
        lemma_rows_lines(b, r + 1);
        assert(81 * (r + 1) == i + 81);
        let ls = lines_from(b, i);
        assert forall|k: int| 0 <= k < 10 - r implies #[trigger] ls[k] == b.subrange(
            81 * (r + k),
            81 * (r + k) + 80,
        ) by {
            if k > 0 {
                assert(ls[k] == lines_from(b, 81 * (r + 1))[k - 1]);
                assert(81 * (r + 1 + (k - 1)) == 81 * (r + k));
            }
        }
    }
}

proof fn lemma_join_rows(b: Seq<u8>, r: int)
    requires
        0 <= r <= 10,
        ten_rows(b),
    ensures
        crate::lines::join_lines(
            Seq::new((10 - r) as nat, |k: int| b.subrange(81 * (r + k), 81 * (r + k) + 80)),
        ) == b.subrange(81 * r, 810),
    decreases 10 - r,
{
    let ls = Seq::new((10 - r) as nat, |k: int| b.subrange(81 * (r + k), 81 * (r + k) + 80));
    if r == 10 {
        assert(b.subrange(810, 810) =~= Seq::<u8>::empty());
    } else {
        lemma_join_rows(b, r + 1);
        let rest = Seq::new((10 - (r + 1)) as nat, |k: int| b.subrange(81 * (r + 1 + k), 81 * (r + 1 + k) + 80));
        assert(ls.drop_first() =~= rest);
        assert(b[81 * r + 80] == 0x0Au8) by {
            assert((81 * r + 80) % 81 == 80);
        }
        assert(81 * (r + 1) == 81 * r + 81);
        assert(ls[0] + seq![0x0Au8] + b.subrange(81 * (r + 1), 810) =~= b.subrange(81 * r, 810));
    }
}

/// A text that begins with ten well-formed header lines has the first 810
/// bytes as its header.
proof fn lemma_header_of_rows(b: Seq<u8>)
    requires
        ten_rows(b),
    ensures
        header_of(b) == Some(b.take(810)),
{
    lemma_rows_lines(b, 0);
    let ls = lines(b);
    let rows = Seq::new(10, |k: int| b.subrange(81 * (0 + k), 81 * (0 + k) + 80));
    assert(ls.take(10) =~= rows);
    assert(!(exists|k: int| 0 <= k < 10 && #[trigger] ls[k].len() != 80));
    lemma_join_rows(b, 0);
    assert(b.subrange(0, 810) =~= b.take(810));
}

/// Reading a rendered header back: at the top of any text, the rendered
/// header is found again (its first ten lines) when no written value holds a
/// line break, and each of its fields gives back the file name, author,
/// creator or updater that was written there when that value fits its field;
/// the dates give back their text for the years 0 to 9999, with nothing to
/// trim (which `header_info_at` reads back as those dates in whole seconds;
/// see `kept_date`).
pub proof fn lemma_rendered_header_reads_back(style: CommentStyle, f: HeaderFields, rest: Seq<u8>)
    requires
        f.valid(),
        no_newline(f.filename),
        no_newline(f.author),
        no_newline(f.created_by),
        no_newline(f.updated_by),
    ensures
        ({
            let h = rendered(style, f);
            let top = h.take(810);
            &&& header_of(h + rest) == Some(top)
            &&& fits_field(f.filename, field_width(FILENAME_FIELD@)) ==> field_text(
                top,
                FILENAME_FIELD@,
            ) == f.filename
            &&& fits_field(f.author, field_width(AUTHOR_FIELD@)) ==> field_text(top, AUTHOR_FIELD@)
                == f.author
            &&& fits_field(f.created_by, field_width(CREATEDBY_FIELD@)) ==> field_text(
                top,
                CREATEDBY_FIELD@,
            ) == f.created_by
            &&& fits_field(f.updated_by, field_width(UPDATEDBY_FIELD@)) ==> field_text(
                top,
                UPDATEDBY_FIELD@,
            ) == f.updated_by
            &&& 0 <= f.created_at.year <= 9999 ==> field_text(top, CREATEDAT_FIELD@)
                == date_text(f.created_at) && trim_chars(field_text(top, CREATEDAT_FIELD@))
                == date_text(f.created_at)
            &&& 0 <= f.updated_at.year <= 9999 ==> field_text(top, UPDATEDAT_FIELD@)
                == date_text(f.updated_at) && trim_chars(field_text(top, UPDATEDAT_FIELD@))
                == date_text(f.updated_at)
        }),
{
    lemma_template_layout();
    crate::datetime::lemma_date_text_shape(f.created_at);
    crate::datetime::lemma_date_text_shape(f.updated_at);
    let ca = date_text(f.created_at);
    let ua = date_text(f.updated_at);
    let h0 = delimited_template(style);
    let h1 = with_field(h0, FILENAME_FIELD@, f.filename);
    let h2 = with_field(h1, AUTHOR_FIELD@, f.author);
    let h3 = with_field(h2, CREATEDAT_FIELD@, ca);
    let h4 = with_field(h3, CREATEDBY_FIELD@, f.created_by);
    let h5 = with_field(h4, UPDATEDAT_FIELD@, ua);
    let h6 = with_field(h5, UPDATEDBY_FIELD@, f.updated_by);
    lemma_delimited_template(style);
    crate::fields::lemma_with_field_len(h0, FILENAME_FIELD@, f.filename);
    crate::fields::lemma_with_field_len(h1, AUTHOR_FIELD@, f.author);
    crate::fields::lemma_with_field_len(h2, CREATEDAT_FIELD@, ca);
    crate::fields::lemma_with_field_len(h3, CREATEDBY_FIELD@, f.created_by);
    crate::fields::lemma_with_field_len(h4, UPDATEDAT_FIELD@, ua);
    crate::fields::lemma_with_field_len(h5, UPDATEDBY_FIELD@, f.updated_by);
    // the line structure survives every write
    assert(no_newline(ca));
    assert(no_newline(ua));
    lemma_ten_rows_delimited(style);
    lemma_ten_rows_write(h0, FILENAME_FIELD@, f.filename);
    lemma_ten_rows_write(h1, AUTHOR_FIELD@, f.author);
    lemma_ten_rows_write(h2, CREATEDAT_FIELD@, ca);
    lemma_ten_rows_write(h3, CREATEDBY_FIELD@, f.created_by);
    lemma_ten_rows_write(h4, UPDATEDAT_FIELD@, ua);
    lemma_ten_rows_write(h5, UPDATEDBY_FIELD@, f.updated_by);
    let b = h6 + rest;
    assert(ten_rows(b)) by {
        assert forall|i: int| 0 <= i < 810 implies #[trigger] b[i] == h6[i] by {}
    }
    lemma_header_of_rows(b);
    assert(b.take(810) =~= h6.take(810));
    // each field keeps what was written into it
    let top = h6.take(810);
    assert(top.len() == 810);
    // FILENAME
    lemma_span_after_write(h0, FILENAME_FIELD@, f.filename);
    lemma_with_field_keeps_span(h1, AUTHOR_FIELD@, f.author, 248, 291);
    lemma_with_field_keeps_span(h2, CREATEDAT_FIELD@, ca, 248, 291);
    lemma_with_field_keeps_span(h3, CREATEDBY_FIELD@, f.created_by, 248, 291);
    lemma_with_field_keeps_span(h4, UPDATEDAT_FIELD@, ua, 248, 291);
    lemma_with_field_keeps_span(h5, UPDATEDBY_FIELD@, f.updated_by, 248, 291);
    assert(top.subrange(248, 291) =~= h6.subrange(248, 291));
    if fits_field(f.filename, field_width(FILENAME_FIELD@)) {
        lemma_field_text_of_span(top, FILENAME_FIELD@, f.filename);
    }
    // AUTHOR
    lemma_span_after_write(h1, AUTHOR_FIELD@, f.author);
    lemma_with_field_keeps_span(h2, CREATEDAT_FIELD@, ca, 414, 453);
    lemma_with_field_keeps_span(h3, CREATEDBY_FIELD@, f.created_by, 414, 453);
    lemma_with_field_keeps_span(h4, UPDATEDAT_FIELD@, ua, 414, 453);
    lemma_with_field_keeps_span(h5, UPDATEDBY_FIELD@, f.updated_by, 414, 453);
    assert(top.subrange(414, 453) =~= h6.subrange(414, 453));
    if fits_field(f.author, field_width(AUTHOR_FIELD@)) {
        lemma_field_text_of_span(top, AUTHOR_FIELD@, f.author);
    }
    // CREATEDAT
    lemma_span_after_write(h2, CREATEDAT_FIELD@, ca);
    lemma_with_field_keeps_span(h3, CREATEDBY_FIELD@, f.created_by, 581, 600);
    lemma_with_field_keeps_span(h4, UPDATEDAT_FIELD@, ua, 581, 600);
    lemma_with_field_keeps_span(h5, UPDATEDBY_FIELD@, f.updated_by, 581, 600);
    assert(top.subrange(581, 600) =~= h6.subrange(581, 600));
    if 0 <= f.created_at.year <= 9999 {
        lemma_date_fits(f.created_at);
        lemma_field_text_of_span(top, CREATEDAT_FIELD@, ca);
    }
    // CREATEDBY
    lemma_span_after_write(h3, CREATEDBY_FIELD@, f.created_by);
    lemma_with_field_keeps_span(h4, UPDATEDAT_FIELD@, ua, 604, 615);
    lemma_with_field_keeps_span(h5, UPDATEDBY_FIELD@, f.updated_by, 604, 615);
    assert(top.subrange(604, 615) =~= h6.subrange(604, 615));
    if fits_field(f.created_by, field_width(CREATEDBY_FIELD@)) {
        lemma_field_text_of_span(top, CREATEDBY_FIELD@, f.created_by);
    }
    // UPDATEDAT
    lemma_span_after_write(h4, UPDATEDAT_FIELD@, ua);
    lemma_with_field_keeps_span(h5, UPDATEDBY_FIELD@, f.updated_by, 662, 681);
    assert(top.subrange(662, 681) =~= h6.subrange(662, 681));
    if 0 <= f.updated_at.year <= 9999 {
        lemma_date_fits(f.updated_at);
        lemma_field_text_of_span(top, UPDATEDAT_FIELD@, ua);
    }
    // UPDATEDBY
    lemma_span_after_write(h5, UPDATEDBY_FIELD@, f.updated_by);
    assert(top.subrange(685, 696) =~= h6.subrange(685, 696));
    if fits_field(f.updated_by, field_width(UPDATEDBY_FIELD@)) {
        lemma_field_text_of_span(top, UPDATEDBY_FIELD@, f.updated_by);
    }
}

/// The text of a byte span of a header (ten rows of 81 bytes ending in `\n`)
/// that lies within one row and is cut on character boundaries fits a field
/// of the span's width.
proof fn lemma_span_text_fits(hb: Seq<u8>, off: int, w: int)
    requires
        valid_utf8(hb),
        hb.len() == 810,
        forall|i: int| 0 <= i < 810 ==> (#[trigger] hb[i] == 0x0Au8 <==> i % 81 == 80),
        0 <= off,
        0 <= w,
        off % 81 + w <= 80,
        off + w <= 810,
        is_char_boundary(hb, off),
        is_char_boundary(hb, off + w),
    ensures
        fits_field(trim_end_chars(decode_utf8(hb.subrange(off, off + w))), w),
{
    let span = hb.subrange(off, off + w);
    lemma_boundary_in_subrange(hb, off, off + w, 0);
    let v = decode_utf8(span);
    decode_utf8_encode_utf8(span);
    assert forall|j: int| 0 <= j < encode_utf8(v).len() implies #[trigger] encode_utf8(v)[j]
        != 0x0Au8 by {
        assert(encode_utf8(v)[j] == hb[off + j]);
        assert((off + j) % 81 == off % 81 + j);
    }
    lemma_no_newline_char(v);
    let t = trim_end_chars(v);
    lemma_trim_end_prefix(v);
    assert(v =~= t + v.skip(t.len() as int));
    lemma_encode_concat(t, v.skip(t.len() as int));
    assert forall|i: int| 0 <= i < t.len() implies #[trigger] t[i] != '\n' by {
        assert(t[i] == v[i]);
    }
}

/// A field read from the header found at the top of a text fits its field
/// again: it holds no line break and no trailing white space, and it is no
/// wider than the field.
pub proof fn lemma_read_field_fits(content: Seq<char>, name: Seq<char>)
    requires
        header_of(encode_utf8(content)) is Some,
        header_readable(header_of(encode_utf8(content))->0),
        is_header_field(name),
    ensures
        fits_field(field_text(header_of(encode_utf8(content))->0, name), field_width(name)),
{
    lemma_template_layout();
    let b = encode_utf8(content);
    lemma_header_shape(b);
    let hb = header_of(b)->0;
    let off = field_offset(name);
    let w = field_width(name);
    assert(field_readable(hb, name));
    assert(0 <= off && 0 <= w && off % 81 + w <= 80 && off + w <= 810);
    lemma_span_text_fits(hb, off, w);
}

proof fn lemma_span_after_write(h: Seq<u8>, name: Seq<char>, v: Seq<char>)
    requires
        field_in_template(name),
        field_offset(name) + field_width(name) <= h.len(),
    ensures
        with_field(h, name, v).subrange(field_offset(name), field_offset(name) + field_width(name))
            == encode_utf8(pad_chars(v, field_width(name) as nat)),
{
    lemma_field_offset_nonneg(name);
    lemma_with_field_bytes(h, name, v);
    lemma_pad_width(v, field_width(name) as nat);
    assert(with_field(h, name, v).subrange(field_offset(name), field_offset(name) + field_width(name))
        =~= encode_utf8(pad_chars(v, field_width(name) as nat)));
}

proof fn lemma_field_text_of_span(top: Seq<u8>, name: Seq<char>, v: Seq<char>)
    requires
        field_in_template(name),
        field_offset(name) + field_width(name) <= top.len(),
        top.subrange(field_offset(name), field_offset(name) + field_width(name)) == encode_utf8(
            pad_chars(v, field_width(name) as nat),
        ),
        fits_field(v, field_width(name)),
    ensures
        field_text(top, name) == v,
{
    lemma_field_offset_nonneg(name);
    crate::fields::lemma_pad_trim(v, field_width(name) as nat);
}

proof fn lemma_date_fits(t: LocalTime)
    requires
        t.valid(),
        0 <= t.year <= 9999,
    ensures
        fits_field(date_text(t), 19),
{
    crate::datetime::lemma_date_text_shape(t);
    let d = date_text(t);
    assert(is_ascii_chars(d));
    is_ascii_chars_encode_utf8(d);
    assert(!crate::text::is_white_space(d.last()));
}

} // verus!
