//! The header template and the layout of its fields.
//!
//! Every line of the template is 80 bytes wide. A field is written in the
//! template as `$NAME` followed by a run of underscores; the field occupies
//! the bytes of that marker and run, and its content is padded to exactly that
//! many bytes, so filling a field never moves any other byte of the header.
use vstd::prelude::*;
use vstd::string::*;
use vstd::utf8::*;

verus! {

broadcast use vstd::utf8::group_utf8_lib;

/// The header template with `*` delimiters; each line is exactly 80 bytes and
/// the fields are `$NAME___` placeholders.
pub const GENERIC_TEMPLATE: &'static str = "\
********************************************************************************\n\
*                                                                              *\n\
*                                                         :::      ::::::::    *\n\
*    $FILENAME__________________________________        :+:      :+:    :+:    *\n\
*                                                     +:+ +:+         +:+      *\n\
*    By: $AUTHOR________________________________    +#+  +:+       +#+         *\n\
*                                                 +#+#+#+#+#+   +#+            *\n\
*    Created: $CREATEDAT_________ by $CREATEDBY_       #+#    #+#              *\n\
*    Updated: $UPDATEDAT_________ by $UPDATEDBY_      ###   ########.fr        *\n\
*                                                                              *\n\
********************************************************************************\n\
\n";

/// Name of the field holding the file name.
pub const FILENAME_FIELD: &'static str = "FILENAME";

/// Name of the field holding the author (`user <mail>`).
pub const AUTHOR_FIELD: &'static str = "AUTHOR";

/// Name of the field holding the creation date.
pub const CREATEDAT_FIELD: &'static str = "CREATEDAT";

/// Name of the field holding the creator's login.
pub const CREATEDBY_FIELD: &'static str = "CREATEDBY";

/// Name of the field holding the date of the last update.
pub const UPDATEDAT_FIELD: &'static str = "UPDATEDAT";

/// Name of the field holding the login of the last updater.
pub const UPDATEDBY_FIELD: &'static str = "UPDATEDBY";

/// The bytes of the template.
pub open spec fn template_bytes() -> Seq<u8> {
    GENERIC_TEMPLATE.spec_bytes()
}

/// The marker of a field in the template: `$` followed by its name.
pub open spec fn marker_bytes(name: Seq<char>) -> Seq<u8> {
    seq![0x24u8] + encode_utf8(name)
}

/// `m` occurs in `t` at byte offset `i`.
pub open spec fn match_at(t: Seq<u8>, m: Seq<u8>, i: int) -> bool {
    0 <= i && i + m.len() <= t.len() && t.subrange(i, i + m.len()) == m
}

/// The first offset at or after `i` where `m` occurs in `t`.
pub open spec fn first_match_from(t: Seq<u8>, m: Seq<u8>, i: int) -> Option<int>
    decreases t.len() + 1 - i,
{
    if i < 0 || i + m.len() > t.len() {
        None
    } else if match_at(t, m, i) {
        Some(i)
    } else {
        first_match_from(t, m, i + 1)
    }
}

/// The number of consecutive `_` bytes in `t` starting at offset `i`.
pub open spec fn underscore_run(t: Seq<u8>, i: int) -> nat
    decreases t.len() - i,
{
    if 0 <= i < t.len() && t[i] == 0x5Fu8 {
        1 + underscore_run(t, i + 1)
    } else {
        0
    }
}

/// The template has a field called `name`.
pub open spec fn field_in_template(name: Seq<char>) -> bool {
    first_match_from(template_bytes(), marker_bytes(name), 0) is Some
}

/// Byte offset of the field called `name` in the template (and in every header).
pub open spec fn field_offset(name: Seq<char>) -> int {
    match first_match_from(template_bytes(), marker_bytes(name), 0) {
        Some(i) => i,
        None => 0,
    }
}

/// Width in bytes of the field called `name`: its marker and the underscores after it.
pub open spec fn field_width(name: Seq<char>) -> int {
    (marker_bytes(name).len() + underscore_run(
        template_bytes(),
        field_offset(name) + marker_bytes(name).len(),
    )) as int
}

proof fn lemma_first_match_properties(t: Seq<u8>, m: Seq<u8>, i: int)
    ensures
        first_match_from(t, m, i) matches Some(k) ==> i <= k && match_at(t, m, k),
    decreases t.len() + 1 - i,
{
    if !(i < 0 || i + m.len() > t.len()) && !match_at(t, m, i) {
        lemma_first_match_properties(t, m, i + 1);
    }
}

/// Whether `m` occurs in `t` at offset `i`.
fn bytes_match_at(t: &[u8], m: &[u8], i: usize) -> (r: bool)
    requires
        i + m@.len() <= t@.len(),
    ensures
        r == match_at(t@, m@, i as int),
{
    let n = m.len();
    let tl = t.len();
    for j in 0..n
        invariant
            n == m@.len(),
            tl == t@.len(),
            i + n <= t@.len(),
            forall|k: int| 0 <= k < j ==> t@[i + k] == m@[k],
    {
        if t[i + j] != m[j] {
            assert(t@.subrange(i as int, i + n)[j as int] != m@[j as int]);
            return false;
        }
    }
    assert(t@.subrange(i as int, i + n) =~= m@);
    true
}

/// The byte offset and width of the field called `name` in the template.
pub fn find_field(name: &str) -> (r: (usize, usize))
    requires
        field_in_template(name@),
    ensures
        r.0 == field_offset(name@),
        r.1 == field_width(name@),
        r.0 + r.1 <= template_bytes().len(),
{
    let t = GENERIC_TEMPLATE.as_bytes();
    let tl = t.len();
    let nb = name.as_bytes();
    let mut m: Vec<u8> = Vec::new();
    m.push(0x24u8);
    for j in 0..nb.len()
        invariant
            m@ == seq![0x24u8] + nb@.take(j as int),
    {
        m.push(nb[j]);
        assert(seq![0x24u8] + nb@.take(j + 1) =~= (seq![0x24u8] + nb@.take(j as int)).push(
            nb@[j as int],
        ));
    }
    assert(nb@.take(nb@.len() as int) =~= nb@);
    let ghost mb = marker_bytes(name@);
    assert(m@ == mb);
    proof {
        lemma_first_match_properties(t@, mb, 0);
    }
    let mut i: usize = 0;
    loop
        invariant
            m@ == mb,
            t@ == template_bytes(),
            tl == t@.len(),
            first_match_from(t@, mb, 0) == first_match_from(t@, mb, i as int),
            first_match_from(t@, mb, 0) is Some,
        ensures
            m@ == mb,
            t@ == template_bytes(),
            tl == t@.len(),
            first_match_from(t@, mb, 0) == Some(i as int),
        decreases t@.len() - i,
    {
        proof {
            lemma_first_match_properties(t@, mb, i as int);
        }
        if bytes_match_at(t, m.as_slice(), i) {
            break;
        }
        i = i + 1;
    }
    proof {
        lemma_first_match_properties(t@, mb, i as int);
    }
    let after = i + m.len();
    let mut u: usize = 0;
    while after + u < t.len() && t[after + u] == 0x5Fu8
        invariant
            t@ == template_bytes(),
            tl == t@.len(),
            after <= t@.len(),
            after + u <= t@.len(),
            underscore_run(t@, after as int) == u + underscore_run(t@, after + u),
        decreases t@.len() - (after + u),
    {
        u = u + 1;
    }
    proof {
        lemma_underscore_run_bound(t@, after as int);
    }
    (i, m.len() + u)
}

proof fn lemma_underscore_run_bound(t: Seq<u8>, i: int)
    requires
        0 <= i <= t.len(),
    ensures
        i + underscore_run(t, i) <= t.len(),
    decreases t.len() - i,
{
    if i < t.len() && t[i] == 0x5Fu8 {
        lemma_underscore_run_bound(t, i + 1);
    }
}


proof fn lemma_first_match_at(t: Seq<u8>, m: Seq<u8>, i: int, k: int, d: int)
    requires
        0 <= i <= k,
        1 <= d < m.len(),
        match_at(t, m, k),
        forall|j: int|
            i <= j < k ==> #[trigger] t[j] != m[0] || t[j + 1] != m[1] || t[j + d] != m[d],
    ensures
        first_match_from(t, m, i) == Some(k),
    decreases k - i,
{
    if i < k {
        if match_at(t, m, i) {
            assert(t.subrange(i, i + m.len())[0] == m[0]);
            assert(t.subrange(i, i + m.len())[1] == m[1]);
            assert(t.subrange(i, i + m.len())[d] == m[d]);
        }
        lemma_first_match_at(t, m, i + 1, k, d);
    }
}

proof fn lemma_underscore_run_exact(t: Seq<u8>, i: int, n: nat)
    requires
        0 <= i,
        i + n <= t.len(),
        forall|j: int| i <= j < i + n ==> t[j] == 0x5Fu8,
        i + n == t.len() || t[i + n] != 0x5Fu8,
    ensures
        underscore_run(t, i) == n,
    decreases n,
{
    if n > 0 {
        lemma_underscore_run_exact(t, i + 1, (n - 1) as nat);
    }
}

/// The field called `name` sits at byte offset `off` and is `marker + under` bytes wide.
proof fn lemma_field_at(name: Seq<char>, off: int, under: nat, d: int)
    requires
        is_ascii_chars(name),
        1 <= d <= name.len(),
        match_at(template_bytes(), marker_bytes(name), off),
        forall|j: int|
            0 <= j < off ==> #[trigger] template_bytes()[j] != 0x24u8 || template_bytes()[j + 1]
                != name[0] as u8 || template_bytes()[j + d] != name[d - 1] as u8,
        forall|j: int|
            off + name.len() + 1 <= j < off + name.len() + 1 + under ==> template_bytes()[j]
                == 0x5Fu8,
        off + name.len() + 1 + under < template_bytes().len(),
        template_bytes()[off + name.len() + 1 + under] != 0x5Fu8,
    ensures
        field_in_template(name),
        field_offset(name) == off,
        field_width(name) == name.len() + 1 + under,
{
    is_ascii_chars_encode_utf8(name);
    let m = marker_bytes(name);
    assert(m.len() == name.len() + 1);
    assert(m[1] == name[0] as u8);
    assert(m[d] == name[d - 1] as u8);
    lemma_first_match_at(template_bytes(), m, 0, off, d);
    lemma_underscore_run_exact(template_bytes(), off + m.len(), under);
}

/// The concrete layout of the template: its size, the fact that it is ASCII,
/// and the offset and width of each of its six fields.
#[verifier::rlimit(40)]
pub proof fn lemma_template_layout()
    ensures
        template_bytes().len() == 892,
        forall|i: int| 0 <= i < 892 ==> template_bytes()[i] < 0x80,
        forall|i: int|
            0 <= i < 892 ==> (#[trigger] template_bytes()[i] == 0x0Au8 <==> (i % 81 == 80 || i
                == 891)),
        forall|i: int| 0 <= i < 892 ==> #[trigger] template_bytes()[i] != 0x0Du8,
        field_in_template(FILENAME_FIELD@),
        field_offset(FILENAME_FIELD@) == 248,
        field_width(FILENAME_FIELD@) == 43,
        field_in_template(AUTHOR_FIELD@),
        field_offset(AUTHOR_FIELD@) == 414,
        field_width(AUTHOR_FIELD@) == 39,
        field_in_template(CREATEDAT_FIELD@),
        field_offset(CREATEDAT_FIELD@) == 581,
        field_width(CREATEDAT_FIELD@) == 19,
        field_in_template(CREATEDBY_FIELD@),
        field_offset(CREATEDBY_FIELD@) == 604,
        field_width(CREATEDBY_FIELD@) == 11,
        field_in_template(UPDATEDAT_FIELD@),
        field_offset(UPDATEDAT_FIELD@) == 662,
        field_width(UPDATEDAT_FIELD@) == 19,
        field_in_template(UPDATEDBY_FIELD@),
        field_offset(UPDATEDBY_FIELD@) == 685,
        field_width(UPDATEDBY_FIELD@) == 11,
{
    reveal_strlit("\
********************************************************************************\n\
*                                                                              *\n\
*                                                         :::      ::::::::    *\n\
*    $FILENAME__________________________________        :+:      :+:    :+:    *\n\
*                                                     +:+ +:+         +:+      *\n\
*    By: $AUTHOR________________________________    +#+  +:+       +#+         *\n\
*                                                 +#+#+#+#+#+   +#+            *\n\
*    Created: $CREATEDAT_________ by $CREATEDBY_       #+#    #+#              *\n\
*    Updated: $UPDATEDAT_________ by $UPDATEDBY_      ###   ########.fr        *\n\
*                                                                              *\n\
********************************************************************************\n\
\n");
    reveal_strlit("FILENAME");
    reveal_strlit("AUTHOR");
    reveal_strlit("CREATEDAT");
    reveal_strlit("CREATEDBY");
    reveal_strlit("UPDATEDAT");
    reveal_strlit("UPDATEDBY");
    let t = GENERIC_TEMPLATE@;
    assert(is_ascii_chars(t));
    is_ascii_chars_encode_utf8(t);
    let tb = template_bytes();
    assert(tb.len() == 892);
    assert forall|i: int| 0 <= i < 892 implies tb[i] < 0x80 by {
        assert(tb[i] == t[i] as u8);
    }
    assert forall|i: int| 0 <= i < 892 implies (#[trigger] tb[i] == 0x0Au8 <==> (i % 81 == 80
        || i == 891)) by {
        assert(tb[i] == t[i] as u8);
    }
    assert forall|i: int| 0 <= i < 892 implies #[trigger] tb[i] != 0x0Du8 by {
        assert(tb[i] == t[i] as u8);
    }
    assert(is_ascii_chars(FILENAME_FIELD@));
    is_ascii_chars_encode_utf8(FILENAME_FIELD@);
    assert(tb.subrange(248, 257) =~= marker_bytes(FILENAME_FIELD@));
    lemma_field_at(FILENAME_FIELD@, 248, 34, 1);
    assert(is_ascii_chars(AUTHOR_FIELD@));
    is_ascii_chars_encode_utf8(AUTHOR_FIELD@);
    assert(tb.subrange(414, 421) =~= marker_bytes(AUTHOR_FIELD@));
    lemma_field_at(AUTHOR_FIELD@, 414, 32, 1);
    assert(is_ascii_chars(CREATEDAT_FIELD@));
    is_ascii_chars_encode_utf8(CREATEDAT_FIELD@);
    assert(tb.subrange(581, 591) =~= marker_bytes(CREATEDAT_FIELD@));
    lemma_field_at(CREATEDAT_FIELD@, 581, 9, 1);
    assert(is_ascii_chars(CREATEDBY_FIELD@));
    is_ascii_chars_encode_utf8(CREATEDBY_FIELD@);
    assert(tb.subrange(604, 614) =~= marker_bytes(CREATEDBY_FIELD@));
    lemma_field_at(CREATEDBY_FIELD@, 604, 1, 8);
    assert(is_ascii_chars(UPDATEDAT_FIELD@));
    is_ascii_chars_encode_utf8(UPDATEDAT_FIELD@);
    assert(tb.subrange(662, 672) =~= marker_bytes(UPDATEDAT_FIELD@));
    lemma_field_at(UPDATEDAT_FIELD@, 662, 9, 1);
    assert(is_ascii_chars(UPDATEDBY_FIELD@));
    is_ascii_chars_encode_utf8(UPDATEDBY_FIELD@);
    assert(tb.subrange(685, 695) =~= marker_bytes(UPDATEDBY_FIELD@));
    lemma_field_at(UPDATEDBY_FIELD@, 685, 1, 8);
}

} // verus!
