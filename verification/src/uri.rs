//! Document URIs: parsing one, and the file name shown in a header, taken
//! from the URI's path.
use tower_lsp::lsp_types::Url;
use vstd::prelude::*;
use vstd::string::*;
use crate::text::push_char;

verus! {

/// A parsed URI (`url::Url`, as the protocol crate re-exports it).
#[verifier::external_type_specification]
#[verifier::external_body]
pub struct ExUrl(Url);

/// What `Url::parse` gives for a text: the parsed URI's serialization
/// (`Url::as_str`) and its path (`Url::path`), or nothing when the text is no URI.
pub uninterp spec fn parsed_uri(text: Seq<char>) -> Option<(Seq<char>, Seq<char>)>;

/// `Url::parse`, with the parsed URI's serialization and path. Which texts
/// parse, and what they parse to (the URL standard's rules), is left to the
/// name `parsed_uri`.
#[verifier::external_body]
pub(crate) fn parse_uri(text: &str) -> (r: Option<(Url, String, String)>)
    ensures
        match r {
            Some(p) => parsed_uri(text@) == Some((p.1@, p.2@)),
            None => parsed_uri(text@) is None,
        },
{
    match Url::parse(text) {
        Ok(u) => {
            let serialization = u.as_str().to_string();
            let path = u.path().to_string();
            Some((u, serialization, path))
        },
        Err(_) => None,
    }
}

/// The offset of the last `/` byte among the first `i` bytes of `b`.
pub open spec fn last_slash_before(b: Seq<u8>, i: int) -> Option<int>
    decreases i,
{
    if i <= 0 {
        None
    } else if b[i - 1] == 0x2Fu8 {
        Some(i - 1)
    } else {
        last_slash_before(b, i - 1)
    }
}

/// The bytes of the last segment of a path: what follows its last `/`, or the
/// whole path when it has none.
pub open spec fn last_segment(b: Seq<u8>) -> Seq<u8> {
    match last_slash_before(b, b.len() as int) {
        Some(i) => b.skip(i + 1),
        None => b,
    }
}

/// The value of a hexadecimal digit (`0`-`9`, `a`-`f`, `A`-`F`).
pub open spec fn hex_value(b: u8) -> Option<u32> {
    if 0x30 <= b <= 0x39 {
        Some((b - 0x30) as u32)
    } else if 0x61 <= b <= 0x66 {
        Some((b - 0x61 + 10) as u32)
    } else if 0x41 <= b <= 0x46 {
        Some((b - 0x41 + 10) as u32)
    } else {
        None
    }
}

/// Percent-decoding of `b`, byte by byte: `%` and two hexadecimal digits give
/// the character with that code (0 to 255); a `%` not followed by two
/// hexadecimal digits gives `%` and drops the (up to two) bytes after it;
/// every other byte gives the character with its code.
pub open spec fn percent_decoded(b: Seq<u8>) -> Seq<char>
    decreases b.len(),
{
    if b.len() == 0 {
        seq![]
    } else if b[0] == 0x25u8 {
        let h = if b.len() > 1 {
            hex_value(b[1])
        } else {
            None
        };
        let l = if b.len() > 2 {
            hex_value(b[2])
        } else {
            None
        };
        let used: int = if b.len() >= 3 {
            3
        } else {
            b.len() as int
        };
        match (h, l) {
            (Some(hv), Some(lv)) => seq![((hv * 16 + lv) as u8) as char] + percent_decoded(
                b.skip(3),
            ),
            _ => seq!['%'] + percent_decoded(b.skip(used)),
        }
    } else {
        seq![b[0] as char] + percent_decoded(b.skip(1))
    }
}

/// No `%` byte in `b`.
pub open spec fn no_percent(b: Seq<u8>) -> bool {
    forall|i: int| 0 <= i < b.len() ==> #[trigger] b[i] != 0x25u8
}

/// Bytes without `%` decode to themselves: each byte gives the character with
/// its code (`+` and every other byte included).
pub proof fn lemma_plain_bytes_decode_to_themselves(b: Seq<u8>)
    requires
        no_percent(b),
    ensures
        percent_decoded(b) == b.map_values(|x: u8| x as char),
    decreases b.len(),
{
    if b.len() > 0 {
        let rest = b.skip(1);
        assert forall|i: int| 0 <= i < rest.len() implies #[trigger] rest[i] != 0x25u8 by {
            assert(rest[i] == b[i + 1]);
        }
        lemma_plain_bytes_decode_to_themselves(rest);
        assert(percent_decoded(b) =~= b.map_values(|x: u8| x as char));
    } else {
        assert(percent_decoded(b) =~= b.map_values(|x: u8| x as char));
    }
}

/// Decoding goes byte by byte through a part without `%`: the decoding of
/// such a part followed by more bytes is the part's decoding followed by the
/// decoding of the rest.
pub proof fn lemma_decode_after_plain_bytes(a: Seq<u8>, b: Seq<u8>)
    requires
        no_percent(a),
    ensures
        percent_decoded(a + b) == percent_decoded(a) + percent_decoded(b),
    decreases a.len(),
{
    if a.len() == 0 {
        assert(a + b =~= b);
        assert(percent_decoded(a) =~= Seq::<char>::empty());
        assert(percent_decoded(a) + percent_decoded(b) =~= percent_decoded(b));
    } else {
        let rest = a.skip(1);
        assert forall|i: int| 0 <= i < rest.len() implies #[trigger] rest[i] != 0x25u8 by {
            assert(rest[i] == a[i + 1]);
        }
        lemma_decode_after_plain_bytes(rest, b);
        assert((a + b)[0] == a[0]);
        assert((a + b).skip(1) =~= rest + b);
        assert(percent_decoded(a + b) =~= percent_decoded(a) + percent_decoded(b));
    }
}

/// The hexadecimal digit of `d` (0 to 15), upper or lower case.
pub open spec fn hex_digit_of(d: int, upper: bool) -> u8 {
    if d < 10 {
        (0x30 + d) as u8
    } else if upper {
        (0x41 + d - 10) as u8
    } else {
        (0x61 + d - 10) as u8
    }
}

/// An escape of any byte decodes to that byte: `%` followed by the two
/// hexadecimal digits of `x` (in either case) gives the character with code `x`.
pub proof fn lemma_escape_decodes_to_byte(x: u8, upper: bool, rest: Seq<u8>)
    ensures
        percent_decoded(
            seq![0x25u8, hex_digit_of((x / 16) as int, upper), hex_digit_of((x % 16) as int, upper)] + rest,
        ) == seq![x as char] + percent_decoded(rest),
{
    let b = seq![0x25u8, hex_digit_of((x / 16) as int, upper), hex_digit_of((x % 16) as int, upper)] + rest;
    assert(hex_value(b[1]) == Some((x / 16) as u32));
    assert(hex_value(b[2]) == Some((x % 16) as u32));
    assert(((x / 16) as u32 * 16 + (x % 16) as u32) as u8 == x);
    assert(b.skip(3) =~= rest);
}

/// `%` followed by a byte that is no hexadecimal digit stays `%`, and the two
/// bytes after it are dropped.
pub proof fn lemma_malformed_escape(y: u8, z: u8, rest: Seq<u8>)
    requires
        !(0x30 <= y <= 0x39 || 0x41 <= y <= 0x46 || 0x61 <= y <= 0x66),
    ensures
        percent_decoded(seq![0x25u8, y, z] + rest) == seq!['%'] + percent_decoded(rest),
{
    let b = seq![0x25u8, y, z] + rest;
    assert(b[1] == y);
    assert(b.skip(3) =~= rest);
}

/// The last segment of a path holds no `/` and ends the path: either the
/// path has no `/` and is its own last segment, or the segment follows the
/// path's last `/`.
pub proof fn lemma_last_segment_after_last_slash(b: Seq<u8>)
    ensures
        ({
            let seg = last_segment(b);
            &&& seg.len() <= b.len()
            &&& forall|i: int| 0 <= i < seg.len() ==> #[trigger] seg[i] != 0x2Fu8
            &&& b.skip(b.len() - seg.len()) == seg
            &&& seg.len() < b.len() ==> b[b.len() - seg.len() - 1] == 0x2Fu8
            &&& seg.len() == b.len() ==> forall|i: int| 0 <= i < b.len() ==> #[trigger] b[i] != 0x2Fu8
        }),
{
    lemma_last_slash_scan(b, b.len() as int);
    match last_slash_before(b, b.len() as int) {
        Some(k) => {
            assert(b.skip(k + 1) =~= b.skip(b.len() - last_segment(b).len()));
        },
        None => {
            assert(b.skip(0) =~= b);
        },
    }
}

proof fn lemma_last_slash_scan(b: Seq<u8>, i: int)
    requires
        0 <= i <= b.len(),
    ensures
        match last_slash_before(b, i) {
            Some(k) => 0 <= k < i && b[k] == 0x2Fu8 && forall|j: int| k < j < i ==> #[trigger] b[j]
                != 0x2Fu8,
            None => forall|j: int| 0 <= j < i ==> #[trigger] b[j] != 0x2Fu8,
        },
    decreases i,
{
    if i > 0 {
        lemma_last_slash_scan(b, i - 1);
    }
}

/// The value of the hexadecimal digit `b`, if it is one.
fn hex_digit(b: u8) -> (r: Option<u32>)
    ensures
        r == hex_value(b),
{
    if 0x30 <= b && b <= 0x39 {
        Some((b - 0x30) as u32)
    } else if 0x61 <= b && b <= 0x66 {
        Some((b - 0x61 + 10) as u32)
    } else if 0x41 <= b && b <= 0x46 {
        Some((b - 0x41 + 10) as u32)
    } else {
        None
    }
}

/// The file name of a document, from the path of its URI: the last segment
/// of the path, percent-decoded byte by byte (see `percent_decoded`).
pub fn filename_from_uri(path: &str) -> (r: String)
    ensures
        r@ == percent_decoded(last_segment(path.spec_bytes())),
{
    let b = path.as_bytes();
    let n = b.len();
    let mut start = n;
    while start > 0 && b[start - 1] != 0x2Fu8
        invariant
            start <= n,
            n == b@.len(),
            last_slash_before(b@, n as int) == last_slash_before(b@, start as int),
        decreases start,
    {
        start = start - 1;
    }
    let ghost seg = last_segment(b@);
    assert(seg == b@.skip(start as int)) by {
        if start == 0 {
            assert(b@.skip(0) =~= b@);
        }
    }
    let mut decoded = String::new();
    let mut i = start;
    while i < n
        invariant
            start <= i <= n,
            n == b@.len(),
            seg == b@.skip(start as int),
            percent_decoded(seg) == decoded@ + percent_decoded(b@.skip(i as int)),
        decreases n - i,
    {
        let ghost rest = b@.skip(i as int);
        let ghost before = decoded@;
        assert(rest[0] == b@[i as int]);
        if b[i] == 0x25u8 {
            let h = if n - i > 1 {
                hex_digit(b[i + 1])
            } else {
                None
            };
            let l = if n - i > 2 {
                hex_digit(b[i + 2])
            } else {
                None
            };
            let used: usize = if n - i >= 3 {
                3
            } else {
                n - i
            };
            proof {
                if i + 1 < n {
                    assert(rest[1] == b@[i + 1]);
                }
                if i + 2 < n {
                    assert(rest[2] == b@[i + 2]);
                }
                assert(rest.skip(used as int) =~= b@.skip(i + used));
                if n - i >= 3 {
                    assert(rest.skip(3) =~= b@.skip(i + 3));
                }
            }
            match (h, l) {
                (Some(hv), Some(lv)) => {
                    push_char(&mut decoded, ((hv * 16 + lv) as u8) as char);
                },
                _ => {
                    push_char(&mut decoded, '%');
                },
            }
            proof {
                assert(decoded@ + percent_decoded(b@.skip(i + used)) =~= before + percent_decoded(
                    rest,
                ));
            }
            i = i + used;
        } else {
            push_char(&mut decoded, b[i] as char);
            proof {
                assert(rest.skip(1) =~= b@.skip(i + 1));
                assert(decoded@ + percent_decoded(b@.skip(i + 1)) =~= before + percent_decoded(
                    rest,
                ));
            }
            i = i + 1;
        }
    }
    proof {
        assert(b@.skip(n as int) =~= Seq::<u8>::empty());
        assert(decoded@ + Seq::<char>::empty() =~= decoded@);
    }
    decoded
}

} // verus!
