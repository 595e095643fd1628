use vstd::prelude::*;
use vstd::utf8::{decode_utf8, valid_utf8};

use vstd::string::StringSliceAdditionalSpecFns;

use crate::bencode::{
    decimal_value, int_is_unsigned, int_magnitude, int_span, is_digit, lemma_digits_end_bounds,
    parse_decimal, parse_string, parse_u64, string_span,
};
pub use crate::info_hash::get_info_hash;
use crate::text::{all_ascii, ascii_string, ascii_text, copy_bytes, hex_of_range, hex_text, utf8_string};

verus! {

// Keys of the root dictionary.
pub const KEY_ANNOUNCE: [u8; 8] = [97, 110, 110, 111, 117, 110, 99, 101];
pub const KEY_INFO: [u8; 4] = [105, 110, 102, 111];
pub const KEY_COMMENT: [u8; 7] = [99, 111, 109, 109, 101, 110, 116];
pub const KEY_CREATED_BY: [u8; 10] = [99, 114, 101, 97, 116, 101, 100, 32, 98, 121];
pub const KEY_CREATION_DATE: [u8; 13] = [99, 114, 101, 97, 116, 105, 111, 110, 32, 100, 97, 116, 101];
pub const KEY_HTTP_SEEDS: [u8; 9] = [104, 116, 116, 112, 115, 101, 101, 100, 115];
pub const KEY_URL_LIST: [u8; 8] = [117, 114, 108, 45, 108, 105, 115, 116];

// Keys of the `info` dictionary.
pub const KEY_LENGTH: [u8; 6] = [108, 101, 110, 103, 116, 104];
pub const KEY_NAME: [u8; 4] = [110, 97, 109, 101];
pub const KEY_PIECE_LENGTH: [u8; 12] = [112, 105, 101, 99, 101, 32, 108, 101, 110, 103, 116, 104];
pub const KEY_PIECES: [u8; 6] = [112, 105, 101, 99, 101, 115];
pub const KEY_MD5SUM: [u8; 6] = [109, 100, 53, 115, 117, 109];

/// Why a metainfo document was refused.
#[derive(Debug, Clone, Copy, PartialEq, Eq, Structural)]
pub enum DecodeError {
    /// A lexical error, a value of the wrong kind, a repeated key, or
    /// piece hashes that do not fit the declared lengths.
    Malformed,
    /// A key that the dictionary does not allow.
    UnexpectedField,
    /// A required key is absent.
    MissingField,
}

/// Positions of the values found in an `info` dictionary. Text values are
/// content spans; integer values are the spans of their digits.
pub struct InfoFields {
    pub length: Option<(int, int)>,
    pub name: Option<(int, int)>,
    pub piece_length: Option<(int, int)>,
    pub pieces: Option<(int, int)>,
    pub md5sum: Option<(int, int)>,
}

pub open spec fn no_info_fields() -> InfoFields {
    InfoFields { length: None, name: None, piece_length: None, pieces: None, md5sum: None }
}

/// A byte-string token at `pos` whose content is UTF-8 text: its span.
pub open spec fn text_value(s: Seq<u8>, pos: int) -> Option<(int, int)> {
    match string_span(s, pos) {
        Some((a, b)) => if valid_utf8(s.subrange(a, b)) {
            Some((a, b))
        } else {
            None
        },
        None => None,
    }
}

/// An integer token at `pos` holding a number that fits in 64 unsigned bits:
/// the span of its digits.
pub open spec fn u64_value(s: Seq<u8>, pos: int) -> Option<(int, int)> {
    match int_span(s, pos) {
        Some((a, b)) => if int_is_unsigned(s, pos) && int_magnitude(s, pos) <= u64::MAX {
            Some((a, b))
        } else {
            None
        },
        None => None,
    }
}

/// The text of a span.
pub open spec fn text_at(s: Seq<u8>, sp: (int, int)) -> Seq<char> {
    decode_utf8(s.subrange(sp.0, sp.1))
}

/// The number written by the digits of a span.
pub open spec fn number_at(s: Seq<u8>, sp: (int, int)) -> nat {
    decimal_value(s.subrange(sp.0, sp.1))
}

/// One key/value pair of an `info` dictionary at `pos`, folded into `f`;
/// the position after the value.
pub open spec fn info_entry(s: Seq<u8>, pos: int, f: InfoFields) -> Result<
    (InfoFields, int),
    DecodeError,
> {
    match string_span(s, pos) {
        None => Err(DecodeError::Malformed),
        Some((ks, ke)) => {
            let key = s.subrange(ks, ke);
            if key == KEY_LENGTH@ || key == KEY_PIECE_LENGTH@ {
                match u64_value(s, ke) {
                    None => Err(DecodeError::Malformed),
                    Some((a, b)) => if key == KEY_LENGTH@ {
                        if f.length is Some {
                            Err(DecodeError::Malformed)
                        } else {
                            Ok((InfoFields { length: Some((a, b)), ..f }, b + 1))
                        }
                    } else {
                        if f.piece_length is Some {
                            Err(DecodeError::Malformed)
                        } else {
                            Ok((InfoFields { piece_length: Some((a, b)), ..f }, b + 1))
                        }
                    },
                }
            } else if key == KEY_NAME@ || key == KEY_MD5SUM@ {
                match text_value(s, ke) {
                    None => Err(DecodeError::Malformed),
                    Some((a, b)) => if key == KEY_NAME@ {
                        if f.name is Some {
                            Err(DecodeError::Malformed)
                        } else {
                            Ok((InfoFields { name: Some((a, b)), ..f }, b))
                        }
                    } else {
                        if f.md5sum is Some {
                            Err(DecodeError::Malformed)
                        } else {
                            Ok((InfoFields { md5sum: Some((a, b)), ..f }, b))
                        }
                    },
                }
            } else if key == KEY_PIECES@ {
                match string_span(s, ke) {
                    None => Err(DecodeError::Malformed),
                    Some((a, b)) => if f.pieces is Some {
                        Err(DecodeError::Malformed)
                    } else {
                        Ok((InfoFields { pieces: Some((a, b)), ..f }, b))
                    },
                }
            } else {
                Err(DecodeError::UnexpectedField)
            }
        },
    }
}

/// The pairs of an `info` dictionary from `pos` to its closing `e`, folded
/// into `f`; the position after the `e`.
pub open spec fn info_entries(s: Seq<u8>, pos: int, f: InfoFields) -> Result<
    (InfoFields, int),
    DecodeError,
>
    decreases s.len() - pos,
{
    if !(0 <= pos < s.len()) {
        Err(DecodeError::Malformed)
    } else if s[pos] == 101 {
        Ok((f, pos + 1))
    } else {
        match info_entry(s, pos, f) {
            Err(e) => Err(e),
            Ok((f2, next)) => info_entries(s, next, f2),
        }
    }
}

pub proof fn lemma_info_entries_advance(s: Seq<u8>, pos: int, f: InfoFields)
    requires
        info_entries(s, pos, f) is Ok,
    ensures
        pos < info_entries(s, pos, f)->Ok_0.1 <= s.len(),
    decreases s.len() - pos,
{
    if 0 <= pos < s.len() && s[pos] != 101 {
        let (f2, next) = info_entry(s, pos, f)->Ok_0;
        lemma_info_entries_advance(s, next, f2);
    }
}

/// Number of pieces of a file of `file_length` bytes cut in pieces of
/// `piece_length` bytes: `ceil(file_length / piece_length)`.
pub open spec fn piece_count(file_length: nat, piece_length: nat) -> int
    recommends
        piece_length > 0,
{
    (file_length + piece_length - 1) / (piece_length as int)
}

/// Whether the piece hashes agree with the declared lengths.
pub open spec fn info_consistent(s: Seq<u8>, f: InfoFields) -> bool {
    let pl = number_at(s, f.piece_length.unwrap());
    let fl = number_at(s, f.length.unwrap());
    let pc = (f.pieces.unwrap().1 - f.pieces.unwrap().0) / 20;
    &&& (f.pieces.unwrap().1 - f.pieces.unwrap().0) % 20 == 0
    &&& pl > 0
    &&& pc == piece_count(fl, pl)
}

/// The `info` dictionary at `pos`: its fields and the position after it.
pub open spec fn info_value(s: Seq<u8>, pos: int) -> Result<(InfoFields, int), DecodeError> {
    if !(0 <= pos < s.len() && s[pos] == 100) {
        Err(DecodeError::Malformed)
    } else {
        match info_entries(s, pos + 1, no_info_fields()) {
            Err(e) => Err(e),
            Ok((f, next)) => if f.length is None || f.name is None || f.piece_length is None
                || f.pieces is None {
                Err(DecodeError::MissingField)
            } else if !info_consistent(s, f) {
                Err(DecodeError::Malformed)
            } else {
                Ok((f, next))
            },
        }
    }
}

/// Single-file information of a torrent.
#[derive(Debug, Clone)]
pub struct Info {
    /// Bytes per piece, in decimal.
    pub piece_length: String,
    /// The SHA-1 of each piece, in lowercase hexadecimal.
    pub pieces: Vec<String>,
    /// Suggested file name.
    pub name: String,
    /// Length of the file in bytes, in decimal.
    pub file_length: String,
    pub md5sum: Option<String>,
}

pub open spec fn opt_text_matches(o: Option<String>, s: Seq<u8>, sp: Option<(int, int)>) -> bool {
    match (o, sp) {
        (Some(t), Some(p)) => t@ == text_at(s, p),
        (None, None) => true,
        _ => false,
    }
}

/// Whether `pieces` renders the 20-byte chunks of `s[sp]` in hexadecimal.
pub open spec fn piece_hashes_match(pieces: Seq<String>, s: Seq<u8>, sp: (int, int)) -> bool {
    &&& pieces.len() == (sp.1 - sp.0) / 20
    &&& forall|k: int|
        0 <= k < pieces.len() ==> #[trigger] pieces[k]@ == hex_text(
            s.subrange(sp.0 + 20 * k, sp.0 + 20 * k + 20),
        )
}

/// Whether `i` holds the values that `f` locates in `s`.
pub open spec fn info_matches(i: Info, s: Seq<u8>, f: InfoFields) -> bool {
    &&& f.piece_length matches Some(p) && i.piece_length@ == ascii_text(s.subrange(p.0, p.1))
    &&& f.length matches Some(p) && i.file_length@ == ascii_text(s.subrange(p.0, p.1))
    &&& f.name matches Some(p) && i.name@ == text_at(s, p)
    &&& f.pieces matches Some(p) && piece_hashes_match(i.pieces@, s, p)
    &&& opt_text_matches(i.md5sum, s, f.md5sum)
}

/// Whether `s[a..b]` equals `key`.
pub fn key_is<const N: usize>(s: &[u8], a: usize, b: usize, key: &[u8; N]) -> (r: bool)
    requires
        a <= b <= s@.len(),
    ensures
        r == (s@.subrange(a as int, b as int) == key@),
{
    if b - a != N {
        assert(s@.subrange(a as int, b as int).len() != key@.len());
        return false;
    }
    let mut i: usize = 0;
    while i < N
        invariant
            b - a == N,
            a <= b <= s@.len(),
            key@.len() == N,
            i <= N,
            forall|k: int| 0 <= k < i ==> s@[a + k] == key@[k],
        decreases N - i,
    {
        if s[a + i] != key[i] {
            assert(s@.subrange(a as int, b as int)[i as int] != key@[i as int]);
            return false;
        }
        i = i + 1;
    }
    assert(s@.subrange(a as int, b as int) =~= key@);
    true
}

/// Reads a byte-string token holding UTF-8 text.
pub fn parse_text(s: &[u8], pos: usize) -> (r: Option<(String, usize, usize)>)
    requires
        pos <= s@.len(),
    ensures
        match r {
            Some((t, a, b)) => text_value(s@, pos as int) == Some((a as int, b as int))
                && t@ == text_at(s@, (a as int, b as int)) && b <= s@.len(),
            None => text_value(s@, pos as int) is None,
        },
{
    match parse_string(s, pos) {
        None => None,
        Some((a, b)) => {
            let bytes = copy_bytes(s, a, b);
            match utf8_string(bytes) {
                Some(t) => Some((t, a, b)),
                None => None,
            }
        },
    }
}

/// Reads an unsigned integer token: its value, the span of its digits and
/// the decimal text.
pub fn parse_number(s: &[u8], pos: usize) -> (r: Option<(u64, usize, usize, String)>)
    requires
        pos <= s@.len(),
    ensures
        match r {
            Some((v, a, b, t)) => u64_value(s@, pos as int) == Some((a as int, b as int))
                && v == number_at(s@, (a as int, b as int)) && t@ == ascii_text(
                s@.subrange(a as int, b as int),
            ) && b < s@.len(),
            None => u64_value(s@, pos as int) is None,
        },
{
    match parse_u64(s, pos) {
        None => None,
        Some((v, next)) => {
            let a = pos + 1;
            let b = next - 1;
            proof {
                lemma_digits_end_bounds(s@, a as int);
                assert(all_ascii(s@.subrange(a as int, b as int))) by {
                    assert forall|k: int| 0 <= k < b - a implies #[trigger] s@.subrange(
                        a as int,
                        b as int,
                    )[k] < 128 by {
                        assert(is_digit(s@[a + k]));
                    }
                }
            }
            let t = ascii_string(copy_bytes(s, a, b));
            Some((v, a, b, t))
        },
    }
}

/// Cuts `s[a..b]` into 20-byte chunks rendered in hexadecimal.
pub fn hashes_of_range(s: &[u8], a: usize, b: usize) -> (r: Vec<String>)
    requires
        a <= b <= s@.len(),
        (b - a) % 20 == 0,
    ensures
        piece_hashes_match(r@, s@, (a as int, b as int)),
{
    let mut out: Vec<String> = Vec::new();
    let mut i = a;
    while i < b
        invariant
            a <= i <= b <= s@.len(),
            (b - a) % 20 == 0,
            (i - a) % 20 == 0,
            out@.len() == (i - a) / 20,
            forall|k: int|
                0 <= k < out@.len() ==> #[trigger] out@[k]@ == hex_text(
                    s@.subrange(a + 20 * k, a + 20 * k + 20),
                ),
        decreases b - i,
    {
        let h = hex_of_range(s, i, i + 20);
        out.push(h);
        i = i + 20;
    }
    out
}

/// Decodes the hashes of `input`, whose length must be a multiple of 20.
pub fn pieces_to_hash(input: &[u8]) -> (r: Vec<String>)
    requires
        input@.len() % 20 == 0,
    ensures
        piece_hashes_match(r@, input@, (0, input@.len() as int)),
{
    hashes_of_range(input, 0, input.len())
}

/// The lowercase hexadecimal rendering of a digest.
pub fn bytes_to_hash(hash: &[u8; 20]) -> (r: String)
    ensures
        r@ == hex_text(hash@),
{
    let s = hash.as_slice();
    let r = hex_of_range(s, 0, 20);
    assert(s@.subrange(0, 20) =~= hash@);
    r
}

spec fn num_span(o: Option<(usize, usize, u64, String)>) -> Option<(int, int)> {
    match o {
        Some((a, b, _, _)) => Some((a as int, b as int)),
        None => None,
    }
}

spec fn str_span(o: Option<(usize, usize, String)>) -> Option<(int, int)> {
    match o {
        Some((a, b, _)) => Some((a as int, b as int)),
        None => None,
    }
}

spec fn raw_span(o: Option<(usize, usize)>) -> Option<(int, int)> {
    match o {
        Some((a, b)) => Some((a as int, b as int)),
        None => None,
    }
}

spec fn num_ok(s: Seq<u8>, o: Option<(usize, usize, u64, String)>) -> bool {
    o matches Some((a, b, v, t)) ==> {
        &&& a <= b < s.len()
        &&& v == number_at(s, (a as int, b as int))
        &&& t@ == ascii_text(s.subrange(a as int, b as int))
    }
}

spec fn str_ok(s: Seq<u8>, o: Option<(usize, usize, String)>) -> bool {
    o matches Some((a, b, t)) ==> a <= b <= s.len() && t@ == text_at(s, (a as int, b as int))
}

impl Info {
    /// Decodes the `info` dictionary that starts at `pos`; on success also
    /// returns the position just after it.
    pub fn decode_bencode_object(s: &[u8], pos: usize) -> (r: Result<(Info, usize), DecodeError>)
        requires
            pos <= s@.len(),
        ensures
            match (r, info_value(s@, pos as int)) {
                (Ok((i, n)), Ok((f, e))) => n == e && info_matches(i, s@, f),
                (Err(x), Err(y)) => x == y,
                _ => false,
            },
    {
        if pos >= s.len() || s[pos] != 100 {
            return Err(DecodeError::Malformed);
        }
        let mut i = pos + 1;
        let mut length: Option<(usize, usize, u64, String)> = None;
        let mut piece_length: Option<(usize, usize, u64, String)> = None;
        let mut name: Option<(usize, usize, String)> = None;
        let mut md5sum: Option<(usize, usize, String)> = None;
        let mut pieces: Option<(usize, usize)> = None;
        while i < s.len() && s[i] != 101
            invariant
                pos < i <= s@.len(),
                s@[pos as int] == 100,
                info_entries(
                    s@,
                    i as int,
                    InfoFields {
                        length: num_span(length),
                        name: str_span(name),
                        piece_length: num_span(piece_length),
                        pieces: raw_span(pieces),
                        md5sum: str_span(md5sum),
                    },
                ) == info_entries(s@, pos + 1, no_info_fields()),
                num_ok(s@, length),
                num_ok(s@, piece_length),
                str_ok(s@, name),
                str_ok(s@, md5sum),
                pieces matches Some((a, b)) ==> a <= b <= s@.len(),
            decreases s@.len() - i,
        {
            let (ks, ke) = match parse_string(s, i) {
                None => return Err(DecodeError::Malformed),
                Some(p) => p,
            };
            let is_length = key_is(s, ks, ke, &KEY_LENGTH);
            let is_piece_length = key_is(s, ks, ke, &KEY_PIECE_LENGTH);
            let is_name = key_is(s, ks, ke, &KEY_NAME);
            let is_md5sum = key_is(s, ks, ke, &KEY_MD5SUM);
            let is_pieces = key_is(s, ks, ke, &KEY_PIECES);
            if is_length || is_piece_length {
                match parse_number(s, ke) {
                    None => return Err(DecodeError::Malformed),
                    Some((v, a, b, t)) => {
                        if is_length {
                            if length.is_some() {
                                return Err(DecodeError::Malformed);
                            }
                            length = Some((a, b, v, t));
                        } else {
                            if piece_length.is_some() {
                                return Err(DecodeError::Malformed);
                            }
                            piece_length = Some((a, b, v, t));
                        }
                        i = b + 1;
                    },
                }
            } else if is_name || is_md5sum {
                match parse_text(s, ke) {
                    None => return Err(DecodeError::Malformed),
                    Some((t, a, b)) => {
                        if is_name {
                            if name.is_some() {
                                return Err(DecodeError::Malformed);
                            }
                            name = Some((a, b, t));
                        } else {
                            if md5sum.is_some() {
                                return Err(DecodeError::Malformed);
                            }
                            md5sum = Some((a, b, t));
                        }
                        i = b;
                    },
                }
            } else if is_pieces {
                match parse_string(s, ke) {
                    None => return Err(DecodeError::Malformed),
                    Some((a, b)) => {
                        if pieces.is_some() {
                            return Err(DecodeError::Malformed);
                        }
                        pieces = Some((a, b));
                        i = b;
                    },
                }
            } else {
                return Err(DecodeError::UnexpectedField);
            }
        }
        if i >= s.len() {
            return Err(DecodeError::Malformed);
        }
        let next = i + 1;
        match (length, name, piece_length, pieces) {
            (Some((_, _, fl, fl_text)), Some((_, _, name_text)), Some((_, _, pl, pl_text)), Some((pa, pb))) => {
                let count = (pb - pa) / 20;
                if (pb - pa) % 20 != 0 || pl == 0 || ((fl as u128 + pl as u128 - 1) / pl as u128)
                    != count as u128 {
                    return Err(DecodeError::Malformed);
                }
                let hashes = hashes_of_range(s, pa, pb);
                let md5 = match md5sum {
                    Some((_, _, t)) => Some(t),
                    None => None,
                };
                Ok((
                    Info {
                        piece_length: pl_text,
                        pieces: hashes,
                        name: name_text,
                        file_length: fl_text,
                        md5sum: md5,
                    },
                    next,
                ))
            },
            _ => Err(DecodeError::MissingField),
        }
    }
}

/// Positions of the values found in the root dictionary. `info` also
/// records where the `info` value starts and ends (after its `e`).
pub struct MetaFields {
    pub announce: Option<(int, int)>,
    pub info: Option<(InfoFields, int, int)>,
    pub comment: Option<(int, int)>,
    pub created_by: Option<(int, int)>,
    pub creation_date: Option<(int, int)>,
    pub http_seeds: Option<Seq<(int, int)>>,
    pub url_list: Option<(int, int)>,
}

pub open spec fn no_meta_fields() -> MetaFields {
    MetaFields {
        announce: None,
        info: None,
        comment: None,
        created_by: None,
        creation_date: None,
        http_seeds: None,
        url_list: None,
    }
}

/// The text items of a list from `pos` to its closing `e`, appended to
/// `acc`; the position after the `e`.
pub open spec fn text_items(s: Seq<u8>, pos: int, acc: Seq<(int, int)>) -> Option<
    (Seq<(int, int)>, int),
>
    decreases s.len() - pos,
{
    if !(0 <= pos < s.len()) {
        None
    } else if s[pos] == 101 {
        Some((acc, pos + 1))
    } else {
        match text_value(s, pos) {
            None => None,
            Some((a, b)) => text_items(s, b, acc.push((a, b))),
        }
    }
}

/// A list of texts at `pos`: the spans of its items and the position after it.
pub open spec fn text_list(s: Seq<u8>, pos: int) -> Option<(Seq<(int, int)>, int)> {
    if 0 <= pos < s.len() && s[pos] == 108 {
        text_items(s, pos + 1, seq![])
    } else {
        None
    }
}

pub proof fn lemma_text_items_advance(s: Seq<u8>, pos: int, acc: Seq<(int, int)>)
    requires
        text_items(s, pos, acc) is Some,
    ensures
        pos < text_items(s, pos, acc)->Some_0.1 <= s.len(),
    decreases s.len() - pos,
{
    if 0 <= pos < s.len() && s[pos] != 101 {
        let (a, b) = text_value(s, pos)->Some_0;
        lemma_text_items_advance(s, b, acc.push((a, b)));
    }
}

/// A text value for a root key, stored by `put` unless already present.
pub open spec fn meta_text(
    s: Seq<u8>,
    pos: int,
    present: bool,
    put: spec_fn((int, int)) -> MetaFields,
) -> Result<(MetaFields, int), DecodeError> {
    match text_value(s, pos) {
        None => Err(DecodeError::Malformed),
        Some((a, b)) => if present {
            Err(DecodeError::Malformed)
        } else {
            Ok((put((a, b)), b))
        },
    }
}

/// One key/value pair of the root dictionary at `pos`, folded into `f`; the
/// position after the value.
pub open spec fn meta_entry(s: Seq<u8>, pos: int, f: MetaFields) -> Result<
    (MetaFields, int),
    DecodeError,
> {
    match string_span(s, pos) {
        None => Err(DecodeError::Malformed),
        Some((ks, ke)) => {
            let key = s.subrange(ks, ke);
            if key == KEY_ANNOUNCE@ {
                meta_text(s, ke, f.announce is Some, |p: (int, int)| MetaFields { announce: Some(p), ..f })
            } else if key == KEY_COMMENT@ {
                meta_text(s, ke, f.comment is Some, |p: (int, int)| MetaFields { comment: Some(p), ..f })
            } else if key == KEY_CREATED_BY@ {
                meta_text(s, ke, f.created_by is Some, |p: (int, int)| MetaFields { created_by: Some(p), ..f })
            } else if key == KEY_URL_LIST@ {
                meta_text(s, ke, f.url_list is Some, |p: (int, int)| MetaFields { url_list: Some(p), ..f })
            } else if key == KEY_CREATION_DATE@ {
                match u64_value(s, ke) {
                    None => Err(DecodeError::Malformed),
                    Some((a, b)) => if f.creation_date is Some {
                        Err(DecodeError::Malformed)
                    } else {
                        Ok((MetaFields { creation_date: Some((a, b)), ..f }, b + 1))
                    },
                }
            } else if key == KEY_HTTP_SEEDS@ {
                match text_list(s, ke) {
                    None => Err(DecodeError::Malformed),
                    Some((items, next)) => if f.http_seeds is Some {
                        Err(DecodeError::Malformed)
                    } else {
                        Ok((MetaFields { http_seeds: Some(items), ..f }, next))
                    },
                }
            } else if key == KEY_INFO@ {
                match info_value(s, ke) {
                    Err(e) => Err(e),
                    Ok((inf, next)) => if f.info is Some {
                        Err(DecodeError::Malformed)
                    } else {
                        Ok((MetaFields { info: Some((inf, ke, next)), ..f }, next))
                    },
                }
            } else {
                Err(DecodeError::UnexpectedField)
            }
        },
    }
}

pub proof fn lemma_meta_entry_advance(s: Seq<u8>, pos: int, f: MetaFields)
    requires
        meta_entry(s, pos, f) is Ok,
    ensures
        pos < meta_entry(s, pos, f)->Ok_0.1 <= s.len(),
{
    let (ks, ke) = string_span(s, pos)->Some_0;
    let key = s.subrange(ks, ke);
    if key == KEY_HTTP_SEEDS@ {
        lemma_text_items_advance(s, ke + 1, seq![]);
    } else if key == KEY_INFO@ {
        lemma_info_entries_advance(s, ke + 1, no_info_fields());
    }
}

/// The pairs of the root dictionary from `pos` to its closing `e`, folded
/// into `f`; the position after the `e`.
pub open spec fn meta_entries(s: Seq<u8>, pos: int, f: MetaFields) -> Result<
    (MetaFields, int),
    DecodeError,
>
    decreases s.len() - pos,
{
    if !(0 <= pos < s.len()) {
        Err(DecodeError::Malformed)
    } else if s[pos] == 101 {
        Ok((f, pos + 1))
    } else {
        match meta_entry(s, pos, f) {
            Err(e) => Err(e),
            Ok((f2, next)) => {
                proof {
                    lemma_meta_entry_advance(s, pos, f);
                }
                meta_entries(s, next, f2)
            },
        }
    }
}

/// What a metainfo document decodes to: the fields of its root dictionary,
/// or the first error met reading it from the start.
pub open spec fn metainfo_fields(s: Seq<u8>) -> Result<MetaFields, DecodeError> {
    if !(0 < s.len() && s[0] == 100) {
        Err(DecodeError::Malformed)
    } else {
        match meta_entries(s, 1, no_meta_fields()) {
            Err(e) => Err(e),
            Ok((f, _)) => if f.announce is None || f.info is None {
                Err(DecodeError::MissingField)
            } else {
                Ok(f)
            },
        }
    }
}

/// A decoded single-file torrent.
#[derive(Debug, Clone)]
pub struct MetaInfo {
    /// Tracker URL.
    pub announce: String,
    pub info: Info,
    pub comment: Option<String>,
    pub created_by: Option<String>,
    /// Creation time, in seconds since the Unix epoch.
    pub creation_date: Option<u64>,
    pub http_seeds: Option<Vec<String>>,
    pub url_list: Option<String>,
}

/// Whether `v` holds the texts at the spans `sps`.
pub open spec fn texts_match(v: Seq<String>, s: Seq<u8>, sps: Seq<(int, int)>) -> bool {
    &&& v.len() == sps.len()
    &&& forall|k: int| 0 <= k < v.len() ==> #[trigger] v[k]@ == text_at(s, sps[k])
}

/// Whether `m` holds the values that `f` locates in `s`.
pub open spec fn metainfo_matches(m: MetaInfo, s: Seq<u8>, f: MetaFields) -> bool {
    &&& f.announce matches Some(p) && m.announce@ == text_at(s, p)
    &&& f.info matches Some((inf, _, _)) && info_matches(m.info, s, inf)
    &&& opt_text_matches(m.comment, s, f.comment)
    &&& opt_text_matches(m.created_by, s, f.created_by)
    &&& opt_text_matches(m.url_list, s, f.url_list)
    &&& match (m.creation_date, f.creation_date) {
        (Some(v), Some(p)) => v == number_at(s, p),
        (None, None) => true,
        _ => false,
    }
    &&& match (m.http_seeds, f.http_seeds) {
        (Some(v), Some(sps)) => texts_match(v@, s, sps),
        (None, None) => true,
        _ => false,
    }
}

/// Reads a list of texts at `pos`.
pub fn parse_text_list(s: &[u8], pos: usize) -> (r: Option<(Vec<String>, usize)>)
    requires
        pos <= s@.len(),
    ensures
        match (r, text_list(s@, pos as int)) {
            (Some((v, n)), Some((sps, e))) => n == e && texts_match(v@, s@, sps),
            (None, None) => true,
            _ => false,
        },
{
    if pos >= s.len() || s[pos] != 108 {
        return None;
    }
    let mut i = pos + 1;
    let mut out: Vec<String> = Vec::new();
    let ghost mut sps: Seq<(int, int)> = seq![];
    while i < s.len() && s[i] != 101
        invariant
            pos < i <= s@.len(),
            s@[pos as int] == 108,
            text_items(s@, i as int, sps) == text_items(s@, pos + 1, seq![]),
            texts_match(out@, s@, sps),
        decreases s@.len() - i,
    {
        match parse_text(s, i) {
            None => return None,
            Some((t, a, b)) => {
                out.push(t);
                proof {
                    sps = sps.push((a as int, b as int));
                }
                i = b;
            },
        }
    }
    if i >= s.len() {
        return None;
    }
    Some((out, i + 1))
}

spec fn info_span(o: Option<(Info, usize, usize, Ghost<InfoFields>)>) -> Option<(InfoFields, int, int)> {
    match o {
        Some((_, a, b, g)) => Some((g@, a as int, b as int)),
        None => None,
    }
}

spec fn seeds_span(o: Option<(Vec<String>, Ghost<Seq<(int, int)>>)>) -> Option<Seq<(int, int)>> {
    match o {
        Some((_, g)) => Some(g@),
        None => None,
    }
}

spec fn date_span(o: Option<(usize, usize, u64)>) -> Option<(int, int)> {
    match o {
        Some((a, b, _)) => Some((a as int, b as int)),
        None => None,
    }
}

/// The values of the root dictionary read so far.
struct MetaState {
    announce: Option<(usize, usize, String)>,
    comment: Option<(usize, usize, String)>,
    created_by: Option<(usize, usize, String)>,
    url_list: Option<(usize, usize, String)>,
    creation_date: Option<(usize, usize, u64)>,
    http_seeds: Option<(Vec<String>, Ghost<Seq<(int, int)>>)>,
    info: Option<(Info, usize, usize, Ghost<InfoFields>)>,
}

impl MetaState {
    spec fn fields(&self) -> MetaFields {
        MetaFields {
            announce: str_span(self.announce),
            info: info_span(self.info),
            comment: str_span(self.comment),
            created_by: str_span(self.created_by),
            creation_date: date_span(self.creation_date),
            http_seeds: seeds_span(self.http_seeds),
            url_list: str_span(self.url_list),
        }
    }

    spec fn wf(&self, s: Seq<u8>) -> bool {
        &&& str_ok(s, self.announce)
        &&& str_ok(s, self.comment)
        &&& str_ok(s, self.created_by)
        &&& str_ok(s, self.url_list)
        &&& self.creation_date matches Some((a, b, v)) ==> v == number_at(s, (a as int, b as int))
        &&& self.http_seeds matches Some((v, g)) ==> texts_match(v@, s, g@)
        &&& self.info matches Some((inf, _, _, g)) ==> info_matches(inf, s, g@)
    }
}

/// Reads a text value into an empty slot.
fn put_text(s: &[u8], pos: usize, slot: &mut Option<(usize, usize, String)>) -> (r: Result<
    usize,
    DecodeError,
>)
    requires
        pos <= s@.len(),
        str_ok(s@, *old(slot)),
    ensures
        str_ok(s@, *final(slot)),
        match text_value(s@, pos as int) {
            None => r == Err::<usize, DecodeError>(DecodeError::Malformed),
            Some((a, b)) => if *old(slot) is Some {
                r == Err::<usize, DecodeError>(DecodeError::Malformed)
            } else {
                r == Ok::<usize, DecodeError>(b as usize) && str_span(*final(slot)) == Some((a, b))
            },
        },
{
    match parse_text(s, pos) {
        None => Err(DecodeError::Malformed),
        Some((t, a, b)) => {
            if slot.is_some() {
                return Err(DecodeError::Malformed);
            }
            *slot = Some((a, b, t));
            Ok(b)
        },
    }
}

/// Reads one pair of the root dictionary at `pos` into `st`.
#[verifier::rlimit(40)]
fn meta_step(s: &[u8], pos: usize, st: &mut MetaState) -> (r: Result<usize, DecodeError>)
    requires
        pos <= s@.len(),
        old(st).wf(s@),
    ensures
        final(st).wf(s@),
        match meta_entry(s@, pos as int, old(st).fields()) {
            Err(e) => r == Err::<usize, DecodeError>(e),
            Ok((f2, n)) => r == Ok::<usize, DecodeError>(n as usize) && final(st).fields() == f2,
        },
{
    let len = s.len();
    let (ks, ke) = match parse_string(s, pos) {
        None => return Err(DecodeError::Malformed),
        Some(p) => p,
    };
    if key_is(s, ks, ke, &KEY_ANNOUNCE) {
        put_text(s, ke, &mut st.announce)
    } else if key_is(s, ks, ke, &KEY_COMMENT) {
        put_text(s, ke, &mut st.comment)
    } else if key_is(s, ks, ke, &KEY_CREATED_BY) {
        put_text(s, ke, &mut st.created_by)
    } else if key_is(s, ks, ke, &KEY_URL_LIST) {
        put_text(s, ke, &mut st.url_list)
    } else if key_is(s, ks, ke, &KEY_CREATION_DATE) {
        match parse_number(s, ke) {
            None => Err(DecodeError::Malformed),
            Some((v, a, b, _)) => {
                if st.creation_date.is_some() {
                    return Err(DecodeError::Malformed);
                }
                st.creation_date = Some((a, b, v));
                Ok(b + 1)
            },
        }
    } else if key_is(s, ks, ke, &KEY_HTTP_SEEDS) {
        match parse_text_list(s, ke) {
            None => Err(DecodeError::Malformed),
            Some((v, next)) => {
                if st.http_seeds.is_some() {
                    return Err(DecodeError::Malformed);
                }
                let ghost g = text_list(s@, ke as int)->Some_0.0;
                st.http_seeds = Some((v, Ghost(g)));
                Ok(next)
            },
        }
    } else if key_is(s, ks, ke, &KEY_INFO) {
        match Info::decode_bencode_object(s, ke) {
            Err(e) => Err(e),
            Ok((inf, next)) => {
                if st.info.is_some() {
                    return Err(DecodeError::Malformed);
                }
                let ghost g = info_value(s@, ke as int)->Ok_0.0;
                st.info = Some((inf, ke, next, Ghost(g)));
                Ok(next)
            },
        }
    } else {
        Err(DecodeError::UnexpectedField)
    }
}

impl MetaInfo {
    /// Decodes a metainfo document: a root dictionary with the keys
    /// `announce`, `info`, `comment`, `created by`, `creation date`,
    /// `httpseeds` and `url-list`, in any order. Bytes after the root
    /// dictionary are not read.
    pub fn from_bencode(s: &[u8]) -> (r: Result<MetaInfo, DecodeError>)
        ensures
            match (r, metainfo_fields(s@)) {
                (Ok(m), Ok(f)) => metainfo_matches(m, s@, f),
                (Err(x), Err(y)) => x == y,
                _ => false,
            },
    {
        if s.len() == 0 || s[0] != 100 {
            return Err(DecodeError::Malformed);
        }
        let mut i: usize = 1;
        let mut st = MetaState {
            announce: None,
            comment: None,
            created_by: None,
            url_list: None,
            creation_date: None,
            http_seeds: None,
            info: None,
        };
        assert(st.fields() == no_meta_fields());
        while i < s.len() && s[i] != 101
            invariant
                0 < i <= s@.len(),
                s@[0] == 100,
                meta_entries(s@, i as int, st.fields()) == meta_entries(s@, 1, no_meta_fields()),
                st.wf(s@),
            decreases s@.len() - i,
        {
            proof {
                lemma_meta_entry_step(s@, i as int, st.fields());
                if meta_entry(s@, i as int, st.fields()) is Ok {
                    lemma_meta_entry_advance(s@, i as int, st.fields());
                }
            }
            i = meta_step(s, i, &mut st)?;
        }
        if i >= s.len() {
            return Err(DecodeError::Malformed);
        }
        match (st.announce, st.info) {
            (Some((_, _, a)), Some((inf, _, _, _))) => {
                let date = match st.creation_date {
                    Some((_, _, v)) => Some(v),
                    None => None,
                };
                let seeds = match st.http_seeds {
                    Some((v, _)) => Some(v),
                    None => None,
                };
                let comment = match st.comment {
                    Some((_, _, t)) => Some(t),
                    None => None,
                };
                let created_by = match st.created_by {
                    Some((_, _, t)) => Some(t),
                    None => None,
                };
                let url_list = match st.url_list {
                    Some((_, _, t)) => Some(t),
                    None => None,
                };
                Ok(
                    MetaInfo {
                        announce: a,
                        info: inf,
                        comment,
                        created_by,
                        creation_date: date,
                        http_seeds: seeds,
                        url_list,
                    },
                )
            },
            _ => Err(DecodeError::MissingField),
        }
    }
}

proof fn lemma_meta_entry_step(s: Seq<u8>, pos: int, f: MetaFields)
    requires
        0 <= pos < s.len(),
        s[pos] != 101,
    ensures
        meta_entries(s, pos, f) == match meta_entry(s, pos, f) {
            Err(e) => Err(e),
            Ok((f2, next)) => meta_entries(s, next, f2),
        },
{
}

/// Whether the `info` value recorded in `f` is the one decoded at its position.
pub open spec fn info_located(s: Seq<u8>, f: MetaFields) -> bool {
    f.info matches Some((inf, a, b)) ==> info_value(s, a) == Ok::<(InfoFields, int), DecodeError>(
        (inf, b),
    )
}

pub proof fn lemma_meta_entries_locate_info(s: Seq<u8>, pos: int, f: MetaFields)
    requires
        meta_entries(s, pos, f) is Ok,
        info_located(s, f),
    ensures
        info_located(s, meta_entries(s, pos, f)->Ok_0.0),
    decreases s.len() - pos,
{
    if s[pos] != 101 {
        let (f2, next) = meta_entry(s, pos, f)->Ok_0;
        lemma_meta_entry_advance(s, pos, f);
        lemma_meta_entries_locate_info(s, next, f2);
    }
}

/// In a decoded metainfo the `pieces` string is a whole number of 20-byte
/// hashes, one for each piece: `ceil(file_length / piece_length)` of them,
/// with a positive piece length.
pub proof fn lemma_piece_hashes_cover_file(s: Seq<u8>, m: MetaInfo)
    requires
        metainfo_fields(s) is Ok,
        metainfo_matches(m, s, metainfo_fields(s)->Ok_0),
    ensures
        ({
            let inf = metainfo_fields(s)->Ok_0.info->Some_0.0;
            let pl = number_at(s, inf.piece_length->Some_0);
            let fl = number_at(s, inf.length->Some_0);
            &&& (inf.pieces->Some_0.1 - inf.pieces->Some_0.0) % 20 == 0
            &&& m.info.pieces@.len() == (inf.pieces->Some_0.1 - inf.pieces->Some_0.0) / 20
            &&& pl > 0
            &&& m.info.pieces@.len() == piece_count(fl, pl)
        }),
{
    lemma_meta_entries_locate_info(s, 1, no_meta_fields());
}

/// The number written by the decimal digits `input`; `None` where it does
/// not fit in a `usize`.
pub fn bytes_to_num(input: &[u8]) -> (r: Option<usize>)
    requires
        forall|k: int| 0 <= k < input@.len() ==> is_digit(#[trigger] input@[k]),
    ensures
        match r {
            Some(v) => v == decimal_value(input@),
            None => decimal_value(input@) > usize::MAX,
        },
{
    let r = parse_decimal(input, 0, input.len(), usize::MAX as u64);
    assert(input@.subrange(0, input@.len() as int) =~= input@);
    match r {
        Some(v) => Some(v as usize),
        None => None,
    }
}

/// Reads a decimal field of the metainfo, such as `piece_length`: `None`
/// unless it is a non-empty run of digits whose value fits in 64 bits.
pub fn decimal_field(text: &str) -> (r: Option<u64>)
    ensures
        ({
            let b = text.spec_bytes();
            &&& r is Some <==> (b.len() > 0 && (forall|k: int|
                0 <= k < b.len() ==> is_digit(#[trigger] b[k])) && decimal_value(b) <= u64::MAX)
            &&& r matches Some(v) ==> v == decimal_value(b)
        }),
{
    let b = text.as_bytes();
    if b.len() == 0 {
        return None;
    }
    let mut i: usize = 0;
    while i < b.len()
        invariant
            b@ == text.spec_bytes(),
            i <= b@.len(),
            forall|k: int| 0 <= k < i ==> is_digit(#[trigger] b@[k]),
        decreases b@.len() - i,
    {
        if !(48 <= b[i] && b[i] <= 57) {
            assert(!is_digit(b@[i as int]));
            assert(!(forall|k: int| 0 <= k < b@.len() ==> is_digit(#[trigger] b@[k])));
            return None;
        }
        i = i + 1;
    }
    let r = parse_decimal(b, 0, b.len(), u64::MAX);
    assert(b@.subrange(0, b@.len() as int) =~= b@);
    r
}

} // verus!
