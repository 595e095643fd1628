use vstd::prelude::*;

use crate::bencode::{
    decimal_value, digits_end, int_digits_start, int_span, is_digit, lemma_digits_end_bounds,
    parse_decimal, scan_digits, string_span,
};
use crate::decode_torrent::{
    info_entries, info_entry, lemma_meta_entries_locate_info, metainfo_fields, no_info_fields,
    no_meta_fields, u64_value, InfoFields,
};
use crate::definitions::InfoHash;
use crate::digest::{sha1_digest, sha1_of};
use crate::text::copy_bytes;

verus! {

/// The marker `4:infod`: the key `info` followed by the opening of its
/// dictionary value.
pub const INFO_MARKER: [u8; 7] = [52, 58, 105, 110, 102, 111, 100];

/// The first position at or after `i` where the marker starts.
pub open spec fn first_marker_from(s: Seq<u8>, i: int) -> Option<int>
    decreases s.len() - i,
{
    if !(0 <= i && i + 7 <= s.len()) {
        None
    } else if s.subrange(i, i + 7) == INFO_MARKER@ {
        Some(i)
    } else {
        first_marker_from(s, i + 1)
    }
}

/// The first `e` at or after `i`.
pub open spec fn first_e_from(s: Seq<u8>, i: int) -> Option<int>
    decreases s.len() - i,
{
    if !(0 <= i < s.len()) {
        None
    } else if s[i] == 101 {
        Some(i)
    } else {
        first_e_from(s, i + 1)
    }
}

pub proof fn lemma_first_e_from(s: Seq<u8>, i: int)
    requires
        first_e_from(s, i) is Some,
    ensures
        i <= first_e_from(s, i)->Some_0 < s.len(),
        s[first_e_from(s, i)->Some_0] == 101,
        forall|k: int| i <= k < first_e_from(s, i)->Some_0 ==> s[k] != 101,
    decreases s.len() - i,
{
    if s[i] != 101 {
        lemma_first_e_from(s, i + 1);
    }
}

/// A bracket-balanced scan over bencode tokens from `pos`, `depth`
/// containers deep: the position of the `e` that closes depth zero.
/// Integers are skipped to their `e`; byte strings by their length.
pub open spec fn scan_end(s: Seq<u8>, pos: int, depth: nat) -> Option<int>
    decreases s.len() - pos,
{
    if !(0 <= pos < s.len()) {
        None
    } else if s[pos] == 101 {
        if depth == 0 {
            Some(pos)
        } else {
            scan_end(s, pos + 1, (depth - 1) as nat)
        }
    } else if is_digit(s[pos]) {
        let d = digits_end(s, pos);
        let n = decimal_value(s.subrange(pos, d));
        if d < s.len() && s[d] == 58 && d + 1 + n <= s.len() {
            proof {
                lemma_digits_end_bounds(s, pos);
            }
            scan_end(s, d + 1 + n, depth)
        } else {
            None
        }
    } else if s[pos] == 105 {
        match first_e_from(s, pos + 1) {
            Some(e) => {
                proof {
                    lemma_first_e_from(s, pos + 1);
                }
                scan_end(s, e + 1, depth)
            },
            None => None,
        }
    } else if s[pos] == 108 || s[pos] == 100 {
        scan_end(s, pos + 1, depth + 1)
    } else {
        None
    }
}

/// The byte range of the `info` value found by the scan: from the `d` of
/// the first marker through the `e` that balances it.
pub open spec fn info_range(s: Seq<u8>) -> Option<(int, int)> {
    match first_marker_from(s, 0) {
        Some(m) => match scan_end(s, m + 7, 0) {
            Some(e) => Some((m + 6, e + 1)),
            None => None,
        },
        None => None,
    }
}

fn find_marker(s: &[u8]) -> (r: Option<usize>)
    ensures
        match r {
            Some(m) => first_marker_from(s@, 0) == Some(m as int) && m + 7 <= s@.len(),
            None => first_marker_from(s@, 0) is None,
        },
{
    let len = s.len();
    let mut i: usize = 0;
    while i < len && len - i >= 7
        invariant
            len == s@.len(),
            first_marker_from(s@, i as int) == first_marker_from(s@, 0),
        decreases s@.len() - i,
    {
        let mut k: usize = 0;
        let mut same = true;
        while k < 7
            invariant
                len == s@.len(),
                i + 7 <= s@.len(),
                k <= 7,
                same == (forall|j: int| 0 <= j < k ==> s@[i + j] == INFO_MARKER@[j]),
            decreases 7 - k,
        {
            if s[i + k] != INFO_MARKER[k] {
                same = false;
            }
            k = k + 1;
        }
        if same {
            assert(s@.subrange(i as int, i + 7) =~= INFO_MARKER@);
            return Some(i);
        }
        assert(s@.subrange(i as int, i + 7) != INFO_MARKER@) by {
            let j = choose|j: int| 0 <= j < 7 && s@[i + j] != INFO_MARKER@[j];
            assert(s@.subrange(i as int, i + 7)[j] != INFO_MARKER@[j]);
        }
        i = i + 1;
    }
    None
}

/// The end of the bracket-balanced scan that starts at `start`.
fn scan_info_end(s: &[u8], start: usize) -> (r: Option<usize>)
    requires
        start <= s@.len(),
    ensures
        match r {
            Some(e) => scan_end(s@, start as int, 0) == Some(e as int) && start <= e < s@.len(),
            None => scan_end(s@, start as int, 0) is None,
        },
{
    let len = s.len();
    let mut i = start;
    let mut depth: usize = 0;
    while i < len
        invariant
            len == s@.len(),
            start <= i <= len,
            depth <= i,
            scan_end(s@, i as int, depth as nat) == scan_end(s@, start as int, 0),
        decreases len - i,
    {
        let b = s[i];
        if b == 101 {
            if depth == 0 {
                return Some(i);
            }
            depth = depth - 1;
            i = i + 1;
        } else if 48 <= b && b <= 57 {
            let d = scan_digits(s, i);
            proof {
                lemma_digits_end_bounds(s@, i as int);
            }
            if d >= len || s[d] != 58 {
                return None;
            }
            match parse_decimal(s, i, d, (len - d - 1) as u64) {
                None => return None,
                Some(n) => {
                    i = d + 1 + n as usize;
                },
            }
        } else if b == 105 {
            let mut j = i + 1;
            while j < len && s[j] != 101
                invariant
                    len == s@.len(),
                    i < j <= len,
                    first_e_from(s@, j as int) == first_e_from(s@, i + 1),
                decreases len - j,
            {
                j = j + 1;
            }
            if j >= len {
                return None;
            }
            i = j + 1;
        } else if b == 108 || b == 100 {
            depth = depth + 1;
            i = i + 1;
        } else {
            return None;
        }
    }
    None
}

/// The info-hash of a metainfo document: SHA-1 over the exact bytes of its
/// `info` value, from its `d` through the `e` that closes it, as located by
/// the first `4:infod` and a balanced scan. `None` where no such range is found.
pub fn get_info_hash(input: &[u8]) -> (r: Option<InfoHash>)
    ensures
        r is Some <==> info_range(input@) is Some,
        r matches Some(h) ==> h@ == sha1_of(
            input@.subrange(info_range(input@)->Some_0.0, info_range(input@)->Some_0.1),
        ),
{
    let len = input.len();
    let m = match find_marker(input) {
        None => return None,
        Some(m) => m,
    };
    let e = match scan_info_end(input, m + 7) {
        None => return None,
        Some(e) => e,
    };
    let bytes = copy_bytes(input, m + 6, e + 1);
    Some(sha1_digest(bytes.as_slice()))
}

proof fn lemma_first_e_at(s: Seq<u8>, i: int, b: int)
    requires
        0 <= i <= b < s.len(),
        s[b] == 101,
        forall|k: int| i <= k < b ==> s[k] != 101,
    ensures
        first_e_from(s, i) == Some(b),
    decreases b - i,
{
    if i < b {
        lemma_first_e_at(s, i + 1, b);
    }
}

proof fn lemma_scan_string(s: Seq<u8>, p: int, depth: nat)
    requires
        string_span(s, p) is Some,
    ensures
        scan_end(s, p, depth) == scan_end(s, string_span(s, p)->Some_0.1, depth),
{
    lemma_digits_end_bounds(s, p);
}

proof fn lemma_scan_int(s: Seq<u8>, p: int, depth: nat)
    requires
        int_span(s, p) is Some,
    ensures
        scan_end(s, p, depth) == scan_end(s, int_span(s, p)->Some_0.1 + 1, depth),
{
    let a = int_digits_start(s, p);
    let d = digits_end(s, a);
    lemma_digits_end_bounds(s, a);
    assert forall|k: int| p + 1 <= k < d implies s[k] != 101 by {
        if k >= a {
            assert(is_digit(s[k]));
        }
    }
    lemma_first_e_at(s, p + 1, d);
}

proof fn lemma_scan_info_entries(s: Seq<u8>, pos: int, f: InfoFields)
    requires
        info_entries(s, pos, f) is Ok,
    ensures
        scan_end(s, pos, 0) == Some(info_entries(s, pos, f)->Ok_0.1 - 1),
    decreases s.len() - pos,
{
    if s[pos] != 101 {
        let (f2, next) = info_entry(s, pos, f)->Ok_0;
        let (ks, ke) = string_span(s, pos)->Some_0;
        lemma_scan_string(s, pos, 0);
        if u64_value(s, ke) is Some && next == u64_value(s, ke)->Some_0.1 + 1 {
            lemma_scan_int(s, ke, 0);
        } else {
            lemma_scan_string(s, ke, 0);
        }
        lemma_digits_end_bounds(s, pos);
        lemma_scan_info_entries(s, next, f2);
    }
}

/// For a document that decodes, whose first `4:infod` is its `info` key with
/// the opening of the value, the scanned range is exactly the `info` value
/// the decoder read, from its `d` through its closing `e`. So the info-hash
/// is SHA-1 over those bytes.
pub proof fn lemma_info_hash_covers_info_value(s: Seq<u8>)
    requires
        metainfo_fields(s) is Ok,
        first_marker_from(s, 0) == Some(metainfo_fields(s)->Ok_0.info->Some_0.1 - 6),
    ensures
        info_range(s) == Some(
            (metainfo_fields(s)->Ok_0.info->Some_0.1, metainfo_fields(s)->Ok_0.info->Some_0.2),
        ),
{
    lemma_meta_entries_locate_info(s, 1, no_meta_fields());
    let (inf, a, b) = metainfo_fields(s)->Ok_0.info->Some_0;
    lemma_scan_info_entries(s, a + 1, no_info_fields());
}

} // verus!
