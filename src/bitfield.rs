use vstd::prelude::*;

verus! {

/// Bit `j` of a byte, counting from the most significant bit.
pub open spec fn bit_of(x: u8, j: u8) -> bool {
    x & (0x80u8 >> j) != 0
}

/// Bit `i` of a bitfield: bit `i % 8` of byte `i / 8`, most significant
/// bit first.
pub open spec fn bit_at(b: Seq<u8>, i: int) -> bool {
    bit_of(b[i / 8], (i % 8) as u8)
}

/// The first `n` bits of a bitfield.
pub open spec fn bits_of(b: Seq<u8>, n: nat) -> Seq<bool> {
    Seq::new(n, |i: int| bit_at(b, i))
}

/// Whether `b` can carry `n` bits: long enough, with every spare bit zero.
pub open spec fn bitfield_fits(b: Seq<u8>, n: nat) -> bool {
    &&& n <= 8 * b.len()
    &&& forall|i: int| n <= i < 8 * b.len() ==> !#[trigger] bit_at(b, i)
}

/// Whether `b` is the bitfield of `have`: one bit per piece, most
/// significant first, in the fewest bytes, spare bits zero.
pub open spec fn encoded_bitfield(have: Seq<bool>, b: Seq<u8>) -> bool {
    &&& b.len() == (have.len() + 7) / 8
    &&& bitfield_fits(b, have.len())
    &&& bits_of(b, have.len()) == have
}

proof fn lemma_set_bit(acc: u8, j: u8, bit: bool)
    requires
        j < 8,
    ensures
        ({
            let acc2 = if bit {
                acc | (0x80u8 >> j)
            } else {
                acc
            };
            &&& bit_of(acc2, j) == (bit || bit_of(acc, j))
            &&& forall|j2: u8| j2 < 8 && j2 != j ==> bit_of(acc2, j2) == bit_of(acc, j2)
        }),
{
    if bit {
        let acc2 = acc | (0x80u8 >> j);
        assert(acc2 & (0x80u8 >> j) != 0) by (bit_vector)
            requires
                acc2 == acc | (0x80u8 >> j),
                j < 8,
        ;
        assert forall|j2: u8| j2 < 8 && j2 != j implies bit_of(acc2, j2) == bit_of(acc, j2) by {
            assert((acc2 & (0x80u8 >> j2) != 0) == (acc & (0x80u8 >> j2) != 0)) by (bit_vector)
                requires
                    acc2 == acc | (0x80u8 >> j),
                    j < 8,
                    j2 < 8,
                    j2 != j,
            ;
        }
    }
}

proof fn lemma_zero_bits(j: u8)
    requires
        j < 8,
    ensures
        !bit_of(0u8, j),
{
    assert(0u8 & (0x80u8 >> j) == 0) by (bit_vector);
}

proof fn lemma_same_bits_same_byte(x: u8, y: u8)
    requires
        forall|j: u8| j < 8 ==> bit_of(x, j) == bit_of(y, j),
    ensures
        x == y,
{
    assert(bit_of(x, 0) == bit_of(y, 0));
    assert(bit_of(x, 1) == bit_of(y, 1));
    assert(bit_of(x, 2) == bit_of(y, 2));
    assert(bit_of(x, 3) == bit_of(y, 3));
    assert(bit_of(x, 4) == bit_of(y, 4));
    assert(bit_of(x, 5) == bit_of(y, 5));
    assert(bit_of(x, 6) == bit_of(y, 6));
    assert(bit_of(x, 7) == bit_of(y, 7));
    assert(x == y) by (bit_vector)
        requires
            (x & (0x80u8 >> 0u8) != 0) == (y & (0x80u8 >> 0u8) != 0),
            (x & (0x80u8 >> 1u8) != 0) == (y & (0x80u8 >> 1u8) != 0),
            (x & (0x80u8 >> 2u8) != 0) == (y & (0x80u8 >> 2u8) != 0),
            (x & (0x80u8 >> 3u8) != 0) == (y & (0x80u8 >> 3u8) != 0),
            (x & (0x80u8 >> 4u8) != 0) == (y & (0x80u8 >> 4u8) != 0),
            (x & (0x80u8 >> 5u8) != 0) == (y & (0x80u8 >> 5u8) != 0),
            (x & (0x80u8 >> 6u8) != 0) == (y & (0x80u8 >> 6u8) != 0),
            (x & (0x80u8 >> 7u8) != 0) == (y & (0x80u8 >> 7u8) != 0),
    ;
}

fn test_bit(x: u8, j: u8) -> (r: bool)
    requires
        j < 8,
    ensures
        r == bit_of(x, j),
{
    x & (0x80u8 >> j) != 0
}

/// Reads `n` bits from a bitfield: an error where it is too short or sets a
/// spare bit.
pub fn decode_bitfield(b: &[u8], n: usize) -> (r: Option<Vec<bool>>)
    ensures
        r is Some <==> bitfield_fits(b@, n as nat),
        r matches Some(v) ==> v@ == bits_of(b@, n as nat),
{
    let len = b.len();
    if len < n / 8 + if n % 8 == 0 {
        0
    } else {
        1
    } {
        return None;
    }
    let mut out: Vec<bool> = Vec::with_capacity(n);
    let mut i: usize = 0;
    while i < n
        invariant
            len == b@.len(),
            n <= 8 * len,
            i <= n,
            out@ == bits_of(b@, i as nat),
        decreases n - i,
    {
        out.push(test_bit(b[i / 8], (i % 8) as u8));
        i = i + 1;
        assert(out@ =~= bits_of(b@, i as nat));
    }
    let first = n / 8;
    let mut q: usize = first;
    while q < len
        invariant
            len == b@.len(),
            n <= 8 * len,
            first == n / 8,
            first <= q <= len,
            forall|j: int| n <= j < 8 * q ==> !#[trigger] bit_at(b@, j),
        decreases len - q,
    {
        let mut j: u8 = if q == first {
            (n % 8) as u8
        } else {
            0
        };
        while j < 8
            invariant
                len == b@.len(),
                first == n / 8,
                first <= q < len,
                j <= 8,
                n <= 8 * q + j,
                forall|i: int| n <= i < 8 * q + j ==> !#[trigger] bit_at(b@, i),
            decreases 8 - j,
        {
            if test_bit(b[q], j) {
                assert(bit_at(b@, 8 * q + j));
                return None;
            }
            j = j + 1;
        }
        q = q + 1;
    }
    Some(out)
}

/// The bitfield of `have`: one bit per piece, most significant bit first,
/// in `ceil(n / 8)` bytes with the spare bits zero.
pub fn encode_bitfield(have: &Vec<bool>) -> (r: Vec<u8>)
    ensures
        encoded_bitfield(have@, r@),
{
    let n = have.len();
    let nbytes = n / 8 + if n % 8 == 0 {
        0
    } else {
        1
    };
    let mut out: Vec<u8> = Vec::with_capacity(nbytes);
    let mut k: usize = 0;
    while k < nbytes
        invariant
            n == have@.len(),
            nbytes == (n + 7) / 8,
            k <= nbytes,
            out@.len() == k,
            forall|i: int| 0 <= i < 8 * k ==> #[trigger] bit_at(out@, i) == (i < n && have@[i]),
        decreases nbytes - k,
    {
        let mut acc: u8 = 0;
        let mut j: u8 = 0;
        proof {
            assert forall|j2: u8| j2 < 8 implies !bit_of(acc, j2) by {
                lemma_zero_bits(j2);
            }
        }
        while j < 8
            invariant
                n == have@.len(),
                k < nbytes,
                nbytes == (n + 7) / 8,
                j <= 8,
                forall|j2: u8|
                    j2 < 8 ==> #[trigger] bit_of(acc, j2) == (j2 < j && 8 * k + j2 < n && have@[8
                        * k + j2]),
            decreases 8 - j,
        {
            let i = 8 * k + j as usize;
            let bit = i < n && have[i];
            let ghost prev = acc;
            proof {
                lemma_set_bit(acc, j, bit);
                assert(!bit_of(prev, j));
            }
            if bit {
                acc = acc | (0x80u8 >> j);
            }
            assert(bit_of(acc, j) == bit);
            assert forall|j2: u8| j2 < 8 implies #[trigger] bit_of(acc, j2) == (j2 < j + 1 && 8
                * k + j2 < n && have@[8 * k + j2]) by {
                if j2 != j {
                    assert(bit_of(acc, j2) == bit_of(prev, j2));
                }
            }
            j = j + 1;
        }
        let ghost before = out@;
        out.push(acc);
        assert forall|i: int| 0 <= i < 8 * (k + 1) implies #[trigger] bit_at(out@, i) == (i < n
            && have@[i]) by {
            if i < 8 * k {
                assert(bit_at(before, i) == (i < n && have@[i]));
                assert(out@[i / 8] == before[i / 8]);
            } else {
                assert(i / 8 == k);
                assert(out@[i / 8] == acc);
                assert(bit_of(acc, (i % 8) as u8) == ((i % 8) < 8 && 8 * k + (i % 8) < n
                    && have@[8 * k + (i % 8)]));
            }
        }
        k = k + 1;
    }
    assert(bits_of(out@, n as nat) =~= have@);
    out
}

/// Bit-exactness of the bitfield encoding: the encoding of `have` decodes to
/// `have`; there is one encoding of each `have`; and every bitfield that
/// fits `n` bits in the fewest bytes is the encoding of the bits it carries.
pub proof fn lemma_bitfield_round_trip(have: Seq<bool>, b: Seq<u8>, c: Seq<u8>)
    ensures
        encoded_bitfield(have, b) ==> bitfield_fits(b, have.len()) && bits_of(b, have.len())
            == have,
        encoded_bitfield(have, b) && encoded_bitfield(have, c) ==> b == c,
        b.len() == (have.len() + 7) / 8 && bitfield_fits(b, have.len()) ==> encoded_bitfield(
            bits_of(b, have.len()),
            b,
        ),
{
    if encoded_bitfield(have, b) && encoded_bitfield(have, c) {
        let n = have.len();
        assert forall|k: int| 0 <= k < b.len() implies b[k] == c[k] by {
            assert forall|j: u8| j < 8 implies bit_of(b[k], j) == bit_of(c[k], j) by {
                let i = 8 * k + j;
                assert(i / 8 == k && i % 8 == j);
                if i < n {
                    assert(bits_of(b, n)[i] == bits_of(c, n)[i]);
                } else {
                    assert(!bit_at(b, i) && !bit_at(c, i));
                }
            }
            lemma_same_bits_same_byte(b[k], c[k]);
        }
        assert(b =~= c);
    }
}

} // verus!
