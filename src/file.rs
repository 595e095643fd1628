use vstd::prelude::*;

use crate::definitions::InfoHash;
use crate::digest::{sha1_digest, sha1_of};

verus! {

/// A piece held in memory.
pub struct Piece {
    /// Nominal size of a piece of the file.
    pub piece_size: usize,
    pub bytes: Vec<u8>,
}

impl Piece {
    /// A piece of nominal size `piece_size` whose buffer holds
    /// `actual_size` zero bytes.
    pub fn new(piece_size: usize, actual_size: usize) -> (r: Piece)
        ensures
            r.bytes@ == Seq::new(actual_size as nat, |i: int| 0u8),
            r.piece_size == piece_size,
    {
        let mut bytes: Vec<u8> = Vec::with_capacity(actual_size);
        let mut i: usize = 0;
        while i < actual_size
            invariant
                i <= actual_size,
                bytes@ == Seq::new(i as nat, |k: int| 0u8),
            decreases actual_size - i,
        {
            bytes.push(0);
            i = i + 1;
            assert(bytes@ =~= Seq::new(i as nat, |k: int| 0u8));
        }
        Piece { piece_size, bytes }
    }

    /// Copies `data` into the buffer at `offset`.
    pub fn update(&mut self, offset: usize, data: &[u8])
        requires
            offset + data@.len() <= old(self).bytes@.len(),
        ensures
            final(self).bytes@ == patched(old(self).bytes@, offset as int, data@),
            final(self).piece_size == old(self).piece_size,
    {
        let n = self.bytes.len();
        let mut k: usize = 0;
        while k < data.len()
            invariant
                n == self.bytes@.len(),
                n == old(self).bytes@.len(),
                offset + data@.len() <= n,
                self.piece_size == old(self).piece_size,
                k <= data@.len(),
                forall|j: int|
                    0 <= j < n && !(offset <= j < offset + k) ==> #[trigger] self.bytes@[j]
                        == old(self).bytes@[j],
                forall|j: int| offset <= j < offset + k ==> #[trigger] self.bytes@[j] == data@[j - offset],
            decreases data@.len() - k,
        {
            self.bytes.set(offset + k, data[k]);
            k = k + 1;
        }
        assert(self.bytes@ =~= patched(old(self).bytes@, offset as int, data@));
    }

    /// The SHA-1 digest of the buffer.
    pub fn hash(&self) -> (r: InfoHash)
        ensures
            r@ == sha1_of(self.bytes@),
    {
        sha1_digest(self.bytes.as_slice())
    }
}

/// `b` with `data` written over it from `offset` on.
pub open spec fn patched(b: Seq<u8>, offset: int, data: Seq<u8>) -> Seq<u8> {
    b.subrange(0, offset) + data + b.subrange(offset + data.len(), b.len() as int)
}

/// Number of pieces of `size` bytes cut in pieces of `piece_size`:
/// `ceil(size / piece_size)`.
pub open spec fn pieces_for(size: nat, piece_size: nat) -> nat
    recommends
        piece_size > 0,
{
    size / piece_size + if size % piece_size == 0 {
        0nat
    } else {
        1nat
    }
}

/// The abstract state of a piece store: nominal piece size, file size,
/// and for each piece its bytes when resident.
pub struct FileView {
    pub piece_size: nat,
    pub size: nat,
    pub pieces: Seq<Option<Seq<u8>>>,
}

/// Byte offset of piece `i` in the file.
pub open spec fn piece_offset(v: FileView, i: int) -> int {
    i * v.piece_size
}

/// Size of piece `i`: the nominal size, or what is left of the file for
/// the last piece.
pub open spec fn piece_len(v: FileView, i: int) -> int {
    if v.size - piece_offset(v, i) < v.piece_size {
        v.size - piece_offset(v, i)
    } else {
        v.piece_size as int
    }
}

/// Well-formedness: a positive piece size, one slot per piece, and each
/// resident piece as long as its span of the file.
pub open spec fn store_wf(v: FileView) -> bool {
    &&& v.piece_size > 0
    &&& v.pieces.len() == pieces_for(v.size, v.piece_size)
    &&& forall|i: int|
        0 <= i < v.pieces.len() && #[trigger] v.pieces[i] is Some ==> v.pieces[i]->Some_0.len()
            == piece_len(v, i)
}

/// How to open the backing file.
#[derive(Debug, Clone, Copy, PartialEq, Eq, Structural)]
pub enum OpenMode {
    /// The file is there with the right size: open it for reading and writing.
    OpenExisting,
    /// Nothing is there: create it and reserve its size.
    CreateNew,
}

/// Why the backing file cannot be used.
#[derive(Debug, Clone, Copy, PartialEq, Eq, Structural)]
pub enum FileError {
    /// A regular file of another size is in the way.
    AlreadyExists,
}

/// A file split into fixed-size pieces, with a cache of resident pieces.
pub struct FileEntity {
    piece_size: usize,
    size: usize,
    pieces: Vec<Option<Piece>>,
}

pub proof fn lemma_piece_offset_in_file(i: nat, size: nat, piece_size: nat)
    requires
        piece_size > 0,
        i < pieces_for(size, piece_size),
    ensures
        i * piece_size < size,
{
    let q = size / piece_size;
    let r = size % piece_size;
    assert(size == q * piece_size + r && r < piece_size) by (nonlinear_arith)
        requires
            piece_size > 0,
            q == size / piece_size,
            r == size % piece_size,
    ;
    if r == 0 {
        assert(i * piece_size < size) by (nonlinear_arith)
            requires
                i + 1 <= q,
                size == q * piece_size,
                piece_size > 0,
        ;
    } else {
        assert(i * piece_size < size) by (nonlinear_arith)
            requires
                i <= q,
                size == q * piece_size + r,
                r > 0,
        ;
    }
}

impl View for FileEntity {
    type V = FileView;

    closed spec fn view(&self) -> FileView {
        FileView {
            piece_size: self.piece_size as nat,
            size: self.size as nat,
            pieces: self.pieces@.map_values(
                |p: Option<Piece>|
                    match p {
                        Some(q) => Some(q.bytes@),
                        None => None,
                    },
            ),
        }
    }
}

impl FileEntity {
    /// An empty store over a file of `size` bytes cut in pieces of
    /// `piece_size` bytes: `ceil(size / piece_size)` slots, none resident.
    pub fn new(piece_size: usize, size: usize) -> (r: FileEntity)
        requires
            piece_size > 0,
        ensures
            store_wf(r@),
            r@.piece_size == piece_size,
            r@.size == size,
            forall|i: int| 0 <= i < r@.pieces.len() ==> #[trigger] r@.pieces[i] is None,
    {
        let count = if size % piece_size == 0 {
            size / piece_size
        } else {
            assert(size / piece_size < size) by (nonlinear_arith)
                requires
                    piece_size > 1,
                    size % piece_size != 0,
            ;
            size / piece_size + 1
        };
        let mut pieces: Vec<Option<Piece>> = Vec::with_capacity(count);
        let mut i: usize = 0;
        while i < count
            invariant
                i <= count,
                pieces@.len() == i,
                forall|k: int| 0 <= k < i ==> #[trigger] pieces@[k] is None,
            decreases count - i,
        {
            pieces.push(None);
            i = i + 1;
        }
        FileEntity { piece_size, size, pieces }
    }

    /// Nominal size of a piece.
    pub fn get_piece_size(&self) -> (r: usize)
        ensures
            r == self@.piece_size,
    {
        self.piece_size
    }

    /// Size of the file in bytes.
    pub fn get_size(&self) -> (r: usize)
        ensures
            r == self@.size,
    {
        self.size
    }

    /// Number of pieces.
    pub fn piece_count(&self) -> (r: usize)
        ensures
            r == self@.pieces.len(),
    {
        self.pieces.len()
    }

    /// Whether piece `index` is resident.
    pub fn is_loaded(&self, index: usize) -> (r: bool)
        requires
            index < self@.pieces.len(),
        ensures
            r == self@.pieces[index as int] is Some,
    {
        self.pieces[index].is_some()
    }

    /// The offset and size of piece `index` in the file.
    pub fn piece_span(&self, index: usize) -> (r: (u64, usize))
        requires
            store_wf(self@),
            index < self@.pieces.len(),
        ensures
            r.0 == piece_offset(self@, index as int),
            r.1 == piece_len(self@, index as int),
    {
        proof {
            lemma_piece_offset_in_file(index as nat, self.size as nat, self.piece_size as nat);
        }
        let offset = index * self.piece_size;
        let rest = self.size - offset;
        let len = if rest < self.piece_size {
            rest
        } else {
            self.piece_size
        };
        (offset as u64, len)
    }

    /// What must be read from the file to make piece `index` resident:
    /// its offset and size, or `None` where it already is.
    pub fn load_request(&self, index: usize) -> (r: Option<(u64, usize)>)
        requires
            store_wf(self@),
            index < self@.pieces.len(),
        ensures
            self@.pieces[index as int] is Some ==> r is None,
            self@.pieces[index as int] is None ==> r == Some(
                (piece_offset(self@, index as int) as u64, piece_len(self@, index as int) as usize),
            ),
    {
        if self.pieces[index].is_some() {
            None
        } else {
            Some(self.piece_span(index))
        }
    }

    /// Installs the bytes read for piece `index`; a resident piece is kept
    /// as it is.
    pub fn load_piece(&mut self, index: usize, data: Vec<u8>)
        requires
            store_wf(old(self)@),
            index < old(self)@.pieces.len(),
            data@.len() == piece_len(old(self)@, index as int),
        ensures
            store_wf(final(self)@),
            old(self)@.pieces[index as int] is Some ==> final(self)@ == old(self)@,
            old(self)@.pieces[index as int] is None ==> final(self)@ == (FileView {
                pieces: old(self)@.pieces.update(index as int, Some(data@)),
                ..old(self)@
            }),
    {
        if self.pieces[index].is_some() {
            return;
        }
        let piece = Piece { piece_size: self.piece_size, bytes: data };
        self.pieces.set(index, Some(piece));
        assert(self@.pieces =~= old(self)@.pieces.update(index as int, Some(data@)));
    }

    /// A copy of bytes `[offset, offset + length)` of resident piece `index`.
    pub fn sub_piece(&self, index: usize, offset: usize, length: usize) -> (r: Vec<u8>)
        requires
            index < self@.pieces.len(),
            self@.pieces[index as int] is Some,
            offset + length <= self@.pieces[index as int]->Some_0.len(),
        ensures
            r@ == self@.pieces[index as int]->Some_0.subrange(
                offset as int,
                offset + length,
            ),
    {
        let p = match &self.pieces[index] {
            Some(p) => p,
            None => {
                proof {
                    assert(self@.pieces[index as int] is None);
                }
                return Vec::new();
            },
        };
        let n = p.bytes.len();
        let mut out: Vec<u8> = Vec::with_capacity(length);
        let mut k: usize = 0;
        while k < length
            invariant
                n == p.bytes@.len(),
                k <= length,
                offset + length <= p.bytes@.len(),
                out@ == p.bytes@.subrange(offset as int, offset + k),
            decreases length - k,
        {
            out.push(p.bytes[offset + k]);
            k = k + 1;
            assert(out@ =~= p.bytes@.subrange(offset as int, offset + k));
        }
        out
    }

    /// Writes `buf` into resident piece `index` at `offset`; the other
    /// pieces and the other bytes of this one are unchanged.
    pub fn write_sub_piece(&mut self, index: usize, offset: usize, buf: &[u8])
        requires
            store_wf(old(self)@),
            index < old(self)@.pieces.len(),
            old(self)@.pieces[index as int] is Some,
            offset + buf@.len() <= old(self)@.pieces[index as int]->Some_0.len(),
        ensures
            store_wf(final(self)@),
            final(self)@ == (FileView {
                pieces: old(self)@.pieces.update(
                    index as int,
                    Some(patched(old(self)@.pieces[index as int]->Some_0, offset as int, buf@)),
                ),
                ..old(self)@
            }),
    {
        let mut slot: Option<Piece> = None;
        self.pieces.set_and_swap(index, &mut slot);
        match slot {
            Some(mut p) => {
                p.update(offset, buf);
                self.pieces.set(index, Some(p));
            },
            None => {
                proof {
                    assert(old(self)@.pieces[index as int] is None);
                }
            },
        }
        assert(self@.pieces =~= old(self)@.pieces.update(
            index as int,
            Some(patched(old(self)@.pieces[index as int]->Some_0, offset as int, buf@)),
        ));
    }

    /// The SHA-1 digest of resident piece `index`, `None` where it is not
    /// resident.
    pub fn piece_hash(&self, index: usize) -> (r: Option<InfoHash>)
        requires
            index < self@.pieces.len(),
        ensures
            r is Some <==> self@.pieces[index as int] is Some,
            r matches Some(h) ==> h@ == sha1_of(self@.pieces[index as int]->Some_0),
    {
        match &self.pieces[index] {
            Some(p) => Some(p.hash()),
            None => None,
        }
    }

    /// Whether resident piece `index` has the expected digest; `false`
    /// where it is not resident.
    pub fn verify_piece(&self, index: usize, expected: &InfoHash) -> (r: bool)
        requires
            index < self@.pieces.len(),
        ensures
            r == (self@.pieces[index as int] is Some && sha1_of(self@.pieces[index as int]->Some_0)
                == expected@),
    {
        match self.piece_hash(index) {
            None => false,
            Some(h) => digests_equal(&h, expected),
        }
    }

    /// The bytes of resident piece `index`, to be written back to the file
    /// at its offset.
    pub fn flush_request(&self, index: usize) -> (r: Option<(u64, &Vec<u8>)>)
        requires
            store_wf(self@),
            index < self@.pieces.len(),
        ensures
            r is Some <==> self@.pieces[index as int] is Some,
            r matches Some((off, b)) ==> off == piece_offset(self@, index as int) && b@
                == self@.pieces[index as int]->Some_0,
    {
        match &self.pieces[index] {
            Some(p) => {
                let (off, _) = self.piece_span(index);
                Some((off, &p.bytes))
            },
            None => None,
        }
    }
}

/// How to open the backing file of `size` bytes, given what the path holds
/// now: nothing, or an entry that is a regular file or not, of some length.
pub fn open_mode(existing: Option<(bool, u64)>, size: usize) -> (r: Result<OpenMode, FileError>)
    ensures
        existing is None ==> r == Ok::<OpenMode, FileError>(OpenMode::CreateNew),
        existing matches Some((is_file, len)) ==> if is_file && len != size {
            r == Err::<OpenMode, FileError>(FileError::AlreadyExists)
        } else {
            r == Ok::<OpenMode, FileError>(OpenMode::OpenExisting)
        },
{
    match existing {
        None => Ok(OpenMode::CreateNew),
        Some((is_file, len)) => {
            if is_file && len != size as u64 {
                Err(FileError::AlreadyExists)
            } else {
                Ok(OpenMode::OpenExisting)
            }
        },
    }
}

/// Writing a block into a resident piece and reading the same range back
/// gives the block; every other byte of the piece is unchanged.
pub proof fn lemma_write_then_read(old_bytes: Seq<u8>, offset: int, block: Seq<u8>)
    requires
        0 <= offset,
        offset + block.len() <= old_bytes.len(),
    ensures
        patched(old_bytes, offset, block).len() == old_bytes.len(),
        patched(old_bytes, offset, block).subrange(offset, offset + block.len()) == block,
        forall|k: int|
            0 <= k < old_bytes.len() && !(offset <= k < offset + block.len()) ==> #[trigger] patched(
                old_bytes,
                offset,
                block,
            )[k] == old_bytes[k],
{
    let p = patched(old_bytes, offset, block);
    assert(p.subrange(offset, offset + block.len()) =~= block);
}

/// Whether two digests are equal.
pub fn digests_equal(a: &InfoHash, b: &InfoHash) -> (r: bool)
    ensures
        r == (a@ == b@),
{
    let mut i: usize = 0;
    while i < 20
        invariant
            i <= 20,
            a@.len() == 20,
            b@.len() == 20,
            forall|k: int| 0 <= k < i ==> a@[k] == b@[k],
        decreases 20 - i,
    {
        if a[i] != b[i] {
            assert(a@[i as int] != b@[i as int]);
            return false;
        }
        i = i + 1;
    }
    assert(a@ =~= b@);
    true
}

} // verus!
