//! Decoding of one PAK archive: the 12-byte header, the directory of fixed
//! 64-byte records, and the accumulation loop that gathers an entry's bytes
//! out of partial reads.
//!
//! On-disk layout: a header of a 4-byte `PACK` signature, a signed 32-bit
//! little-endian directory offset and a signed 32-bit little-endian
//! directory length; then file content; then the directory, whose records
//! hold a 56-byte NUL-padded name, a signed 32-bit position and a signed
//! 32-bit length.

use vstd::prelude::*;
use vstd::string::StringSliceAdditionalSpecFns;
use vstd::utf8::valid_utf8;

use crate::bytes::{le_i32_at, spec_le_i32, spec_le_u32, utf8_to_str};

verus! {

/// What can go wrong while resolving and decoding archived resources.
#[derive(Debug, Clone, Copy, PartialEq, Eq, Structural)]
pub enum PackError {
    /// The storage layer failed; propagated, never retried.
    IoError,
    /// The bytes do not fit the format: a bad signature, a wrong resource
    /// size, or a directory length that is not a whole number of records.
    FormatError,
    /// No mounted archive contains the requested name.
    NotFoundError,
    /// A directory entry's name is not valid text.
    DecodeError,
}

pub type PackResult<T> = Result<T, PackError>;

/// Header of the PAK file format: after the 4-byte `PACK` signature, the
/// byte offset and byte length of the directory.
#[derive(Debug, Clone, Copy, PartialEq, Eq, Structural)]
pub struct Header {
    pub directory_offset: i32,
    pub directory_length: i32,
}

/// Whether `b` begins with the archive signature `PACK`.
pub open spec fn spec_has_magic(b: Seq<u8>) -> bool {
    b.len() >= 4 && b[0] == 0x50u8 && b[1] == 0x41u8 && b[2] == 0x43u8 && b[3] == 0x4bu8
}

impl Header {
    /// Decodes the archive header from the first bytes of the file.
    /// Fails when fewer than 12 bytes are given or the signature is wrong.
    pub fn read(bytes: &[u8]) -> (r: PackResult<Header>)
        ensures
            r is Ok <==> bytes@.len() >= 12 && spec_has_magic(bytes@),
            r matches Ok(h) ==> h.directory_offset == spec_le_i32(bytes@, 4)
                && h.directory_length == spec_le_i32(bytes@, 8),
            r matches Err(e) ==> e == PackError::FormatError,
    {
        if bytes.len() < 12 {
            return Err(PackError::FormatError);
        }
        if bytes[0] != 0x50 || bytes[1] != 0x41 || bytes[2] != 0x43 || bytes[3] != 0x4b {
            return Err(PackError::FormatError);
        }
        Ok(Header {
            directory_offset: le_i32_at(bytes, 4),
            directory_length: le_i32_at(bytes, 8),
        })
    }

    /// The header's size on disk.
    pub fn size() -> (n: usize)
        ensures
            n == 12,
    {
        12
    }
}

/// A directory entry: the name of one archived file, and the position and
/// length of its bytes within the archive.
#[derive(Debug, PartialEq, Eq)]
pub struct PackFile {
    /// The entry's name: the record's name field cut at its first NUL.
    pub name: Vec<u8>,
    pub position: i32,
    pub length: i32,
}

/// The index of the first NUL byte in `s`, or `s.len()` when there is none.
pub open spec fn first_nul(s: Seq<u8>) -> int
    decreases s.len(),
{
    if s.len() == 0 {
        0
    } else if s[0] == 0 {
        0
    } else {
        1 + first_nul(s.skip(1))
    }
}

pub proof fn lemma_first_nul(s: Seq<u8>, i: int)
    requires
        0 <= i <= s.len(),
        forall|k: int| 0 <= k < i ==> s[k] != 0,
        i < s.len() ==> s[i] == 0,
    ensures
        first_nul(s) == i,
    decreases s.len(),
{
    if s.len() > 0 && s[0] != 0 {
        lemma_first_nul(s.skip(1), i - 1);
    }
}

/// The name field of a 64-byte directory record, cut at its first NUL.
pub open spec fn spec_entry_name(rec: Seq<u8>) -> Seq<u8> {
    rec.take(56).take(first_nul(rec.take(56)))
}

impl PackFile {
    /// The entry's name decodes as text; established by `read`.
    pub open spec fn wf(self) -> bool {
        valid_utf8(self.name@)
    }

    /// Decodes one 64-byte directory record. Fails when the name's bytes up
    /// to their first NUL are not valid text.
    pub fn read(record: &[u8]) -> (r: PackResult<PackFile>)
        requires
            record@.len() == 64,
        ensures
            r is Ok <==> valid_utf8(spec_entry_name(record@)),
            r matches Ok(f) ==> f.name@ == spec_entry_name(record@)
                && f.position == spec_le_i32(record@, 56)
                && f.length == spec_le_i32(record@, 60)
                && f.wf(),
            r matches Err(e) ==> e == PackError::DecodeError,
    {
        let ghost field = record@.take(56);
        let mut cut: usize = 0;
        while cut < 56 && record[cut] != 0
            invariant
                cut <= 56,
                record@.len() == 64,
                forall|k: int| 0 <= k < cut ==> record@[k] != 0,
            decreases 56 - cut,
        {
            cut += 1;
        }
        proof {
            assert(forall|k: int| 0 <= k < cut ==> field[k] == record@[k]);
            lemma_first_nul(field, cut as int);
        }
        let name_slice = vstd::slice::slice_subrange(record, 0, cut);
        proof {
            assert(name_slice@ =~= spec_entry_name(record@));
        }
        if utf8_to_str(name_slice).is_none() {
            return Err(PackError::DecodeError);
        }
        let name = vstd::slice::slice_to_vec(name_slice);
        Ok(PackFile {
            name,
            position: le_i32_at(record, 56),
            length: le_i32_at(record, 60),
        })
    }

    /// A directory record's size on disk.
    pub fn size() -> (n: usize)
        ensures
            n == 64,
    {
        64
    }

    /// The entry's name as text. The name was validated when the record was
    /// decoded, so the conversion cannot fail.
    pub fn name_str(&self) -> (r: &str)
        requires
            self.wf(),
        ensures
            r.spec_bytes() == self.name@,
    {
        match utf8_to_str(self.name.as_slice()) {
            Some(s) => s,
            None => vstd::pervasive::unreached(),
        }
    }
}

/// The `i`-th 64-byte record of a directory image.
pub open spec fn spec_record(b: Seq<u8>, i: int) -> Seq<u8> {
    b.subrange(64 * i, 64 * i + 64)
}

/// Whether a directory image decodes in full: its length is a whole number
/// of records and every record's name is valid text.
pub open spec fn spec_directory_ok(b: Seq<u8>) -> bool {
    b.len() % 64 == 0 && forall|i: int|
        0 <= i < b.len() / 64 ==> valid_utf8(spec_entry_name(#[trigger] spec_record(b, i)))
}

/// Decodes a directory image into its entries.
///
/// The image must be a whole number of 64-byte records (else the archive is
/// malformed) and every name must decode as text (names are lookup keys).
/// Exactly `bytes.len() / 64` entries come out, in on-disk order.
pub fn parse_directory(bytes: &[u8]) -> (r: PackResult<Vec<PackFile>>)
    ensures
        r is Ok <==> spec_directory_ok(bytes@),
        r matches Ok(v) ==> {
            &&& v@.len() == bytes@.len() / 64
            &&& forall|i: int| 0 <= i < v@.len() ==> (#[trigger] v@[i]).name@ == spec_entry_name(
                spec_record(bytes@, i),
            )
            &&& forall|i: int| 0 <= i < v@.len() ==> (#[trigger] v@[i]).position == spec_le_i32(
                bytes@,
                64 * i + 56,
            )
            &&& forall|i: int| 0 <= i < v@.len() ==> (#[trigger] v@[i]).length == spec_le_i32(
                bytes@,
                64 * i + 60,
            )
            &&& forall|i: int| 0 <= i < v@.len() ==> (#[trigger] v@[i]).wf()
        },
        r matches Err(e) ==> (e == PackError::FormatError <==> bytes@.len() % 64 != 0)
            && (e == PackError::FormatError || e == PackError::DecodeError),
{
    if bytes.len() % 64 != 0 {
        return Err(PackError::FormatError);
    }
    let n = bytes.len();
    let count = n / 64;
    proof {
        assert(count * 64 <= n);
    }
    let mut entries: Vec<PackFile> = Vec::new();
    let mut i: usize = 0;
    while i < count
        invariant
            i <= count,
            count == bytes@.len() / 64,
            count * 64 <= bytes@.len() <= usize::MAX,
            bytes@.len() % 64 == 0,
            entries@.len() == i,
            forall|k: int| 0 <= k < i ==> valid_utf8(spec_entry_name(#[trigger] spec_record(bytes@, k))),
            forall|k: int| 0 <= k < i ==> (#[trigger] entries@[k]).name@ == spec_entry_name(
                spec_record(bytes@, k),
            ),
            forall|k: int| 0 <= k < i ==> (#[trigger] entries@[k]).position == spec_le_i32(
                bytes@,
                64 * k + 56,
            ),
            forall|k: int| 0 <= k < i ==> (#[trigger] entries@[k]).length == spec_le_i32(
                bytes@,
                64 * k + 60,
            ),
            forall|k: int| 0 <= k < i ==> (#[trigger] entries@[k]).wf(),
        decreases count - i,
    {
        let record = vstd::slice::slice_subrange(bytes, i * 64, i * 64 + 64);
        proof {
            assert(record@ =~= spec_record(bytes@, i as int));
            assert(spec_le_u32(record@, 56) == spec_le_u32(bytes@, 64 * (i as int) + 56)) by {
                assert(record@[56] == bytes@[64 * (i as int) + 56]);
                assert(record@[57] == bytes@[64 * (i as int) + 57]);
                assert(record@[58] == bytes@[64 * (i as int) + 58]);
                assert(record@[59] == bytes@[64 * (i as int) + 59]);
            }
            assert(spec_le_u32(record@, 60) == spec_le_u32(bytes@, 64 * (i as int) + 60)) by {
                assert(record@[60] == bytes@[64 * (i as int) + 60]);
                assert(record@[61] == bytes@[64 * (i as int) + 61]);
                assert(record@[62] == bytes@[64 * (i as int) + 62]);
                assert(record@[63] == bytes@[64 * (i as int) + 63]);
            }
        }
        match PackFile::read(record) {
            Ok(f) => entries.push(f),
            Err(e) => {
                return Err(e);
            },
        }
        i += 1;
    }
    Ok(entries)
}

/// Gathers the bytes of one archive entry out of partial reads.
///
/// A single read from storage may return fewer bytes than were asked for;
/// the caller keeps reading and feeding chunks in until the requested
/// length is reached. Only successful-but-partial reads are retried this
/// way; a storage error is propagated by the caller at once.
pub struct EntryReader {
    wanted: usize,
    data: Vec<u8>,
}

impl EntryReader {
    #[verifier::type_invariant]
    spec fn inv(self) -> bool {
        self.data@.len() <= self.wanted
    }

    /// The requested byte count.
    pub closed spec fn spec_wanted(self) -> int {
        self.wanted as int
    }

    /// The bytes gathered so far, in arrival order.
    pub closed spec fn spec_data(self) -> Seq<u8> {
        self.data@
    }

    pub fn new(wanted: usize) -> (r: EntryReader)
        ensures
            r.spec_wanted() == wanted,
            r.spec_data() == Seq::<u8>::empty(),
    {
        EntryReader { wanted, data: Vec::new() }
    }

    /// How many bytes are still missing; the size of the next read request.
    pub fn remaining(&self) -> (n: usize)
        ensures
            n == self.spec_wanted() - self.spec_data().len(),
    {
        proof {
            use_type_invariant(self);
        }
        self.wanted - self.data.len()
    }

    /// Whether the requested length has been reached.
    pub fn is_complete(&self) -> (b: bool)
        ensures
            b == (self.spec_data().len() == self.spec_wanted()),
    {
        proof {
            use_type_invariant(self);
        }
        self.data.len() == self.wanted
    }

    /// Appends one read's worth of bytes. The chunk may be any size up to
    /// what is still missing, including a shorter-than-requested one.
    pub fn push_chunk(&mut self, chunk: &[u8])
        requires
            chunk@.len() <= old(self).spec_wanted() - old(self).spec_data().len(),
        ensures
            final(self).spec_wanted() == old(self).spec_wanted(),
            final(self).spec_data() == old(self).spec_data() + chunk@,
    {
        proof {
            use_type_invariant(&*self);
        }
        let mut data: Vec<u8> = Vec::new();
        core::mem::swap(&mut data, &mut self.data);
        let n = chunk.len();
        let mut i: usize = 0;
        while i < n
            invariant
                i <= n,
                n == chunk@.len(),
                n <= old(self).wanted - old(self).data@.len(),
                self.wanted == old(self).wanted,
                data@ == old(self).data@ + chunk@.take(i as int),
            decreases n - i,
        {
            data.push(chunk[i]);
            i += 1;
            proof {
                assert(data@ =~= old(self).data@ + chunk@.take(i as int));
            }
        }
        proof {
            assert(old(self).data@ + chunk@.take(n as int) =~= old(self).data@ + chunk@);
        }
        self.data = data;
    }

    /// Hands the gathered buffer out once the requested length is met.
    pub fn into_bytes(self) -> (r: Vec<u8>)
        requires
            self.spec_data().len() == self.spec_wanted(),
        ensures
            r@ == self.spec_data(),
    {
        self.data
    }
}

} // verus!
