//! Stored form of file contents: a 21-byte header and the bytes themselves,
//! compressed where that makes them shorter.

use vstd::prelude::*;

use crate::codec::{zstd_decode, zstd_encode};
use crate::hash::{hash_bytes, Sha1Hash};
use crate::text::{append_bytes, bytes_between};
use crate::wire::{push_le, read_le};

verus! {

/// Length of a header.
pub const HEADER_LEN: usize = 21;

/// Contents of up to this many bytes are stored as they are.
pub const COMPRESS_ABOVE: usize = 4096;

/// The zstd level of compressed blobs.
pub const ZSTD_LEVEL: i32 = 3;

/// Why stored bytes are no valid blob.
#[derive(Clone, Copy, Debug, PartialEq, Eq)]
pub enum BlobError {
    /// There are fewer bytes than a header has.
    HeaderTooShort { len: usize },
    /// The first four bytes are not the magic.
    BadMagic { magic: (u8, u8, u8, u8) },
    /// There are fewer bytes after the header than it says: `available` in all,
    /// the header counted.
    DataTooShort { stored_len: u64, available: usize },
    /// The compressed bytes could not be decompressed.
    Decompression,
    /// The decompressed bytes do not have the length in the header.
    SizeMismatch { orig_len: u64, decompressed: usize },
    /// The bytes do not have the hash under which they were asked for.
    HashMismatch { expected: Sha1Hash, actual: Sha1Hash },
    /// Nothing is stored under the hash.
    NotFound { hash: Sha1Hash },
    /// The contents could not be compressed.
    Compression,
}

/// Header of a stored blob.
#[derive(Clone, Copy, Debug)]
pub struct BlobHeaderV1 {
    /// The bytes `SNB1`.
    pub magic: [u8; 4],
    /// Bit 0: the contents are compressed. The other bits are reserved.
    pub flags: u8,
    /// Length of the contents.
    pub orig_len: u64,
    /// Length of the bytes after the header.
    pub stored_len: u64,
}

/// The magic bytes `SNB1`.
pub open spec fn magic() -> Seq<u8> {
    seq![83u8, 78u8, 66u8, 49u8]
}

/// The bytes of a header.
pub open spec fn header_bytes(magic: Seq<u8>, flags: u8, orig_len: u64, stored_len: u64) -> Seq<u8> {
    magic + seq![flags] + crate::wire::le_bytes(orig_len as nat, 8) + crate::wire::le_bytes(stored_len as nat, 8)
}

/// The header at the start of `s`: its flags and its two lengths.
pub open spec fn header_of(s: Seq<u8>) -> Result<(u8, nat, nat), BlobError> {
    if s.len() < HEADER_LEN {
        Err(BlobError::HeaderTooShort { len: s.len() as usize })
    } else if s.take(4) != magic() {
        Err(BlobError::BadMagic { magic: (s[0], s[1], s[2], s[3]) })
    } else {
        Ok((s[4], crate::wire::le_value(s.subrange(5, 13)), crate::wire::le_value(s.subrange(13, 21))))
    }
}

impl BlobHeaderV1 {
    /// The header's parts as they are stored.
    pub open spec fn bytes(&self) -> Seq<u8> {
        header_bytes(self.magic@, self.flags, self.orig_len, self.stored_len)
    }

    /// A header for contents of the given lengths.
    pub fn new(orig_len: u64, stored_len: u64, compressed: bool) -> (h: Self)
        ensures
            h.magic@ == magic(),
            h.flags == (if compressed { 1u8 } else { 0u8 }),
            h.orig_len == orig_len,
            h.stored_len == stored_len,
    {
        let flags: u8 = if compressed { 1 } else { 0 };
        let magic: [u8; 4] = [83u8, 78u8, 66u8, 49u8];
        assert(magic@ =~= self::magic());
        BlobHeaderV1 { magic, flags, orig_len, stored_len }
    }

    /// Whether bit 0 of the flags is set.
    pub fn is_compressed(&self) -> (r: bool)
        ensures
            r == (self.flags % 2 == 1),
    {
        let flags: u8 = self.flags;
        assert((flags & 1 != 0) == (flags % 2 == 1)) by (bit_vector);
        (flags & 1) != 0
    }

    /// The header as it is stored.
    pub fn to_bytes(&self) -> (v: Vec<u8>)
        ensures
            v@ == self.bytes(),
            v@.len() == 21,
    {
        let mut v: Vec<u8> = Vec::new();
        append_bytes(&mut v, self.magic.as_slice());
        v.push(self.flags);
        push_le(&mut v, self.orig_len, 8);
        push_le(&mut v, self.stored_len, 8);
        proof {
            crate::wire::pow256_values();
            crate::wire::le_round_trip(self.orig_len as nat, 8);
            crate::wire::le_round_trip(self.stored_len as nat, 8);
            assert(v@ =~= self.bytes());
        }
        v
    }

    /// Reads a header from the start of `bytes`.
    pub fn from_bytes(bytes: &[u8]) -> (r: Result<Self, BlobError>)
        ensures
            match r {
                Ok(h) => {
                    &&& header_of(bytes@) == Ok::<(u8, nat, nat), BlobError>(
                        (h.flags, h.orig_len as nat, h.stored_len as nat),
                    )
                    &&& h.magic@ == magic()
                },
                Err(e) => header_of(bytes@) == Err::<(u8, nat, nat), BlobError>(e),
            },
    {
        if bytes.len() < HEADER_LEN {
            return Err(BlobError::HeaderTooShort { len: bytes.len() });
        }
        let magic: [u8; 4] = [bytes[0], bytes[1], bytes[2], bytes[3]];
        assert(magic@ =~= bytes@.take(4));
        if magic[0] != 83 || magic[1] != 78 || magic[2] != 66 || magic[3] != 49 {
            assert(magic@ != self::magic());
            return Err(BlobError::BadMagic { magic: (magic[0], magic[1], magic[2], magic[3]) });
        }
        assert(magic@ =~= self::magic());
        Ok(
            BlobHeaderV1 {
                magic,
                flags: bytes[4],
                orig_len: read_le(bytes, 5, 8),
                stored_len: read_le(bytes, 13, 8),
            },
        )
    }
}

/// A header read back from its own bytes, whatever follows them, has the same
/// fields.
pub proof fn header_round_trip(flags: u8, orig_len: u64, stored_len: u64, rest: Seq<u8>)
    ensures
        header_bytes(magic(), flags, orig_len, stored_len).len() == HEADER_LEN,
        header_of(header_bytes(magic(), flags, orig_len, stored_len) + rest) == Ok::<(u8, nat, nat), BlobError>(
            (flags, orig_len as nat, stored_len as nat),
        ),
{
    crate::wire::pow256_values();
    crate::wire::le_round_trip(orig_len as nat, 8);
    crate::wire::le_round_trip(stored_len as nat, 8);
    let s = header_bytes(magic(), flags, orig_len, stored_len) + rest;
    assert(s.take(4) =~= magic());
    assert(s.subrange(5, 13) =~= crate::wire::le_bytes(orig_len as nat, 8));
    assert(s.subrange(13, 21) =~= crate::wire::le_bytes(stored_len as nat, 8));
}

/// A file's contents in the store.
#[derive(Clone, Copy, Debug)]
pub struct Blob {
    /// Hash of the contents.
    pub hash: Sha1Hash,
    /// Length of the contents.
    pub size: u64,
    /// Whether the contents are stored compressed.
    pub compressed: bool,
}

/// What is stored of `data`, and whether it is compressed, given what the encoder
/// made of it: the encoder's bytes where they are fewer.
pub open spec fn packed(data: Seq<u8>, encoded: Option<Seq<u8>>) -> (Seq<u8>, bool) {
    match encoded {
        Some(c) => if c.len() < data.len() {
            (c, true)
        } else {
            (data, false)
        },
        None => (data, false),
    }
}

/// What is stored of `data`: only contents above the limit are compressed.
pub open spec fn stored_form(data: Seq<u8>) -> (Seq<u8>, bool) {
    if data.len() > COMPRESS_ABOVE {
        packed(data, crate::codec::zstd_encoded(data, ZSTD_LEVEL))
    } else {
        (data, false)
    }
}

/// A header followed by what is stored.
pub open spec fn framed(orig_len: nat, stored: Seq<u8>, compressed: bool) -> Seq<u8> {
    header_bytes(magic(), if compressed { 1u8 } else { 0u8 }, orig_len as u64, stored.len() as u64) + stored
}

/// The bytes after the header that the header counts.
pub open spec fn stored_part(s: Seq<u8>) -> Seq<u8> {
    s.subrange(HEADER_LEN as int, HEADER_LEN + header_of(s)->Ok_0.2)
}

/// The contents of a stored blob, given its flags, the length of its contents, its
/// stored part and what the decoder made of that part.
pub open spec fn unpacked(flags: u8, orig_len: nat, stored: Seq<u8>, decoded: Option<Seq<u8>>) -> Result<
    Seq<u8>,
    BlobError,
> {
    if flags % 2 == 1 {
        match decoded {
            Some(d) => if d.len() == orig_len {
                Ok(d)
            } else {
                Err(BlobError::SizeMismatch { orig_len: orig_len as u64, decompressed: d.len() as usize })
            },
            None => Err(BlobError::Decompression),
        }
    } else {
        Ok(stored)
    }
}

/// The contents of a stored blob. Bytes after those that the header counts are
/// ignored.
pub open spec fn contents(s: Seq<u8>) -> Result<Seq<u8>, BlobError> {
    match header_of(s) {
        Err(e) => Err(e),
        Ok((flags, orig_len, stored_len)) => if s.len() < HEADER_LEN + stored_len {
            Err(BlobError::DataTooShort { stored_len: stored_len as u64, available: s.len() as usize })
        } else {
            unpacked(flags, orig_len, stored_part(s), crate::codec::zstd_decoded(stored_part(s)))
        },
    }
}

/// Chooses between the contents and what the encoder made of them.
pub fn pack(data: &[u8], encoded: Option<Vec<u8>>) -> (r: (Vec<u8>, bool))
    ensures
        (r.0@, r.1) == packed(data@, crate::codec::opt_view(encoded)),
{
    match encoded {
        Some(c) => {
            if c.len() < data.len() {
                (c, true)
            } else {
                (bytes_between(data, 0, data.len()), false)
            }
        },
        None => (bytes_between(data, 0, data.len()), false),
    }
}

/// Puts a header in front of what is stored.
pub fn frame(orig_len: usize, stored: &[u8], compressed: bool) -> (v: Vec<u8>)
    ensures
        v@ == framed(orig_len as nat, stored@, compressed),
{
    let header = BlobHeaderV1::new(orig_len as u64, stored.len() as u64, compressed);
    let mut v = header.to_bytes();
    append_bytes(&mut v, stored);
    v
}

/// Finishes reading a blob, given its header, the bytes after it and, where the
/// header says that these are compressed, what the decoder made of them.
pub fn unpack(header: &BlobHeaderV1, stored: Vec<u8>, decoded: Option<Vec<u8>>) -> (r: Result<Vec<u8>, BlobError>)
    ensures
        match r {
            Ok(v) => unpacked(header.flags, header.orig_len as nat, stored@, crate::codec::opt_view(decoded))
                == Ok::<Seq<u8>, BlobError>(v@),
            Err(e) => unpacked(header.flags, header.orig_len as nat, stored@, crate::codec::opt_view(decoded))
                == Err::<Seq<u8>, BlobError>(e),
        },
{
    if header.is_compressed() {
        match decoded {
            Some(d) => {
                if d.len() as u64 != header.orig_len {
                    Err(BlobError::SizeMismatch { orig_len: header.orig_len, decompressed: d.len() })
                } else {
                    Ok(d)
                }
            },
            None => Err(BlobError::Decompression),
        }
    } else {
        Ok(stored)
    }
}

/// Reading what was framed gives the contents back, provided that a compressed
/// form decodes to them.
pub proof fn framed_contents(data: Seq<u8>, stored: Seq<u8>, compressed: bool)
    requires
        data.len() <= u64::MAX,
        stored.len() <= u64::MAX,
        compressed ==> crate::codec::zstd_decoded(stored) == Some(data),
        !compressed ==> stored == data,
    ensures
        contents(framed(data.len(), stored, compressed)) == Ok::<Seq<u8>, BlobError>(data),
{
    let flags: u8 = if compressed { 1 } else { 0 };
    header_round_trip(flags, data.len() as u64, stored.len() as u64, stored);
    let s = framed(data.len(), stored, compressed);
    assert(stored_part(s) =~= stored);
}

impl Blob {
    /// The blob of the given contents and its stored form, which reads back as the
    /// contents.
    pub fn from_bytes(data: &[u8]) -> (r: Result<(Self, Vec<u8>), BlobError>)
        ensures
            r is Ok,
            r->Ok_0.0.hash@ == crate::hash::sha1_of(data@),
            r->Ok_0.0.size == data@.len(),
            r->Ok_0.0.compressed == stored_form(data@).1,
            r->Ok_0.1@ == framed(data@.len(), stored_form(data@).0, stored_form(data@).1),
            contents(r->Ok_0.1@) == Ok::<Seq<u8>, BlobError>(data@),
    {
        let hash = hash_bytes(data);
        let (stored, compressed) = if data.len() > COMPRESS_ABOVE {
            let encoded = zstd_encode(data, ZSTD_LEVEL);
            pack(data, encoded)
        } else {
            (bytes_between(data, 0, data.len()), false)
        };
        let serialized = frame(data.len(), stored.as_slice(), compressed);
        proof {
            assert(data@.subrange(0, data@.len() as int) =~= data@);
            framed_contents(data@, stored@, compressed);
        }
        Ok((Blob { hash, size: data.len() as u64, compressed }, serialized))
    }

    /// The stored form of `data`, compressed where this blob is, whether or not
    /// that makes it shorter.
    pub fn to_bytes(&self, data: &[u8]) -> (r: Result<Vec<u8>, BlobError>)
        ensures
            match r {
                Ok(v) => {
                    &&& contents(v@) == Ok::<Seq<u8>, BlobError>(data@)
                    &&& !self.compressed ==> v@ == framed(data@.len(), data@, false)
                    &&& self.compressed ==> {
                        &&& crate::codec::zstd_encoded(data@, ZSTD_LEVEL) is Some
                        &&& v@ == framed(data@.len(), crate::codec::zstd_encoded(data@, ZSTD_LEVEL)->0, true)
                    }
                },
                Err(e) => {
                    &&& e == BlobError::Compression
                    &&& self.compressed
                    &&& crate::codec::zstd_encoded(data@, ZSTD_LEVEL) is None
                },
            },
    {
        let stored: Vec<u8> = if self.compressed {
            match zstd_encode(data, ZSTD_LEVEL) {
                Some(c) => c,
                None => {
                    return Err(BlobError::Compression);
                },
            }
        } else {
            bytes_between(data, 0, data.len())
        };
        let serialized = frame(data.len(), stored.as_slice(), self.compressed);
        proof {
            assert(data@.subrange(0, data@.len() as int) =~= data@);
            framed_contents(data@, stored@, self.compressed);
        }
        Ok(serialized)
    }

    /// Reads the contents out of a stored form.
    pub fn read_from_bytes(serialized: &[u8]) -> (r: Result<Vec<u8>, BlobError>)
        ensures
            match r {
                Ok(v) => contents(serialized@) == Ok::<Seq<u8>, BlobError>(v@),
                Err(e) => contents(serialized@) == Err::<Seq<u8>, BlobError>(e),
            },
    {
        let header = match BlobHeaderV1::from_bytes(serialized) {
            Ok(h) => h,
            Err(e) => {
                return Err(e);
            },
        };
        if ((serialized.len() - HEADER_LEN) as u64) < header.stored_len {
            return Err(BlobError::DataTooShort { stored_len: header.stored_len, available: serialized.len() });
        }
        let end: usize = HEADER_LEN + header.stored_len as usize;
        let stored = bytes_between(serialized, HEADER_LEN, end);
        assert(stored@ == stored_part(serialized@));
        let decoded: Option<Vec<u8>> = if header.is_compressed() {
            zstd_decode(stored.as_slice())
        } else {
            None
        };
        unpack(&header, stored, decoded)
    }
}

/// The hash is that of the bytes alone or the name that Git gives to a blob with
/// these bytes.
pub open spec fn names_contents(hash: Seq<u8>, data: Seq<u8>) -> bool {
    crate::hash::sha1_of(data) == hash || crate::hash::sha1_of(crate::hash::git::object("blob"@, data)) == hash
}

/// Checks that contents read from the store belong to the hash under which they
/// were asked for.
pub fn verify_contents(expected: Sha1Hash, data: &[u8]) -> (r: Result<(), BlobError>)
    ensures
        r is Ok <==> names_contents(expected@, data@),
        r is Err ==> (r->Err_0 matches BlobError::HashMismatch { expected: e, actual } && e == expected
            && actual@ == crate::hash::sha1_of(data@)),
{
    let actual = hash_bytes(data);
    if actual == expected {
        return Ok(());
    }
    if crate::hash::git::hash_blob(data) == expected {
        return Ok(());
    }
    Err(BlobError::HashMismatch { expected, actual })
}

/// The contents that are found under a hash where the given bytes, if any, are stored
/// under it.
pub open spec fn found_contents(hash: Seq<u8>, stored: Option<Seq<u8>>) -> Option<Seq<u8>> {
    match stored {
        Some(bytes) => match contents(bytes) {
            Ok(data) => if names_contents(hash, data) {
                Some(data)
            } else {
                None
            },
            Err(_) => None,
        },
        None => None,
    }
}

/// Reads a blob out of the bytes that are stored under its hash, if there are any, and
/// checks its contents.
pub fn load_blob(hash: Sha1Hash, stored: Option<&[u8]>) -> (r: Result<Vec<u8>, BlobError>)
    ensures
        match stored {
            None => r == Err::<Vec<u8>, BlobError>(BlobError::NotFound { hash }),
            Some(bytes) => match r {
                Ok(v) => found_contents(hash@, Some(bytes@)) == Some(v@),
                Err(e) => match contents(bytes@) {
                    Ok(data) => {
                        &&& !names_contents(hash@, data)
                        &&& e matches BlobError::HashMismatch { expected, actual } && expected == hash && actual@
                            == crate::hash::sha1_of(data)
                    },
                    Err(error) => e == error,
                },
            },
        },
{
    match stored {
        None => Err(BlobError::NotFound { hash }),
        Some(bytes) => {
            let data = match Blob::read_from_bytes(bytes) {
                Ok(d) => d,
                Err(e) => {
                    return Err(e);
                },
            };
            match verify_contents(hash, data.as_slice()) {
                Ok(()) => Ok(data),
                Err(e) => Err(e),
            }
        },
    }
}

/// What is stored of a blob is found again under either of its hashes.
pub proof fn stored_blob_is_found(hash: Seq<u8>, data: Seq<u8>, stored: Seq<u8>)
    requires
        names_contents(hash, data),
        contents(stored) == Ok::<Seq<u8>, BlobError>(data),
    ensures
        found_contents(hash, Some(stored)) == Some(data),
{
}

/// The header of a blob begins with the letters `SNB1`, and after them stand the flags and
/// the two lengths, eight bytes each.
pub proof fn header_has_its_layout(flags: u8, orig_len: u64, stored_len: u64)
    ensures
        header_bytes(magic(), flags, orig_len, stored_len).take(4) == seq!['S' as u8, 'N' as u8, 'B' as u8, '1' as u8],
        header_bytes(magic(), flags, orig_len, stored_len)[4] == flags,
        crate::wire::le_value(header_bytes(magic(), flags, orig_len, stored_len).subrange(5, 13)) == orig_len,
        crate::wire::le_value(header_bytes(magic(), flags, orig_len, stored_len).subrange(13, 21)) == stored_len,
{
    crate::wire::pow256_values();
    crate::wire::le_round_trip(orig_len as nat, 8);
    crate::wire::le_round_trip(stored_len as nat, 8);
    let h = header_bytes(magic(), flags, orig_len, stored_len);
    assert(h.take(4) =~= seq!['S' as u8, 'N' as u8, 'B' as u8, '1' as u8]);
    assert(h.subrange(5, 13) =~= crate::wire::le_bytes(orig_len as nat, 8));
    assert(h.subrange(13, 21) =~= crate::wire::le_bytes(stored_len as nat, 8));
}

/// Content of at most 4096 bytes is stored as it is; longer content is compressed where
/// that makes it shorter, and is never stored in more bytes than it has.
pub proof fn only_long_content_is_compressed(data: Seq<u8>)
    ensures
        stored_form(data).0.len() <= data.len(),
        data.len() <= 4096 ==> stored_form(data) == (data, false),
        !stored_form(data).1 ==> stored_form(data).0 == data,
        stored_form(data).1 <==> data.len() > 4096 && crate::codec::zstd_encoded(data, 3) is Some
            && crate::codec::zstd_encoded(data, 3)->0.len() < data.len(),
        stored_form(data).1 ==> Some(stored_form(data).0) == crate::codec::zstd_encoded(data, 3),
{
}

/// A blob that is found has the hash under which it was asked for: its own or that of its
/// Git object.
pub proof fn found_blobs_have_their_hash(hash: Seq<u8>, stored: Seq<u8>)
    ensures
        found_contents(hash, None) is None,
        found_contents(hash, Some(stored)) is Some ==> contents(stored) == Ok::<Seq<u8>, BlobError>(
            found_contents(hash, Some(stored))->0,
        ) && (crate::hash::sha1_of(found_contents(hash, Some(stored))->0) == hash || crate::hash::sha1_of(
            crate::hash::git::object("blob"@, found_contents(hash, Some(stored))->0),
        ) == hash),
{
}

/// Bytes without a whole header, with another beginning, or with less data than the header
/// says hold no content.
pub proof fn damaged_blobs_are_refused(s: Seq<u8>)
    ensures
        s.len() < 21 ==> contents(s) is Err,
        s.len() >= 4 && s.take(4) != seq![83u8, 78u8, 66u8, 49u8] ==> contents(s) is Err,
        s.len() >= 21 && s.len() < 21 + crate::wire::le_value(s.subrange(13, 21)) ==> contents(s) is Err,
        contents(s) is Ok && s[4] % 2 == 0 ==> contents(s)->Ok_0.len() == crate::wire::le_value(s.subrange(13, 21)),
        contents(s) is Ok && s[4] % 2 == 1 ==> contents(s)->Ok_0.len() == crate::wire::le_value(s.subrange(5, 13)),
{
}

} // verus!
