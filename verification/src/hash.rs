//! SHA-1 object names: hexadecimal form, one-shot and incremental hashing, and
//! the decision whether a file stayed still while it was read.

use sha1::Digest;
use vstd::prelude::*;
use vstd::string::StringSliceAdditionalSpecFns;

pub mod git;

verus! {

/// A SHA-1 hash of 20 bytes, as Git uses it.
#[derive(Copy, Clone, Debug, Eq, Hash, PartialOrd, Ord)]
pub struct Sha1Hash([u8; 20]);

impl View for Sha1Hash {
    type V = Seq<u8>;

    closed spec fn view(&self) -> Seq<u8> {
        self.0@
    }
}

/// The hash with the given 20 bytes.
pub open spec fn hash_with(bytes: Seq<u8>) -> Sha1Hash {
    choose|h: Sha1Hash| h@ == bytes
}

/// A hash is determined by its bytes.
pub proof fn hash_is_its_bytes(h: Sha1Hash)
    ensures
        h@.len() == 20,
        hash_with(h@) == h,
{
    let g = hash_with(h@);
    assert(g@ == h@);
    assert(g.0 =~= h.0);
}

/// Why a text is not the hexadecimal form of a hash.
#[derive(Copy, Clone, Debug, PartialEq, Eq, Structural)]
pub enum HexError {
    /// The text does not have 40 bytes.
    InvalidLength { got: usize },
    /// The text holds a byte that is no hexadecimal digit; this is the first.
    InvalidCharacter { byte: u8 },
}

/// The lower-case hexadecimal digit of `n`, for `n < 16`.
pub open spec fn hex_digit(n: int) -> char {
    if n < 10 {
        (48 + n) as char
    } else {
        (87 + n) as char
    }
}

/// Two lower-case digits for each byte, high half first.
pub open spec fn hex_of(bytes: Seq<u8>) -> Seq<char> {
    Seq::new(
        2 * bytes.len(),
        |i: int|
            if i % 2 == 0 {
                hex_digit(bytes[i / 2] as int / 16)
            } else {
                hex_digit(bytes[i / 2] as int % 16)
            },
    )
}

/// The value of a hexadecimal digit of either case.
pub open spec fn nibble(c: u8) -> Option<u8> {
    if 48 <= c <= 57 {
        Some((c - 48) as u8)
    } else if 97 <= c <= 102 {
        Some((c - 87) as u8)
    } else if 65 <= c <= 70 {
        Some((c - 55) as u8)
    } else {
        None
    }
}

/// The position of the first byte that is no hexadecimal digit, or the length.
pub open spec fn first_non_hex(s: Seq<u8>) -> int
    decreases s.len(),
{
    if s.len() == 0 || nibble(s[0]) is None {
        0
    } else {
        1 + first_non_hex(s.drop_first())
    }
}

/// The bytes that 40 hexadecimal digits denote.
pub open spec fn decode_hex(s: Seq<u8>) -> Result<Seq<u8>, HexError> {
    if s.len() != 40 {
        Err(HexError::InvalidLength { got: s.len() as usize })
    } else if first_non_hex(s) < 40 {
        Err(HexError::InvalidCharacter { byte: s[first_non_hex(s)] })
    } else {
        Ok(Seq::new(20, |i: int| (nibble(s[2 * i])->0 * 16 + nibble(s[2 * i + 1])->0) as u8))
    }
}

proof fn lemma_first_non_hex(s: Seq<u8>, i: int)
    requires
        0 <= i <= s.len(),
        forall|j: int| 0 <= j < i ==> nibble(#[trigger] s[j]) is Some,
        i < s.len() ==> nibble(s[i]) is None,
    ensures
        first_non_hex(s) == i,
    decreases s.len(),
{
    if s.len() > 0 && i > 0 {
        assert(nibble(s[0]) is Some);
        let t = s.drop_first();
        assert forall|j: int| 0 <= j < i - 1 implies nibble(#[trigger] t[j]) is Some by {
            assert(t[j] == s[j + 1]);
        }
        lemma_first_non_hex(t, i - 1);
    }
}

/// The lower-case hexadecimal digit of `n`.
fn hex_char(n: u8) -> (c: char)
    requires
        n < 16,
    ensures
        c == hex_digit(n as int),
{
    if n < 10 {
        (48 + n) as char
    } else {
        (87 + n) as char
    }
}

/// The value of a hexadecimal digit of either case.
pub fn hex_char_to_nibble(c: u8) -> (r: Result<u8, HexError>)
    ensures
        match r {
            Ok(n) => nibble(c) == Some(n) && n < 16,
            Err(e) => nibble(c) is None && e == (HexError::InvalidCharacter { byte: c }),
        },
{
    if 48 <= c && c <= 57 {
        Ok(c - 48)
    } else if 97 <= c && c <= 102 {
        Ok(c - 87)
    } else if 65 <= c && c <= 70 {
        Ok(c - 55)
    } else {
        Err(HexError::InvalidCharacter { byte: c })
    }
}

impl Sha1Hash {
    /// The hash with the given bytes.
    pub fn from_bytes(bytes: [u8; 20]) -> (h: Self)
        ensures
            h@ == bytes@,
            h == hash_with(bytes@),
    {
        let h = Sha1Hash(bytes);
        proof {
            hash_is_its_bytes(h);
        }
        h
    }

    /// The bytes of the hash.
    pub fn as_bytes(&self) -> (b: &[u8; 20])
        ensures
            b@ == self@,
    {
        &self.0
    }

    /// The hash in 40 lower-case hexadecimal digits.
    pub fn to_hex(&self) -> (s: String)
        ensures
            s@ == hex_of(self@),
    {
        let mut hex = String::new();
        let mut i: usize = 0;
        while i < 20
            invariant
                i <= 20,
                self@.len() == 20,
                hex@ == hex_of(self@).take(2 * i),
            decreases 20 - i,
        {
            let byte: u8 = self.0[i];
            hex.push(hex_char(byte / 16));
            hex.push(hex_char(byte % 16));
            proof {
                let full = hex_of(self@);
                assert(full.take(2 * i + 2) =~= full.take(2 * i).push(full[2 * i]).push(full[2 * i + 1]));
            }
            i = i + 1;
        }
        assert(hex_of(self@).take(40) =~= hex_of(self@));
        hex
    }

    /// Parses 40 hexadecimal digits of either case.
    pub fn from_hex(hex: &str) -> (r: Result<Self, HexError>)
        ensures
            match r {
                Ok(h) => decode_hex(hex.spec_bytes()) == (Ok::<Seq<u8>, HexError>(h@)),
                Err(e) => decode_hex(hex.spec_bytes()) == (Err::<Seq<u8>, HexError>(e)),
            },
    {
        let digits = hex.as_bytes();
        if digits.len() != 40 {
            return Err(HexError::InvalidLength { got: digits.len() });
        }
        let mut bytes: [u8; 20] = [0u8;20];
        let mut i: usize = 0;
        while i < 20
            invariant
                i <= 20,
                digits@ == hex.spec_bytes(),
                digits@.len() == 40,
                forall|j: int| 0 <= j < 2 * i ==> nibble(#[trigger] digits@[j]) is Some,
                forall|j: int|
                    0 <= j < i ==> #[trigger] bytes@[j] == (nibble(digits@[2 * j])->0 * 16 + nibble(
                        digits@[2 * j + 1],
                    )->0) as u8,
            decreases 20 - i,
        {
            let high: u8 = match hex_char_to_nibble(digits[2 * i]) {
                Ok(n) => n,
                Err(e) => {
                    proof {
                        lemma_first_non_hex(digits@, 2 * i);
                    }
                    return Err(e);
                },
            };
            let low: u8 = match hex_char_to_nibble(digits[2 * i + 1]) {
                Ok(n) => n,
                Err(e) => {
                    proof {
                        lemma_first_non_hex(digits@, 2 * i + 1);
                    }
                    return Err(e);
                },
            };
            bytes[i] = high * 16 + low;
            i = i + 1;
        }
        proof {
            lemma_first_non_hex(digits@, 40);
            assert(bytes@ =~= decode_hex(digits@)->Ok_0);
        }
        Ok(Sha1Hash(bytes))
    }
}

impl PartialEq for Sha1Hash {
    fn eq(&self, other: &Self) -> (r: bool) {
        let mut i: usize = 0;
        while i < 20
            invariant
                i <= 20,
                self.0@.len() == 20,
                other.0@.len() == 20,
                forall|j: int| 0 <= j < i ==> self.0@[j] == other.0@[j],
            decreases 20 - i,
        {
            if self.0[i] != other.0[i] {
                return false;
            }
            i = i + 1;
        }
        assert(self.0@ =~= other.0@);
        true
    }
}

impl vstd::std_specs::cmp::PartialEqSpecImpl for Sha1Hash {
    open spec fn obeys_eq_spec() -> bool {
        true
    }

    open spec fn eq_spec(&self, other: &Self) -> bool {
        self@ == other@
    }
}

/// Parsing the hexadecimal form of a hash gives the hash back.
pub proof fn hex_round_trip(h: Sha1Hash)
    ensures
        decode_hex(vstd::utf8::encode_utf8(hex_of(h@))) == (Ok::<Seq<u8>, HexError>(h@)),
{
    let bytes = h@;
    assert(bytes.len() == 20);
    let text = hex_of(bytes);
    assert(vstd::utf8::is_ascii_chars(text));
    vstd::utf8::is_ascii_chars_encode_utf8(text);
    let s = vstd::utf8::encode_utf8(text);
    assert forall|j: int| 0 <= j < 40 implies nibble(#[trigger] s[j]) is Some by {
        assert(s[j] == text[j] as u8);
    }
    lemma_first_non_hex(s, 40);
    let back = decode_hex(s)->Ok_0;
    assert forall|i: int| 0 <= i < 20 implies back[i] == bytes[i] by {
        assert(s[2 * i] == text[2 * i] as u8);
        assert(s[2 * i + 1] == text[2 * i + 1] as u8);
        assert((2 * i) / 2 == i && (2 * i + 1) / 2 == i);
    }
    assert(back =~= bytes);
}

/// The state of a SHA-1 computation.
#[verifier::external_body]
pub struct Sha1State {
    inner: sha1::Sha1,
}

/// The bytes that a computation has taken in so far.
pub uninterp spec fn consumed(state: Sha1State) -> Seq<u8>;

/// The SHA-1 digest of a byte string.
pub uninterp spec fn sha1_of(data: Seq<u8>) -> Seq<u8>;

/// `Sha1::new` starts a computation that has taken in nothing.
#[verifier::external_body]
fn sha1_new() -> (state: Sha1State)
    ensures
        consumed(state) == Seq::<u8>::empty(),
{
    Sha1State { inner: sha1::Sha1::new() }
}

/// `Sha1::update` takes in the given bytes after those it has taken in before.
#[verifier::external_body]
fn sha1_update(state: &mut Sha1State, data: &[u8])
    ensures
        consumed(*final(state)) == consumed(*old(state)) + data@,
{
    state.inner.update(data);
}

/// `Sha1::finalize` returns the digest, of 20 bytes, of all the bytes taken in.
/// It depends on those bytes alone, however they were cut into updates.
#[verifier::external_body]
fn sha1_finalize(state: Sha1State) -> (digest: [u8; 20])
    ensures
        digest@ == sha1_of(consumed(state)),
{
    state.inner.finalize().into()
}

/// Hashes a byte string.
pub fn hash_bytes(data: &[u8]) -> (h: Sha1Hash)
    ensures
        h@ == sha1_of(data@),
{
    let mut state = sha1_new();
    sha1_update(&mut state, data);
    assert(Seq::<u8>::empty() + data@ =~= data@);
    Sha1Hash::from_bytes(sha1_finalize(state))
}

/// Hashes a byte string that comes in pieces.
pub struct IncrementalHasher {
    inner: Sha1State,
}

impl View for IncrementalHasher {
    type V = Seq<u8>;

    /// The bytes seen so far.
    closed spec fn view(&self) -> Seq<u8> {
        consumed(self.inner)
    }
}

impl IncrementalHasher {
    /// A hasher that has seen nothing.
    pub fn new() -> (h: Self)
        ensures
            h@ == Seq::<u8>::empty(),
    {
        IncrementalHasher { inner: sha1_new() }
    }

    /// Adds a piece.
    pub fn update(&mut self, data: &[u8])
        ensures
            final(self)@ == old(self)@ + data@,
    {
        sha1_update(&mut self.inner, data);
    }

    /// The hash of all the pieces, in order.
    pub fn finalize(self) -> (h: Sha1Hash)
        ensures
            h@ == sha1_of(self@),
    {
        Sha1Hash::from_bytes(sha1_finalize(self.inner))
    }
}

impl Default for IncrementalHasher {
    fn default() -> (h: Self)
        ensures
            h@ == Seq::<u8>::empty(),
    {
        IncrementalHasher::new()
    }
}

/// The bytes of the pieces, one after the other.
pub open spec fn joined(pieces: Seq<Seq<u8>>) -> Seq<u8>
    decreases pieces.len(),
{
    if pieces.len() == 0 {
        Seq::empty()
    } else {
        joined(pieces.drop_last()) + pieces.last()
    }
}

/// Hashes the pieces of a file in the order in which they were read; the result
/// is the hash of the whole.
pub fn hash_pieces(pieces: &Vec<Vec<u8>>) -> (h: Sha1Hash)
    ensures
        h@ == sha1_of(joined(crate::order::views(pieces@))),
{
    let ghost all = crate::order::views(pieces@);
    let mut hasher = IncrementalHasher::new();
    let mut i: usize = 0;
    while i < pieces.len()
        invariant
            i <= pieces.len(),
            all == crate::order::views(pieces@),
            hasher@ == joined(all.take(i as int)),
        decreases pieces.len() - i,
    {
        hasher.update(pieces[i].as_slice());
        assert(all.take(i + 1).drop_last() =~= all.take(i as int));
        i = i + 1;
    }
    assert(all.take(all.len() as int) =~= all);
    hasher.finalize()
}

/// What a file's metadata says at one moment.
#[derive(Copy, Clone, Debug, PartialEq, Eq, Structural)]
pub struct FileStat {
    /// Length in bytes.
    pub len: u64,
    /// Whole seconds of the modification time.
    pub modified_secs: i64,
    /// Nanoseconds within that second.
    pub modified_nanos: u32,
}

/// What to do after one attempt to read a file that may be changing.
#[derive(Copy, Clone, Debug, PartialEq, Eq, Structural)]
pub enum StableStep {
    /// The file did not change: the hash of this attempt is valid.
    Accept,
    /// The file changed: wait this long and read it again.
    Retry { backoff_ms: u64 },
    /// The file changed in the last attempt.
    GiveUp,
}

/// Decides after attempt number `attempt` (counted from 0) of at most
/// `max_retries`, from the metadata before and after the read. The waiting time
/// doubles with each attempt.
pub fn stable_step(attempt: u8, max_retries: u8, before: FileStat, after: FileStat) -> (step: StableStep)
    requires
        attempt < max_retries,
        attempt < 64,
    ensures
        step == next_reading(attempt, max_retries, before, after),
{
    if before.len == after.len && before.modified_secs == after.modified_secs && before.modified_nanos
        == after.modified_nanos {
        StableStep::Accept
    } else if attempt < max_retries - 1 {
        StableStep::Retry { backoff_ms: 50u64 << attempt }
    } else {
        StableStep::GiveUp
    }
}

/// What comes after a reading of a file that may have changed meanwhile.
pub open spec fn next_reading(attempt: u8, max_retries: u8, before: FileStat, after: FileStat) -> StableStep {
    if before == after {
        StableStep::Accept
    } else if attempt + 1 < max_retries {
        StableStep::Retry { backoff_ms: 50u64 << attempt }
    } else {
        StableStep::GiveUp
    }
}

/// A reading is accepted exactly where neither length nor time of the file changed; else
/// it is repeated, as often as allowed.
pub proof fn unchanged_files_are_accepted(attempt: u8, max_retries: u8, before: FileStat, after: FileStat)
    ensures
        next_reading(attempt, max_retries, before, after) is Accept <==> before.len == after.len
            && before.modified_secs == after.modified_secs && before.modified_nanos == after.modified_nanos,
        next_reading(attempt, max_retries, before, after) is Retry <==> before != after && attempt + 1 < max_retries,
        next_reading(attempt, max_retries, before, after) is GiveUp <==> before != after && attempt + 1 >= max_retries,
        next_reading(0, max_retries, before, after) is Retry ==> next_reading(
            0,
            max_retries,
            before,
            after,
        )->backoff_ms == 50,
{
    assert(50u64 << 0u8 == 50) by (bit_vector);
}

/// Each byte has two hexadecimal digits, the first for its sixteens, in either case of the
/// letters.
pub proof fn hexadecimal_digits_have_values(bytes: Seq<u8>, i: int)
    requires
        0 <= i < bytes.len(),
    ensures
        hex_of(bytes).len() == 2 * bytes.len(),
        nibble(hex_of(bytes)[2 * i] as u8) == Some((bytes[i] / 16) as u8),
        nibble(hex_of(bytes)[2 * i + 1] as u8) == Some((bytes[i] % 16) as u8),
        forall|c: u8| 97 <= c <= 102 ==> #[trigger] nibble(c) == nibble((c - 32) as u8),
        forall|c: u8| #[trigger] nibble(c) is Some ==> 48 <= c <= 57 || 65 <= c <= 70 || 97 <= c <= 102,
{
    let b = bytes[i] as int;
    assert((2 * i) / 2 == i && (2 * i) % 2 == 0);
    assert((2 * i + 1) / 2 == i && (2 * i + 1) % 2 == 1);
    assert(hex_of(bytes)[2 * i] == hex_digit(b / 16));
    assert(hex_of(bytes)[2 * i + 1] == hex_digit(b % 16));
}

} // verus!
