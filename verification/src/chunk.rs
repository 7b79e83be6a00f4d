//! Chunk tags and chunk descriptors, shared by both container formats.

use vstd::prelude::*;
use vstd::utf8::{pop_first_scalar, valid_first_scalar, valid_utf8};

verus! {

/// Calls `core::str::from_utf8` and tells whether it accepted the bytes. The
/// standard library documents that it fails exactly on bytes that are not
/// valid UTF-8; the contract says that of the result, with validity as
/// `vstd::utf8::valid_utf8` defines it.
#[verifier::external_body]
pub(crate) fn is_utf8(bytes: &[u8]) -> (ok: bool)
    ensures
        ok == valid_utf8(bytes@),
{
    core::str::from_utf8(bytes).is_ok()
}

/// Bytes below 0x80 are text: each is a character of its own.
pub proof fn lemma_ascii_is_utf8(bytes: Seq<u8>)
    requires
        forall|i: int| 0 <= i < bytes.len() ==> bytes[i] < 0x80,
    ensures
        valid_utf8(bytes),
    decreases bytes.len(),
{
    if bytes.len() > 0 {
        let first = bytes[0];
        assert(first & 0x7f <= 0x7f) by (bit_vector);
        assert(valid_first_scalar(bytes));
        let rest = pop_first_scalar(bytes);
        assert(rest =~= bytes.subrange(1, bytes.len() as int));
        assert forall|i: int| 0 <= i < rest.len() implies rest[i] < 0x80 by {
            assert(rest[i] == bytes[i + 1]);
        }
        lemma_ascii_is_utf8(rest);
    }
}

/// A four-byte chunk tag.
#[derive(Debug, Clone, Copy, PartialEq, Eq, Structural)]
pub struct FourCC {
    pub b0: u8,
    pub b1: u8,
    pub b2: u8,
    pub b3: u8,
}

/// The lower-case form of an ASCII capital letter; any other byte unchanged.
pub open spec fn spec_ascii_lower(b: u8) -> u8 {
    if 0x41 <= b <= 0x5a {
        (b + 0x20) as u8
    } else {
        b
    }
}

/// Lower-cases one ASCII byte.
pub fn ascii_lower(b: u8) -> (r: u8)
    ensures
        r == spec_ascii_lower(b),
{
    if 0x41 <= b && b <= 0x5a {
        b + 0x20
    } else {
        b
    }
}

impl FourCC {
    /// The tag spelled by the four bytes of `data` that start at `at`.
    pub open spec fn spec_at(data: Seq<u8>, at: int) -> FourCC {
        FourCC { b0: data[at], b1: data[at + 1], b2: data[at + 2], b3: data[at + 3] }
    }

    /// The four bytes of the tag, in file order.
    pub open spec fn bytes(self) -> Seq<u8> {
        seq![self.b0, self.b1, self.b2, self.b3]
    }

    /// Whether the four bytes are text, that is valid UTF-8.
    pub open spec fn spec_is_text(self) -> bool {
        valid_utf8(self.bytes())
    }

    /// Whether two tags are equal once ASCII capitals are lower-cased.
    pub open spec fn same_letters(self, other: FourCC) -> bool {
        &&& spec_ascii_lower(self.b0) == spec_ascii_lower(other.b0)
        &&& spec_ascii_lower(self.b1) == spec_ascii_lower(other.b1)
        &&& spec_ascii_lower(self.b2) == spec_ascii_lower(other.b2)
        &&& spec_ascii_lower(self.b3) == spec_ascii_lower(other.b3)
    }

    /// The tag made of four given bytes.
    pub open spec fn spec_new(bytes: [u8; 4]) -> FourCC {
        FourCC { b0: bytes[0], b1: bytes[1], b2: bytes[2], b3: bytes[3] }
    }

    /// Builds a tag from its four bytes.
    #[verifier::when_used_as_spec(spec_new)]
    pub fn new(bytes: [u8; 4]) -> (tag: FourCC)
        ensures
            tag == FourCC::spec_new(bytes),
            tag.bytes() == bytes@,
    {
        let tag = FourCC { b0: bytes[0], b1: bytes[1], b2: bytes[2], b3: bytes[3] };
        assert(tag.bytes() =~= bytes@);
        tag
    }

    /// The four bytes of the tag.
    pub fn to_bytes(&self) -> (bytes: [u8; 4])
        ensures
            bytes@ == self.bytes(),
    {
        let bytes = [self.b0, self.b1, self.b2, self.b3];
        assert(bytes@ =~= self.bytes());
        bytes
    }

    /// Reads the tag stored at `at`.
    pub fn read(data: &[u8], at: usize) -> (tag: FourCC)
        requires
            at + 4 <= data@.len(),
        ensures
            tag == FourCC::spec_at(data@, at as int),
    {
        FourCC { b0: data[at], b1: data[at + 1], b2: data[at + 2], b3: data[at + 3] }
    }

    /// Appends the tag's four bytes to `out`.
    pub fn write(&self, out: &mut Vec<u8>)
        ensures
            final(out)@ == old(out)@ + self.bytes(),
    {
        out.push(self.b0);
        out.push(self.b1);
        out.push(self.b2);
        out.push(self.b3);
        assert(out@ =~= old(out)@ + self.bytes());
    }

    /// Tells whether the four bytes are text, that is valid UTF-8.
    pub fn is_text(&self) -> (text: bool)
        ensures
            text == self.spec_is_text(),
    {
        let bytes = self.to_bytes();
        is_utf8(bytes.as_slice())
    }

    /// A tag of four bytes below 0x80 is text.
    pub proof fn lemma_ascii_is_text(self)
        requires
            self.b0 < 0x80,
            self.b1 < 0x80,
            self.b2 < 0x80,
            self.b3 < 0x80,
        ensures
            self.spec_is_text(),
    {
        lemma_ascii_is_utf8(self.bytes());
    }

    /// Compares two tags without regard to the case of ASCII letters.
    pub fn eq_ignore_ascii_case(&self, other: &FourCC) -> (same: bool)
        ensures
            same == self.same_letters(*other),
    {
        ascii_lower(self.b0) == ascii_lower(other.b0) && ascii_lower(self.b1) == ascii_lower(
            other.b1,
        ) && ascii_lower(self.b2) == ascii_lower(other.b2) && ascii_lower(self.b3) == ascii_lower(
            other.b3,
        )
    }
}

/// What a walk over a file records of one chunk: its tag and the number of
/// payload bytes. The eight header bytes, and the four CRC bytes of a PNG
/// chunk, are never counted in `length`.
#[derive(Debug, Clone, Copy, PartialEq, Eq, Structural)]
pub struct ChunkDescriptor {
    pub name: FourCC,
    pub length: u32,
}

/// Puts one value in front of a successful list; an error stays as it is.
pub open spec fn prepend<T, E>(head: Seq<T>, tail: Result<Seq<T>, E>) -> Result<Seq<T>, E> {
    match tail {
        Ok(rest) => Ok(head + rest),
        Err(e) => Err(e),
    }
}

} // verus!
