//! Bounds-checked slicing and the framing common to every descriptor.

use vstd::prelude::*;
use vstd::utf8::{encode_utf8, valid_utf8};
use crate::error::{DescriptorError, DescriptorResult};

verus! {

/// The error of `core::str::from_utf8`, carried through unread.
#[verifier::external_type_specification]
#[verifier::external_body]
pub struct ExUtf8Error(core::str::Utf8Error);

/// `core::str::from_utf8` succeeds exactly on well-formed UTF-8, and the
/// string it then returns is the text that the given bytes encode.
pub assume_specification<'a>[ core::str::from_utf8 ](v: &'a [u8]) -> (r: Result<
    &'a str,
    core::str::Utf8Error,
>)
    ensures
        r.is_ok() == valid_utf8(v@),
        r matches Ok(s) ==> encode_utf8(s@) == v@,
;

/// The number that eight bytes spell in big-endian order.
#[verifier::opaque]
pub open spec fn be_u64(bytes: Seq<u8>) -> u64
    recommends
        bytes.len() == 8,
{
    (bytes[0] as int * 0x0100_0000_0000_0000 + bytes[1] as int * 0x0001_0000_0000_0000
        + bytes[2] as int * 0x0000_0100_0000_0000 + bytes[3] as int * 0x0000_0001_0000_0000
        + bytes[4] as int * 0x0000_0000_0100_0000 + bytes[5] as int * 0x0000_0000_0001_0000
        + bytes[6] as int * 0x0000_0000_0000_0100 + bytes[7] as int) as u64
}

/// The eight bytes that spell `value` in big-endian order.
#[verifier::opaque]
pub open spec fn be_bytes(value: u64) -> Seq<u8> {
    seq![
        (value / 0x0100_0000_0000_0000) as u8,
        (value / 0x0001_0000_0000_0000 % 0x100) as u8,
        (value / 0x0000_0100_0000_0000 % 0x100) as u8,
        (value / 0x0000_0001_0000_0000 % 0x100) as u8,
        (value / 0x0000_0000_0100_0000 % 0x100) as u8,
        (value / 0x0000_0000_0001_0000 % 0x100) as u8,
        (value / 0x0000_0000_0000_0100 % 0x100) as u8,
        (value % 0x100) as u8,
    ]
}

/// Reading back the big-endian bytes of a number gives the number.
pub proof fn lemma_be_u64_of_be_bytes(value: u64)
    ensures
        be_bytes(value).len() == 8,
        be_u64(be_bytes(value)) == value,
{
    reveal(be_bytes);
    reveal(be_u64);
    let q1 = value as int / 0x100;
    let q2 = q1 / 0x100;
    let q3 = q2 / 0x100;
    let q4 = q3 / 0x100;
    let q5 = q4 / 0x100;
    let q6 = q5 / 0x100;
    let q7 = q6 / 0x100;
    assert(value as int / 0x0000_0000_0001_0000 == q2);
    assert(value as int / 0x0000_0000_0100_0000 == q3);
    assert(value as int / 0x0000_0001_0000_0000 == q4);
    assert(value as int / 0x0000_0100_0000_0000 == q5);
    assert(value as int / 0x0001_0000_0000_0000 == q6);
    assert(value as int / 0x0100_0000_0000_0000 == q7);
    assert(q7 < 0x100);
    let bytes = be_bytes(value);
    assert(bytes[0] == q7);
    assert(bytes[1] == q6 % 0x100);
    assert(bytes[2] == q5 % 0x100);
    assert(bytes[3] == q4 % 0x100);
    assert(bytes[4] == q3 % 0x100);
    assert(bytes[5] == q2 % 0x100);
    assert(bytes[6] == q1 % 0x100);
    assert(bytes[7] == value as int % 0x100);
}

/// Reads the big-endian `u64` stored at `offset`.
pub(crate) fn read_be_u64(bytes: &[u8], offset: usize) -> (value: u64)
    requires
        offset + 8 <= bytes@.len(),
    ensures
        value == be_u64(bytes@.subrange(offset as int, offset + 8)),
{
    proof {
        reveal(be_u64);
    }
    let b0: u64 = bytes[offset] as u64;
    let b1: u64 = bytes[offset + 1] as u64;
    let b2: u64 = bytes[offset + 2] as u64;
    let b3: u64 = bytes[offset + 3] as u64;
    let b4: u64 = bytes[offset + 4] as u64;
    let b5: u64 = bytes[offset + 5] as u64;
    let b6: u64 = bytes[offset + 6] as u64;
    let b7: u64 = bytes[offset + 7] as u64;
    b0 * 0x0100_0000_0000_0000 + b1 * 0x0001_0000_0000_0000 + b2 * 0x0000_0100_0000_0000 + b3
        * 0x0000_0001_0000_0000 + b4 * 0x0000_0000_0100_0000 + b5 * 0x0000_0000_0001_0000 + b6
        * 0x0000_0000_0000_0100 + b7
}

/// What [`split_slice`] yields for a buffer and a requested length: the first
/// `size` bytes and the rest, or a size error when fewer are available.
pub open spec fn split_at_spec(bytes: Seq<u8>, size: int) -> DescriptorResult<(Seq<u8>, Seq<u8>)> {
    if 0 <= size <= bytes.len() {
        Ok((bytes.take(size), bytes.skip(size)))
    } else {
        Err(DescriptorError::InvalidSize)
    }
}

/// The two borrowed halves of a split, seen as byte sequences.
pub open spec fn split_view(r: DescriptorResult<(&[u8], &[u8])>) -> DescriptorResult<
    (Seq<u8>, Seq<u8>),
> {
    match r {
        Ok((head, tail)) => Ok((head@, tail@)),
        Err(e) => Err(e),
    }
}

/// Splits `slice` into its first `size` bytes and the remainder.
///
/// Any `size` is accepted; one larger than the slice, including one that no
/// `usize` can hold, is a size error.
pub fn split_slice<'a>(slice: &'a [u8], size: u64) -> (r: DescriptorResult<(&'a [u8], &'a [u8])>)
    ensures
        split_view(r) == split_at_spec(slice@, size as int),
{
    if size > slice.len() as u64 {
        Err(DescriptorError::InvalidSize)
    } else {
        let (head, tail) = slice.split_at(size as usize);
        Ok((head, tail))
    }
}

/// True of a NUL-terminated string: the last byte is NUL and no other is.
pub open spec fn is_c_string(bytes: Seq<u8>) -> bool {
    &&& bytes.len() > 0
    &&& bytes.last() == 0
    &&& forall|i: int| 0 <= i < bytes.len() - 1 ==> bytes[i] != 0
}

/// Tells whether `bytes` is a NUL-terminated string with no interior NUL.
pub fn check_c_string(bytes: &[u8]) -> (ok: bool)
    ensures
        ok == is_c_string(bytes@),
{
    let len: usize = bytes.len();
    if len == 0 {
        return false;
    }
    let mut i: usize = 0;
    while i < len - 1
        invariant
            len == bytes@.len(),
            0 <= i <= len - 1,
            forall|j: int| 0 <= j < i ==> bytes@[j] != 0,
        decreases len - i,
    {
        if bytes[i] == 0 {
            return false;
        }
        i += 1;
    }
    bytes[len - 1] == 0
}

/// Binds a header type to the one routine that validates it.
///
/// A header may be interpreted only after its own routine has accepted the
/// wire bytes and converted the fields to host order. Because the routine is
/// an associated function of the header type, no header can be paired with
/// another type's routine.
pub trait ValidateAndByteswap: Sized {
    /// Number of bytes the fixed header occupies on the wire.
    spec fn header_len() -> nat;

    /// The host-order header that validation yields for `contents`, or `None`
    /// where the header is incomplete or its fields are inconsistent.
    spec fn validated(contents: Seq<u8>) -> Option<Self>;

    /// Number of bytes the fixed header occupies on the wire.
    fn header_size() -> (size: usize)
        ensures
            size == Self::header_len(),
    ;

    /// Checks the wire header at the start of `contents` and converts it to
    /// host order.
    fn validate_and_byteswap(contents: &[u8]) -> (header: Option<Self>)
        ensures
            header == Self::validated(contents@),
    ;
}

/// A validated header together with the bytes that follow it.
pub struct ParsedDescriptor<'a, T> {
    /// The header, in host order.
    pub header: T,
    /// Everything after the header.
    pub body: &'a [u8],
}

impl<'a, T> ParsedDescriptor<'a, T> {
    /// The header and the body's bytes.
    pub open spec fn view(&self) -> (T, Seq<u8>) {
        (self.header, self.body@)
    }
}

/// What framing yields for `contents`: too few bytes for the header is a
/// header error, a header that validation rejects is a contents error, and
/// otherwise the validated header comes with all bytes after it.
pub open spec fn frame<T: ValidateAndByteswap>(contents: Seq<u8>) -> DescriptorResult<
    (T, Seq<u8>),
> {
    if contents.len() < T::header_len() {
        Err(DescriptorError::InvalidHeader)
    } else {
        match T::validated(contents) {
            None => Err(DescriptorError::InvalidContents),
            Some(header) => Ok((header, contents.skip(T::header_len() as int))),
        }
    }
}

/// A framing result seen as plain values.
pub open spec fn parsed_view<T>(r: DescriptorResult<ParsedDescriptor<'_, T>>) -> DescriptorResult<
    (T, Seq<u8>),
> {
    match r {
        Ok(parsed) => Ok(parsed@),
        Err(e) => Err(e),
    }
}

/// Splits `contents` into a validated header of type `T` and its body.
pub fn parse_descriptor<'a, T: ValidateAndByteswap>(contents: &'a [u8]) -> (r: DescriptorResult<
    ParsedDescriptor<'a, T>,
>)
    ensures
        parsed_view(r) == frame::<T>(contents@),
        contents@.len() < T::header_len() ==> r matches Err(DescriptorError::InvalidHeader),
        r matches Ok(parsed) ==> T::validated(contents@) == Some(parsed.header),
{
    match split_slice(contents, T::header_size() as u64) {
        Err(_) => Err(DescriptorError::InvalidHeader),
        Ok((_, body)) => match T::validate_and_byteswap(contents) {
            None => Err(DescriptorError::InvalidContents),
            Some(header) => Ok(ParsedDescriptor { header, body }),
        },
    }
}

} // verus!
