//! Property descriptors.

use vstd::prelude::*;
use vstd::utf8::{
    decode_utf8, encode_utf8, encode_utf8_decode_utf8, encode_utf8_valid_utf8, valid_utf8,
};
use crate::error::{DescriptorError, DescriptorResult};
use crate::util::{
    be_bytes, be_u64, check_c_string, frame, is_c_string, lemma_be_u64_of_be_bytes,
    parse_descriptor, read_be_u64, split_at_spec, split_slice, ParsedDescriptor,
    ValidateAndByteswap,
};

verus! {

/// Tag value that marks a property descriptor.
pub const PROPERTY_TAG: u64 = 0;

/// Size in bytes of a property descriptor's header on the wire.
pub const PROPERTY_HEADER_SIZE: usize = 32;

/// Bytes that every property descriptor has after its two common fields,
/// whatever its key and value: two length fields and two NUL terminators.
pub const PROPERTY_FIXED_PAYLOAD: u64 = 18;

/// The two fields that begin every descriptor header.
#[derive(Clone, Copy, Debug, PartialEq, Eq)]
pub struct AvbDescriptor {
    /// Which kind of descriptor this is.
    pub tag: u64,
    /// Number of bytes in the descriptor after these two fields.
    pub num_bytes_following: u64,
}

/// Header of a property descriptor, in host order.
#[derive(Clone, Copy, Debug, PartialEq, Eq)]
pub struct AvbPropertyDescriptor {
    /// The fields common to all descriptors.
    pub parent_descriptor: AvbDescriptor,
    /// Length of the key, its NUL terminator not counted.
    pub key_num_bytes: u64,
    /// Length of the value, its NUL terminator not counted.
    pub value_num_bytes: u64,
}

impl AvbPropertyDescriptor {
    /// The header that the first bytes of `contents` spell: four big-endian
    /// `u64` fields, one after the other.
    pub open spec fn from_wire(contents: Seq<u8>) -> Self
        recommends
            contents.len() >= PROPERTY_HEADER_SIZE,
    {
        AvbPropertyDescriptor {
            parent_descriptor: AvbDescriptor {
                tag: be_u64(contents.subrange(0, 8)),
                num_bytes_following: be_u64(contents.subrange(8, 16)),
            },
            key_num_bytes: be_u64(contents.subrange(16, 24)),
            value_num_bytes: be_u64(contents.subrange(24, 32)),
        }
    }

    /// The fields agree with one another: the tag is the property tag, the
    /// payload size is a multiple of eight, and the key, the value and the
    /// fixed part fit in the payload size.
    pub open spec fn consistent(self) -> bool {
        &&& self.parent_descriptor.tag == PROPERTY_TAG
        &&& self.parent_descriptor.num_bytes_following % 8 == 0
        &&& PROPERTY_FIXED_PAYLOAD + self.key_num_bytes + self.value_num_bytes
            <= self.parent_descriptor.num_bytes_following
    }
}

impl ValidateAndByteswap for AvbPropertyDescriptor {
    open spec fn header_len() -> nat {
        PROPERTY_HEADER_SIZE as nat
    }

    /// A complete header is accepted exactly when its fields are consistent.
    /// Nothing beyond the header is looked at.
    open spec fn validated(contents: Seq<u8>) -> Option<Self> {
        if contents.len() >= PROPERTY_HEADER_SIZE && Self::from_wire(contents).consistent() {
            Some(Self::from_wire(contents))
        } else {
            None
        }
    }

    fn header_size() -> (size: usize) {
        PROPERTY_HEADER_SIZE
    }

    fn validate_and_byteswap(contents: &[u8]) -> (header: Option<Self>) {
        if contents.len() < PROPERTY_HEADER_SIZE {
            return None;
        }
        let tag: u64 = read_be_u64(contents, 0);
        let num_bytes_following: u64 = read_be_u64(contents, 8);
        let key_num_bytes: u64 = read_be_u64(contents, 16);
        let value_num_bytes: u64 = read_be_u64(contents, 24);
        if num_bytes_following % 8 != 0 || tag != PROPERTY_TAG {
            return None;
        }
        if num_bytes_following < PROPERTY_FIXED_PAYLOAD {
            return None;
        }
        let room: u64 = num_bytes_following - PROPERTY_FIXED_PAYLOAD;
        if key_num_bytes > room || value_num_bytes > room - key_num_bytes {
            return None;
        }
        Some(
            AvbPropertyDescriptor {
                parent_descriptor: AvbDescriptor { tag, num_bytes_following },
                key_num_bytes,
                value_num_bytes,
            },
        )
    }
}

/// A key/value property stored in a metadata image.
#[derive(Debug, PartialEq, Eq)]
pub struct PropertyDescriptor<'a> {
    /// Key is always UTF-8.
    pub key: &'a str,
    /// The bytes of `key` followed by their NUL terminator.
    pub key_cstr: &'a [u8],
    /// Value can be arbitrary bytes; the trailing NUL is included.
    pub value_with_nul: &'a [u8],
}

/// What a property descriptor holds, as plain values.
pub ghost struct PropertyView {
    /// The key's characters.
    pub key: Seq<char>,
    /// The key's bytes and the NUL after them.
    pub key_cstr: Seq<u8>,
    /// The value's bytes and the NUL after them.
    pub value_with_nul: Seq<u8>,
}

impl PropertyView {
    /// The fields agree with one another: `key_cstr` is the UTF-8 encoding of
    /// `key` and one NUL, with no NUL before it, and the value ends in NUL.
    pub open spec fn wf(self) -> bool {
        &&& is_c_string(self.key_cstr)
        &&& self.key_cstr.drop_last() == encode_utf8(self.key)
        &&& self.value_with_nul.len() > 0
        &&& self.value_with_nul.last() == 0
    }
}

impl<'a> View for PropertyDescriptor<'a> {
    type V = PropertyView;

    open spec fn view(&self) -> PropertyView {
        PropertyView {
            key: self.key@,
            key_cstr: self.key_cstr@,
            value_with_nul: self.value_with_nul@,
        }
    }
}

/// The property that a validated header and the body after it describe.
///
/// The body is the key and a NUL, then the value and a NUL, then padding.
/// A segment longer than what remains is a size error; a key segment that is
/// no NUL-terminated string, or a value segment that does not end in NUL, is
/// a contents error; a key that is not UTF-8 is a UTF-8 error.
pub open spec fn property_segments(header: AvbPropertyDescriptor, body: Seq<u8>) -> DescriptorResult<
    PropertyView,
> {
    match split_at_spec(body, header.key_num_bytes + 1) {
        Err(e) => Err(e),
        Ok((key_cstr, remainder)) => if !is_c_string(key_cstr) {
            Err(DescriptorError::InvalidContents)
        } else if !valid_utf8(key_cstr.drop_last()) {
            Err(DescriptorError::InvalidUtf8)
        } else {
            match split_at_spec(remainder, header.value_num_bytes + 1) {
                Err(e) => Err(e),
                Ok((value_with_nul, _)) => if value_with_nul.last() != 0 {
                    Err(DescriptorError::InvalidContents)
                } else {
                    Ok(
                        PropertyView {
                            key: decode_utf8(key_cstr.drop_last()),
                            key_cstr,
                            value_with_nul,
                        },
                    )
                },
            }
        },
    }
}

/// The property that `contents` describes, or the error that extracting it
/// reports.
pub open spec fn property_of(contents: Seq<u8>) -> DescriptorResult<PropertyView> {
    match frame::<AvbPropertyDescriptor>(contents) {
        Err(e) => Err(e),
        Ok((header, body)) => property_segments(header, body),
    }
}

/// An extraction result seen as plain values.
pub open spec fn property_result_view(r: DescriptorResult<PropertyDescriptor<'_>>) -> DescriptorResult<
    PropertyView,
> {
    match r {
        Ok(descriptor) => Ok(descriptor@),
        Err(e) => Err(e),
    }
}

impl<'a> PropertyDescriptor<'a> {
    /// Extracts a `PropertyDescriptor` from the given descriptor contents.
    ///
    /// `contents` is the whole descriptor, header included, in raw big-endian
    /// format. Every field of the result borrows from it.
    pub fn new(contents: &'a [u8]) -> (r: DescriptorResult<Self>)
        ensures
            property_result_view(r) == property_of(contents@),
            contents@.len() < PROPERTY_HEADER_SIZE ==> r == Err::<Self, _>(
                DescriptorError::InvalidHeader,
            ),
            r matches Ok(descriptor) ==> descriptor@.wf(),
    {
        // Descriptor contains: header + key + nul + value + nul.
        match parse_descriptor::<AvbPropertyDescriptor>(contents) {
            Ok(parsed) => Self::from_parsed(parsed),
            Err(e) => Err(e),
        }
    }

    /// Divides the body after a header into the key and the value.
    ///
    /// Any header is accepted, also one that no validation has seen: lengths
    /// that the body cannot hold are a size error.
    pub fn from_parsed(parsed: ParsedDescriptor<'a, AvbPropertyDescriptor>) -> (r: DescriptorResult<
        Self,
    >)
        ensures
            property_result_view(r) == property_segments(parsed.header, parsed.body@),
            r matches Ok(descriptor) ==> descriptor@.wf(),
    {
        let header = parsed.header;
        // No slice is longer than `usize::MAX`, so a length past `u64::MAX`
        // cannot fit either.
        let _: usize = parsed.body.len();
        let key_len: u64 = match header.key_num_bytes.checked_add(1) {
            Some(len) => len,
            None => return Err(DescriptorError::InvalidSize),
        };
        let (key_cstr, remainder) = match split_slice(parsed.body, key_len) {
            Ok(parts) => parts,
            Err(e) => return Err(e),
        };
        // Keys that contain a NUL byte are rejected here.
        if !check_c_string(key_cstr) {
            return Err(DescriptorError::InvalidContents);
        }
        let (key_bytes, _) = key_cstr.split_at(key_cstr.len() - 1);
        let key = match core::str::from_utf8(key_bytes) {
            Ok(key) => key,
            Err(_) => return Err(DescriptorError::InvalidUtf8),
        };
        let value_len: u64 = match header.value_num_bytes.checked_add(1) {
            Some(len) => len,
            None => return Err(DescriptorError::InvalidSize),
        };
        let (value_with_nul, _) = match split_slice(remainder, value_len) {
            Ok(parts) => parts,
            Err(e) => return Err(e),
        };
        // The terminator is checked here whatever header validation saw.
        if value_with_nul[value_with_nul.len() - 1] != 0 {
            return Err(DescriptorError::InvalidContents);
        }
        proof {
            encode_utf8_decode_utf8(key@);
        }
        Ok(PropertyDescriptor { key, key_cstr, value_with_nul })
    }
}

/// Number of bytes of `contents` that its header declares in use: the header,
/// the key and the value, each of the two with its terminator. What lies
/// beyond is padding.
pub open spec fn declared_len(contents: Seq<u8>) -> int {
    let header = AvbPropertyDescriptor::from_wire(contents);
    PROPERTY_HEADER_SIZE + (header.key_num_bytes + 1) + (header.value_num_bytes + 1)
}

/// Contents shorter than the header are a header error, whatever they hold.
pub proof fn lemma_short_contents_are_a_header_error(contents: Seq<u8>)
    requires
        contents.len() < PROPERTY_HEADER_SIZE,
    ensures
        property_of(contents) == Err::<PropertyView, _>(DescriptorError::InvalidHeader),
{
}

/// Every extracted field is a range of the contents, in the order key then
/// value, and all of them lie within the declared length, which the contents
/// cover.
pub proof fn lemma_fields_lie_in_contents(contents: Seq<u8>)
    requires
        property_of(contents) is Ok,
    ensures
        declared_len(contents) <= contents.len(),
        ({
            let view = property_of(contents)->Ok_0;
            let key_end = PROPERTY_HEADER_SIZE + view.key_cstr.len();
            &&& view.wf()
            &&& view.key_cstr == contents.subrange(PROPERTY_HEADER_SIZE as int, key_end)
            &&& view.value_with_nul == contents.subrange(key_end, declared_len(contents))
            &&& view.key == decode_utf8(view.key_cstr.drop_last())
        }),
{
    let (header, body) = frame::<AvbPropertyDescriptor>(contents)->Ok_0;
    let key_len = header.key_num_bytes + 1;
    let value_len = header.value_num_bytes + 1;
    let (key_cstr, remainder) = split_at_spec(body, key_len)->Ok_0;
    let (value_with_nul, _) = split_at_spec(remainder, value_len)->Ok_0;
    assert(key_cstr =~= contents.subrange(PROPERTY_HEADER_SIZE as int, PROPERTY_HEADER_SIZE + key_len));
    assert(value_with_nul =~= contents.subrange(
        PROPERTY_HEADER_SIZE + key_len,
        declared_len(contents),
    ));
    vstd::utf8::decode_utf8_encode_utf8(key_cstr.drop_last());
}

/// Cutting valid contents short is told apart by where the cut falls: inside
/// the header it is a header error, between the header and the declared
/// length a size error, and in the padding it changes nothing.
pub proof fn lemma_truncation(contents: Seq<u8>, n: int)
    requires
        property_of(contents) is Ok,
        0 <= n <= contents.len(),
    ensures
        n < PROPERTY_HEADER_SIZE ==> property_of(contents.take(n)) == Err::<PropertyView, _>(
            DescriptorError::InvalidHeader,
        ),
        PROPERTY_HEADER_SIZE <= n < declared_len(contents) ==> property_of(contents.take(n))
            == Err::<PropertyView, _>(DescriptorError::InvalidSize),
        declared_len(contents) <= n ==> property_of(contents.take(n)) == property_of(contents),
{
    let cut = contents.take(n);
    if n >= PROPERTY_HEADER_SIZE {
        assert(cut.subrange(0, 8) =~= contents.subrange(0, 8));
        assert(cut.subrange(8, 16) =~= contents.subrange(8, 16));
        assert(cut.subrange(16, 24) =~= contents.subrange(16, 24));
        assert(cut.subrange(24, 32) =~= contents.subrange(24, 32));
        let (header, body) = frame::<AvbPropertyDescriptor>(contents)->Ok_0;
        let (cut_header, cut_body) = frame::<AvbPropertyDescriptor>(cut)->Ok_0;
        assert(cut_header == header);
        let key_len = header.key_num_bytes + 1;
        let value_len = header.value_num_bytes + 1;
        if cut_body.len() >= key_len {
            assert(cut_body.take(key_len) =~= body.take(key_len));
            let remainder = body.skip(key_len);
            let cut_remainder = cut_body.skip(key_len);
            if cut_remainder.len() >= value_len {
                assert(cut_remainder.take(value_len) =~= remainder.take(value_len));
            }
        }
    }
}

/// The wire bytes of a property descriptor with the given key, value and
/// padding: the header, then the key's UTF-8 encoding and a NUL, the value
/// and a NUL, and the padding.
pub open spec fn property_contents(key: Seq<char>, value: Seq<u8>, padding: Seq<u8>) -> Seq<u8> {
    let key_bytes = encode_utf8(key);
    let body = key_bytes + seq![0u8] + value + seq![0u8] + padding;
    be_bytes(PROPERTY_TAG) + be_bytes((16 + body.len()) as u64) + be_bytes(key_bytes.len() as u64)
        + be_bytes(value.len() as u64) + body
}

/// Four eight-byte fields followed by a body are found again at their
/// offsets.
proof fn lemma_header_fields(f0: Seq<u8>, f1: Seq<u8>, f2: Seq<u8>, f3: Seq<u8>, body: Seq<u8>)
    requires
        f0.len() == 8,
        f1.len() == 8,
        f2.len() == 8,
        f3.len() == 8,
    ensures
        (f0 + f1 + f2 + f3 + body).subrange(0, 8) == f0,
        (f0 + f1 + f2 + f3 + body).subrange(8, 16) == f1,
        (f0 + f1 + f2 + f3 + body).subrange(16, 24) == f2,
        (f0 + f1 + f2 + f3 + body).subrange(24, 32) == f3,
        (f0 + f1 + f2 + f3 + body).skip(32) == body,
        (f0 + f1 + f2 + f3 + body).len() == 32 + body.len(),
{
    let all = f0 + f1 + f2 + f3 + body;
    assert(all.subrange(0, 8) =~= f0);
    assert(all.subrange(8, 16) =~= f1);
    assert(all.subrange(16, 24) =~= f2);
    assert(all.subrange(24, 32) =~= f3);
    assert(all.skip(32) =~= body);
}

/// A body made of a key, a NUL, a value, a NUL and padding yields that key
/// and value under a header that declares their lengths.
proof fn lemma_segments_of_body(
    header: AvbPropertyDescriptor,
    key: Seq<char>,
    value: Seq<u8>,
    padding: Seq<u8>,
)
    requires
        forall|i: int| 0 <= i < encode_utf8(key).len() ==> encode_utf8(key)[i] != 0,
        header.key_num_bytes == encode_utf8(key).len(),
        header.value_num_bytes == value.len(),
    ensures
        property_segments(header, encode_utf8(key) + seq![0u8] + value + seq![0u8] + padding)
            == Ok::<_, DescriptorError>(
            PropertyView {
                key,
                key_cstr: encode_utf8(key) + seq![0u8],
                value_with_nul: value + seq![0u8],
            },
        ),
{
    let key_bytes = encode_utf8(key);
    let body = key_bytes + seq![0u8] + value + seq![0u8] + padding;
    let key_cstr = key_bytes + seq![0u8];
    let key_len = key_bytes.len() as int + 1;
    let value_len = value.len() as int + 1;
    assert(body.take(key_len) =~= key_cstr);
    assert(key_cstr.drop_last() =~= key_bytes);
    assert(is_c_string(key_cstr));
    assert(body.skip(key_len).take(value_len) =~= value + seq![0u8]);
    encode_utf8_valid_utf8(key);
    encode_utf8_decode_utf8(key);
}

/// A descriptor laid out on the wire is extracted again with exactly its key
/// and value, provided the key's encoding holds no NUL and the padding
/// brings the body to a multiple of eight bytes.
pub proof fn lemma_property_contents_round_trip(key: Seq<char>, value: Seq<u8>, padding: Seq<u8>)
    requires
        forall|i: int| 0 <= i < encode_utf8(key).len() ==> encode_utf8(key)[i] != 0,
        (encode_utf8(key).len() + value.len() + 2 + padding.len()) % 8 == 0,
        16 + encode_utf8(key).len() + value.len() + 2 + padding.len() <= u64::MAX,
    ensures
        property_of(property_contents(key, value, padding)) == Ok::<_, DescriptorError>(
            PropertyView {
                key,
                key_cstr: encode_utf8(key) + seq![0u8],
                value_with_nul: value + seq![0u8],
            },
        ),
{
    let key_bytes = encode_utf8(key);
    let body = key_bytes + seq![0u8] + value + seq![0u8] + padding;
    let following = (16 + body.len()) as u64;
    let key_len = key_bytes.len() as u64;
    let value_len = value.len() as u64;
    lemma_be_u64_of_be_bytes(PROPERTY_TAG);
    lemma_be_u64_of_be_bytes(following);
    lemma_be_u64_of_be_bytes(key_len);
    lemma_be_u64_of_be_bytes(value_len);
    lemma_header_fields(
        be_bytes(PROPERTY_TAG),
        be_bytes(following),
        be_bytes(key_len),
        be_bytes(value_len),
        body,
    );
    let header = AvbPropertyDescriptor {
        parent_descriptor: AvbDescriptor { tag: PROPERTY_TAG, num_bytes_following: following },
        key_num_bytes: key_len,
        value_num_bytes: value_len,
    };
    lemma_segments_of_body(header, key, value, padding);
    let contents = property_contents(key, value, padding);
    assert(AvbPropertyDescriptor::validated(contents) == Some(header));
    assert(frame::<AvbPropertyDescriptor>(contents) == Ok::<_, DescriptorError>((header, body)));
}

/// Extraction is a function of the bytes: two results for equal contents
/// hold equal fields or the same error.
pub proof fn lemma_extraction_is_repeatable(
    first: Seq<u8>,
    second: Seq<u8>,
    r1: DescriptorResult<PropertyDescriptor<'_>>,
    r2: DescriptorResult<PropertyDescriptor<'_>>,
)
    requires
        first == second,
        property_result_view(r1) == property_of(first),
        property_result_view(r2) == property_of(second),
    ensures
        property_result_view(r1) == property_result_view(r2),
        r1 is Ok ==> r2 is Ok && r1->Ok_0@ == r2->Ok_0@,
        r1 is Err ==> r2 is Err && r1->Err_0 == r2->Err_0,
{
}

} // verus!
