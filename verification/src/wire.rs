//! Protocol-buffer wire primitives: base-128 varints, field keys and
//! length-delimited payloads, as byte-level specifications and the executable
//! readers that meet them.

use vstd::prelude::*;
use vstd::slice::slice_subrange;
use vstd::utf8::{decode_utf8, valid_utf8};

verus! {

/// The error of every reader in this crate: the bytes are not a well-formed
/// encoding of what was asked for.
#[derive(Clone, Copy, Debug, PartialEq, Eq, Structural)]
pub struct WireError {}

/// The error of prost's decoders. Nothing is read from it: the readers here
/// turn it into a `WireError`.
#[verifier::external_type_specification]
#[verifier::external_body]
pub struct ExProstDecodeError(prost::DecodeError);

/// The error of `core::str::from_utf8`. Nothing is read from it either.
#[verifier::external_type_specification]
#[verifier::external_body]
pub struct ExUtf8Error(core::str::Utf8Error);

/// How the payload that follows a field key is laid out.
#[derive(Clone, Copy, Debug, PartialEq, Eq, Structural)]
pub enum WireType {
    Varint,
    SixtyFourBit,
    LengthDelimited,
    StartGroup,
    EndGroup,
    ThirtyTwoBit,
}

impl WireType {
    /// The three-bit number that stands for this wire type in a key.
    pub open spec fn number(self) -> nat {
        match self {
            WireType::Varint => 0,
            WireType::SixtyFourBit => 1,
            WireType::LengthDelimited => 2,
            WireType::StartGroup => 3,
            WireType::EndGroup => 4,
            WireType::ThirtyTwoBit => 5,
        }
    }

    /// The wire type that `number` stands for, if any.
    pub open spec fn of_number(number: nat) -> Option<WireType> {
        if number == 0 {
            Some(WireType::Varint)
        } else if number == 1 {
            Some(WireType::SixtyFourBit)
        } else if number == 2 {
            Some(WireType::LengthDelimited)
        } else if number == 3 {
            Some(WireType::StartGroup)
        } else if number == 4 {
            Some(WireType::EndGroup)
        } else if number == 5 {
            Some(WireType::ThirtyTwoBit)
        } else {
            None
        }
    }

    /// The number that stands for this wire type in a key.
    pub fn code(self) -> (r: u8)
        ensures
            r == self.number(),
    {
        match self {
            WireType::Varint => 0,
            WireType::SixtyFourBit => 1,
            WireType::LengthDelimited => 2,
            WireType::StartGroup => 3,
            WireType::EndGroup => 4,
            WireType::ThirtyTwoBit => 5,
        }
    }

    /// The wire type that `code` stands for, if any.
    pub fn from_code(code: u64) -> (r: Option<WireType>)
        ensures
            r == WireType::of_number(code as nat),
    {
        if code == 0 {
            Some(WireType::Varint)
        } else if code == 1 {
            Some(WireType::SixtyFourBit)
        } else if code == 2 {
            Some(WireType::LengthDelimited)
        } else if code == 3 {
            Some(WireType::StartGroup)
        } else if code == 4 {
            Some(WireType::EndGroup)
        } else if code == 5 {
            Some(WireType::ThirtyTwoBit)
        } else {
            None
        }
    }
}

/// Smallest field number a key may carry.
pub const MIN_TAG: u32 = 1;

/// Largest field number a key may carry.
pub const MAX_TAG: u32 = 0x1fff_ffff;

/// Upper bound on the number of bytes of one varint.
pub const MAX_VARINT_LEN: usize = 10;

/// The varint at the head of `data`, reading at most `limit` bytes: its value
/// and the number of bytes it occupies.
///
/// Each byte carries seven bits, least significant group first, and every byte
/// but the last has its top bit set. The byte that exhausts the limit may only
/// be 0 or 1, so that ten bytes never exceed 64 bits.
pub open spec fn varint_within(data: Seq<u8>, limit: nat) -> Option<(nat, nat)>
    decreases limit,
{
    if limit == 0 || data.len() == 0 {
        None
    } else if data[0] < 0x80 {
        if limit == 1 && data[0] >= 2 {
            None
        } else {
            Some((data[0] as nat, 1nat))
        }
    } else {
        match varint_within(data.skip(1), (limit - 1) as nat) {
            Some((high, len)) => Some((((data[0] - 0x80) + 0x80 * high) as nat, len + 1)),
            None => None,
        }
    }
}

/// The varint at the head of `data`: its value and its length in bytes.
pub open spec fn varint_at(data: Seq<u8>) -> Option<(nat, nat)> {
    varint_within(data, MAX_VARINT_LEN as nat)
}

/// The bytes of `value` as a varint: seven bits to a byte, least significant
/// group first, the top bit set on every byte but the last.
pub open spec fn varint_bytes(value: nat) -> Seq<u8>
    decreases value,
{
    if value < 0x80 {
        seq![value as u8]
    } else {
        seq![(value % 0x80 + 0x80) as u8] + varint_bytes(value / 0x80)
    }
}

/// `prost::encoding::decode_varint` on a byte slice. It succeeds exactly where
/// `varint_at` is defined, returns that value, and hands back the bytes that
/// follow the varint.
#[verifier::external_body]
pub(crate) fn decode_varint<'a>(data: &'a [u8]) -> (r: Result<(u64, &'a [u8]), prost::DecodeError>)
    ensures
        match r {
            Ok((value, rest)) => match varint_at(data@) {
                Some((v, len)) => value == v && rest@ == data@.skip(len as int),
                None => false,
            },
            Err(_) => varint_at(data@) is None,
        },
{
    let mut buf = data;
    let value = prost::encoding::decode_varint(&mut buf)?;
    Ok((value, buf))
}

/// `prost::encoding::encode_varint` on a byte vector: it appends the varint
/// of `value` to `buf`.
#[verifier::external_body]
pub(crate) fn encode_varint(value: u64, buf: &mut Vec<u8>)
    ensures
        final(buf)@ == old(buf)@ + varint_bytes(value as nat),
{
    prost::encoding::encode_varint(value, buf)
}

/// The number of bytes that `prost::encoding::skip_field` passes over for a
/// field of wire type number `wire` and field number `tag` whose payload
/// starts `data`, or `None` where it reports an error.
pub uninterp spec fn skipped_len(wire: nat, tag: u32, data: Seq<u8>) -> Option<nat>;

/// `prost::encoding::skip_field` on a byte slice, each time with a fresh decode
/// context, so that a skipped field may nest groups as deep as prost allows
/// wherever the field stands. The outcome is not spelled out here but named by
/// `skipped_len`: on success the bytes handed back are `data` without its
/// first `skipped_len` bytes, and an error comes exactly where there is no
/// such length.
#[verifier::external_body]
pub(crate) fn skip_field<'a>(wire: WireType, tag: u32, data: &'a [u8]) -> (r: Result<
    &'a [u8],
    prost::DecodeError,
>)
    ensures
        match r {
            Ok(rest) => match skipped_len(wire.number(), tag, data@) {
                Some(len) => len <= data@.len() && rest@ == data@.skip(len as int),
                None => false,
            },
            Err(_) => skipped_len(wire.number(), tag, data@) is None,
        },
{
    let mut buf = data;
    let outside = match wire {
        WireType::Varint => prost::encoding::WireType::Varint,
        WireType::SixtyFourBit => prost::encoding::WireType::SixtyFourBit,
        WireType::LengthDelimited => prost::encoding::WireType::LengthDelimited,
        WireType::StartGroup => prost::encoding::WireType::StartGroup,
        WireType::EndGroup => prost::encoding::WireType::EndGroup,
        WireType::ThirtyTwoBit => prost::encoding::WireType::ThirtyTwoBit,
    };
    prost::encoding::skip_field(outside, tag, &mut buf, prost::encoding::DecodeContext::default())?;
    Ok(buf)
}

/// `core::str::from_utf8`: the bytes are accepted exactly when they are valid
/// UTF-8, and the text returned is what they decode to.
#[verifier::external_body]
pub(crate) fn str_from_utf8<'a>(bytes: &'a [u8]) -> (r: Result<&'a str, core::str::Utf8Error>)
    ensures
        match r {
            Ok(text) => valid_utf8(bytes@) && text@ == decode_utf8(bytes@),
            Err(_) => !valid_utf8(bytes@),
        },
{
    core::str::from_utf8(bytes)
}

/// Reads the varint at the head of `data` and returns it with the bytes that
/// follow it.
pub fn read_varint<'a>(data: &'a [u8]) -> (r: Result<(u64, &'a [u8]), WireError>)
    ensures
        match r {
            Ok((value, rest)) => match varint_at(data@) {
                Some((v, len)) => value == v && rest@ == data@.skip(len as int),
                None => false,
            },
            Err(_) => varint_at(data@) is None,
        },
{
    match decode_varint(data) {
        Ok(found) => Ok(found),
        Err(_) => Err(WireError {  }),
    }
}

/// The field key at the head of `data`: the field number, the wire type of the
/// payload, and the bytes after the key.
///
/// A key is a varint that fits 32 bits; its low three bits name the wire type
/// and the rest is the field number, which is never zero.
pub open spec fn key_at(data: Seq<u8>) -> Option<(u32, WireType, Seq<u8>)> {
    match varint_at(data) {
        Some((key, len)) => match WireType::of_number(key % 8) {
            Some(wire) => if key <= u32::MAX && key / 8 >= MIN_TAG {
                Some(((key / 8) as u32, wire, data.skip(len as int)))
            } else {
                None
            },
            None => None,
        },
        None => None,
    }
}

/// Reads the field key at the head of `data`.
pub fn decode_key<'a>(data: &'a [u8]) -> (r: Result<(u32, WireType, &'a [u8]), WireError>)
    ensures
        match r {
            Ok((tag, wire, rest)) => key_at(data@) == Some((tag, wire, rest@)),
            Err(_) => key_at(data@) is None,
        },
{
    let (key, rest) = read_varint(data)?;
    if key > 0xffff_ffff {
        return Err(WireError {  });
    }
    let wire = match WireType::from_code(key % 8) {
        Some(wire) => wire,
        None => { return Err(WireError {  }); },
    };
    let tag: u32 = (key / 8) as u32;
    if tag < MIN_TAG {
        return Err(WireError {  });
    }
    Ok((tag, wire, rest))
}

/// The bytes of the key of field `tag` with wire type `wire`.
pub open spec fn key_bytes(tag: u32, wire: WireType) -> Seq<u8> {
    varint_bytes(tag as nat * 8 + wire.number())
}

/// Appends the key of field `tag` with wire type `wire` to `buf`.
pub fn encode_key(tag: u32, wire: WireType, buf: &mut Vec<u8>)
    requires
        MIN_TAG <= tag <= MAX_TAG,
    ensures
        final(buf)@ == old(buf)@ + key_bytes(tag, wire),
{
    let key: u64 = tag as u64 * 8 + wire.code() as u64;
    encode_varint(key, buf);
}

/// The payload of a varint field of wire type `wire` at the head of `data`,
/// and the bytes after it.
pub open spec fn varint_field(wire: WireType, data: Seq<u8>) -> Option<(nat, Seq<u8>)> {
    if wire == WireType::Varint {
        match varint_at(data) {
            Some((value, len)) => Some((value, data.skip(len as int))),
            None => None,
        }
    } else {
        None
    }
}

/// The payload of a length-delimited field of wire type `wire` at the head of
/// `data`, and the bytes after it. The payload is prefixed by its length as a
/// varint and must lie wholly within `data`.
pub open spec fn delimited_field(wire: WireType, data: Seq<u8>) -> Option<(Seq<u8>, Seq<u8>)> {
    if wire == WireType::LengthDelimited {
        match varint_at(data) {
            Some((size, len)) => if len + size <= data.len() {
                Some((data.subrange(len as int, (len + size) as int), data.skip((len + size) as int)))
            } else {
                None
            },
            None => None,
        }
    } else {
        None
    }
}

/// The text of a string field: a length-delimited payload that is valid UTF-8.
pub open spec fn string_field(wire: WireType, data: Seq<u8>) -> Option<(Seq<char>, Seq<u8>)> {
    match delimited_field(wire, data) {
        Some((payload, rest)) => if valid_utf8(payload) {
            Some((decode_utf8(payload), rest))
        } else {
            None
        },
        None => None,
    }
}

/// The bytes that follow a field the reader has no use for. How far such a
/// field reaches is decided by `skipped_len`.
pub open spec fn unknown_field(wire: WireType, tag: u32, data: Seq<u8>) -> Option<Seq<u8>> {
    match skipped_len(wire.number(), tag, data) {
        Some(len) => if len <= data.len() {
            Some(data.skip(len as int))
        } else {
            None
        },
        None => None,
    }
}

/// A 64-bit value cut down to its low 32 bits.
pub open spec fn low_32(value: nat) -> u32 {
    (value % 0x1_0000_0000) as u32
}

/// A 64-bit value cut down to its low 32 bits, read as two's complement.
pub open spec fn low_32_signed(value: nat) -> i32 {
    if value % 0x1_0000_0000 < 0x8000_0000 {
        (value % 0x1_0000_0000) as i32
    } else {
        (value % 0x1_0000_0000 - 0x1_0000_0000) as i32
    }
}

/// A 32-bit signed value widened to 64 bits with its sign kept, as a signed
/// field is put on the wire.
pub open spec fn sign_extended(value: i32) -> nat {
    if value >= 0 {
        value as nat
    } else {
        (0x1_0000_0000_0000_0000 + value) as nat
    }
}

/// The bytes of a 32-bit signed field `tag` holding `value`: the key, then the
/// sign-extended value as a varint.
pub open spec fn int32_field_bytes(tag: u32, value: i32) -> Seq<u8> {
    key_bytes(tag, WireType::Varint) + varint_bytes(sign_extended(value))
}

/// Reads the payload of a 64-bit unsigned field.
pub fn read_uint64<'a>(wire: WireType, data: &'a [u8]) -> (r: Result<(u64, &'a [u8]), WireError>)
    ensures
        match r {
            Ok((value, rest)) => varint_field(wire, data@) == Some((value as nat, rest@)),
            Err(_) => varint_field(wire, data@) is None,
        },
{
    if wire != WireType::Varint {
        return Err(WireError {  });
    }
    read_varint(data)
}

/// Reads the payload of a 32-bit unsigned field. A wider varint is cut down to
/// its low 32 bits.
pub fn read_uint32<'a>(wire: WireType, data: &'a [u8]) -> (r: Result<(u32, &'a [u8]), WireError>)
    ensures
        match r {
            Ok((value, rest)) => match varint_field(wire, data@) {
                Some((v, tail)) => value == low_32(v) && rest@ == tail,
                None => false,
            },
            Err(_) => varint_field(wire, data@) is None,
        },
{
    let (value, rest) = read_uint64(wire, data)?;
    Ok(((value % 0x1_0000_0000) as u32, rest))
}

/// Reads the payload of a 32-bit signed field. A wider varint is cut down to
/// its low 32 bits, which are read as two's complement.
pub fn read_int32<'a>(wire: WireType, data: &'a [u8]) -> (r: Result<(i32, &'a [u8]), WireError>)
    ensures
        match r {
            Ok((value, rest)) => match varint_field(wire, data@) {
                Some((v, tail)) => value == low_32_signed(v) && rest@ == tail,
                None => false,
            },
            Err(_) => varint_field(wire, data@) is None,
        },
{
    let (value, rest) = read_uint64(wire, data)?;
    let low: u64 = value % 0x1_0000_0000;
    if low < 0x8000_0000 {
        Ok((low as i32, rest))
    } else {
        let below: u64 = 0x1_0000_0000 - low;
        Ok(((-(below as i64)) as i32, rest))
    }
}

/// Reads a length-delimited payload and returns it with the bytes after it.
pub fn read_delimited<'a>(wire: WireType, data: &'a [u8]) -> (r: Result<
    (&'a [u8], &'a [u8]),
    WireError,
>)
    ensures
        match r {
            Ok((payload, rest)) => delimited_field(wire, data@) == Some((payload@, rest@)),
            Err(_) => delimited_field(wire, data@) is None,
        },
{
    if wire != WireType::LengthDelimited {
        return Err(WireError {  });
    }
    let (size, rest) = read_varint(data)?;
    proof {
        lemma_varint_bounds(data@);
    }
    if size > rest.len() as u64 {
        return Err(WireError {  });
    }
    let size: usize = size as usize;
    let ghost len = varint_at(data@).unwrap().1;
    let payload = slice_subrange(rest, 0, size);
    let tail = slice_subrange(rest, size, rest.len());
    assert(payload@ =~= data@.subrange(len as int, len + size));
    assert(tail@ =~= data@.skip(len + size));
    Ok((payload, tail))
}

/// Reads the payload of a string field.
pub fn read_string<'a>(wire: WireType, data: &'a [u8]) -> (r: Result<(String, &'a [u8]), WireError>)
    ensures
        match r {
            Ok((text, rest)) => string_field(wire, data@) == Some((text@, rest@)),
            Err(_) => string_field(wire, data@) is None,
        },
{
    let (payload, rest) = read_delimited(wire, data)?;
    match str_from_utf8(payload) {
        Ok(text) => Ok((text.to_owned(), rest)),
        Err(_) => Err(WireError {  }),
    }
}

/// Passes over the payload of a field the reader has no use for.
pub fn skip_unknown<'a>(wire: WireType, tag: u32, data: &'a [u8]) -> (r: Result<
    &'a [u8],
    WireError,
>)
    ensures
        match r {
            Ok(rest) => unknown_field(wire, tag, data@) == Some(rest@),
            Err(_) => unknown_field(wire, tag, data@) is None,
        },
{
    match skip_field(wire, tag, data) {
        Ok(rest) => Ok(rest),
        Err(_) => Err(WireError {  }),
    }
}

/// Appends the 32-bit signed field `tag` holding `value` to `buf`.
pub fn encode_int32(tag: u32, value: i32, buf: &mut Vec<u8>)
    requires
        MIN_TAG <= tag <= MAX_TAG,
    ensures
        final(buf)@ == old(buf)@ + int32_field_bytes(tag, value),
{
    encode_key(tag, WireType::Varint, buf);
    let wide: u64 = if value >= 0 {
        value as u64
    } else {
        u64::MAX - ((-(value as i64) - 1) as u64)
    };
    encode_varint(wide, buf);
    assert(final(buf)@ =~= old(buf)@ + int32_field_bytes(tag, value));
}

/// 128 to the power of `n`.
pub open spec fn pow128(n: nat) -> nat
    decreases n,
{
    if n == 0 {
        1
    } else {
        0x80 * pow128((n - 1) as nat)
    }
}

proof fn lemma_pow128_positive(n: nat)
    ensures
        pow128(n) >= 1,
    decreases n,
{
    if n > 0 {
        lemma_pow128_positive((n - 1) as nat);
    }
}

proof fn lemma_varint_within_bounds(data: Seq<u8>, limit: nat)
    ensures
        match varint_within(data, limit) {
            Some((value, len)) => 1 <= len <= limit && len <= data.len() && value < pow128(
                (limit - 1) as nat,
            ) * 2,
            None => true,
        },
    decreases limit,
{
    if limit == 0 || data.len() == 0 {
    } else if data[0] < 0x80 {
        lemma_pow128_positive((limit - 1) as nat);
        if limit > 1 {
            assert(pow128((limit - 1) as nat) == 0x80 * pow128((limit - 2) as nat));
            lemma_pow128_positive((limit - 2) as nat);
        }
    } else {
        lemma_varint_within_bounds(data.skip(1), (limit - 1) as nat);
        if limit > 1 {
            assert(pow128((limit - 1) as nat) == 0x80 * pow128((limit - 2) as nat));
        }
    }
}

/// A varint occupies between one and ten bytes of its input and fits 64 bits.
pub proof fn lemma_varint_bounds(data: Seq<u8>)
    ensures
        match varint_at(data) {
            Some((value, len)) => 1 <= len <= MAX_VARINT_LEN && len <= data.len() && value <= u64::MAX,
            None => true,
        },
{
    lemma_varint_within_bounds(data, MAX_VARINT_LEN as nat);
    reveal_with_fuel(pow128, 10);
    assert(pow128(9) * 2 == 0x1_0000_0000_0000_0000);
}

/// Every reader leaves fewer bytes than it was given, or as many: a key takes
/// at least one byte, and no payload reaches past the end of its input.
pub proof fn lemma_readers_shrink(data: Seq<u8>)
    ensures
        match key_at(data) {
            Some((tag, wire, rest)) => {
                &&& rest.len() < data.len()
                &&& match varint_field(wire, rest) {
                    Some((_, tail)) => tail.len() < rest.len(),
                    None => true,
                }
                &&& match delimited_field(wire, rest) {
                    Some((payload, tail)) => payload.len() + tail.len() < rest.len(),
                    None => true,
                }
                &&& match string_field(wire, rest) {
                    Some((_, tail)) => tail.len() < rest.len(),
                    None => true,
                }
                &&& match unknown_field(wire, tag, rest) {
                    Some(tail) => tail.len() <= rest.len(),
                    None => true,
                }
            },
            None => true,
        },
{
    lemma_varint_bounds(data);
    match key_at(data) {
        Some((tag, wire, rest)) => {
            lemma_varint_bounds(rest);
        },
        None => {},
    }
}

proof fn lemma_varint_within_prefix(data: Seq<u8>, limit: nat, cut: int)
    requires
        varint_within(data, limit) is Some,
        0 <= cut <= data.len(),
    ensures
        cut >= varint_within(data, limit).unwrap().1 ==> varint_within(data.take(cut), limit)
            == varint_within(data, limit),
        cut < varint_within(data, limit).unwrap().1 ==> varint_within(data.take(cut), limit)
            is None,
    decreases limit,
{
    if cut > 0 && data[0] >= 0x80 {
        assert(data.take(cut).skip(1) =~= data.skip(1).take(cut - 1));
        lemma_varint_within_prefix(data.skip(1), (limit - 1) as nat, cut - 1);
    }
}

/// A varint is decided by its own bytes: a prefix of the input that holds all
/// of them gives the same varint, and a prefix that does not gives none.
pub proof fn lemma_varint_prefix(data: Seq<u8>, cut: int)
    requires
        varint_at(data) is Some,
        0 <= cut <= data.len(),
    ensures
        cut >= varint_at(data).unwrap().1 ==> varint_at(data.take(cut)) == varint_at(data),
        cut < varint_at(data).unwrap().1 ==> varint_at(data.take(cut)) is None,
{
    lemma_varint_within_prefix(data, MAX_VARINT_LEN as nat, cut);
}

proof fn lemma_varint_within_grows(data: Seq<u8>, extra: Seq<u8>, limit: nat)
    requires
        varint_within(data, limit) is Some,
    ensures
        varint_within(data + extra, limit) == varint_within(data, limit),
    decreases limit,
{
    assert((data + extra)[0] == data[0]);
    if data[0] >= 0x80 {
        assert((data + extra).skip(1) =~= data.skip(1) + extra);
        lemma_varint_within_grows(data.skip(1), extra, (limit - 1) as nat);
    }
}

/// Bytes put after a varint do not change it.
pub proof fn lemma_varint_grows(data: Seq<u8>, extra: Seq<u8>)
    requires
        varint_at(data) is Some,
    ensures
        varint_at(data + extra) == varint_at(data),
{
    lemma_varint_within_grows(data, extra, MAX_VARINT_LEN as nat);
}

proof fn lemma_varint_within_round_trip(value: nat, tail: Seq<u8>, limit: nat)
    requires
        limit >= 1,
        value < pow128((limit - 1) as nat) * 2,
    ensures
        varint_within(varint_bytes(value) + tail, limit) == Some(
            (value, varint_bytes(value).len()),
        ),
    decreases limit,
{
    let bytes = varint_bytes(value);
    if value < 0x80 {
        assert(bytes.len() == 1);
        assert((bytes + tail)[0] == value);
    } else {
        assert(limit > 1) by {
            if limit == 1 {
                assert(pow128(0) == 1);
            }
        }
        assert(pow128((limit - 1) as nat) == 0x80 * pow128((limit - 2) as nat));
        let high = value / 0x80;
        assert((bytes + tail)[0] == value % 0x80 + 0x80);
        assert((bytes + tail).skip(1) =~= varint_bytes(high) + tail);
        lemma_varint_within_round_trip(high, tail, (limit - 1) as nat);
        assert(bytes.len() == varint_bytes(high).len() + 1);
    }
}

/// Reading back what was written gives the value written: the varint at the
/// head of the bytes of `value`, whatever follows them, is `value`, and it
/// occupies exactly those bytes.
pub proof fn lemma_varint_round_trip(value: u64, tail: Seq<u8>)
    ensures
        varint_at(varint_bytes(value as nat) + tail) == Some(
            (value as nat, varint_bytes(value as nat).len()),
        ),
{
    reveal_with_fuel(pow128, 10);
    assert(pow128(9) * 2 == 0x1_0000_0000_0000_0000);
    lemma_varint_within_round_trip(value as nat, tail, MAX_VARINT_LEN as nat);
}

/// A signed field reads back as it was written: behind its own bytes comes
/// its key, then its value, and whatever followed the field is left over.
pub proof fn lemma_int32_field_round_trip(tag: u32, value: i32, tail: Seq<u8>)
    requires
        MIN_TAG <= tag <= MAX_TAG,
    ensures
        key_at(int32_field_bytes(tag, value) + tail) == Some(
            (tag, WireType::Varint, varint_bytes(sign_extended(value)) + tail),
        ),
        varint_field(WireType::Varint, varint_bytes(sign_extended(value)) + tail) == Some(
            (sign_extended(value), tail),
        ),
        low_32_signed(sign_extended(value)) == value,
{
    let key: u64 = (tag * 8) as u64;
    let wide: u64 = sign_extended(value) as u64;
    let payload = varint_bytes(wide as nat) + tail;
    lemma_varint_round_trip(key, payload);
    lemma_varint_round_trip(wide, tail);
    assert(int32_field_bytes(tag, value) + tail =~= varint_bytes(key as nat) + payload);
    assert((varint_bytes(key as nat) + payload).skip(varint_bytes(key as nat).len() as int)
        =~= payload);
    assert(payload.skip(varint_bytes(wide as nat).len() as int) =~= tail);
}

} // verus!
