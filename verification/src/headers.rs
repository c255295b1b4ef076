use vstd::prelude::*;
use crate::model::{
    DecodeError, FieldHeader, GroupHeader, HeaderItem, RecordHeader, KNOWN_RECORD_FLAGS, TAG_GRUP,
};
use crate::prim::{
    check_utf8_range, le_i32_at, le_u16_at, le_u32_at, spec_le_i32, spec_le_u16, spec_le_u32,
    valid_utf8_bytes,
};

verus! {

/// The group header laid out over the 24 bytes at `pos`: declared size,
/// raw label, group type, metadata, and 4 reserved bytes that are
/// consumed and discarded.
pub open spec fn spec_group_header(s: Seq<u8>, pos: int) -> GroupHeader
    recommends
        0 <= pos,
        pos + 24 <= s.len(),
        spec_le_u32(s, pos) == TAG_GRUP,
{
    GroupHeader {
        size: spec_le_u32(s, pos + 4),
        label: spec_le_u32(s, pos + 8),
        group_type: spec_le_i32(s, pos + 12),
        timestamp: spec_le_u16(s, pos + 16),
        version_control_info: spec_le_u16(s, pos + 18),
    }
}

/// The record header laid out over the 24 bytes at `pos`: type tag,
/// payload size, flags with unknown bits masked off, form id, metadata,
/// and 2 reserved bytes that are consumed and discarded.
pub open spec fn spec_record_header(s: Seq<u8>, pos: int) -> RecordHeader
    recommends
        0 <= pos,
        pos + 24 <= s.len(),
        spec_le_u32(s, pos) != TAG_GRUP,
{
    RecordHeader {
        record_type: spec_le_u32(s, pos),
        size: spec_le_u32(s, pos + 4),
        flags: spec_le_u32(s, pos + 8) & KNOWN_RECORD_FLAGS,
        id: spec_le_u32(s, pos + 12),
        timestamp: spec_le_u16(s, pos + 16),
        version_control_info: spec_le_u16(s, pos + 18),
        version: spec_le_u16(s, pos + 20),
    }
}

/// What decoding the next header at `pos` yields: a group header where
/// the group tag stands, a record header otherwise, a truncation error
/// where fewer than 24 bytes remain, and an encoding error where a record
/// tag is not valid text.
pub open spec fn spec_decode_header(s: Seq<u8>, pos: int) -> Result<HeaderItem, DecodeError>
    recommends
        0 <= pos,
{
    if pos + 24 > s.len() {
        Err(DecodeError::TruncatedInput)
    } else if spec_le_u32(s, pos) == TAG_GRUP {
        Ok(HeaderItem::Group(spec_group_header(s, pos)))
    } else if !valid_utf8_bytes(s.subrange(pos, pos + 4)) {
        Err(DecodeError::InvalidEncoding)
    } else {
        Ok(HeaderItem::Record(spec_record_header(s, pos)))
    }
}

/// Decodes a group header at `pos`. The next four bytes must be the group
/// tag; any other tag is `UnexpectedTag`, and too short a buffer is
/// `TruncatedInput`.
pub fn decode_group_header(s: &[u8], pos: usize) -> (r: Result<GroupHeader, DecodeError>)
    ensures
        match r {
            Ok(g) => {
                &&& pos + 24 <= s@.len()
                &&& spec_le_u32(s@, pos as int) == TAG_GRUP
                &&& g == spec_group_header(s@, pos as int)
            },
            Err(e) => {
                &&& if pos + 4 > s@.len() {
                    e == DecodeError::TruncatedInput
                } else if spec_le_u32(s@, pos as int) != TAG_GRUP {
                    e == DecodeError::UnexpectedTag
                } else {
                    e == DecodeError::TruncatedInput && pos + 24 > s@.len()
                }
            },
        },
{
    let n = s.len();
    if n < 4 || pos > n - 4 {
        return Err(DecodeError::TruncatedInput);
    }
    if le_u32_at(s, pos) != TAG_GRUP {
        return Err(DecodeError::UnexpectedTag);
    }
    if n < 24 || pos > n - 24 {
        return Err(DecodeError::TruncatedInput);
    }
    Ok(GroupHeader {
        size: le_u32_at(s, pos + 4),
        label: le_u32_at(s, pos + 8),
        group_type: le_i32_at(s, pos + 12),
        timestamp: le_u16_at(s, pos + 16),
        version_control_info: le_u16_at(s, pos + 18),
    })
}

/// Decodes a record header at `pos`. The next four bytes must not be the
/// group tag and must be valid text; unknown flag bits are masked off
/// rather than rejected.
pub fn decode_record_header(s: &[u8], pos: usize) -> (r: Result<RecordHeader, DecodeError>)
    ensures
        match r {
            Ok(h) => {
                &&& pos + 24 <= s@.len()
                &&& spec_le_u32(s@, pos as int) != TAG_GRUP
                &&& valid_utf8_bytes(s@.subrange(pos as int, pos + 4))
                &&& h == spec_record_header(s@, pos as int)
            },
            Err(e) => {
                &&& if pos + 4 > s@.len() {
                    e == DecodeError::TruncatedInput
                } else if spec_le_u32(s@, pos as int) == TAG_GRUP {
                    e == DecodeError::UnexpectedTag
                } else if !valid_utf8_bytes(s@.subrange(pos as int, pos + 4)) {
                    e == DecodeError::InvalidEncoding
                } else {
                    e == DecodeError::TruncatedInput && pos + 24 > s@.len()
                }
            },
        },
{
    let n = s.len();
    if n < 4 || pos > n - 4 {
        return Err(DecodeError::TruncatedInput);
    }
    let tag = le_u32_at(s, pos);
    if tag == TAG_GRUP {
        return Err(DecodeError::UnexpectedTag);
    }
    if !check_utf8_range(s, pos, pos + 4) {
        return Err(DecodeError::InvalidEncoding);
    }
    if n < 24 || pos > n - 24 {
        return Err(DecodeError::TruncatedInput);
    }
    Ok(RecordHeader {
        record_type: tag,
        size: le_u32_at(s, pos + 4),
        flags: le_u32_at(s, pos + 8) & KNOWN_RECORD_FLAGS,
        id: le_u32_at(s, pos + 12),
        timestamp: le_u16_at(s, pos + 16),
        version_control_info: le_u16_at(s, pos + 18),
        version: le_u16_at(s, pos + 20),
    })
}

/// Decodes whichever of the two header forms stands at `pos`, going by
/// the four-byte tag.
pub fn decode_header(s: &[u8], pos: usize) -> (r: Result<HeaderItem, DecodeError>)
    ensures
        match r {
            Ok(h) => spec_decode_header(s@, pos as int) == Ok::<HeaderItem, DecodeError>(h),
            Err(e) => spec_decode_header(s@, pos as int) == Err::<HeaderItem, DecodeError>(e),
        },
{
    let n = s.len();
    if n < 24 || pos > n - 24 {
        return Err(DecodeError::TruncatedInput);
    }
    if le_u32_at(s, pos) == TAG_GRUP {
        match decode_group_header(s, pos) {
            Ok(g) => Ok(HeaderItem::Group(g)),
            Err(e) => Err(e),
        }
    } else {
        match decode_record_header(s, pos) {
            Ok(h) => Ok(HeaderItem::Record(h)),
            Err(e) => Err(e),
        }
    }
}

/// The field header laid out over the six bytes at `pos`: a four-byte
/// tag, which must be valid text, and a 16-bit declared size.
pub open spec fn spec_decode_field_header(s: Seq<u8>, pos: int) -> Result<
    FieldHeader,
    DecodeError,
>
    recommends
        0 <= pos,
{
    if pos + 4 > s.len() {
        Err(DecodeError::TruncatedInput)
    } else if !valid_utf8_bytes(s.subrange(pos, pos + 4)) {
        Err(DecodeError::InvalidEncoding)
    } else if pos + 6 > s.len() {
        Err(DecodeError::TruncatedInput)
    } else {
        Ok(FieldHeader { field_type: spec_le_u32(s, pos), size: spec_le_u16(s, pos + 4) })
    }
}

/// Decodes the six-byte field header at `pos`. A tag that is not valid
/// text is `InvalidEncoding`, and too short a buffer is `TruncatedInput`.
pub fn decode_field_header(s: &[u8], pos: usize) -> (r: Result<FieldHeader, DecodeError>)
    ensures
        r == spec_decode_field_header(s@, pos as int),
        r is Ok ==> pos + 6 <= s@.len(),
{
    let n = s.len();
    if n < 4 || pos > n - 4 {
        return Err(DecodeError::TruncatedInput);
    }
    if !check_utf8_range(s, pos, pos + 4) {
        return Err(DecodeError::InvalidEncoding);
    }
    if n < 6 || pos > n - 6 {
        return Err(DecodeError::TruncatedInput);
    }
    Ok(FieldHeader { field_type: le_u32_at(s, pos), size: le_u16_at(s, pos + 4) })
}

} // verus!
