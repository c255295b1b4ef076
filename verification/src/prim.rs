use vstd::prelude::*;
use vstd::slice::slice_index_get;
use crate::model::DecodeError;

verus! {

/// Little-endian 16-bit value formed from the two bytes at `pos`.
pub open spec fn spec_le_u16(s: Seq<u8>, pos: int) -> u16
    recommends
        0 <= pos,
        pos + 2 <= s.len(),
{
    (s[pos] + s[pos + 1] * 0x100) as u16
}

/// Little-endian 32-bit value formed from the four bytes at `pos`.
pub open spec fn spec_le_u32(s: Seq<u8>, pos: int) -> u32
    recommends
        0 <= pos,
        pos + 4 <= s.len(),
{
    (s[pos] + s[pos + 1] * 0x100 + s[pos + 2] * 0x10000 + s[pos + 3] * 0x1000000) as u32
}

/// Little-endian signed 32-bit value: the unsigned value reinterpreted in
/// two's complement.
pub open spec fn spec_le_i32(s: Seq<u8>, pos: int) -> i32
    recommends
        0 <= pos,
        pos + 4 <= s.len(),
{
    spec_le_u32(s, pos) as i32
}

/// Index of the first zero byte at or after `pos`, if any.
pub open spec fn spec_find_zero(s: Seq<u8>, pos: int) -> Option<int>
    decreases s.len() - pos,
    when 0 <= pos <= s.len()
{
    if pos >= s.len() {
        None
    } else if s[pos] == 0 {
        Some(pos)
    } else {
        spec_find_zero(s, pos + 1)
    }
}

/// Where the zero-byte search succeeds it yields the first zero at or
/// after `pos`, inside the buffer; where it fails there is none.
pub proof fn lemma_find_zero_bounds(s: Seq<u8>, pos: int)
    requires
        0 <= pos <= s.len(),
    ensures
        match spec_find_zero(s, pos) {
            Some(z) => pos <= z < s.len() && s[z] == 0 && (forall|j: int|
                pos <= j < z ==> s[j] != 0),
            None => forall|j: int| pos <= j < s.len() ==> s[j] != 0,
        },
    decreases s.len() - pos,
{
    if pos < s.len() && s[pos] != 0 {
        lemma_find_zero_bounds(s, pos + 1);
    }
}

/// The byte at index `i`.
#[inline]
pub fn byte_at(s: &[u8], i: usize) -> (r: u8)
    requires
        i < s@.len(),
    ensures
        r == s@[i as int],
{
    *slice_index_get(s, i)
}

/// Reads the little-endian 16-bit value at `pos`.
pub fn le_u16_at(s: &[u8], pos: usize) -> (r: u16)
    requires
        pos + 2 <= s@.len(),
    ensures
        r == spec_le_u16(s@, pos as int),
{
    let n = s.len();
    assert(pos + 2 <= n);
    let b0 = byte_at(s, pos);
    let b1 = byte_at(s, pos + 1);
    b0 as u16 + b1 as u16 * 0x100
}

/// Reads the little-endian 32-bit value at `pos`.
pub fn le_u32_at(s: &[u8], pos: usize) -> (r: u32)
    requires
        pos + 4 <= s@.len(),
    ensures
        r == spec_le_u32(s@, pos as int),
{
    let n = s.len();
    assert(pos + 4 <= n);
    let b0 = byte_at(s, pos);
    let b1 = byte_at(s, pos + 1);
    let b2 = byte_at(s, pos + 2);
    let b3 = byte_at(s, pos + 3);
    b0 as u32 + b1 as u32 * 0x100 + b2 as u32 * 0x10000 + b3 as u32 * 0x1000000
}

/// Reads the little-endian signed 32-bit value at `pos`.
pub fn le_i32_at(s: &[u8], pos: usize) -> (r: i32)
    requires
        pos + 4 <= s@.len(),
    ensures
        r == spec_le_i32(s@, pos as int),
{
    le_u32_at(s, pos) as i32
}

/// Finds the first zero byte at or after `pos`; a missing terminator is a
/// truncation.
pub fn find_zero_at(s: &[u8], pos: usize) -> (r: Result<usize, DecodeError>)
    requires
        pos <= s@.len(),
    ensures
        match r {
            Ok(z) => spec_find_zero(s@, pos as int) == Some(z as int) && pos <= z < s@.len(),
            Err(e) => spec_find_zero(s@, pos as int) is None && e == DecodeError::TruncatedInput,
        },
{
    let mut i = pos;
    while i < s.len()
        invariant
            pos <= i <= s@.len(),
            spec_find_zero(s@, pos as int) == spec_find_zero(s@, i as int),
            forall|j: int| pos <= j < i ==> s@[j] != 0,
        decreases s@.len() - i,
    {
        if byte_at(s, i) == 0 {
            return Ok(i);
        }
        i = i + 1;
    }
    Err(DecodeError::TruncatedInput)
}

/// Whether a byte is a UTF-8 continuation byte.
pub open spec fn is_utf8_cont(b: u8) -> bool {
    0x80 <= b && b <= 0xBF
}

/// Whether a byte sequence is well-formed UTF-8: every lead byte is
/// followed by the continuation bytes its range demands, overlong forms,
/// surrogate code points and values past the code-point maximum refused.
pub open spec fn valid_utf8_bytes(s: Seq<u8>) -> bool
    decreases s.len(),
{
    if s.len() == 0 {
        true
    } else {
        let b0 = s[0];
        if b0 < 0x80 {
            valid_utf8_bytes(s.skip(1))
        } else if 0xC2 <= b0 && b0 <= 0xDF {
            s.len() >= 2 && is_utf8_cont(s[1]) && valid_utf8_bytes(s.skip(2))
        } else if b0 == 0xE0 {
            s.len() >= 3 && 0xA0 <= s[1] && s[1] <= 0xBF && is_utf8_cont(s[2])
                && valid_utf8_bytes(s.skip(3))
        } else if 0xE1 <= b0 && b0 <= 0xEC {
            s.len() >= 3 && is_utf8_cont(s[1]) && is_utf8_cont(s[2]) && valid_utf8_bytes(s.skip(3))
        } else if b0 == 0xED {
            s.len() >= 3 && 0x80 <= s[1] && s[1] <= 0x9F && is_utf8_cont(s[2])
                && valid_utf8_bytes(s.skip(3))
        } else if 0xEE <= b0 && b0 <= 0xEF {
            s.len() >= 3 && is_utf8_cont(s[1]) && is_utf8_cont(s[2]) && valid_utf8_bytes(s.skip(3))
        } else if b0 == 0xF0 {
            s.len() >= 4 && 0x90 <= s[1] && s[1] <= 0xBF && is_utf8_cont(s[2]) && is_utf8_cont(s[3])
                && valid_utf8_bytes(s.skip(4))
        } else if 0xF1 <= b0 && b0 <= 0xF3 {
            s.len() >= 4 && is_utf8_cont(s[1]) && is_utf8_cont(s[2]) && is_utf8_cont(s[3])
                && valid_utf8_bytes(s.skip(4))
        } else if b0 == 0xF4 {
            s.len() >= 4 && 0x80 <= s[1] && s[1] <= 0x8F && is_utf8_cont(s[2]) && is_utf8_cont(s[3])
                && valid_utf8_bytes(s.skip(4))
        } else {
            false
        }
    }
}

/// A little-endian 32-bit tag value determines the four bytes under it.
pub proof fn lemma_le_u32_bytes(s: Seq<u8>, pos: int, b0: u8, b1: u8, b2: u8, b3: u8)
    requires
        0 <= pos,
        pos + 4 <= s.len(),
        spec_le_u32(s, pos) == b0 + b1 * 0x100 + b2 * 0x10000 + b3 * 0x1000000,
    ensures
        s[pos] == b0 && s[pos + 1] == b1 && s[pos + 2] == b2 && s[pos + 3] == b3,
{
    assert(s[pos] + s[pos + 1] * 0x100 + s[pos + 2] * 0x10000 + s[pos + 3] * 0x1000000 == b0 + b1
        * 0x100 + b2 * 0x10000 + b3 * 0x1000000);
}

/// Four bytes below 0x80 are valid text on their own.
pub proof fn lemma_ascii_tag_valid(s: Seq<u8>, pos: int)
    requires
        0 <= pos,
        pos + 4 <= s.len(),
        s[pos] < 0x80,
        s[pos + 1] < 0x80,
        s[pos + 2] < 0x80,
        s[pos + 3] < 0x80,
    ensures
        valid_utf8_bytes(s.subrange(pos, pos + 4)),
{
    let t0 = s.subrange(pos, pos + 4);
    let t1 = s.subrange(pos + 1, pos + 4);
    let t2 = s.subrange(pos + 2, pos + 4);
    let t3 = s.subrange(pos + 3, pos + 4);
    let t4 = s.subrange(pos + 4, pos + 4);
    assert(t0.skip(1) =~= t1);
    assert(t1.skip(1) =~= t2);
    assert(t2.skip(1) =~= t3);
    assert(t3.skip(1) =~= t4);
    assert(valid_utf8_bytes(t4));
    assert(valid_utf8_bytes(t3));
    assert(valid_utf8_bytes(t2));
    assert(valid_utf8_bytes(t1));
    assert(valid_utf8_bytes(t0));
}

/// Checks that the bytes of `s` from `start` to `end` are well-formed
/// UTF-8.
pub fn check_utf8_range(s: &[u8], start: usize, end: usize) -> (ok: bool)
    requires
        start <= end <= s@.len(),
    ensures
        ok == valid_utf8_bytes(s@.subrange(start as int, end as int)),
{
    let mut i = start;
    while i < end
        invariant
            start <= i <= end <= s@.len(),
            valid_utf8_bytes(s@.subrange(start as int, end as int)) == valid_utf8_bytes(
                s@.subrange(i as int, end as int),
            ),
        decreases end - i,
    {
        let ghost t = s@.subrange(i as int, end as int);
        let b0 = byte_at(s, i);
        assert(t[0] == b0);
        let step: usize;
        if b0 < 0x80 {
            step = 1;
        } else if 0xC2 <= b0 && b0 <= 0xDF {
            if end - i < 2 || !utf8_cont_ok(byte_at(s, i + 1)) {
                assert(!valid_utf8_bytes(t));
                return false;
            }
            step = 2;
        } else if b0 == 0xE0 {
            if end - i < 3 {
                assert(!valid_utf8_bytes(t));
                return false;
            }
            let b1 = byte_at(s, i + 1);
            if !(0xA0 <= b1 && b1 <= 0xBF) || !utf8_cont_ok(byte_at(s, i + 2)) {
                assert(!valid_utf8_bytes(t));
                return false;
            }
            step = 3;
        } else if 0xE1 <= b0 && b0 <= 0xEC {
            if end - i < 3 || !utf8_cont_ok(byte_at(s, i + 1)) || !utf8_cont_ok(byte_at(s, i + 2)) {
                assert(!valid_utf8_bytes(t));
                return false;
            }
            step = 3;
        } else if b0 == 0xED {
            if end - i < 3 {
                assert(!valid_utf8_bytes(t));
                return false;
            }
            let b1 = byte_at(s, i + 1);
            if !(0x80 <= b1 && b1 <= 0x9F) || !utf8_cont_ok(byte_at(s, i + 2)) {
                assert(!valid_utf8_bytes(t));
                return false;
            }
            step = 3;
        } else if 0xEE <= b0 && b0 <= 0xEF {
            if end - i < 3 || !utf8_cont_ok(byte_at(s, i + 1)) || !utf8_cont_ok(byte_at(s, i + 2)) {
                assert(!valid_utf8_bytes(t));
                return false;
            }
            step = 3;
        } else if b0 == 0xF0 {
            if end - i < 4 {
                assert(!valid_utf8_bytes(t));
                return false;
            }
            let b1 = byte_at(s, i + 1);
            if !(0x90 <= b1 && b1 <= 0xBF) || !utf8_cont_ok(byte_at(s, i + 2)) || !utf8_cont_ok(
                byte_at(s, i + 3),
            ) {
                assert(!valid_utf8_bytes(t));
                return false;
            }
            step = 4;
        } else if 0xF1 <= b0 && b0 <= 0xF3 {
            if end - i < 4 || !utf8_cont_ok(byte_at(s, i + 1)) || !utf8_cont_ok(byte_at(s, i + 2))
                || !utf8_cont_ok(byte_at(s, i + 3)) {
                assert(!valid_utf8_bytes(t));
                return false;
            }
            step = 4;
        } else if b0 == 0xF4 {
            if end - i < 4 {
                assert(!valid_utf8_bytes(t));
                return false;
            }
            let b1 = byte_at(s, i + 1);
            if !(0x80 <= b1 && b1 <= 0x8F) || !utf8_cont_ok(byte_at(s, i + 2)) || !utf8_cont_ok(
                byte_at(s, i + 3),
            ) {
                assert(!valid_utf8_bytes(t));
                return false;
            }
            step = 4;
        } else {
            assert(!valid_utf8_bytes(t));
            return false;
        }
        proof {
            assert(t.skip(step as int) =~= s@.subrange(i + step, end as int));
            assert(valid_utf8_bytes(t) == valid_utf8_bytes(s@.subrange(i + step, end as int)));
        }
        i = i + step;
    }
    true
}

/// Checks that a byte is a UTF-8 continuation byte.
#[inline]
fn utf8_cont_ok(b: u8) -> (r: bool)
    ensures
        r == is_utf8_cont(b),
{
    0x80 <= b && b <= 0xBF
}

} // verus!
