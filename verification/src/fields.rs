use vstd::prelude::*;
use crate::codecs::{decode_windows_1252, win1252_of};
use crate::headers::{decode_field_header, spec_decode_field_header, spec_record_header};
use crate::model::{
    Cell, CellM, DecodeError, PluginHeader, PluginHeaderM, TAG_CNAM, TAG_EDID, TAG_HEDR, TAG_INTV,
    TAG_MAST, TAG_SNAM, TAG_TES4, TAG_XCLC, TAG_XXXX,
};
use crate::prim::{
    find_zero_at, le_i32_at, le_u32_at, spec_find_zero, spec_le_i32, spec_le_u16, spec_le_u32,
};

verus! {

/// Reads a zero-terminated legacy-codepage string starting at `pos` and
/// returns it with the position just past the terminator.
pub fn read_zstring(s: &[u8], pos: usize) -> (r: Result<(String, usize), DecodeError>)
    requires
        pos <= s@.len(),
        4 * s@.len() <= usize::MAX,
    ensures
        match r {
            Ok((text, next)) => {
                &&& spec_find_zero(s@, pos as int) == Some(next - 1)
                &&& pos < next <= s@.len()
                &&& text@ == win1252_of(s@.subrange(pos as int, next - 1))
            },
            Err(e) => spec_find_zero(s@, pos as int) is None && e == DecodeError::TruncatedInput,
        },
{
    match find_zero_at(s, pos) {
        Ok(z) => {
            let text = decode_windows_1252(s, pos, z);
            Ok((text, z + 1))
        },
        Err(e) => Err(e),
    }
}

/// One pass of the plugin-header field loop, from `pos` with `consumed`
/// bytes already accounted against the record's declared `budget`.
/// Recognized tags capture the author, the description and each master
/// filename in order; the size-override tag holds a 32-bit size that
/// replaces the next field's declared size and then lapses; unknown tags
/// are skipped over the active size.
pub open spec fn spec_header_fields(
    s: Seq<u8>,
    pos: int,
    consumed: int,
    budget: int,
    large: Option<u32>,
    author: Option<Seq<char>>,
    description: Option<Seq<char>>,
    masters: Seq<Seq<char>>,
) -> Result<(Option<Seq<char>>, Option<Seq<char>>, Seq<Seq<char>>, int), DecodeError>
    decreases s.len() - pos,
    when 0 <= pos <= s.len()
    via spec_header_fields_decreases
{
    if consumed >= budget {
        Ok((author, description, masters, pos))
    } else {
        match spec_decode_field_header(s, pos) {
            Err(e) => Err(e),
            Ok(f) => {
                let active: int = match large {
                    Some(v) => v as int,
                    None => f.size as int,
                };
                let consumed2 = consumed + active + 6;
                let body = pos + 6;
                if f.field_type == TAG_CNAM {
                    match spec_find_zero(s, body) {
                        None => Err(DecodeError::TruncatedInput),
                        Some(z) => spec_header_fields(
                            s,
                            z + 1,
                            consumed2,
                            budget,
                            None,
                            Some(win1252_of(s.subrange(body, z))),
                            description,
                            masters,
                        ),
                    }
                } else if f.field_type == TAG_SNAM {
                    match spec_find_zero(s, body) {
                        None => Err(DecodeError::TruncatedInput),
                        Some(z) => spec_header_fields(
                            s,
                            z + 1,
                            consumed2,
                            budget,
                            None,
                            author,
                            Some(win1252_of(s.subrange(body, z))),
                            masters,
                        ),
                    }
                } else if f.field_type == TAG_MAST {
                    match spec_find_zero(s, body) {
                        None => Err(DecodeError::TruncatedInput),
                        Some(z) => spec_header_fields(
                            s,
                            z + 1,
                            consumed2,
                            budget,
                            None,
                            author,
                            description,
                            masters.push(win1252_of(s.subrange(body, z))),
                        ),
                    }
                } else if f.field_type == TAG_INTV {
                    if body + f.size > s.len() {
                        Err(DecodeError::TruncatedInput)
                    } else {
                        spec_header_fields(
                            s,
                            body + f.size,
                            consumed2,
                            budget,
                            None,
                            author,
                            description,
                            masters,
                        )
                    }
                } else if f.field_type == TAG_XXXX {
                    if body + 4 > s.len() {
                        Err(DecodeError::TruncatedInput)
                    } else {
                        spec_header_fields(
                            s,
                            body + 4,
                            consumed2,
                            budget,
                            Some(spec_le_u32(s, body)),
                            author,
                            description,
                            masters,
                        )
                    }
                } else {
                    if body + active > s.len() {
                        Err(DecodeError::TruncatedInput)
                    } else {
                        spec_header_fields(
                            s,
                            body + active,
                            consumed2,
                            budget,
                            None,
                            author,
                            description,
                            masters,
                        )
                    }
                }
            },
        }
    }
}

#[via_fn]
proof fn spec_header_fields_decreases(
    s: Seq<u8>,
    pos: int,
    consumed: int,
    budget: int,
    large: Option<u32>,
    author: Option<Seq<char>>,
    description: Option<Seq<char>>,
    masters: Seq<Seq<char>>,
) {
    if consumed < budget && pos + 6 <= s.len() {
        crate::prim::lemma_find_zero_bounds(s, pos + 6);
    }
}

/// The plugin header decoded from the start of the file: the mandatory
/// plugin-header record, whose first field must be the fixed metadata
/// field, followed by the budgeted field loop. Returns the decoded header
/// and the position just past the record.
pub open spec fn spec_parse_plugin_header(s: Seq<u8>) -> Result<(PluginHeaderM, int), DecodeError> {
    if s.len() < 4 {
        Err(DecodeError::TruncatedInput)
    } else if spec_le_u32(s, 0) != TAG_TES4 {
        Err(DecodeError::MissingPluginHeader)
    } else if s.len() < 24 {
        Err(DecodeError::TruncatedInput)
    } else {
        let tes4 = spec_record_header(s, 0);
        match spec_decode_field_header(s, 24) {
            Err(e) => Err(e),
            Ok(f) => {
                if f.field_type != TAG_HEDR {
                    Err(DecodeError::MalformedHeader)
                } else if s.len() < 42 {
                    Err(DecodeError::TruncatedInput)
                } else {
                    match spec_header_fields(
                        s,
                        42,
                        f.size + 6,
                        tes4.size as int,
                        None,
                        None,
                        None,
                        Seq::empty(),
                    ) {
                        Err(e) => Err(e),
                        Ok((author, description, masters, end)) => Ok(
                            (
                                PluginHeaderM {
                                    version_bits: spec_le_u32(s, 30),
                                    num_records_and_groups: spec_le_i32(s, 34),
                                    next_object_id: spec_le_u32(s, 38),
                                    author,
                                    description,
                                    masters,
                                },
                                end,
                            ),
                        ),
                    }
                }
            },
        }
    }
}

/// A plugin-header field loop that succeeds ends inside the buffer, at
/// or after where it began.
pub proof fn lemma_header_fields_end_bounds(
    s: Seq<u8>,
    pos: int,
    consumed: int,
    budget: int,
    large: Option<u32>,
    author: Option<Seq<char>>,
    description: Option<Seq<char>>,
    masters: Seq<Seq<char>>,
)
    requires
        0 <= pos <= s.len(),
        spec_header_fields(s, pos, consumed, budget, large, author, description, masters) is Ok,
    ensures
        pos <= spec_header_fields(s, pos, consumed, budget, large, author, description, masters)
            ->Ok_0.3 <= s.len(),
    decreases s.len() - pos,
{
    if consumed >= budget {
    } else if spec_decode_field_header(s, pos) is Err {
    } else {
        let f = spec_decode_field_header(s, pos)->Ok_0;
        let ftype = f.field_type;
        let fsize = f.size;
        let active: int = match large {
            Some(v) => v as int,
            None => fsize as int,
        };
        let consumed2 = consumed + active + 6;
        let body = pos + 6;
        crate::prim::lemma_find_zero_bounds(s, body);
        if ftype == TAG_CNAM {
            if spec_find_zero(s, body) is Some {
                let z = spec_find_zero(s, body)->Some_0;
                lemma_header_fields_end_bounds(
                    s,
                    z + 1,
                    consumed2,
                    budget,
                    None,
                    Some(win1252_of(s.subrange(body, z))),
                    description,
                    masters,
                );
            }
        } else if ftype == TAG_SNAM {
            if spec_find_zero(s, body) is Some {
                let z = spec_find_zero(s, body)->Some_0;
                lemma_header_fields_end_bounds(
                    s,
                    z + 1,
                    consumed2,
                    budget,
                    None,
                    author,
                    Some(win1252_of(s.subrange(body, z))),
                    masters,
                );
            }
        } else if ftype == TAG_MAST {
            if spec_find_zero(s, body) is Some {
                let z = spec_find_zero(s, body)->Some_0;
                lemma_header_fields_end_bounds(
                    s,
                    z + 1,
                    consumed2,
                    budget,
                    None,
                    author,
                    description,
                    masters.push(win1252_of(s.subrange(body, z))),
                );
            }
        } else if ftype == TAG_INTV {
            if body + fsize <= s.len() {
                lemma_header_fields_end_bounds(
                    s,
                    body + fsize,
                    consumed2,
                    budget,
                    None,
                    author,
                    description,
                    masters,
                );
            }
        } else if ftype == TAG_XXXX {
            if body + 4 <= s.len() {
                lemma_header_fields_end_bounds(
                    s,
                    body + 4,
                    consumed2,
                    budget,
                    Some(spec_le_u32(s, body)),
                    author,
                    description,
                    masters,
                );
            }
        } else {
            if body + active <= s.len() {
                lemma_header_fields_end_bounds(
                    s,
                    body + active,
                    consumed2,
                    budget,
                    None,
                    author,
                    description,
                    masters,
                );
            }
        }
    }
}

/// A plugin header that decodes successfully ends inside the buffer.
pub proof fn lemma_plugin_header_end_bounds(s: Seq<u8>)
    requires
        spec_parse_plugin_header(s) is Ok,
    ensures
        0 <= spec_parse_plugin_header(s)->Ok_0.1 <= s.len(),
{
    if s.len() >= 42 && spec_le_u32(s, 0) == TAG_TES4 && spec_decode_field_header(s, 24) is Ok {
        let tes4 = spec_record_header(s, 0);
        let f = spec_decode_field_header(s, 24)->Ok_0;
        if f.field_type == TAG_HEDR {
            lemma_header_fields_end_bounds(
                s,
                42,
                f.size + 6,
                tes4.size as int,
                None,
                None,
                None,
                Seq::empty(),
            );
        }
    }
}

/// Runs the plugin-header field loop from `start` with `consumed_start`
/// bytes already accounted against `budget`.
#[verifier::loop_isolation(false)]
#[verifier::rlimit(100)]
fn run_header_fields(s: &[u8], start: usize, consumed_start: u64, budget: u64) -> (r: Result<
    (Option<String>, Option<String>, Vec<String>, usize),
    DecodeError,
>)
    requires
        start <= s@.len(),
        4 * s@.len() <= usize::MAX,
        budget <= u32::MAX,
        consumed_start <= 0x1_0000_0010u64,
    ensures
        match r {
            Ok((a, d, m, end)) => {
                &&& end <= s@.len()
                &&& spec_header_fields(
                    s@,
                    start as int,
                    consumed_start as int,
                    budget as int,
                    None,
                    None,
                    None,
                    Seq::empty(),
                ) == Ok::<(Option<Seq<char>>, Option<Seq<char>>, Seq<Seq<char>>, int), DecodeError>(
                    (a.deep_view(), d.deep_view(), m.deep_view(), end as int),
                )
            },
            Err(e) => spec_header_fields(
                s@,
                start as int,
                consumed_start as int,
                budget as int,
                None,
                None,
                None,
                Seq::empty(),
            ) == Err::<(Option<Seq<char>>, Option<Seq<char>>, Seq<Seq<char>>, int), DecodeError>(e),
        },
{
    let mut pos: usize = start;
    let mut consumed: u64 = consumed_start;
    let mut large: Option<u32> = None;
    let mut author: Option<String> = None;
    let mut description: Option<String> = None;
    let mut masters: Vec<String> = Vec::new();
    proof {
        assert(masters.deep_view() =~= Seq::<Seq<char>>::empty());
    }
    while consumed < budget
        invariant
            start <= pos <= s@.len(),
            consumed <= 0x2_0000_0010u64,
            spec_header_fields(
                s@,
                start as int,
                consumed_start as int,
                budget as int,
                None,
                None,
                None,
                Seq::empty(),
            ) == spec_header_fields(
                s@,
                pos as int,
                consumed as int,
                budget as int,
                large,
                author.deep_view(),
                description.deep_view(),
                masters.deep_view(),
            ),
        decreases s@.len() - pos,
    {
        let ghost prev_state = spec_header_fields(
            s@,
            pos as int,
            consumed as int,
            budget as int,
            large,
            author.deep_view(),
            description.deep_view(),
            masters.deep_view(),
        );
        let f = match decode_field_header(s, pos) {
            Ok(f) => f,
            Err(e) => {
                return Err(e);
            },
        };
        let active: u64 = match large {
            Some(v) => v as u64,
            None => f.size as u64,
        };
        let consumed2: u64 = consumed + active + 6;
        let body = pos + 6;
        if f.field_type == TAG_CNAM {
            match read_zstring(s, body) {
                Ok((text, next)) => {
                    author = Some(text);
                    pos = next;
                },
                Err(e) => {
                    return Err(e);
                },
            }
            large = None;
        } else if f.field_type == TAG_SNAM {
            match read_zstring(s, body) {
                Ok((text, next)) => {
                    description = Some(text);
                    pos = next;
                },
                Err(e) => {
                    return Err(e);
                },
            }
            large = None;
        } else if f.field_type == TAG_MAST {
            match read_zstring(s, body) {
                Ok((text, next)) => {
                    let ghost m0 = masters.deep_view();
                    let ghost t0 = text@;
                    masters.push(text);
                    proof {
                        assert(masters.deep_view() =~= m0.push(t0));
                    }
                    pos = next;
                },
                Err(e) => {
                    return Err(e);
                },
            }
            large = None;
        } else if f.field_type == TAG_INTV {
            if f.size as usize > s.len() - body {
                return Err(DecodeError::TruncatedInput);
            }
            pos = body + f.size as usize;
            large = None;
        } else if f.field_type == TAG_XXXX {
            if 4 > s.len() - body {
                return Err(DecodeError::TruncatedInput);
            }
            large = Some(le_u32_at(s, body));
            pos = body + 4;
        } else {
            if active > (s.len() - body) as u64 {
                return Err(DecodeError::TruncatedInput);
            }
            pos = body + active as usize;
            large = None;
        }
        consumed = consumed2;
        proof {
            assert(prev_state == spec_header_fields(
                s@,
                pos as int,
                consumed as int,
                budget as int,
                large,
                author.deep_view(),
                description.deep_view(),
                masters.deep_view(),
            ));
        }
    }
    Ok((author, description, masters, pos))
}

/// Decodes the plugin-header record at the start of the file.
pub fn parse_plugin_header(s: &[u8]) -> (r: Result<(PluginHeader, usize), DecodeError>)
    requires
        4 * s@.len() <= usize::MAX,
    ensures
        match r {
            Ok((h, end)) => {
                &&& end <= s@.len()
                &&& spec_parse_plugin_header(s@) == Ok::<(PluginHeaderM, int), DecodeError>(
                    (h.deep_view(), end as int),
                )
            },
            Err(e) => spec_parse_plugin_header(s@) == Err::<(PluginHeaderM, int), DecodeError>(e),
        },
{
    let n = s.len();
    if n < 4 {
        return Err(DecodeError::TruncatedInput);
    }
    if le_u32_at(s, 0) != TAG_TES4 {
        return Err(DecodeError::MissingPluginHeader);
    }
    if n < 24 {
        return Err(DecodeError::TruncatedInput);
    }
    let budget_u32 = le_u32_at(s, 4);
    let f0 = match decode_field_header(s, 24) {
        Ok(f) => f,
        Err(e) => {
            return Err(e);
        },
    };
    if f0.field_type != TAG_HEDR {
        return Err(DecodeError::MalformedHeader);
    }
    if n < 42 {
        return Err(DecodeError::TruncatedInput);
    }
    let version_bits = le_u32_at(s, 30);
    let num_records_and_groups = le_i32_at(s, 34);
    let next_object_id = le_u32_at(s, 38);
    assert(spec_record_header(s@, 0).size == budget_u32);
    match run_header_fields(s, 42, f0.size as u64 + 6, budget_u32 as u64) {
        Ok((author, description, masters, end)) => {
            let header = PluginHeader {
                version_bits,
                num_records_and_groups,
                next_object_id,
                author,
                description,
                masters,
            };
            Ok((header, end))
        },
        Err(e) => Err(e),
    }
}

/// The editor id of a world record whose payload starts at `pos` and
/// declares `rec_size` payload bytes: the mandatory leading editor-id
/// field, after which every remaining byte of the record, counted from
/// the declared sizes, is consumed without interpretation. Returns the
/// editor id and the position just past the record's declared extent.
pub open spec fn spec_world_fields(s: Seq<u8>, pos: int, rec_size: u32) -> Result<
    (Seq<char>, int),
    DecodeError,
>
    recommends
        0 <= pos <= s.len(),
{
    match spec_decode_field_header(s, pos) {
        Err(e) => Err(e),
        Ok(f) => {
            if f.field_type != TAG_EDID {
                Err(DecodeError::MissingEditorId)
            } else {
                match spec_find_zero(s, pos + 6) {
                    None => Err(DecodeError::TruncatedInput),
                    Some(z) => {
                        if f.size + 6 > rec_size {
                            Err(DecodeError::TruncatedInput)
                        } else if z + 1 + (rec_size - f.size - 6) > s.len() {
                            Err(DecodeError::TruncatedInput)
                        } else {
                            Ok(
                                (
                                    win1252_of(s.subrange(pos + 6, z)),
                                    z + 1 + (rec_size - f.size - 6),
                                ),
                            )
                        }
                    },
                }
            }
        },
    }
}

/// Decodes the field stream of a world record whose payload starts at
/// `pos` with `rec_size` declared payload bytes.
pub fn parse_world_fields(s: &[u8], pos: usize, rec_size: u32) -> (r: Result<
    (String, usize),
    DecodeError,
>)
    requires
        pos <= s@.len(),
        4 * s@.len() <= usize::MAX,
    ensures
        match r {
            Ok((text, end)) => spec_world_fields(s@, pos as int, rec_size) == Ok::<
                (Seq<char>, int),
                DecodeError,
            >((text@, end as int)),
            Err(e) => spec_world_fields(s@, pos as int, rec_size) == Err::<
                (Seq<char>, int),
                DecodeError,
            >(e),
        },
{
    let f = match decode_field_header(s, pos) {
        Ok(f) => f,
        Err(e) => {
            return Err(e);
        },
    };
    if f.field_type != TAG_EDID {
        return Err(DecodeError::MissingEditorId);
    }
    let (text, next) = match read_zstring(s, pos + 6) {
        Ok(v) => v,
        Err(e) => {
            return Err(e);
        },
    };
    if f.size as u32 + 6 > rec_size {
        return Err(DecodeError::TruncatedInput);
    }
    let rest = rec_size - f.size as u32 - 6;
    if rest as u64 > (s.len() - next) as u64 {
        return Err(DecodeError::TruncatedInput);
    }
    Ok((text, next + rest as usize))
}

/// One pass of the cell field loop over a decompressed payload `d`,
/// whose whole length is the budget. The editor id is captured last-wins;
/// the grid-coordinate field yields both coordinates from the eight bytes
/// after its header, and a declared size of exactly 12 additionally
/// consumes four legacy flag bytes; the size-override tag behaves as in
/// the plugin header; unknown tags are skipped over the active size.
pub open spec fn spec_cell_fields(
    d: Seq<u8>,
    pos: int,
    large: Option<u32>,
    edid: Option<Seq<char>>,
    x: Option<i32>,
    y: Option<i32>,
) -> Result<(Option<Seq<char>>, Option<i32>, Option<i32>), DecodeError>
    decreases d.len() - pos,
    when 0 <= pos <= d.len()
    via spec_cell_fields_decreases
{
    if pos >= d.len() {
        Ok((edid, x, y))
    } else {
        match spec_decode_field_header(d, pos) {
            Err(e) => Err(e),
            Ok(f) => {
                let body = pos + 6;
                if f.field_type == TAG_EDID {
                    match spec_find_zero(d, body) {
                        None => Err(DecodeError::TruncatedInput),
                        Some(z) => spec_cell_fields(
                            d,
                            z + 1,
                            None,
                            Some(win1252_of(d.subrange(body, z))),
                            x,
                            y,
                        ),
                    }
                } else if f.field_type == TAG_XCLC {
                    let consumed_len: int = if f.size == 12 {
                        12
                    } else {
                        8
                    };
                    if body + consumed_len > d.len() {
                        Err(DecodeError::TruncatedInput)
                    } else {
                        spec_cell_fields(
                            d,
                            body + consumed_len,
                            None,
                            edid,
                            Some(spec_le_i32(d, body)),
                            Some(spec_le_i32(d, body + 4)),
                        )
                    }
                } else if f.field_type == TAG_XXXX {
                    if body + 4 > d.len() {
                        Err(DecodeError::TruncatedInput)
                    } else {
                        spec_cell_fields(d, body + 4, Some(spec_le_u32(d, body)), edid, x, y)
                    }
                } else {
                    let active: int = match large {
                        Some(v) => v as int,
                        None => f.size as int,
                    };
                    if body + active > d.len() {
                        Err(DecodeError::TruncatedInput)
                    } else {
                        spec_cell_fields(d, body + active, None, edid, x, y)
                    }
                }
            },
        }
    }
}

#[via_fn]
proof fn spec_cell_fields_decreases(
    d: Seq<u8>,
    pos: int,
    large: Option<u32>,
    edid: Option<Seq<char>>,
    x: Option<i32>,
    y: Option<i32>,
) {
    if pos + 6 <= d.len() {
        crate::prim::lemma_find_zero_bounds(d, pos + 6);
    }
}

/// Decodes the field stream of a cell payload.
#[verifier::loop_isolation(false)]
#[verifier::rlimit(60)]
pub fn parse_cell_fields(d: &[u8]) -> (r: Result<
    (Option<String>, Option<i32>, Option<i32>),
    DecodeError,
>)
    requires
        4 * d@.len() <= usize::MAX,
    ensures
        match r {
            Ok((edid, x, y)) => spec_cell_fields(d@, 0, None, None, None, None) == Ok::<
                (Option<Seq<char>>, Option<i32>, Option<i32>),
                DecodeError,
            >((edid.deep_view(), x, y)),
            Err(e) => spec_cell_fields(d@, 0, None, None, None, None) == Err::<
                (Option<Seq<char>>, Option<i32>, Option<i32>),
                DecodeError,
            >(e),
        },
{
    let n = d.len();
    let mut pos: usize = 0;
    let mut large: Option<u32> = None;
    let mut edid: Option<String> = None;
    let mut x: Option<i32> = None;
    let mut y: Option<i32> = None;
    while pos < n
        invariant
            pos <= n == d@.len(),
            4 * d@.len() <= usize::MAX,
            spec_cell_fields(d@, 0, None, None, None, None) == spec_cell_fields(
                d@,
                pos as int,
                large,
                edid.deep_view(),
                x,
                y,
            ),
        decreases d@.len() - pos,
    {
        let f = match decode_field_header(d, pos) {
            Ok(f) => f,
            Err(e) => {
                return Err(e);
            },
        };
        let body = pos + 6;
        let ghost prev_state = spec_cell_fields(d@, pos as int, large, edid.deep_view(), x, y);
        if f.field_type == TAG_EDID {
            match read_zstring(d, body) {
                Ok((text, next)) => {
                    edid = Some(text);
                    pos = next;
                },
                Err(e) => {
                    return Err(e);
                },
            }
            large = None;
        } else if f.field_type == TAG_XCLC {
            let consumed_len: usize = if f.size == 12 {
                12
            } else {
                8
            };
            if consumed_len > n - body {
                return Err(DecodeError::TruncatedInput);
            }
            x = Some(le_i32_at(d, body));
            y = Some(le_i32_at(d, body + 4));
            pos = body + consumed_len;
            large = None;
        } else if f.field_type == TAG_XXXX {
            if 4 > n - body {
                return Err(DecodeError::TruncatedInput);
            }
            large = Some(le_u32_at(d, body));
            pos = body + 4;
        } else {
            let active: u64 = match large {
                Some(v) => v as u64,
                None => f.size as u64,
            };
            if active > (n - body) as u64 {
                return Err(DecodeError::TruncatedInput);
            }
            pos = body + active as usize;
            large = None;
        }
        proof {
            assert(prev_state == spec_cell_fields(d@, pos as int, large, edid.deep_view(), x, y));
        }
    }
    Ok((edid, x, y))
}

/// The cell decoded from a decompressed payload together with the
/// identity carried over from its record header and enclosing world.
pub open spec fn spec_parse_cell(
    d: Seq<u8>,
    form_id: u32,
    is_persistent: bool,
    world_form_id: Option<u32>,
) -> Result<CellM, DecodeError> {
    match spec_cell_fields(d, 0, None, None, None, None) {
        Err(e) => Err(e),
        Ok((edid, x, y)) => Ok(
            CellM { form_id, editor_id: edid, x, y, world_form_id, is_persistent },
        ),
    }
}

/// Decodes one cell from its decompressed payload.
pub fn parse_cell(d: &[u8], form_id: u32, is_persistent: bool, world_form_id: Option<u32>) -> (r:
    Result<Cell, DecodeError>)
    requires
        4 * d@.len() <= usize::MAX,
    ensures
        match r {
            Ok(c) => spec_parse_cell(d@, form_id, is_persistent, world_form_id) == Ok::<
                CellM,
                DecodeError,
            >(c.deep_view()),
            Err(e) => spec_parse_cell(d@, form_id, is_persistent, world_form_id) == Err::<
                CellM,
                DecodeError,
            >(e),
        },
{
    match parse_cell_fields(d) {
        Err(e) => Err(e),
        Ok((editor_id, x, y)) => Ok(
            Cell { form_id, editor_id, x, y, world_form_id, is_persistent },
        ),
    }
}

/// The grid coordinates extracted from a grid-coordinate field do not
/// depend on the field's declared size: whatever the size, `x` and `y`
/// come from the eight bytes after the field header. The size decides
/// only how many trailing bytes the field itself consumes: a declared
/// size of exactly 12 consumes four legacy flag bytes on top of the
/// coordinates, any other size consumes the coordinates alone.
pub proof fn lemma_xclc_coords_ignore_declared_size(
    d: Seq<u8>,
    pos: int,
    large: Option<u32>,
    edid: Option<Seq<char>>,
    x: Option<i32>,
    y: Option<i32>,
)
    requires
        0 <= pos,
        pos + 6 <= d.len(),
        spec_le_u32(d, pos) == TAG_XCLC,
    ensures
        ({
            let sz = spec_le_u16(d, pos + 4);
            let nx = Some(spec_le_i32(d, pos + 6));
            let ny = Some(spec_le_i32(d, pos + 10));
            &&& (sz == 12 && pos + 18 <= d.len() ==> spec_cell_fields(d, pos, large, edid, x, y)
                == spec_cell_fields(d, pos + 18, None, edid, nx, ny))
            &&& (sz != 12 && pos + 14 <= d.len() ==> spec_cell_fields(d, pos, large, edid, x, y)
                == spec_cell_fields(d, pos + 14, None, edid, nx, ny))
        }),
{
    crate::prim::lemma_le_u32_bytes(d, pos, 0x58, 0x43, 0x4C, 0x43);
    crate::prim::lemma_ascii_tag_valid(d, pos);
}

} // verus!
