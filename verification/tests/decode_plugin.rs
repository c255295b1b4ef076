use std::io::Write;

use skyrim_cell_dump::headers::{decode_group_header, decode_record_header};
use skyrim_cell_dump::{parse_plugin, DecodeError};

fn field(tag: &[u8; 4], data: &[u8]) -> Vec<u8> {
    field_with_size(tag, data.len() as u16, data)
}

fn field_with_size(tag: &[u8; 4], declared: u16, data: &[u8]) -> Vec<u8> {
    let mut v = Vec::new();
    v.extend_from_slice(tag);
    v.extend_from_slice(&declared.to_le_bytes());
    v.extend_from_slice(data);
    v
}

fn record(tag: &[u8; 4], flags: u32, id: u32, payload: &[u8]) -> Vec<u8> {
    let mut v = Vec::new();
    v.extend_from_slice(tag);
    v.extend_from_slice(&(payload.len() as u32).to_le_bytes());
    v.extend_from_slice(&flags.to_le_bytes());
    v.extend_from_slice(&id.to_le_bytes());
    v.extend_from_slice(&0u16.to_le_bytes());
    v.extend_from_slice(&0u16.to_le_bytes());
    v.extend_from_slice(&0u16.to_le_bytes());
    v.extend_from_slice(&0u16.to_le_bytes());
    v.extend_from_slice(payload);
    v
}

fn group(label: &[u8; 4], group_type: i32, contents: &[u8]) -> Vec<u8> {
    let mut v = Vec::new();
    v.extend_from_slice(b"GRUP");
    v.extend_from_slice(&(24 + contents.len() as u32).to_le_bytes());
    v.extend_from_slice(label);
    v.extend_from_slice(&group_type.to_le_bytes());
    v.extend_from_slice(&0u16.to_le_bytes());
    v.extend_from_slice(&0u16.to_le_bytes());
    v.extend_from_slice(&0u32.to_le_bytes());
    v.extend_from_slice(contents);
    v
}

fn hedr_payload(version: f32, count: i32, next_id: u32) -> Vec<u8> {
    let mut data = Vec::new();
    data.extend_from_slice(&version.to_le_bytes());
    data.extend_from_slice(&count.to_le_bytes());
    data.extend_from_slice(&next_id.to_le_bytes());
    field(b"HEDR", &data)
}

fn tes4(extra_fields: &[u8]) -> Vec<u8> {
    let mut payload = hedr_payload(1.7, 1, 0x0800);
    payload.extend_from_slice(extra_fields);
    record(b"TES4", 0, 0, &payload)
}

fn compress(data: &[u8]) -> Vec<u8> {
    let mut enc = flate2::write::ZlibEncoder::new(Vec::new(), flate2::Compression::default());
    enc.write_all(data).unwrap();
    enc.finish().unwrap()
}

#[test]
fn round_trip_minimal_plugin() {
    let cell_payload = field(b"EDID", b"TestCell\0");
    let cell = record(b"CELL", 0, 0xABCD, &cell_payload);
    let mast = field(b"MAST", b"Skyrim.esm\0");
    let mut buf = tes4(&mast);
    buf.extend_from_slice(&group(b"CELL", 0, &cell));

    let plugin = parse_plugin(&buf).unwrap();
    assert_eq!(plugin.header.version_bits, 1.7f32.to_bits());
    assert_eq!(plugin.header.num_records_and_groups, 1);
    assert_eq!(plugin.header.next_object_id, 0x0800);
    assert_eq!(plugin.header.author, None);
    assert_eq!(plugin.header.description, None);
    assert_eq!(plugin.header.masters, vec!["Skyrim.esm".to_string()]);
    assert!(plugin.worlds.is_empty());
    assert_eq!(plugin.cells.len(), 1);
    let c = &plugin.cells[0];
    assert_eq!(c.form_id, 0xABCD);
    assert_eq!(c.editor_id.as_deref(), Some("TestCell"));
    assert_eq!(c.x, None);
    assert_eq!(c.y, None);
    assert_eq!(c.world_form_id, None);
    assert!(!c.is_persistent);
}

#[test]
fn missing_plugin_header_tag() {
    let mut buf = record(b"AAAA", 0, 0, &[]);
    buf.extend_from_slice(&[0u8; 8]);
    assert_eq!(parse_plugin(&buf).unwrap_err(), DecodeError::MissingPluginHeader);

    let grp = group(b"CELL", 0, &[]);
    assert_eq!(parse_plugin(&grp).unwrap_err(), DecodeError::MissingPluginHeader);
}

#[test]
fn truncated_declared_field_size() {
    // The master filename field declares more bytes than the buffer holds:
    // its string is never terminated.
    let mast = field_with_size(b"MAST", 40, b"Skyrim.esm");
    let buf = tes4(&mast);
    assert_eq!(parse_plugin(&buf).unwrap_err(), DecodeError::TruncatedInput);
}

#[test]
fn truncated_record_header() {
    let buf = vec![b'T', b'E', b'S', b'4', 0, 0];
    assert_eq!(parse_plugin(&buf).unwrap_err(), DecodeError::TruncatedInput);
}

#[test]
fn compressed_cell_ignores_size_prefix() {
    let cell_payload = field(b"EDID", b"Packed\0");
    let mut data = Vec::new();
    // A wrong declared-uncompressed-size prefix: its value must be ignored.
    data.extend_from_slice(&0xDEAD_BEEFu32.to_le_bytes());
    data.extend_from_slice(&compress(&cell_payload));
    let cell = record(b"CELL", 0x0004_0000, 7, &data);
    let mut buf = tes4(&[]);
    buf.extend_from_slice(&group(b"CELL", 0, &cell));

    let plugin = parse_plugin(&buf).unwrap();
    assert_eq!(plugin.cells.len(), 1);
    assert_eq!(plugin.cells[0].editor_id.as_deref(), Some("Packed"));
    assert_eq!(plugin.cells[0].form_id, 7);
}

#[test]
fn decompression_failure_is_reported() {
    let mut data = Vec::new();
    data.extend_from_slice(&16u32.to_le_bytes());
    data.extend_from_slice(&[1, 2, 3, 4, 5]);
    let cell = record(b"CELL", 0x0004_0000, 7, &data);
    let mut buf = tes4(&[]);
    buf.extend_from_slice(&group(b"CELL", 0, &cell));
    assert_eq!(parse_plugin(&buf).unwrap_err(), DecodeError::DecompressionFailed);
}

#[test]
fn decode_is_deterministic() {
    let cell_payload = field(b"EDID", b"Twice\0");
    let cell = record(b"CELL", 0x0000_0400, 9, &cell_payload);
    let mut buf = tes4(&field(b"CNAM", b"someone\0"));
    buf.extend_from_slice(&group(b"CELL", 0, &cell));

    let a = parse_plugin(&buf).unwrap();
    let b = parse_plugin(&buf).unwrap();
    assert_eq!(a, b);
    assert_eq!(a.cells[0], b.cells[0].clone());
}

#[test]
fn grid_sizes_twelve_and_sixteen_agree() {
    let mut xclc12 = Vec::new();
    xclc12.extend_from_slice(&(-3i32).to_le_bytes());
    xclc12.extend_from_slice(&25i32.to_le_bytes());
    xclc12.extend_from_slice(&0u32.to_le_bytes());
    let mut payload12 = field(b"XCLC", &xclc12);
    payload12.extend_from_slice(&field(b"EDID", b"Spot\0"));

    // Declared size 16: only the eight coordinate bytes belong to the
    // field itself; the rest of the payload parses as further fields.
    let mut xclc16 = Vec::new();
    xclc16.extend_from_slice(&(-3i32).to_le_bytes());
    xclc16.extend_from_slice(&25i32.to_le_bytes());
    let mut payload16 = field_with_size(b"XCLC", 16, &xclc16);
    payload16.extend_from_slice(&field(b"ZZZZ", &[0xAA, 0xBB]));
    payload16.extend_from_slice(&field(b"EDID", b"Spot\0"));

    let mut plugins = Vec::new();
    for payload in [payload12, payload16] {
        let cell = record(b"CELL", 0, 5, &payload);
        let mut buf = tes4(&[]);
        buf.extend_from_slice(&group(b"CELL", 0, &cell));
        plugins.push(parse_plugin(&buf).unwrap());
    }
    for p in &plugins {
        assert_eq!(p.cells[0].x, Some(-3));
        assert_eq!(p.cells[0].y, Some(25));
        assert_eq!(p.cells[0].editor_id.as_deref(), Some("Spot"));
    }
}

#[test]
fn cell_inside_world_subtree_links_to_world() {
    let world_rec = record(b"WRLD", 0, 0x77, &field(b"EDID", b"MyWorld\0"));
    let cell = record(b"CELL", 0, 0x88, &field(b"EDID", b"WorldCell\0"));
    let inner_group = group(b"AAAA", 1, &cell);
    let mut contents = world_rec;
    contents.extend_from_slice(&inner_group);
    let mut buf = tes4(&[]);
    buf.extend_from_slice(&group(b"WRLD", 0, &contents));

    let plugin = parse_plugin(&buf).unwrap();
    assert_eq!(plugin.worlds.len(), 1);
    assert_eq!(plugin.worlds[0].form_id, 0x77);
    assert_eq!(plugin.worlds[0].editor_id, "MyWorld");
    assert_eq!(plugin.cells.len(), 1);
    assert_eq!(plugin.cells[0].world_form_id, Some(0x77));
}

#[test]
fn new_top_level_group_resets_world_context() {
    let world_rec = record(b"WRLD", 0, 0x77, &field(b"EDID", b"MyWorld\0"));
    let loose_cell = record(b"CELL", 0, 0x99, &field(b"EDID", b"Loose\0"));
    let mut buf = tes4(&[]);
    buf.extend_from_slice(&group(b"WRLD", 0, &world_rec));
    buf.extend_from_slice(&group(b"CELL", 0, &loose_cell));

    let plugin = parse_plugin(&buf).unwrap();
    assert_eq!(plugin.worlds.len(), 1);
    assert_eq!(plugin.cells.len(), 1);
    assert_eq!(plugin.cells[0].world_form_id, None);
}

#[test]
fn interior_subgroup_is_skipped() {
    // Group type 7 marks a record's interior structure: its cells are out
    // of scope and must not be decoded.
    let hidden_cell = record(b"CELL", 0, 0x11, &field(b"EDID", b"Hidden\0"));
    let type7 = group(b"BBBB", 7, &hidden_cell);
    let visible_cell = record(b"CELL", 0, 0x22, &field(b"EDID", b"Seen\0"));
    let mut contents = type7;
    contents.extend_from_slice(&visible_cell);
    let mut buf = tes4(&[]);
    buf.extend_from_slice(&group(b"CELL", 0, &contents));

    let plugin = parse_plugin(&buf).unwrap();
    assert_eq!(plugin.cells.len(), 1);
    assert_eq!(plugin.cells[0].form_id, 0x22);
}

#[test]
fn unrelated_top_level_group_is_skipped() {
    let stray = record(b"CELL", 0, 0x33, &field(b"EDID", b"Stray\0"));
    let mut buf = tes4(&[]);
    buf.extend_from_slice(&group(b"WEAP", 0, &stray));
    let plugin = parse_plugin(&buf).unwrap();
    assert!(plugin.cells.is_empty());
    assert!(plugin.worlds.is_empty());
}

#[test]
fn header_strings_and_masters() {
    // 0xE9 is the legacy codepage's e-acute: the string decoder must map
    // it, not pass the byte through.
    let mut fields = Vec::new();
    fields.extend_from_slice(&field(b"CNAM", &[0x45, 0xE9, 0x00]));
    fields.extend_from_slice(&field(b"SNAM", b"A plugin\0"));
    fields.extend_from_slice(&field(b"MAST", b"Skyrim.esm\0"));
    fields.extend_from_slice(&field(b"DATA", &[0; 8]));
    fields.extend_from_slice(&field(b"MAST", b"Skyrim.esm\0"));
    fields.extend_from_slice(&field(b"INTV", &1u32.to_le_bytes()));
    let buf = tes4(&fields);

    let plugin = parse_plugin(&buf).unwrap();
    assert_eq!(plugin.header.author.as_deref(), Some("E\u{e9}"));
    assert_eq!(plugin.header.description.as_deref(), Some("A plugin"));
    // Duplicates are kept and order is significant.
    assert_eq!(
        plugin.header.masters,
        vec!["Skyrim.esm".to_string(), "Skyrim.esm".to_string()]
    );
}

#[test]
fn header_size_override_applies_to_next_field_only() {
    // An unknown field of 70000 bytes, beyond the 16-bit size limit,
    // preceded by the size-override escape; the master after it must
    // still be found.
    let big = vec![0u8; 70000];
    let mut fields = Vec::new();
    fields.extend_from_slice(&field(b"XXXX", &70000u32.to_le_bytes()));
    fields.extend_from_slice(&field_with_size(b"ONAM", 0, &big));
    fields.extend_from_slice(&field(b"MAST", b"Skyrim.esm\0"));
    let buf = tes4(&fields);

    let plugin = parse_plugin(&buf).unwrap();
    assert_eq!(plugin.header.masters, vec!["Skyrim.esm".to_string()]);
}

#[test]
fn cell_size_override_and_last_wins() {
    let big = vec![0u8; 70000];
    let mut payload = Vec::new();
    payload.extend_from_slice(&field(b"EDID", b"First\0"));
    payload.extend_from_slice(&field(b"XXXX", &70000u32.to_le_bytes()));
    payload.extend_from_slice(&field_with_size(b"TVDT", 0, &big));
    payload.extend_from_slice(&field(b"EDID", b"Second\0"));
    let cell = record(b"CELL", 0, 4, &payload);
    let mut buf = tes4(&[]);
    buf.extend_from_slice(&group(b"CELL", 0, &cell));

    let plugin = parse_plugin(&buf).unwrap();
    assert_eq!(plugin.cells[0].editor_id.as_deref(), Some("Second"));
}

#[test]
fn persistent_flag_and_unknown_flags() {
    // Unknown flag bits (0x2 and 0x4) must be tolerated by masking.
    let cell = record(b"CELL", 0x0000_0400 | 0x6, 12, &field(b"EDID", b"P\0"));
    let mut buf = tes4(&[]);
    buf.extend_from_slice(&group(b"CELL", 0, &cell));
    let plugin = parse_plugin(&buf).unwrap();
    assert!(plugin.cells[0].is_persistent);
}

#[test]
fn world_without_editor_id() {
    let world_rec = record(b"WRLD", 0, 0x77, &field(b"WCTX", &[0; 4]));
    let mut buf = tes4(&[]);
    buf.extend_from_slice(&group(b"WRLD", 0, &world_rec));
    assert_eq!(parse_plugin(&buf).unwrap_err(), DecodeError::MissingEditorId);
}

#[test]
fn plugin_header_must_start_with_metadata_field() {
    let payload = field(b"CNAM", b"author\0");
    let buf = record(b"TES4", 0, 0, &payload);
    assert_eq!(parse_plugin(&buf).unwrap_err(), DecodeError::MalformedHeader);
}

#[test]
fn group_smaller_than_its_header_is_refused() {
    let mut buf = tes4(&[]);
    let mut bad = group(b"CELL", 0, &[]);
    bad[4..8].copy_from_slice(&10u32.to_le_bytes());
    buf.extend_from_slice(&bad);
    assert_eq!(parse_plugin(&buf).unwrap_err(), DecodeError::UnrecognizedHeader);
}

#[test]
fn deep_nesting_is_refused() {
    let mut inner = group(b"AAAA", 1, &[]);
    for _ in 0..70 {
        inner = group(b"AAAA", 1, &inner);
    }
    let mut buf = tes4(&[]);
    buf.extend_from_slice(&inner);
    assert_eq!(parse_plugin(&buf).unwrap_err(), DecodeError::DepthLimitExceeded);
}

#[test]
fn group_header_demands_group_tag() {
    let rec = record(b"CELL", 0, 1, &[]);
    assert_eq!(decode_group_header(&rec, 0).unwrap_err(), DecodeError::UnexpectedTag);
    let grp = group(b"CELL", 0, &[]);
    let g = decode_group_header(&grp, 0).unwrap();
    assert_eq!(g.size, 24);
    assert_eq!(g.group_type, 0);
}

#[test]
fn record_tag_must_be_valid_text() {
    let mut rec = record(b"CELL", 0, 1, &[]);
    rec[0] = 0xFF;
    assert_eq!(decode_record_header(&rec, 0).unwrap_err(), DecodeError::InvalidEncoding);
    // The same failure surfaces from a whole-plugin decode.
    let mut buf = tes4(&[]);
    buf.extend_from_slice(&rec);
    assert_eq!(parse_plugin(&buf).unwrap_err(), DecodeError::InvalidEncoding);
}

#[test]
fn record_header_refuses_group_tag() {
    let grp = group(b"CELL", 0, &[]);
    assert_eq!(decode_record_header(&grp, 0).unwrap_err(), DecodeError::UnexpectedTag);
}

#[test]
fn unknown_records_are_skipped() {
    let stray = record(b"NPC_", 0, 0x44, &field(b"EDID", b"Someone\0"));
    let cell = record(b"CELL", 0, 0x55, &field(b"EDID", b"After\0"));
    let mut contents = stray;
    contents.extend_from_slice(&cell);
    let mut buf = tes4(&[]);
    buf.extend_from_slice(&group(b"CELL", 0, &contents));
    let plugin = parse_plugin(&buf).unwrap();
    assert_eq!(plugin.cells.len(), 1);
    assert_eq!(plugin.cells[0].form_id, 0x55);
}

#[test]
fn world_editor_id_with_trailing_fields() {
    // The world dispatcher consumes the record's remaining bytes, counted
    // from the declared sizes, without interpreting them.
    let mut payload = field(b"EDID", b"Tamriel\0");
    payload.extend_from_slice(&field(b"WCTX", &[1, 2, 3, 4]));
    let world_rec = record(b"WRLD", 0, 0x10, &payload);
    let after = record(b"CELL", 0, 0x20, &field(b"EDID", b"Next\0"));
    let mut contents = world_rec;
    contents.extend_from_slice(&after);
    let mut buf = tes4(&[]);
    buf.extend_from_slice(&group(b"WRLD", 0, &contents));

    let plugin = parse_plugin(&buf).unwrap();
    assert_eq!(plugin.worlds.len(), 1);
    assert_eq!(plugin.worlds[0].editor_id, "Tamriel");
    assert_eq!(plugin.cells.len(), 1);
    assert_eq!(plugin.cells[0].form_id, 0x20);
    assert_eq!(plugin.cells[0].world_form_id, Some(0x10));
}

#[test]
fn field_tag_must_be_valid_text() {
    // In the plugin-header field loop.
    let mut bad = field(b"AAAA", &[0u8; 2]);
    bad[0] = 0xFF;
    let buf = tes4(&bad);
    assert_eq!(parse_plugin(&buf).unwrap_err(), DecodeError::InvalidEncoding);

    // In a cell payload.
    let mut cf = field(b"AAAA", &[0u8; 2]);
    cf[0] = 0xFF;
    let cell = record(b"CELL", 0, 3, &cf);
    let mut buf2 = tes4(&[]);
    buf2.extend_from_slice(&group(b"CELL", 0, &cell));
    assert_eq!(parse_plugin(&buf2).unwrap_err(), DecodeError::InvalidEncoding);

    // In a world record's leading field.
    let mut wf = field(b"EDID", b"W\0");
    wf[0] = 0xFF;
    let world_rec = record(b"WRLD", 0, 1, &wf);
    let mut buf3 = tes4(&[]);
    buf3.extend_from_slice(&group(b"WRLD", 0, &world_rec));
    assert_eq!(parse_plugin(&buf3).unwrap_err(), DecodeError::InvalidEncoding);
}

#[test]
fn leading_metadata_field_tag_must_be_valid_text() {
    let mut payload = hedr_payload(1.7, 0, 0);
    payload[0] = 0xFF;
    let buf = record(b"TES4", 0, 0, &payload);
    assert_eq!(parse_plugin(&buf).unwrap_err(), DecodeError::InvalidEncoding);
}
