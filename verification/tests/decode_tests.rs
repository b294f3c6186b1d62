use wadd::records::{decode_entry, decode_texture};
use wadd::{buf_to_string, encode_directory_entry, DirectoryEntry, FormatIssue, Wad, WadError, WadType};

fn name8(name: &str) -> Vec<u8> {
    let mut field = name.as_bytes().to_vec();
    while field.len() < 8 {
        field.push(0);
    }
    field
}

fn dir_entry(offset: i32, size: i32, name: &str) -> Vec<u8> {
    let mut bytes = Vec::new();
    bytes.extend_from_slice(&offset.to_le_bytes());
    bytes.extend_from_slice(&size.to_le_bytes());
    bytes.extend_from_slice(&name8(name));
    bytes
}

fn header(signature: &[u8; 4], num_entries: i32, directory_offset: i32) -> Vec<u8> {
    let mut bytes = Vec::new();
    bytes.extend_from_slice(signature);
    bytes.extend_from_slice(&num_entries.to_le_bytes());
    bytes.extend_from_slice(&directory_offset.to_le_bytes());
    bytes
}

fn vertex(x: i16, y: i16) -> Vec<u8> {
    let mut b = Vec::new();
    b.extend_from_slice(&x.to_le_bytes());
    b.extend_from_slice(&y.to_le_bytes());
    b
}

fn linedef(vb: i16, ve: i16, right: i16, left: i16) -> Vec<u8> {
    let mut b = Vec::new();
    for v in [vb, ve, 0i16, 0i16, 0i16, right, left] {
        b.extend_from_slice(&v.to_le_bytes());
    }
    b
}

fn sidedef(sector: u16, middle: &str) -> Vec<u8> {
    let mut b = Vec::new();
    b.extend_from_slice(&0i16.to_le_bytes());
    b.extend_from_slice(&0i16.to_le_bytes());
    b.extend_from_slice(&name8("-"));
    b.extend_from_slice(&name8("-"));
    b.extend_from_slice(&name8(middle));
    b.extend_from_slice(&sector.to_le_bytes());
    b
}

fn sector(light: i16) -> Vec<u8> {
    let mut b = Vec::new();
    b.extend_from_slice(&0i16.to_le_bytes());
    b.extend_from_slice(&128i16.to_le_bytes());
    b.extend_from_slice(&name8("FLOOR4_8"));
    b.extend_from_slice(&name8("CEIL3_5"));
    b.extend_from_slice(&light.to_le_bytes());
    b.extend_from_slice(&0u16.to_le_bytes());
    b.extend_from_slice(&0u16.to_le_bytes());
    b
}

fn thing(x: i16, y: i16, type_code: i16) -> Vec<u8> {
    let mut b = Vec::new();
    for v in [x, y, 90i16, type_code, 7i16] {
        b.extend_from_slice(&v.to_le_bytes());
    }
    b
}

/// A container with one map holding a closed square sector.
fn square_map_wad() -> Vec<u8> {
    let mut lumps: Vec<u8> = Vec::new();
    let base = 12i32;

    let things = thing(32, 32, 1);
    let things_off = base + lumps.len() as i32;
    lumps.extend_from_slice(&things);

    let mut vertexes = Vec::new();
    vertexes.extend_from_slice(&vertex(0, 0));
    vertexes.extend_from_slice(&vertex(64, 0));
    vertexes.extend_from_slice(&vertex(64, 64));
    vertexes.extend_from_slice(&vertex(0, 64));
    let vertexes_off = base + lumps.len() as i32;
    lumps.extend_from_slice(&vertexes);

    let mut linedefs = Vec::new();
    linedefs.extend_from_slice(&linedef(0, 1, 0, 0));
    linedefs.extend_from_slice(&linedef(1, 2, 0, 0));
    linedefs.extend_from_slice(&linedef(2, 3, 0, 0));
    linedefs.extend_from_slice(&linedef(3, 0, 0, 0));
    let linedefs_off = base + lumps.len() as i32;
    lumps.extend_from_slice(&linedefs);

    let sidedefs = sidedef(0, "STARTAN3");
    let sidedefs_off = base + lumps.len() as i32;
    lumps.extend_from_slice(&sidedefs);

    let sectors = sector(160);
    let sectors_off = base + lumps.len() as i32;
    lumps.extend_from_slice(&sectors);

    let dir_off = base + lumps.len() as i32;
    let mut dir = Vec::new();
    dir.extend_from_slice(&dir_entry(base, 0, "MAP01"));
    dir.extend_from_slice(&dir_entry(things_off, things.len() as i32, "THINGS"));
    dir.extend_from_slice(&dir_entry(linedefs_off, linedefs.len() as i32, "LINEDEFS"));
    dir.extend_from_slice(&dir_entry(sidedefs_off, sidedefs.len() as i32, "SIDEDEFS"));
    dir.extend_from_slice(&dir_entry(vertexes_off, vertexes.len() as i32, "VERTEXES"));
    dir.extend_from_slice(&dir_entry(sectors_off, sectors.len() as i32, "SECTORS"));

    let mut data = header(b"IWAD", 6, dir_off);
    data.extend_from_slice(&lumps);
    data.extend_from_slice(&dir);
    data
}

#[test]
fn minimal_container_decodes_to_zero_maps() {
    let data = header(b"PWAD", 0, 12);
    let wad = Wad::open(&data).unwrap();
    assert!(matches!(wad.wad_type, WadType::PWAD));
    assert_eq!(wad.directory.len(), 0);
    assert_eq!(wad.maps.len(), 0);
}

#[test]
fn unrecognized_signature_is_rejected() {
    let data = header(b"WAD2", 0, 12);
    let err = Wad::open(&data).unwrap_err();
    assert!(matches!(err, WadError::FormatError(FormatIssue::BadSignature)));
}

#[test]
fn truncated_header_is_an_io_error() {
    let data = vec![0x49u8, 0x57, 0x41];
    let err = Wad::open(&data).unwrap_err();
    assert!(matches!(err, WadError::IoError));
}

#[test]
fn directory_reaching_outside_container_is_an_io_error() {
    let data = header(b"IWAD", 2, 12);
    let err = Wad::open(&data).unwrap_err();
    assert!(matches!(err, WadError::IoError));
}

#[test]
fn name_field_trims_null_padding() {
    let buf = [b'M', b'A', b'P', b'0', b'1', 0, 0, 0];
    assert_eq!(buf_to_string(&buf), Some(String::from("MAP01")));
}

#[test]
fn name_field_cuts_at_first_control_byte() {
    let buf = [b'A', b'B', 0x07, b'C', 0, 0, 0, 0];
    assert_eq!(buf_to_string(&buf), Some(String::from("AB")));
}

#[test]
fn name_field_decodes_multi_byte_text() {
    // A two-byte UTF-8 character followed by null padding.
    let buf = [0xC3u8, 0xA9, b'X', 0, 0, 0, 0, 0];
    assert_eq!(buf_to_string(&buf), Some(String::from("\u{e9}X")));
}

#[test]
fn name_field_with_invalid_text_is_rejected() {
    let buf = [0xFFu8, 0xFE, b'A', 0, 0, 0, 0, 0];
    assert_eq!(buf_to_string(&buf), None);
}

#[test]
fn texture_placeholder_decodes_to_absent() {
    let buf = name8("-");
    assert_eq!(decode_texture(&buf), None);
}

#[test]
fn texture_name_decodes_to_present() {
    let buf = name8("STARTAN3");
    assert_eq!(decode_texture(&buf), Some(String::from("STARTAN3")));
}

#[test]
fn directory_entry_round_trips_through_its_byte_layout() {
    let entry = DirectoryEntry { name: String::from("MAP01"), offset: 123456, size: -7 };
    let bytes = encode_directory_entry(&entry);
    assert_eq!(bytes.len(), 16);
    let decoded = decode_entry(&bytes).unwrap();
    assert_eq!(decoded.name, "MAP01");
    assert_eq!(decoded.offset, 123456);
    assert_eq!(decoded.size, -7);
}

#[test]
fn one_map_container_decodes_every_lump() {
    let data = square_map_wad();
    let wad = Wad::open(&data).unwrap();
    assert!(matches!(wad.wad_type, WadType::IWAD));
    assert_eq!(wad.directory.len(), 6);
    assert_eq!(wad.maps.len(), 1);
    let map = &wad.maps[0];
    assert_eq!(map.name, "MAP01");
    assert_eq!(map.things.len(), 1);
    assert_eq!(map.things[0].x, 32);
    assert_eq!(map.things[0].type_code, 1);
    assert_eq!(map.vertexes.len(), 4);
    assert_eq!(map.vertexes[1].x, 64);
    assert_eq!(map.vertexes[2].y, 64);
    assert_eq!(map.linedefs.len(), 4);
    assert_eq!(map.linedefs[1].vertex_begin, 1);
    assert_eq!(map.linedefs[1].vertex_end, 2);
    assert_eq!(map.sidedefs.len(), 1);
    assert_eq!(map.sidedefs[0].sector, 0);
    assert_eq!(map.sidedefs[0].upper_texture, None);
    assert_eq!(map.sidedefs[0].middle_texture, Some(String::from("STARTAN3")));
    assert_eq!(map.sectors.len(), 1);
    assert_eq!(map.sectors[0].floor_texture, "FLOOR4_8");
    assert_eq!(map.sectors[0].ceiling_texture, "CEIL3_5");
    assert_eq!(map.sectors[0].light_level, 160);
}

#[test]
fn misaligned_linedefs_lump_is_malformed() {
    let mut data = header(b"PWAD", 2, 12 + 15);
    data.extend_from_slice(&[0u8; 15]);
    let mut dir = Vec::new();
    dir.extend_from_slice(&dir_entry(12, 0, "MAP01"));
    dir.extend_from_slice(&dir_entry(12, 15, "LINEDEFS"));
    data.extend_from_slice(&dir);
    let err = Wad::open(&data).unwrap_err();
    match err {
        WadError::MalformedLump { lump, size, record_size } => {
            assert_eq!(lump, "LINEDEFS");
            assert_eq!(size, 15);
            assert_eq!(record_size, 14);
        },
        other => panic!("expected a malformed-lump error, got {:?}", other),
    }
}

#[test]
fn invalid_sector_texture_is_a_format_error() {
    let mut bad_sector = sector(128);
    bad_sector[4] = 0xFF;
    bad_sector[5] = 0xFE;
    let mut data = header(b"PWAD", 2, 12 + bad_sector.len() as i32);
    data.extend_from_slice(&bad_sector);
    let mut dir = Vec::new();
    dir.extend_from_slice(&dir_entry(12, 0, "E1M1"));
    dir.extend_from_slice(&dir_entry(12, bad_sector.len() as i32, "SECTORS"));
    data.extend_from_slice(&dir);
    let err = Wad::open(&data).unwrap_err();
    match err {
        WadError::FormatError(FormatIssue::BadTexture { lump, record }) => {
            assert_eq!(lump, "SECTORS");
            assert_eq!(record, 0);
        },
        other => panic!("expected a bad-texture error, got {:?}", other),
    }
}

#[test]
fn invalid_directory_name_is_a_format_error() {
    let mut entry = dir_entry(12, 0, "MAP01");
    entry[8] = 0xFF;
    entry[9] = 0xFE;
    let mut data = header(b"PWAD", 1, 12);
    data.extend_from_slice(&entry);
    let err = Wad::open(&data).unwrap_err();
    match err {
        WadError::FormatError(FormatIssue::BadName { entry, offset }) => {
            assert_eq!(entry, 0);
            assert_eq!(offset, 12);
        },
        other => panic!("expected a bad-name error, got {:?}", other),
    }
}

#[test]
fn marker_with_no_lump_run_is_an_empty_map() {
    let mut data = header(b"PWAD", 1, 12);
    data.extend_from_slice(&dir_entry(12, 0, "MAP07"));
    let wad = Wad::open(&data).unwrap();
    assert_eq!(wad.maps.len(), 1);
    assert_eq!(wad.maps[0].name, "MAP07");
    assert_eq!(wad.maps[0].linedefs.len(), 0);
    assert_eq!(wad.maps[0].sectors.len(), 0);
    assert_eq!(wad.maps[0].sidedefs.len(), 0);
    assert_eq!(wad.maps[0].things.len(), 0);
    assert_eq!(wad.maps[0].vertexes.len(), 0);
}

#[test]
fn maps_come_back_sorted_by_name() {
    let mut data = header(b"PWAD", 2, 12);
    data.extend_from_slice(&dir_entry(12, 0, "MAP02"));
    data.extend_from_slice(&dir_entry(12, 0, "MAP01"));
    let wad = Wad::open(&data).unwrap();
    assert_eq!(wad.maps.len(), 2);
    assert_eq!(wad.maps[0].name, "MAP01");
    assert_eq!(wad.maps[1].name, "MAP02");
}

#[test]
fn later_marker_with_same_name_replaces_the_earlier_map() {
    let things = thing(5, 6, 1);
    let mut data = header(b"PWAD", 3, 12 + things.len() as i32);
    data.extend_from_slice(&things);
    let mut dir = Vec::new();
    dir.extend_from_slice(&dir_entry(12, 0, "MAP01"));
    dir.extend_from_slice(&dir_entry(12, 0, "MAP01"));
    dir.extend_from_slice(&dir_entry(12, things.len() as i32, "THINGS"));
    data.extend_from_slice(&dir);
    let wad = Wad::open(&data).unwrap();
    assert_eq!(wad.maps.len(), 1);
    assert_eq!(wad.maps[0].things.len(), 1);
    assert_eq!(wad.maps[0].things[0].x, 5);
}

#[test]
fn negative_lump_size_multiple_reads_nothing() {
    let entry = DirectoryEntry { name: String::from("VERTEXES"), offset: 12, size: -8 };
    let data = header(b"PWAD", 0, 12);
    let vertexes = wadd::lumps::decode_vertexes(&data, &entry).unwrap();
    assert_eq!(vertexes.len(), 0);
}

#[test]
fn lump_reaching_outside_container_is_an_io_error() {
    let entry = DirectoryEntry { name: String::from("VERTEXES"), offset: 12, size: 4 };
    let data = header(b"PWAD", 0, 12);
    let err = wadd::lumps::decode_vertexes(&data, &entry).unwrap_err();
    assert!(matches!(err, WadError::IoError));
}

#[test]
fn find_map_reports_absent_names() {
    let data = square_map_wad();
    let wad = Wad::open(&data).unwrap();
    assert!(wadd::find_map(&wad.maps, "MAP01").is_ok());
    let err = wadd::find_map(&wad.maps, "MAP99").unwrap_err();
    assert!(matches!(err, WadError::MapNotFound));
}
