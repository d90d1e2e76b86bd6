use mrf_tool::error::MrfError;
use mrf_tool::ops::{add_manifest, build_record, read_manifest, remove_manifest, validate_module};
use mrf_tool::stream::{find_manifest_section, next_section, scan_sections, Section};
use mrf_tool::varint::{leb_decode, leb_encode_vec, leb_encoded_size};
use std::borrow::Cow;
use wasm_encoder::ComponentSection;

const EMPTY_MODULE: [u8; 8] = [0x00, 0x61, 0x73, 0x6d, 0x01, 0x00, 0x00, 0x00];
const EMPTY_COMPONENT: [u8; 8] = [0x00, 0x61, 0x73, 0x6d, 0x0d, 0x00, 0x01, 0x00];

fn reference_encode(v: u64) -> Vec<u8> {
    let mut out = Vec::new();
    leb128::write::unsigned(&mut out, v).unwrap();
    out
}

#[test]
fn leb_encode_matches_reference_crate() {
    for v in [
        0u64,
        1,
        2,
        127,
        128,
        129,
        300,
        624485,
        16383,
        16384,
        u32::MAX as u64,
        u64::MAX - 1,
        u64::MAX,
    ] {
        let ours = leb_encode_vec(v);
        let theirs = reference_encode(v);
        assert_eq!(ours, theirs, "encoding of {v}");
        assert_eq!(leb_encoded_size(v), theirs.len(), "size of {v}");
    }
}

#[test]
fn leb_decode_roundtrip() {
    for v in [0u64, 1, 127, 128, 16383, 16384, 624485, u64::MAX] {
        let mut bytes = leb_encode_vec(v);
        bytes.push(0xAA); // trailing byte must not confuse the decoder
        let (value, width) = leb_decode(&bytes, 0).unwrap();
        assert_eq!(value, v);
        assert_eq!(width, bytes.len() - 1);
    }
}

#[test]
fn leb_decode_accepts_non_canonical() {
    // 0x80 0x00 is a two-byte encoding of zero
    let (value, width) = leb_decode(&[0x80, 0x00], 0).unwrap();
    assert_eq!(value, 0);
    assert_eq!(width, 2);
}

#[test]
fn leb_decode_rejects_broken_varints() {
    // buffer exhausted before the terminating byte
    assert_eq!(leb_decode(&[0x80], 0), Err(MrfError::MalformedStream));
    assert_eq!(leb_decode(&[], 0), Err(MrfError::MalformedStream));
    // no terminator within the maximum width for 64 bits
    assert_eq!(leb_decode(&[0x80; 11], 0), Err(MrfError::MalformedStream));
    // ten bytes whose value needs more than 64 bits
    let too_big = [0xFF, 0xFF, 0xFF, 0xFF, 0xFF, 0xFF, 0xFF, 0xFF, 0xFF, 0x7F];
    assert_eq!(leb_decode(&too_big, 0), Err(MrfError::MalformedStream));
    // exactly u64::MAX still fits
    let max = [0xFF, 0xFF, 0xFF, 0xFF, 0xFF, 0xFF, 0xFF, 0xFF, 0xFF, 0x01];
    assert_eq!(leb_decode(&max, 0), Ok((u64::MAX, 10)));
}

#[test]
fn record_matches_wasm_encoder() {
    for data in [
        &b""[..],
        &b"{\"v\":1}"[..],
        &vec![0x55u8; 127][..],
        &vec![0x66u8; 128][..],
        &vec![0x77u8; 16384][..],
    ] {
        let ours = build_record(b"manifest-v0", data);
        let mut theirs = Vec::new();
        let section = wasm_encoder::CustomSection {
            name: Cow::Borrowed("manifest-v0"),
            data: Cow::Borrowed(data),
        };
        section.append_to_component(&mut theirs);
        assert_eq!(ours, theirs, "record for {} data bytes", data.len());
    }
}

#[test]
fn scenario_empty_module() {
    let payload = b"{\"v\":1}";
    let produced = add_manifest(&EMPTY_MODULE, payload);

    // exactly one section: tag 0, named "manifest-v0", data decoding to {"v":1}
    let (section, next) = next_section(&produced, 8).unwrap();
    assert_eq!(next, produced.len(), "one section fills the file");
    match section {
        Section::Custom { payload_start: _, payload_end, name_start, data_start } => {
            assert_eq!(&produced[name_start..data_start], b"manifest-v0");
            assert_eq!(&produced[data_start..payload_end], payload);
        },
        Section::Other { .. } => panic!("expected a custom section"),
    }

    let rendered = read_manifest(&produced).unwrap();
    assert_eq!(rendered, "{\n  \"v\": 1\n}");

    let removed = remove_manifest(&produced).unwrap();
    assert_eq!(removed, EMPTY_MODULE.to_vec());
}

#[test]
fn read_gives_pretty_printed_payload() {
    let payload = b"{\"name\":\"demo\",\"list\":[1,2,3]}";
    let produced = add_manifest(&EMPTY_MODULE, payload);
    let rendered = read_manifest(&produced).unwrap();
    let value: serde_json::Value = serde_json::from_slice(payload).unwrap();
    assert_eq!(rendered, serde_json::to_string_pretty(&value).unwrap());
    // pretty-printing reflows the document: the wrapper did real work
    assert_ne!(rendered.as_bytes(), payload);
}

#[test]
fn read_is_idempotent() {
    let produced = add_manifest(&EMPTY_MODULE, b"[1,2,{\"k\":null}]");
    let first = read_manifest(&produced).unwrap();
    let second = read_manifest(&produced).unwrap();
    assert_eq!(first, second);
}

#[test]
fn missing_manifest_is_reported() {
    assert_eq!(read_manifest(&EMPTY_MODULE), Err(MrfError::ManifestNotFound));
    assert_eq!(remove_manifest(&EMPTY_MODULE).unwrap_err(), MrfError::ManifestNotFound);
    // an unrelated custom section does not count: name "note", empty data
    let mut with_note = EMPTY_MODULE.to_vec();
    with_note.extend_from_slice(&[0x00, 0x05, 0x04, b'n', b'o', b't', b'e']);
    assert_eq!(read_manifest(&with_note), Err(MrfError::ManifestNotFound));
}

#[test]
fn removal_restores_original() {
    // a base module with a type section and an unrelated custom section
    let mut base = EMPTY_MODULE.to_vec();
    base.extend_from_slice(&[0x01, 0x04, 0x01, 0x60, 0x00, 0x00]); // type section
    base.extend_from_slice(&[0x00, 0x05, 0x04, b'n', b'o', b't', b'e']); // custom "note"
    let produced = add_manifest(&base, b"{\"v\":2}");
    assert_eq!(remove_manifest(&produced).unwrap(), base);
}

#[test]
fn header_sizes_across_leb_boundaries() {
    // name field adds 12 bytes to the payload the header counts, so both the
    // raw data sizes and the shifted ones cross the 1/2- and 2/3-byte widths
    for size in [0usize, 114, 115, 116, 127, 128, 129, 16370, 16371, 16372, 16383, 16384, 16385] {
        let data = vec![0xABu8; size];
        let produced = add_manifest(&EMPTY_MODULE, &data);
        let m = find_manifest_section(&produced).unwrap();
        assert_eq!(&produced[m.data_start..m.payload_end], &data[..], "data at {size}");
        let removed = remove_manifest(&produced).unwrap();
        assert_eq!(removed, EMPTY_MODULE.to_vec(), "removal at {size}");
    }
}

#[test]
fn first_match_wins_after_double_add() {
    let once = add_manifest(&EMPTY_MODULE, b"{\"v\":1}");
    let twice = add_manifest(&once, b"{\"v\":2}");
    let rendered = read_manifest(&twice).unwrap();
    assert_eq!(rendered, "{\n  \"v\": 1\n}");
    // removing strips the first record only; the second stays behind
    let after = remove_manifest(&twice).unwrap();
    let rendered_again = read_manifest(&after).unwrap();
    assert_eq!(rendered_again, "{\n  \"v\": 2\n}");
}

#[test]
fn truncation_yields_malformed_stream() {
    for data in [&b"{}"[..], &b"{\"v\":1}"[..], &vec![0x11u8; 127][..], &vec![0x22u8; 128][..]] {
        let produced = add_manifest(&EMPTY_MODULE, data);
        let truncated = &produced[..produced.len() - 1];
        assert_eq!(read_manifest(truncated), Err(MrfError::MalformedStream));
        assert_eq!(remove_manifest(truncated).unwrap_err(), MrfError::MalformedStream);
    }
    // cutting into the length field itself: a record for 200 data bytes has a
    // two-byte length field; keep the header's first length byte only
    let produced = add_manifest(&EMPTY_MODULE, &vec![0x33u8; 200]);
    let cut = &produced[..8 + 2];
    assert_eq!(read_manifest(cut), Err(MrfError::MalformedStream));
}

#[test]
fn malformed_streams_are_rejected() {
    // bad magic
    assert_eq!(read_manifest(b"\x01asm\x01\x00\x00\x00"), Err(MrfError::MalformedStream));
    // too short for a preamble
    assert_eq!(read_manifest(&[0x00, 0x61, 0x73]), Err(MrfError::MalformedStream));
    // unknown version word
    assert_eq!(
        read_manifest(&[0x00, 0x61, 0x73, 0x6d, 0x02, 0x00, 0x00, 0x00]),
        Err(MrfError::MalformedStream)
    );
    // a tag byte with no length varint behind it
    let mut trailing = EMPTY_MODULE.to_vec();
    trailing.push(0x01);
    assert_eq!(read_manifest(&trailing), Err(MrfError::MalformedStream));
    // a length that overruns the buffer
    let mut overrun = EMPTY_MODULE.to_vec();
    overrun.extend_from_slice(&[0x00, 0x05, 0x00]);
    assert_eq!(read_manifest(&overrun), Err(MrfError::MalformedStream));
    // an unterminated length varint
    let mut unterminated = EMPTY_MODULE.to_vec();
    unterminated.extend_from_slice(&[0x00, 0x80]);
    assert_eq!(read_manifest(&unterminated), Err(MrfError::MalformedStream));
}

#[test]
fn invalid_json_payload_is_reported() {
    let produced = add_manifest(&EMPTY_MODULE, b"not json at all");
    match read_manifest(&produced) {
        Err(MrfError::PayloadDecodeFailure(msg)) => assert!(!msg.is_empty()),
        other => panic!("expected a payload decode failure, got {other:?}"),
    }
}

#[test]
fn component_preambles_are_walked_too() {
    let produced = add_manifest(&EMPTY_COMPONENT, b"{\"v\":3}");
    assert_eq!(read_manifest(&produced).unwrap(), "{\n  \"v\": 3\n}");
    assert_eq!(remove_manifest(&produced).unwrap(), EMPTY_COMPONENT.to_vec());
}

#[test]
fn validator_verdicts_are_surfaced() {
    assert_eq!(validate_module(&EMPTY_MODULE), Ok(()));
    match validate_module(&[0x00, 0x61, 0x73, 0x6d, 0x02, 0x00, 0x00, 0x00]) {
        Err(MrfError::ValidationFailure(msg)) => assert!(!msg.is_empty()),
        other => panic!("expected a validation failure, got {other:?}"),
    }
    // a manifest-carrying module still validates: custom sections are inert
    let produced = add_manifest(&EMPTY_MODULE, b"{\"v\":1}");
    assert_eq!(validate_module(&produced), Ok(()));
}

#[test]
fn scanner_lists_sections_in_order() {
    assert_eq!(scan_sections(&EMPTY_MODULE).unwrap(), Vec::new());
    let mut base = EMPTY_MODULE.to_vec();
    base.extend_from_slice(&[0x01, 0x04, 0x01, 0x60, 0x00, 0x00]); // type section
    base.extend_from_slice(&[0x00, 0x05, 0x04, b'n', b'o', b't', b'e']); // custom "note"
    let produced = add_manifest(&base, b"{}");
    let sections = scan_sections(&produced).unwrap();
    assert_eq!(sections.len(), 3);
    match sections[0] {
        Section::Other { tag, payload_start, payload_end } => {
            assert_eq!(tag, 1);
            assert_eq!(payload_start, 10);
            assert_eq!(payload_end, 14);
        },
        Section::Custom { .. } => panic!("first section is not custom"),
    }
    match sections[1] {
        Section::Custom { name_start, data_start, .. } => {
            assert_eq!(&produced[name_start..data_start], b"note");
        },
        Section::Other { .. } => panic!("second section is custom"),
    }
    match sections[2] {
        Section::Custom { name_start, data_start, payload_end, .. } => {
            assert_eq!(&produced[name_start..data_start], b"manifest-v0");
            assert_eq!(&produced[data_start..payload_end], b"{}");
            assert_eq!(payload_end, produced.len());
        },
        Section::Other { .. } => panic!("last section is custom"),
    }
    // partial trailing bytes after the last section are not ignored
    let mut trailing = produced.clone();
    trailing.push(0x00);
    assert_eq!(scan_sections(&trailing).unwrap_err(), MrfError::MalformedStream);
}
