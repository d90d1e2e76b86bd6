//! The operations over whole binaries: building a manifest record, appending
//! it, locating and rendering the payload, splicing the record out again, and
//! forwarding a buffer to the external validator.

use crate::error::MrfError;
use crate::json::{is_valid_json, json_error_message, json_pretty_of, json_render};
use crate::stream::{
    find_manifest_section, find_manifest_spec, lemma_sec_end_bounds, manifest_name,
    manifest_name_bytes, sec_data_start, sec_end, sec_payload_len, sec_payload_start, FindSpec,
};
use crate::varint::{
    leb_encode, leb_encode_vec, leb_encoded_size, leb_size, leb_width_of, lemma_leb_min_width,
    lemma_leb_width_shape,
};
use crate::wasm::{wasm_error_message, wasm_is_valid, wasm_validate};
use vstd::prelude::*;

verus! {

/// The payload length a manifest record's outer header declares: the name's
/// own length prefix, the name, and the data.
pub open spec fn record_payload_len(name: Seq<u8>, data: Seq<u8>) -> nat {
    leb_size(name.len()) + name.len() + data.len()
}

/// The bytes of one custom-section record: the tag byte 0, the LEB128 length
/// of the whole payload, the length-prefixed name, then the data.
pub open spec fn record_spec(name: Seq<u8>, data: Seq<u8>) -> Seq<u8> {
    seq![0u8] + leb_encode(record_payload_len(name, data)) + leb_encode(name.len()) + name + data
}

/// The binary with a freshly built manifest record carrying `data` appended;
/// every original byte stays in place.
pub open spec fn add_spec(b: Seq<u8>, data: Seq<u8>) -> Seq<u8> {
    b + record_spec(manifest_name(), data)
}

/// Appends `src` to `dst`.
fn push_bytes(dst: &mut Vec<u8>, src: &[u8])
    ensures
        final(dst)@ == old(dst)@ + src@,
{
    let ghost dst0 = old(dst)@;
    let mut i: usize = 0;
    while i < src.len()
        invariant
            i <= src@.len(),
            dst@ == dst0 + src@.subrange(0, i as int),
        decreases src@.len() - i,
    {
        let ghost pre = dst@;
        dst.push(src[i]);
        proof {
            assert(dst0 + src@.subrange(0, i + 1) =~= pre.push(src@[i as int]));
        }
        i = i + 1;
    }
    proof {
        assert(src@.subrange(0, src@.len() as int) =~= src@);
    }
}

/// Builds a well-formed custom-section record for `name` and `data`, ready to
/// append to a binary.
pub fn build_record(name: &[u8], data: &[u8]) -> (r: Vec<u8>)
    requires
        name@.len() + data@.len() + 10 <= usize::MAX,
    ensures
        r@ == record_spec(name@, data@),
{
    let nlen_size = leb_encoded_size(name.len() as u64);
    let inner: u64 = nlen_size as u64 + name.len() as u64 + data.len() as u64;
    let mut out: Vec<u8> = Vec::new();
    out.push(0);
    let mut lenv = leb_encode_vec(inner);
    out.append(&mut lenv);
    let mut nlenv = leb_encode_vec(name.len() as u64);
    out.append(&mut nlenv);
    push_bytes(&mut out, name);
    push_bytes(&mut out, data);
    proof {
        assert(out@ =~= record_spec(name@, data@));
    }
    out
}

/// Copies the binary and appends a manifest record carrying `data` at its
/// end. Append-only: the record is never inserted mid-stream, and a manifest
/// section already present is left where it is.
pub fn add_manifest(blob: &[u8], data: &[u8]) -> (r: Vec<u8>)
    requires
        blob@.len() + data@.len() + 23 <= usize::MAX,
    ensures
        r@ == add_spec(blob@, data@),
{
    let name = manifest_name_bytes();
    let mut out: Vec<u8> = Vec::new();
    push_bytes(&mut out, blob);
    let mut rec = build_record(name.as_slice(), data);
    out.append(&mut rec);
    proof {
        assert(out@ =~= add_spec(blob@, data@));
    }
    out
}

/// The width of the full record header for a payload of length `plen`: the
/// tag byte plus the canonical LEB128 width of the length field.
pub open spec fn splice_header_size(plen: nat) -> int {
    1 + leb_size(plen) as int
}

/// The binary with the full record around the payload range cut out; every
/// byte outside the removed record is kept verbatim.
pub open spec fn splice_spec(b: Seq<u8>, payload_start: int, payload_end: int) -> Seq<u8> {
    b.take(payload_start - splice_header_size((payload_end - payload_start) as nat)) + b.skip(
        payload_end,
    )
}

/// Cuts the full record owning the payload range out of the binary. The
/// record's start is re-derived from the payload length alone, relying on the
/// canonical LEB128 width of that length being unique; fails when the derived
/// start would fall before the buffer's beginning.
pub fn splice_record(blob: &[u8], payload_start: usize, payload_end: usize) -> (r: Result<
    Vec<u8>,
    MrfError,
>)
    requires
        payload_start <= payload_end <= blob@.len(),
    ensures
        r is Ok == (payload_start >= splice_header_size((payload_end - payload_start) as nat)),
        r matches Ok(v) ==> v@ == splice_spec(blob@, payload_start as int, payload_end as int),
        r matches Err(e) ==> e == MrfError::MalformedStream,
{
    let plen = payload_end - payload_start;
    let hs = 1 + leb_encoded_size(plen as u64);
    if payload_start < hs {
        return Err(MrfError::MalformedStream);
    }
    let record_start = payload_start - hs;
    let mut out: Vec<u8> = Vec::new();
    push_bytes(&mut out, &blob[0..record_start]);
    push_bytes(&mut out, &blob[payload_end..blob.len()]);
    proof {
        assert(out@ =~= splice_spec(blob@, payload_start as int, payload_end as int));
    }
    Ok(out)
}

/// The start offset of the section the scan found, where it found one.
pub open spec fn found_start(b: Seq<u8>) -> int {
    match find_manifest_spec(b) {
        FindSpec::Found { start } => start,
        FindSpec::Absent => 0,
        FindSpec::Malformed => 0,
    }
}

/// The data bytes of the located manifest section (what follows the embedded
/// name field), where the scan found one.
pub open spec fn manifest_data(b: Seq<u8>) -> Seq<u8> {
    b.subrange(sec_data_start(b, found_start(b)), sec_end(b, found_start(b)))
}

/// Locates the manifest section and writes the binary with its full record
/// spliced out: every byte outside the record is kept verbatim. Fails with
/// `ManifestNotFound` when the stream is well-formed without one, and with
/// `MalformedStream` when the stream is broken; a located section never
/// underflows the splice, since its header is at least as wide as the
/// re-derived canonical width.
pub fn remove_manifest(blob: &[u8]) -> (r: Result<Vec<u8>, MrfError>)
    ensures
        match find_manifest_spec(blob@) {
            FindSpec::Found { start } => r matches Ok(v) && v@ == splice_spec(
                blob@,
                sec_payload_start(blob@, start),
                sec_end(blob@, start),
            ),
            FindSpec::Absent => r == Err::<Vec<u8>, MrfError>(MrfError::ManifestNotFound),
            FindSpec::Malformed => r == Err::<Vec<u8>, MrfError>(MrfError::MalformedStream),
        },
{
    let m = match find_manifest_section(blob) {
        Ok(m) => m,
        Err(e) => {
            return Err(e);
        },
    };
    proof {
        let b = blob@;
        let s = m.section_start as int;
        lemma_sec_end_bounds(b, s);
        let w = leb_width_of(b, s + 1);
        lemma_leb_width_shape(b, s + 1, w);
        lemma_leb_min_width(b.subrange(s + 1, s + 1 + w));
        assert(leb_size(sec_payload_len(b, s)) <= w);
    }
    match splice_record(blob, m.payload_start, m.payload_end) {
        Ok(v) => Ok(v),
        Err(_) => vstd::pervasive::unreached(),
    }
}

/// Locates the manifest section and renders its data as pretty-printed JSON.
/// Succeeds exactly when the section exists, the stream up to it is
/// well-formed, and the data is one valid JSON document; the returned text is
/// serde_json's pretty rendering of that data, and the three failures are
/// told apart.
pub fn read_manifest(blob: &[u8]) -> (r: Result<String, MrfError>)
    ensures
        match find_manifest_spec(blob@) {
            FindSpec::Found { start } => {
                &&& r is Ok == is_valid_json(manifest_data(blob@))
                &&& r matches Ok(s) ==> s@ == json_pretty_of(manifest_data(blob@))
                &&& r matches Err(e) ==> e is PayloadDecodeFailure
            },
            FindSpec::Absent => r == Err::<String, MrfError>(MrfError::ManifestNotFound),
            FindSpec::Malformed => r == Err::<String, MrfError>(MrfError::MalformedStream),
        },
{
    let m = match find_manifest_section(blob) {
        Ok(m) => m,
        Err(e) => {
            return Err(e);
        },
    };
    let data = &blob[m.data_start..m.payload_end];
    proof {
        assert(data@ == manifest_data(blob@));
    }
    match json_render(data) {
        Ok(s) => Ok(s),
        Err(e) => {
            let msg = json_error_message(&e);
            Err(MrfError::PayloadDecodeFailure(msg))
        },
    }
}

/// Forwards the whole buffer to the external WebAssembly validator and
/// surfaces its verdict; a rejection carries the validator's diagnostic.
pub fn validate_module(blob: &[u8]) -> (r: Result<(), MrfError>)
    ensures
        r is Ok == wasm_is_valid(blob@),
        r matches Err(e) ==> e is ValidationFailure,
{
    match wasm_validate(blob) {
        Ok(_) => Ok(()),
        Err(e) => {
            let msg = wasm_error_message(&e);
            Err(MrfError::ValidationFailure(msg))
        },
    }
}

} // verus!
