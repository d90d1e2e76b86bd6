//! Walking a WebAssembly binary's top-level section stream: each section is a
//! one-byte tag, a LEB128 payload length, and that many payload bytes, packed
//! with no padding from just after the 8-byte preamble to the end of the
//! buffer. Custom sections (tag 0) further carry a length-prefixed name.

use crate::error::MrfError;
use crate::varint::{
    leb_decodable, leb_decode, leb_value_at, leb_width, leb_width_of, lemma_leb_width_shape,
};
use vstd::prelude::*;

verus! {

/// The well-known name of the custom section that carries the manifest:
/// the bytes of "manifest-v0".
pub open spec fn manifest_name() -> Seq<u8> {
    seq![109u8, 97u8, 110u8, 105u8, 102u8, 101u8, 115u8, 116u8, 45u8, 118u8, 48u8]
}

/// The bytes of the well-known manifest section name.
pub fn manifest_name_bytes() -> (r: Vec<u8>)
    ensures
        r@ == manifest_name(),
{
    let mut v: Vec<u8> = Vec::new();
    v.push(109);
    v.push(97);
    v.push(110);
    v.push(105);
    v.push(102);
    v.push(101);
    v.push(115);
    v.push(116);
    v.push(45);
    v.push(118);
    v.push(48);
    proof {
        assert(v@ =~= manifest_name());
    }
    v
}

/// The fixed preamble: the magic bytes `\0asm` followed by either the core
/// module version (1) or the component-model version/layer words.
pub open spec fn preamble_ok(b: Seq<u8>) -> bool {
    &&& b.len() >= 8
    &&& b[0] == 0u8
    &&& b[1] == 0x61u8
    &&& b[2] == 0x73u8
    &&& b[3] == 0x6du8
    &&& ((b[4] == 1u8 && b[5] == 0u8 && b[6] == 0u8 && b[7] == 0u8) || (b[4] == 0x0du8 && b[5]
        == 0u8 && b[6] == 1u8 && b[7] == 0u8))
}

/// Where the payload of the section whose tag byte sits at `off` begins.
pub open spec fn sec_payload_start(b: Seq<u8>, off: int) -> int {
    off + 1 + leb_width_of(b, off + 1)
}

/// The payload length the section header at `off` declares.
pub open spec fn sec_payload_len(b: Seq<u8>, off: int) -> nat {
    leb_value_at(b, off + 1)
}

/// One past the last payload byte of the section at `off`; the next section's
/// tag byte sits exactly here.
pub open spec fn sec_end(b: Seq<u8>, off: int) -> int {
    sec_payload_start(b, off) + sec_payload_len(b, off)
}

/// A well-formed section header at `off`: the tag byte exists, the length
/// varint decodes, and the declared payload fits in the buffer.
pub open spec fn header_ok(b: Seq<u8>, off: int) -> bool {
    &&& 0 <= off < b.len()
    &&& leb_decodable(b, off + 1)
    &&& sec_end(b, off) <= b.len()
}

/// Where the name bytes of the custom section at `off` begin.
pub open spec fn sec_name_start(b: Seq<u8>, off: int) -> int {
    sec_payload_start(b, off) + leb_width_of(b, sec_payload_start(b, off))
}

/// Where the data of the custom section at `off` begins: right after the
/// length-prefixed name; the data runs to `sec_end`.
pub open spec fn sec_data_start(b: Seq<u8>, off: int) -> int {
    sec_name_start(b, off) + leb_value_at(b, sec_payload_start(b, off))
}

/// A well-formed custom-section payload at `off`: the name's length varint
/// decodes and the name lies inside the payload.
pub open spec fn custom_ok(b: Seq<u8>, off: int) -> bool {
    &&& leb_decodable(b, sec_payload_start(b, off))
    &&& sec_name_start(b, off) <= sec_end(b, off)
    &&& sec_data_start(b, off) <= sec_end(b, off)
}

/// The name bytes of the custom section at `off`.
pub open spec fn custom_name(b: Seq<u8>, off: int) -> Seq<u8> {
    b.subrange(sec_name_start(b, off), sec_data_start(b, off))
}

/// A well-formed header never has an empty record and stays in the buffer.
pub proof fn lemma_sec_end_bounds(b: Seq<u8>, off: int)
    requires
        header_ok(b, off),
    ensures
        off + 2 <= sec_end(b, off) <= b.len(),
        1 <= leb_width_of(b, off + 1) <= 10,
{
    let w = leb_width(b, off + 1)->Some_0;
    lemma_leb_width_shape(b, off + 1, w);
}

/// What scanning for the manifest section yields: its start offset, or a clean
/// end of the stream without it, or a malformed stream.
pub enum FindSpec {
    Found { start: int },
    Absent,
    Malformed,
}

/// Scans the section stream from `off`, looking for the first custom section
/// whose name equals `name`. Stops at the first match; reports a malformed
/// stream as soon as a header or a custom section's name field is broken.
pub open spec fn find_rec(b: Seq<u8>, off: int, name: Seq<u8>) -> FindSpec
    decreases b.len() - off,
    when 0 <= off
    via find_rec_decreases
{
    if off >= b.len() {
        FindSpec::Absent
    } else if !header_ok(b, off) {
        FindSpec::Malformed
    } else if b[off] == 0u8 {
        if !custom_ok(b, off) {
            FindSpec::Malformed
        } else if custom_name(b, off) == name {
            FindSpec::Found { start: off }
        } else {
            find_rec(b, sec_end(b, off), name)
        }
    } else {
        find_rec(b, sec_end(b, off), name)
    }
}

#[via_fn]
proof fn find_rec_decreases(b: Seq<u8>, off: int, name: Seq<u8>) {
    if 0 <= off < b.len() && header_ok(b, off) {
        lemma_sec_end_bounds(b, off);
    }
}

/// Scanning the whole binary: the preamble must be intact, then the section
/// stream is walked from offset 8.
pub open spec fn find_manifest_spec(b: Seq<u8>) -> FindSpec {
    if !preamble_ok(b) {
        FindSpec::Malformed
    } else {
        find_rec(b, 8, manifest_name())
    }
}

/// One top-level section, as the scanner yields it.
#[derive(Debug, Clone, Copy, PartialEq, Eq, Structural)]
pub enum Section {
    /// A custom section: tag 0, with a length-prefixed name inside its payload.
    Custom { payload_start: usize, payload_end: usize, name_start: usize, data_start: usize },
    /// Any other section kind: only its tag and payload range matter here.
    Other { tag: u8, payload_start: usize, payload_end: usize },
}

/// How a yielded `Section` describes the bytes at `off`.
pub open spec fn section_matches(b: Seq<u8>, off: int, s: Section) -> bool {
    match s {
        Section::Custom { payload_start, payload_end, name_start, data_start } => {
            &&& b[off] == 0u8
            &&& custom_ok(b, off)
            &&& payload_start == sec_payload_start(b, off)
            &&& payload_end == sec_end(b, off)
            &&& name_start == sec_name_start(b, off)
            &&& data_start == sec_data_start(b, off)
            &&& payload_start <= name_start <= data_start <= payload_end <= b.len()
        },
        Section::Other { tag, payload_start, payload_end } => {
            &&& tag == b[off]
            &&& tag != 0u8
            &&& payload_start == sec_payload_start(b, off)
            &&& payload_end == sec_end(b, off)
            &&& payload_start <= payload_end <= b.len()
        },
    }
}

/// Reads the one section whose tag byte sits at `off` and tells where the next
/// one starts. Fails when the length varint is broken, the payload overruns
/// the buffer, or a custom section's name field is broken.
pub fn next_section(blob: &[u8], off: usize) -> (r: Result<(Section, usize), MrfError>)
    requires
        off < blob@.len(),
    ensures
        r is Ok == (header_ok(blob@, off as int) && (blob@[off as int] == 0u8 ==> custom_ok(
            blob@,
            off as int,
        ))),
        r matches Ok(sn) ==> {
            &&& header_ok(blob@, off as int)
            &&& sn.1 == sec_end(blob@, off as int)
            &&& off < sn.1 <= blob@.len()
            &&& section_matches(blob@, off as int, sn.0)
        },
        r matches Err(e) ==> e == MrfError::MalformedStream,
{
    let tag = blob[off];
    let (len64, w) = match leb_decode(blob, off + 1) {
        Ok(x) => x,
        Err(_) => {
            return Err(MrfError::MalformedStream);
        },
    };
    let payload_start = off + 1 + w;
    let avail = blob.len() - payload_start;
    if len64 > avail as u64 {
        return Err(MrfError::MalformedStream);
    }
    let plen = len64 as usize;
    let payload_end = payload_start + plen;
    proof {
        assert(payload_start == sec_payload_start(blob@, off as int));
        assert(plen == sec_payload_len(blob@, off as int));
        assert(header_ok(blob@, off as int));
        lemma_sec_end_bounds(blob@, off as int);
    }
    if tag != 0 {
        return Ok((Section::Other { tag, payload_start, payload_end }, payload_end));
    }
    // custom section: its payload opens with a length-prefixed name
    let (nlen64, nw) = match leb_decode(blob, payload_start) {
        Ok(x) => x,
        Err(_) => {
            return Err(MrfError::MalformedStream);
        },
    };
    let name_start = payload_start + nw;
    if name_start > payload_end {
        return Err(MrfError::MalformedStream);
    }
    if nlen64 > (payload_end - name_start) as u64 {
        return Err(MrfError::MalformedStream);
    }
    let data_start = name_start + nlen64 as usize;
    Ok((Section::Custom { payload_start, payload_end, name_start, data_start }, payload_end))
}


/// A well-formed section stream from `off` to the end of the buffer: sections
/// packed with no padding, the last ending exactly at the buffer's end, so
/// partial trailing bytes never pass.
pub open spec fn stream_ok(b: Seq<u8>, off: int) -> bool
    decreases b.len() - off,
    when 0 <= off
    via stream_ok_decreases
{
    if off >= b.len() {
        off == b.len()
    } else {
        &&& header_ok(b, off)
        &&& (b[off] == 0u8 ==> custom_ok(b, off))
        &&& stream_ok(b, sec_end(b, off))
    }
}

#[via_fn]
proof fn stream_ok_decreases(b: Seq<u8>, off: int) {
    if 0 <= off < b.len() && header_ok(b, off) {
        lemma_sec_end_bounds(b, off);
    }
}

/// The descriptor of the section at `off`, as the scanner yields it.
pub open spec fn section_desc(b: Seq<u8>, off: int) -> Section {
    if b[off] == 0u8 {
        Section::Custom {
            payload_start: sec_payload_start(b, off) as usize,
            payload_end: sec_end(b, off) as usize,
            name_start: sec_name_start(b, off) as usize,
            data_start: sec_data_start(b, off) as usize,
        }
    } else {
        Section::Other {
            tag: b[off],
            payload_start: sec_payload_start(b, off) as usize,
            payload_end: sec_end(b, off) as usize,
        }
    }
}

/// The descriptors of every section from `off` on, in stream order, where the
/// stream is well-formed.
pub open spec fn sections_from(b: Seq<u8>, off: int) -> Seq<Section>
    decreases b.len() - off,
    when 0 <= off
    via sections_from_decreases
{
    if off >= b.len() {
        Seq::<Section>::empty()
    } else if !(header_ok(b, off) && (b[off] == 0u8 ==> custom_ok(b, off))) {
        Seq::<Section>::empty()
    } else {
        seq![section_desc(b, off)] + sections_from(b, sec_end(b, off))
    }
}

#[via_fn]
proof fn sections_from_decreases(b: Seq<u8>, off: int) {
    if 0 <= off < b.len() && header_ok(b, off) {
        lemma_sec_end_bounds(b, off);
    }
}

/// Walks the whole top-level section stream and yields every section's
/// descriptor in order. Succeeds exactly when the preamble is intact and the
/// sections fill the buffer to its end; a broken header, a broken custom
/// name field, or partial trailing bytes are a malformed stream.
pub fn scan_sections(blob: &[u8]) -> (r: Result<Vec<Section>, MrfError>)
    ensures
        r is Ok == (preamble_ok(blob@) && stream_ok(blob@, 8)),
        r matches Ok(v) ==> v@ == sections_from(blob@, 8),
        r matches Err(e) ==> e == MrfError::MalformedStream,
{
    if blob.len() < 8 {
        return Err(MrfError::MalformedStream);
    }
    let magic_ok = blob[0] == 0 && blob[1] == 0x61 && blob[2] == 0x73 && blob[3] == 0x6d;
    let version_ok = (blob[4] == 1 && blob[5] == 0 && blob[6] == 0 && blob[7] == 0) || (blob[4]
        == 0x0d && blob[5] == 0 && blob[6] == 1 && blob[7] == 0);
    if !(magic_ok && version_ok) {
        return Err(MrfError::MalformedStream);
    }
    let mut out: Vec<Section> = Vec::new();
    let mut off: usize = 8;
    while off < blob.len()
        invariant
            preamble_ok(blob@),
            8 <= off <= blob@.len(),
            stream_ok(blob@, 8) == stream_ok(blob@, off as int),
            sections_from(blob@, 8) == out@ + sections_from(blob@, off as int),
        decreases blob@.len() - off,
    {
        match next_section(blob, off) {
            Err(_) => {
                proof {
                    assert(!stream_ok(blob@, off as int));
                }
                return Err(MrfError::MalformedStream);
            },
            Ok((sec, next)) => {
                let ghost pre = out@;
                proof {
                    assert(sec == section_desc(blob@, off as int));
                    assert(sections_from(blob@, off as int) == seq![sec] + sections_from(
                        blob@,
                        sec_end(blob@, off as int),
                    ));
                    assert(stream_ok(blob@, off as int) == stream_ok(
                        blob@,
                        sec_end(blob@, off as int),
                    ));
                }
                out.push(sec);
                proof {
                    assert(pre + (seq![sec] + sections_from(blob@, next as int)) =~= out@
                        + sections_from(blob@, next as int));
                }
                off = next;
            },
        }
    }
    proof {
        assert(sections_from(blob@, off as int) =~= Seq::<Section>::empty());
        assert(out@ + Seq::<Section>::empty() =~= out@);
    }
    Ok(out)
}

/// Whether two byte strings hold the same bytes.
pub fn bytes_eq(a: &[u8], b: &[u8]) -> (r: bool)
    ensures
        r == (a@ == b@),
{
    if a.len() != b.len() {
        proof {
            if a@ == b@ {
                assert(a@.len() == b@.len());
            }
        }
        return false;
    }
    let mut i: usize = 0;
    while i < a.len()
        invariant
            i <= a@.len(),
            a@.len() == b@.len(),
            forall|j: int| 0 <= j < i ==> a@[j] == b@[j],
        decreases a@.len() - i,
    {
        if a[i] != b[i] {
            return false;
        }
        i = i + 1;
    }
    proof {
        assert(a@ =~= b@);
    }
    true
}

/// The located manifest section: the offset of its tag byte, its payload
/// range, and where its data (after the embedded name field) begins.
#[derive(Debug, Clone, Copy, PartialEq, Eq, Structural)]
pub struct ManifestMatch {
    pub section_start: usize,
    pub payload_start: usize,
    pub payload_end: usize,
    pub data_start: usize,
}

/// How a `ManifestMatch` describes the section found at `start`.
pub open spec fn manifest_match_ok(b: Seq<u8>, start: int, m: ManifestMatch) -> bool {
    &&& header_ok(b, start)
    &&& b[start] == 0u8
    &&& custom_ok(b, start)
    &&& custom_name(b, start) == manifest_name()
    &&& m.section_start == start
    &&& m.payload_start == sec_payload_start(b, start)
    &&& m.payload_end == sec_end(b, start)
    &&& m.data_start == sec_data_start(b, start)
    &&& 8 <= start < m.payload_start <= m.data_start <= m.payload_end <= b.len()
}

/// Finds the first custom section named "manifest-v0", walking the top-level
/// section stream in order. Reports `ManifestNotFound` when the stream is
/// well-formed but holds no such section, and `MalformedStream` when the
/// preamble or a section on the way is broken.
pub fn find_manifest_section(blob: &[u8]) -> (r: Result<ManifestMatch, MrfError>)
    ensures
        match find_manifest_spec(blob@) {
            FindSpec::Found { start } => r matches Ok(m) && manifest_match_ok(blob@, start, m),
            FindSpec::Absent => r == Err::<ManifestMatch, MrfError>(MrfError::ManifestNotFound),
            FindSpec::Malformed => r == Err::<ManifestMatch, MrfError>(MrfError::MalformedStream),
        },
        r is Ok == find_manifest_spec(blob@) is Found,
{
    if blob.len() < 8 {
        return Err(MrfError::MalformedStream);
    }
    let magic_ok = blob[0] == 0 && blob[1] == 0x61 && blob[2] == 0x73 && blob[3] == 0x6d;
    let version_ok = (blob[4] == 1 && blob[5] == 0 && blob[6] == 0 && blob[7] == 0) || (blob[4]
        == 0x0d && blob[5] == 0 && blob[6] == 1 && blob[7] == 0);
    if !(magic_ok && version_ok) {
        return Err(MrfError::MalformedStream);
    }
    let name = manifest_name_bytes();
    let mut off: usize = 8;
    while off < blob.len()
        invariant
            preamble_ok(blob@),
            8 <= off <= blob@.len(),
            name@ == manifest_name(),
            find_rec(blob@, 8, manifest_name()) == find_rec(blob@, off as int, manifest_name()),
        decreases blob@.len() - off,
    {
        match next_section(blob, off) {
            Err(_) => {
                proof {
                    assert(find_rec(blob@, off as int, manifest_name())
                        == FindSpec::Malformed);
                }
                return Err(MrfError::MalformedStream);
            },
            Ok((sec, next)) => {
                match sec {
                    Section::Custom { payload_start, payload_end, name_start, data_start } => {
                        if bytes_eq(&blob[name_start..data_start], name.as_slice()) {
                            proof {
                                lemma_sec_end_bounds(blob@, off as int);
                                assert(custom_name(blob@, off as int) == manifest_name());
                                assert(find_rec(blob@, off as int, manifest_name())
                                    == FindSpec::Found { start: off as int });
                            }
                            return Ok(
                                ManifestMatch {
                                    section_start: off,
                                    payload_start,
                                    payload_end,
                                    data_start,
                                },
                            );
                        }
                        proof {
                            assert(custom_name(blob@, off as int) != manifest_name());
                            assert(find_rec(blob@, off as int, manifest_name()) == find_rec(
                                blob@,
                                sec_end(blob@, off as int),
                                manifest_name(),
                            ));
                        }
                        off = next;
                    },
                    Section::Other { .. } => {
                        proof {
                            assert(find_rec(blob@, off as int, manifest_name()) == find_rec(
                                blob@,
                                sec_end(blob@, off as int),
                                manifest_name(),
                            ));
                        }
                        off = next;
                    },
                }
            },
        }
    }
    Err(MrfError::ManifestNotFound)
}

} // verus!
