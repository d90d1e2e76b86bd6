//! The laws that tie the operations together: a freshly appended manifest
//! record is the one the scan finds, its data reads back unchanged, and
//! splicing it out restores the original binary byte for byte.

use crate::ops::{add_spec, record_payload_len, record_spec, splice_spec, manifest_data};
use crate::stream::{
    custom_name, custom_ok, find_rec, find_manifest_spec, header_ok, manifest_name, preamble_ok,
    sec_data_start, sec_end, sec_payload_len, sec_payload_start, sec_name_start, FindSpec,
    lemma_sec_end_bounds,
};
use crate::varint::{
    leb_decodable, leb_encode, leb_size, leb_value, leb_value_at, leb_width, leb_width_of,
    lemma_leb_encode_len, lemma_leb_encode_shape, lemma_leb_encode_value, lemma_leb_size_bound,
    lemma_leb_width_from_shape, lemma_leb_width_prefix, lemma_pow128_values,
};
use vstd::prelude::*;

verus! {

/// A well-formed section header keeps its meaning when the buffer is extended
/// on the right.
proof fn lemma_header_prefix(b: Seq<u8>, c: Seq<u8>, off: int)
    requires
        b.len() <= c.len(),
        c.subrange(0, b.len() as int) == b,
        header_ok(b, off),
    ensures
        header_ok(c, off),
        c[off] == b[off],
        sec_payload_start(c, off) == sec_payload_start(b, off),
        sec_payload_len(c, off) == sec_payload_len(b, off),
        sec_end(c, off) == sec_end(b, off),
{
    assert forall|j: int| 0 <= j < b.len() implies c[j] == b[j] by {
        assert(b[j] == c.subrange(0, b.len() as int)[j]);
    }
    lemma_sec_end_bounds(b, off);
    lemma_leb_width_prefix(b, c, off + 1);
    let w = leb_width_of(b, off + 1);
    assert(c.subrange(off + 1, off + 1 + w) =~= b.subrange(off + 1, off + 1 + w));
}

/// A well-formed custom section keeps its name and data range when the buffer
/// is extended on the right.
proof fn lemma_custom_prefix(b: Seq<u8>, c: Seq<u8>, off: int)
    requires
        b.len() <= c.len(),
        c.subrange(0, b.len() as int) == b,
        header_ok(b, off),
        custom_ok(b, off),
    ensures
        custom_ok(c, off),
        sec_name_start(c, off) == sec_name_start(b, off),
        sec_data_start(c, off) == sec_data_start(b, off),
        custom_name(c, off) == custom_name(b, off),
{
    assert forall|j: int| 0 <= j < b.len() implies c[j] == b[j] by {
        assert(b[j] == c.subrange(0, b.len() as int)[j]);
    }
    lemma_header_prefix(b, c, off);
    let ps = sec_payload_start(b, off);
    lemma_leb_width_prefix(b, c, ps);
    let nw = leb_width_of(b, ps);
    crate::varint::lemma_leb_width_shape(b, ps, nw);
    assert(ps + nw == sec_name_start(b, off));
    assert(ps + nw <= b.len());
    assert(c.subrange(ps, ps + nw) =~= b.subrange(ps, ps + nw));
    assert(custom_name(c, off) =~= custom_name(b, off));
}

/// A scan that ends cleanly without a match keeps walking the same sections
/// when the buffer is extended, and lands exactly at the old end.
proof fn lemma_find_absent_extend(b: Seq<u8>, c: Seq<u8>, off: int, name: Seq<u8>)
    requires
        0 <= off <= b.len(),
        b.len() <= c.len(),
        c.subrange(0, b.len() as int) == b,
        find_rec(b, off, name) is Absent,
    ensures
        find_rec(c, off, name) == find_rec(c, b.len() as int, name),
    decreases b.len() - off,
{
    if off == b.len() {
    } else {
        assert(header_ok(b, off));
        lemma_sec_end_bounds(b, off);
        lemma_header_prefix(b, c, off);
        if b[off] == 0u8 {
            assert(custom_ok(b, off));
            assert(custom_name(b, off) != name);
            lemma_custom_prefix(b, c, off);
        }
        lemma_find_absent_extend(b, c, sec_end(b, off), name);
    }
}

/// Appending a manifest record to `b` places one well-formed custom section
/// named "manifest-v0" at offset `b.len()`, filling the buffer to its end,
/// with `data` as its data bytes.
proof fn lemma_record_at(b: Seq<u8>, data: Seq<u8>)
    requires
        record_payload_len(manifest_name(), data) < 0x1_0000_0000_0000_0000,
    ensures
        ({
            let c = add_spec(b, data);
            let n = b.len() as int;
            &&& c.subrange(0, n) == b
            &&& c[n] == 0u8
            &&& header_ok(c, n)
            &&& custom_ok(c, n)
            &&& custom_name(c, n) == manifest_name()
            &&& sec_payload_start(c, n) == n + 1 + leb_size(record_payload_len(manifest_name(), data))
            &&& sec_payload_len(c, n) == record_payload_len(manifest_name(), data)
            &&& sec_end(c, n) == c.len()
            &&& sec_data_start(c, n) == c.len() - data.len()
            &&& c.subrange(sec_data_start(c, n), sec_end(c, n)) == data
        }),
{
    let name = manifest_name();
    let full_len = record_payload_len(name, data);
    let e1 = leb_encode(full_len);
    let wl = leb_size(full_len);
    let rec = record_spec(name, data);
    let c = add_spec(b, data);
    let n = b.len() as int;

    lemma_leb_encode_len(full_len);
    lemma_leb_encode_shape(full_len);
    lemma_leb_encode_value(full_len);
    lemma_pow128_values();
    lemma_leb_size_bound(full_len, 10);
    assert(leb_size(name.len()) == 1);
    assert(leb_encode(name.len()) =~= seq![11u8]);
    assert(full_len == 12 + data.len());

    assert(rec.len() == 1 + wl + 1 + 11 + data.len());
    assert(c.subrange(0, n) =~= b);
    assert forall|i: int| 0 <= i < rec.len() implies c[n + i] == rec[i] by {}
    assert(c[n] == rec[0]);
    assert(rec[0] == 0u8);

    // the outer length field
    assert(c.subrange(n + 1, n + 1 + wl as int) =~= e1);
    lemma_leb_width_from_shape(c, n + 1, wl as int);
    assert(leb_width(c, n + 1) == Some(wl as int));
    assert(sec_payload_start(c, n) == n + 1 + wl);
    assert(sec_payload_len(c, n) == full_len);
    assert(leb_decodable(c, n + 1));
    assert(c.len() == n + rec.len());
    assert(sec_end(c, n) == n + 1 + wl + full_len);
    assert(sec_end(c, n) == c.len());
    assert(header_ok(c, n));

    // the name's length field: a single byte, 11
    let ps = n + 1 + wl as int;
    assert(c[ps] == rec[1 + wl as int]);
    assert(rec[1 + wl as int] == 11u8);
    lemma_leb_width_from_shape(c, ps, 1);
    assert(leb_width(c, ps) == Some(1int));
    assert(c.subrange(ps, ps + 1) =~= seq![11u8]);
    assert(leb_value(seq![11u8]) == 11) by {
        assert(seq![11u8][0] == 11u8);
        assert(seq![11u8].drop_first() =~= Seq::<u8>::empty());
        assert(leb_value(Seq::<u8>::empty()) == 0);
    }
    assert(leb_value_at(c, ps) == 11);
    assert(sec_name_start(c, n) == ps + 1);
    assert(sec_data_start(c, n) == ps + 12);
    assert(leb_decodable(c, ps));
    assert(custom_ok(c, n));

    // the name and the data sit verbatim after the two length fields
    assert forall|i: int| 0 <= i < 11 implies c[ps + 1 + i] == name[i] by {
        assert(c[ps + 1 + i] == rec[1 + wl as int + 1 + i]);
        assert(rec[1 + wl as int + 1 + i] == name[i]);
    }
    assert(custom_name(c, n) =~= name);
    assert forall|i: int| 0 <= i < data.len() implies c[ps + 12 + i] == data[i] by {
        assert(c[ps + 12 + i] == rec[1 + wl as int + 12 + i]);
        assert(rec[1 + wl as int + 12 + i] == data[i]);
    }
    assert(c.subrange(sec_data_start(c, n), sec_end(c, n)) =~= data);
}

/// Law: adding a manifest and then scanning finds exactly the appended
/// record — it starts at the old end of the binary and its data bytes are the
/// payload that was added. Reading the result therefore succeeds exactly when
/// the payload is valid JSON, and returns its pretty rendering
/// `json_pretty_of(data)`.
pub proof fn lemma_find_after_add(b: Seq<u8>, data: Seq<u8>)
    requires
        preamble_ok(b),
        find_rec(b, 8, manifest_name()) is Absent,
        record_payload_len(manifest_name(), data) < 0x1_0000_0000_0000_0000,
    ensures
        find_manifest_spec(add_spec(b, data)) == (FindSpec::Found { start: b.len() as int }),
        manifest_data(add_spec(b, data)) == data,
{
    let c = add_spec(b, data);
    let n = b.len() as int;
    lemma_record_at(b, data);
    assert(preamble_ok(c)) by {
        assert forall|j: int| 0 <= j < b.len() implies c[j] == b[j] by {
            assert(b[j] == c.subrange(0, n)[j]);
        }
    }
    lemma_find_absent_extend(b, c, 8, manifest_name());
    assert(find_rec(c, n, manifest_name()) == (FindSpec::Found { start: n }));
}

/// Law: removing the manifest right after adding it gives back the original
/// binary byte for byte, for any binary whose section stream is well-formed
/// and holds no manifest section yet.
pub proof fn lemma_remove_inverse(b: Seq<u8>, data: Seq<u8>)
    requires
        preamble_ok(b),
        find_rec(b, 8, manifest_name()) is Absent,
        record_payload_len(manifest_name(), data) < 0x1_0000_0000_0000_0000,
    ensures
        find_manifest_spec(add_spec(b, data)) == (FindSpec::Found { start: b.len() as int }),
        splice_spec(
            add_spec(b, data),
            sec_payload_start(add_spec(b, data), b.len() as int),
            sec_end(add_spec(b, data), b.len() as int),
        ) == b,
{
    let c = add_spec(b, data);
    let n = b.len() as int;
    let full_len = record_payload_len(manifest_name(), data);
    lemma_record_at(b, data);
    lemma_find_after_add(b, data);
    let ps = sec_payload_start(c, n);
    let pe = sec_end(c, n);
    assert(pe - ps == full_len);
    assert(ps - (1 + leb_size(full_len) as int) == n);
    assert(c.skip(pe) =~= Seq::<u8>::empty());
    assert(c.take(n) =~= b);
    assert(splice_spec(c, ps, pe) =~= b);
}

/// Law: truncating a freshly produced binary by one byte yields a stream the
/// scan reports as malformed — the appended record's declared payload then
/// overruns the buffer, and no silent wrong parse happens.
pub proof fn lemma_truncation_malformed(b: Seq<u8>, data: Seq<u8>)
    requires
        preamble_ok(b),
        find_rec(b, 8, manifest_name()) is Absent,
        record_payload_len(manifest_name(), data) < 0x1_0000_0000_0000_0000,
    ensures
        find_manifest_spec(add_spec(b, data).drop_last()) == FindSpec::Malformed,
{
    let name = manifest_name();
    let full_len = record_payload_len(name, data);
    let e1 = leb_encode(full_len);
    let wl = leb_size(full_len);
    let c = add_spec(b, data);
    let n = b.len() as int;
    let t = c.drop_last();
    lemma_record_at(b, data);
    lemma_leb_encode_len(full_len);
    lemma_leb_encode_shape(full_len);
    lemma_leb_encode_value(full_len);
    lemma_pow128_values();
    lemma_leb_size_bound(full_len, 10);
    assert(full_len == 12 + data.len());
    assert(c.len() == n + 1 + wl + full_len);
    assert(t.len() == c.len() - 1);
    assert(t.subrange(0, n) =~= b);
    assert(preamble_ok(t)) by {
        assert forall|j: int| 0 <= j < b.len() implies t[j] == b[j] by {
            assert(b[j] == t.subrange(0, n)[j]);
        }
    }
    lemma_find_absent_extend(b, t, 8, manifest_name());
    // the appended record's length field survives the truncation intact
    assert(n + 1 + wl <= t.len());
    assert(n < t.len());
    assert(t.subrange(n + 1, n + 1 + wl as int) =~= e1) by {
        assert(c.subrange(n + 1, n + 1 + wl as int) =~= e1);
        assert forall|i: int| 0 <= i < wl implies #[trigger] t[n + 1 + i] == c[n + 1 + i] by {}
    }
    lemma_leb_width_from_shape(t, n + 1, wl as int);
    assert(leb_width(t, n + 1) == Some(wl as int));
    assert(sec_payload_len(t, n) == full_len);
    // but its declared payload now overruns the buffer by exactly one byte
    assert(sec_end(t, n) == t.len() + 1);
    assert(!header_ok(t, n));
    assert(find_rec(t, n, name) == FindSpec::Malformed);
}

} // verus!
