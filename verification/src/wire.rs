//! Serializes quantized geometry into the compact Esri PBF wire payload.
//!
//! The payload is a protocol-buffer message with two packed repeated fields: the kept part
//! lengths (`uint32`, field 2) and the delta-encoded coordinates (`sint64`, field 3). An empty
//! field is omitted, as protocol buffers do for empty packed fields.

use vstd::prelude::*;
use crate::pbf::{encode_parts, encode_quantized_parts, length_sum, parts_fit};

verus! {

/// Base-128 varint encoding: seven bits per byte, least significant group first, with the high
/// bit set on every byte but the last.
pub open spec fn varint(v: nat) -> Seq<u8>
    decreases v,
{
    if v < 128 {
        seq![v as u8]
    } else {
        seq![(v % 128 + 128) as u8] + varint(v / 128)
    }
}

/// Zigzag mapping of signed values onto unsigned ones: 0, -1, 1, -2, .. become 0, 1, 2, 3, ..
pub open spec fn zigzag(n: int) -> nat {
    if n >= 0 {
        (2 * n) as nat
    } else {
        (-2 * n - 1) as nat
    }
}

pub open spec fn unzigzag(z: nat) -> int {
    if z % 2 == 0 {
        (z / 2) as int
    } else {
        -((z + 1) / 2)
    }
}

/// Concatenated varints of a value sequence.
pub open spec fn packed(values: Seq<nat>) -> Seq<u8>
    decreases values.len(),
{
    if values.len() == 0 {
        seq![]
    } else {
        varint(values[0]) + packed(values.drop_first())
    }
}

/// One length-delimited packed field, omitted when it holds no values.
pub open spec fn packed_field(field: nat, values: Seq<nat>) -> Seq<u8> {
    if values.len() == 0 {
        seq![]
    } else {
        varint(field * 8 + 2) + varint(packed(values).len()) + packed(values)
    }
}

pub open spec fn u32_values(values: Seq<u32>) -> Seq<nat> {
    values.map_values(|v: u32| v as nat)
}

pub open spec fn zigzag_values(values: Seq<int>) -> Seq<nat> {
    values.map_values(|v: int| zigzag(v))
}

/// The wire bytes of a geometry with the given part lengths and coordinate deltas.
pub open spec fn pbf_geometry(lengths: Seq<u32>, coords: Seq<int>) -> Seq<u8> {
    packed_field(2, u32_values(lengths)) + packed_field(3, zigzag_values(coords))
}

/// Decode one varint from the front of `s`: its value and the number of bytes it used.
pub open spec fn decode_varint(s: Seq<u8>) -> Option<(nat, nat)>
    decreases s.len(),
{
    if s.len() == 0 {
        None
    } else if s[0] < 128 {
        Some((s[0] as nat, 1))
    } else {
        match decode_varint(s.drop_first()) {
            Some((v, n)) => Some(((s[0] - 128) as nat + 128 * v, n + 1)),
            None => None,
        }
    }
}

/// Decode a packed run of varints that fills `s` exactly.
pub open spec fn decode_packed(s: Seq<u8>) -> Option<Seq<nat>>
    decreases s.len(),
{
    if s.len() == 0 {
        Some(seq![])
    } else {
        match decode_varint(s) {
            Some((v, n)) => if 0 < n <= s.len() {
                match decode_packed(s.skip(n as int)) {
                    Some(rest) => Some(seq![v] + rest),
                    None => None,
                }
            } else {
                None
            },
            None => None,
        }
    }
}

/// Decode a message made of length-delimited packed fields. Values of field 2 and field 3 are
/// gathered in order; other fields are skipped.
pub open spec fn decode_fields(s: Seq<u8>) -> Option<(Seq<nat>, Seq<nat>)>
    decreases s.len(),
{
    if s.len() == 0 {
        Some((seq![], seq![]))
    } else {
        match decode_varint(s) {
            Some((key, n)) => if 0 < n <= s.len() && key % 8 == 2 {
                let s1 = s.skip(n as int);
                match decode_varint(s1) {
                    Some((len, m)) => if 0 < m <= s1.len() && m + len <= s1.len() {
                        let payload = s1.subrange(m as int, (m + len) as int);
                        let rest = s1.skip((m + len) as int);
                        match (decode_packed(payload), decode_fields(rest)) {
                            (Some(values), Some((ls, cs))) => if key / 8 == 2 {
                                Some((values + ls, cs))
                            } else if key / 8 == 3 {
                                Some((ls, values + cs))
                            } else {
                                Some((ls, cs))
                            },
                            _ => None,
                        }
                    } else {
                        None
                    },
                    None => None,
                }
            } else {
                None
            },
            None => None,
        }
    }
}

/// Decode geometry wire bytes back to part lengths and signed coordinate values.
pub open spec fn decode_pbf_geometry(s: Seq<u8>) -> Option<(Seq<nat>, Seq<int>)> {
    match decode_fields(s) {
        Some((ls, cs)) => Some((ls, cs.map_values(|z: nat| unzigzag(z)))),
        None => None,
    }
}

proof fn lemma_varint_len(v: nat)
    ensures
        varint(v).len() >= 1,
    decreases v,
{
    if v >= 128 {
        lemma_varint_len(v / 128);
    }
}

proof fn lemma_decode_varint(v: nat, rest: Seq<u8>)
    ensures
        decode_varint(varint(v) + rest) == Some((v, varint(v).len())),
    decreases v,
{
    let s = varint(v) + rest;
    if v < 128 {
        assert(s[0] == v as u8);
    } else {
        lemma_decode_varint(v / 128, rest);
        assert(s.drop_first() =~= varint(v / 128) + rest);
        assert(s[0] == (v % 128 + 128) as u8);
    }
}

proof fn lemma_packed_len(values: Seq<nat>)
    ensures
        values.len() > 0 ==> packed(values).len() > 0,
{
    if values.len() > 0 {
        lemma_varint_len(values[0]);
    }
}

proof fn lemma_decode_packed(values: Seq<nat>)
    ensures
        decode_packed(packed(values)) == Some(values),
    decreases values.len(),
{
    if values.len() > 0 {
        let s = packed(values);
        let head = varint(values[0]);
        lemma_varint_len(values[0]);
        lemma_decode_varint(values[0], packed(values.drop_first()));
        assert(s.skip(head.len() as int) =~= packed(values.drop_first()));
        lemma_decode_packed(values.drop_first());
        assert(seq![values[0]] + values.drop_first() =~= values);
    }
}

proof fn lemma_decode_field(field: nat, values: Seq<nat>, rest: Seq<u8>)
    requires
        values.len() > 0,
    ensures
        ({
            let s = packed_field(field, values) + rest;
            let key = field * 8 + 2;
            let p = packed(values);
            let n = varint(key).len();
            let m = varint(p.len()).len();
            &&& decode_varint(s) == Some((key, n))
            &&& 0 < n <= s.len()
            &&& decode_varint(s.skip(n as int)) == Some((p.len(), m))
            &&& 0 < m <= s.skip(n as int).len()
            &&& m + p.len() <= s.skip(n as int).len()
            &&& s.skip(n as int).subrange(m as int, (m + p.len()) as int) == p
            &&& s.skip(n as int).skip((m + p.len()) as int) == rest
        }),
{
    let key = field * 8 + 2;
    let p = packed(values);
    let s = packed_field(field, values) + rest;
    lemma_varint_len(key);
    lemma_varint_len(p.len());
    assert(s =~= varint(key) + (varint(p.len()) + p + rest));
    lemma_decode_varint(key, varint(p.len()) + p + rest);
    let s1 = s.skip(varint(key).len() as int);
    assert(s1 =~= varint(p.len()) + (p + rest));
    lemma_decode_varint(p.len(), p + rest);
    assert(s1.subrange(varint(p.len()).len() as int, (varint(p.len()).len() + p.len()) as int) =~= p);
    assert(s1.skip((varint(p.len()).len() + p.len()) as int) =~= rest);
}

/// Law: the wire bytes decode back to the part lengths and coordinate values they encode.
pub proof fn lemma_pbf_geometry_roundtrip(lengths: Seq<u32>, coords: Seq<int>)
    ensures
        decode_pbf_geometry(pbf_geometry(lengths, coords)) == Some(
            (u32_values(lengths), coords),
        ),
{
    let l = u32_values(lengths);
    let c = zigzag_values(coords);
    let tail = packed_field(3, c);
    assert(decode_fields(seq![]) == Some((Seq::<nat>::empty(), Seq::<nat>::empty())));
    // the coordinate field alone
    if c.len() > 0 {
        lemma_decode_field(3, c, seq![]);
        lemma_decode_packed(c);
        assert(tail + seq![] =~= tail);
        assert(3nat * 8 + 2 == 26);
        assert(decode_fields(tail) == Some((Seq::<nat>::empty(), c + Seq::<nat>::empty())));
        assert(c + Seq::<nat>::empty() =~= c);
    } else {
        assert(tail =~= seq![]);
    }
    assert(decode_fields(tail) == Some((Seq::<nat>::empty(), c)));
    let s = pbf_geometry(lengths, coords);
    if l.len() > 0 {
        lemma_decode_field(2, l, tail);
        lemma_decode_packed(l);
        assert(2nat * 8 + 2 == 18);
        assert(decode_fields(s) == Some((l + Seq::<nat>::empty(), c)));
        assert(l + Seq::<nat>::empty() =~= l);
    } else {
        assert(s =~= tail);
        assert(l =~= Seq::<nat>::empty());
    }
    assert(decode_fields(s) == Some((l, c)));
    assert(c.map_values(|z: nat| unzigzag(z)) =~= coords) by {
        assert forall|i: int| 0 <= i < coords.len() implies unzigzag(zigzag(coords[i]))
            == coords[i] by {
            let v = coords[i];
            if v >= 0 {
                assert((2 * v) as nat % 2 == 0);
            } else {
                assert((-2 * v - 1) as nat % 2 == 1);
            }
        }
    }
}

/// Append the varint encoding of `v`.
pub fn encode_varint(v: u64, buf: &mut Vec<u8>)
    ensures
        final(buf)@ == old(buf)@ + varint(v as nat),
{
    let ghost start = buf@;
    let mut rest = v;
    while rest >= 128
        invariant
            start + varint(v as nat) == buf@ + varint(rest as nat),
        decreases rest,
    {
        let byte = (rest % 128 + 128) as u8;
        let ghost old_buf = buf@;
        buf.push(byte);
        proof {
            assert(varint(rest as nat) == seq![byte] + varint((rest / 128) as nat));
            assert(old_buf + varint(rest as nat) =~= buf@ + varint((rest / 128) as nat));
        }
        rest = rest / 128;
    }
    buf.push(rest as u8);
    proof {
        assert(varint(rest as nat) == seq![rest as u8]);
        assert(start + varint(v as nat) =~= buf@);
    }
}

/// Zigzag-map a signed value.
pub fn zigzag_encode(n: i64) -> (z: u64)
    ensures
        z == zigzag(n as int),
{
    if n >= 0 {
        (n as u64) * 2
    } else {
        ((-(n + 1)) as u64) * 2 + 1
    }
}

proof fn lemma_packed_push(values: Seq<nat>, v: nat)
    ensures
        packed(values.push(v)) == packed(values) + varint(v),
    decreases values.len(),
{
    if values.len() == 0 {
        let one = values.push(v);
        assert(one.drop_first() =~= Seq::<nat>::empty());
        assert(one[0] == v);
        assert(packed(one.drop_first()) == Seq::<u8>::empty());
        assert(packed(one) == varint(v) + packed(one.drop_first()));
        assert(packed(values) == Seq::<u8>::empty());
        assert(packed(one) =~= packed(values) + varint(v));
    } else {
        lemma_packed_push(values.drop_first(), v);
        assert(values.push(v).drop_first() =~= values.drop_first().push(v));
        assert(packed(values.push(v)) =~= varint(values[0]) + packed(values.drop_first()) + varint(
            v,
        ));
    }
}

fn packed_lengths(values: &[u32]) -> (payload: Vec<u8>)
    ensures
        payload@ == packed(u32_values(values@)),
{
    let mut payload: Vec<u8> = Vec::new();
    let mut i: usize = 0;
    while i < values.len()
        invariant
            i <= values.len(),
            payload@ == packed(u32_values(values@.subrange(0, i as int))),
        decreases values.len() - i,
    {
        let ghost before = values@.subrange(0, i as int);
        encode_varint(values[i] as u64, &mut payload);
        proof {
            lemma_packed_push(u32_values(before), values@[i as int] as nat);
            assert(u32_values(values@.subrange(0, i + 1)) =~= u32_values(before).push(
                values@[i as int] as nat,
            ));
        }
        i = i + 1;
    }
    assert(values@.subrange(0, values.len() as int) =~= values@);
    payload
}

fn packed_coords(values: &[i64]) -> (payload: Vec<u8>)
    ensures
        payload@ == packed(zigzag_values(crate::pbf::ints(values@))),
{
    let mut payload: Vec<u8> = Vec::new();
    let mut i: usize = 0;
    while i < values.len()
        invariant
            i <= values.len(),
            payload@ == packed(zigzag_values(crate::pbf::ints(values@.subrange(0, i as int)))),
        decreases values.len() - i,
    {
        let ghost before = values@.subrange(0, i as int);
        let z = zigzag_encode(values[i]);
        encode_varint(z, &mut payload);
        proof {
            lemma_packed_push(zigzag_values(crate::pbf::ints(before)), z as nat);
            assert(zigzag_values(crate::pbf::ints(values@.subrange(0, i + 1))) =~= zigzag_values(
                crate::pbf::ints(before),
            ).push(z as nat));
        }
        i = i + 1;
    }
    assert(values@.subrange(0, values.len() as int) =~= values@);
    payload
}

fn append_packed_field(field: u64, payload: &mut Vec<u8>, buf: &mut Vec<u8>)
    requires
        field < 16,
    ensures
        old(payload)@.len() > 0 ==> final(buf)@ == old(buf)@ + varint((field * 8 + 2) as nat) + varint(
            old(payload)@.len() as nat,
        ) + old(payload)@,
        old(payload)@.len() == 0 ==> final(buf)@ == old(buf)@,
{
    if payload.len() == 0 {
        return;
    }
    let ghost p = payload@;
    let ghost b0 = buf@;
    encode_varint(field * 8 + 2, buf);
    encode_varint(payload.len() as u64, buf);
    buf.append(payload);
    assert(buf@ =~= b0 + varint((field * 8 + 2) as nat) + varint(p.len() as nat) + p);
}

/// Append the wire bytes of one geometry message.
pub fn encode_pbf_geometry(lengths: &[u32], coords: &[i64], buf: &mut Vec<u8>)
    ensures
        final(buf)@ == old(buf)@ + pbf_geometry(lengths@, crate::pbf::ints(coords@)),
{
    let ghost b0 = buf@;
    let mut length_payload = packed_lengths(lengths);
    let mut coord_payload = packed_coords(coords);
    proof {
        lemma_packed_len(u32_values(lengths@));
        lemma_packed_len(zigzag_values(crate::pbf::ints(coords@)));
        assert(u32_values(lengths@).len() == lengths@.len());
        assert(zigzag_values(crate::pbf::ints(coords@)).len() == coords@.len());
    }
    append_packed_field(2, &mut length_payload, buf);
    let ghost b1 = buf@;
    append_packed_field(3, &mut coord_payload, buf);
    assert(buf@ =~= b0 + pbf_geometry(lengths@, crate::pbf::ints(coords@)));
}

/// Reuses quantization vectors and serialization storage across geometry encodes.
pub struct GeometryEncodeScratch {
    quantized_coords: Vec<i64>,
    quantized_lengths: Vec<u32>,
    buffer: Vec<u8>,
}

impl GeometryEncodeScratch {
    /// The bytes produced by the last successful encode.
    pub closed spec fn encoded_bytes(&self) -> Seq<u8> {
        self.buffer@
    }

    /// Create empty scratch storage.
    pub fn new() -> (scratch: Self)
        ensures
            scratch.encoded_bytes() == Seq::<u8>::empty(),
    {
        GeometryEncodeScratch {
            quantized_coords: Vec::new(),
            quantized_lengths: Vec::new(),
            buffer: Vec::new(),
        }
    }

    /// Return the bytes produced by the last successful encode.
    pub fn encoded(&self) -> (bytes: &[u8])
        ensures
            bytes@ == self.encoded_bytes(),
    {
        self.buffer.as_slice()
    }
}

/// The wire bytes of the quantized parts after delta encoding and filtering.
pub open spec fn encoded_geometry(coords: Seq<i64>, lengths: Seq<u32>, min_length: u32) -> Seq<
    u8,
> {
    let parts = encode_parts(coords, lengths, lengths.len(), min_length);
    pbf_geometry(parts.1, parts.0)
}

/// Delta-encode quantized parts and serialize them into the scratch buffer.
///
/// Returns `false` when a step of the delta encoding leaves the `i64` range.
pub fn encode_quantized_geometry_with_scratch(
    coords: &[i64],
    lengths: &[u32],
    min_length: u32,
    scratch: &mut GeometryEncodeScratch,
) -> (fits: bool)
    requires
        2 * length_sum(lengths@, lengths@.len()) <= coords@.len(),
    ensures
        fits == parts_fit(coords@, lengths@, lengths@.len()),
        fits ==> final(scratch).encoded_bytes() == encoded_geometry(coords@, lengths@, min_length),
{
    let fits = encode_quantized_parts(
        coords,
        lengths,
        min_length,
        &mut scratch.quantized_coords,
        &mut scratch.quantized_lengths,
    );
    if !fits {
        return false;
    }
    scratch.buffer.clear();
    encode_pbf_geometry(
        scratch.quantized_lengths.as_slice(),
        scratch.quantized_coords.as_slice(),
        &mut scratch.buffer,
    );
    assert(scratch.buffer@ =~= encoded_geometry(coords@, lengths@, min_length));
    true
}

/// Delta-encode quantized parts with reusable scratch vectors and return owned wire bytes.
pub fn encode_quantized_geometry_owned_with_scratch(
    coords: &[i64],
    lengths: &[u32],
    min_length: u32,
    scratch: &mut GeometryEncodeScratch,
) -> (bytes: Option<Vec<u8>>)
    requires
        2 * length_sum(lengths@, lengths@.len()) <= coords@.len(),
    ensures
        bytes is Some == parts_fit(coords@, lengths@, lengths@.len()),
        bytes matches Some(b) ==> b@ == encoded_geometry(coords@, lengths@, min_length),
{
    let fits = encode_quantized_parts(
        coords,
        lengths,
        min_length,
        &mut scratch.quantized_coords,
        &mut scratch.quantized_lengths,
    );
    if !fits {
        return None;
    }
    let mut buffer: Vec<u8> = Vec::new();
    encode_pbf_geometry(
        scratch.quantized_lengths.as_slice(),
        scratch.quantized_coords.as_slice(),
        &mut buffer,
    );
    assert(buffer@ =~= encoded_geometry(coords@, lengths@, min_length));
    Some(buffer)
}

/// Delta-encode quantized parts into a new byte buffer.
pub fn encode_quantized_geometry(coords: &[i64], lengths: &[u32], min_length: u32) -> (bytes:
    Option<Vec<u8>>)
    requires
        2 * length_sum(lengths@, lengths@.len()) <= coords@.len(),
    ensures
        bytes is Some == parts_fit(coords@, lengths@, lengths@.len()),
        bytes matches Some(b) ==> b@ == encoded_geometry(coords@, lengths@, min_length),
{
    let mut scratch = GeometryEncodeScratch::new();
    encode_quantized_geometry_owned_with_scratch(coords, lengths, min_length, &mut scratch)
}

} // verus!
