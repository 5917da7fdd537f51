//! Encodes quantized display geometry into compact delta-encoded parts.
//!
//! Each part starts with an absolute quantized vertex followed by deltas. Vertices that snap onto
//! the previous vertex are dropped, and a vertex that continues the direction of the previous
//! delta is folded into that delta. Parts that keep fewer vertices than the level's minimum are
//! dropped entirely.

use vstd::prelude::*;

verus! {

/// Names the display categories that the geometry payload encoder accepts.
#[derive(Debug, Clone, Copy, PartialEq, Eq, Hash, Structural)]
pub enum DisplayGeometryType {
    Point,
    MultiPoint,
    Polyline,
    Polygon,
}

/// The clustering family of a display category.
#[derive(Debug, Clone, Copy, PartialEq, Eq, Hash, Structural)]
pub enum GeometryFamily {
    Point,
    NonPoint,
}

impl DisplayGeometryType {
    /// Return the clustering family: single points use Z-order, everything else XZ-order.
    pub fn family(self) -> (family: GeometryFamily)
        ensures
            family == (if self == DisplayGeometryType::Point {
                GeometryFamily::Point
            } else {
                GeometryFamily::NonPoint
            }),
    {
        match self {
            DisplayGeometryType::Point => GeometryFamily::Point,
            _ => GeometryFamily::NonPoint,
        }
    }
}

/// The fewest vertices a part of this display category keeps.
pub open spec fn spec_min_vertex_count(geometry_type: DisplayGeometryType) -> nat {
    match geometry_type {
        DisplayGeometryType::MultiPoint => 1,
        DisplayGeometryType::Polyline => 2,
        DisplayGeometryType::Polygon => 3,
        DisplayGeometryType::Point => 1,
    }
}

/// Return the minimum vertices retained for each display geometry type.
pub fn min_vertex_count(geometry_type: DisplayGeometryType) -> (count: usize)
    ensures
        count == spec_min_vertex_count(geometry_type),
{
    match geometry_type {
        DisplayGeometryType::MultiPoint => 1,
        DisplayGeometryType::Polyline => 2,
        DisplayGeometryType::Polygon => 3,
        DisplayGeometryType::Point => 1,
    }
}

pub open spec fn in_i64(v: int) -> bool {
    i64::MIN <= v <= i64::MAX
}

/// Two deltas point in the same direction: they are parallel and not opposed.
pub open spec fn spec_collinear(prev_dx: int, prev_dy: int, dx: int, dy: int) -> bool {
    prev_dx * dy == dx * prev_dy && prev_dx * dx + prev_dy * dy > 0
}

/// The state of one part after some of its vertices were encoded.
pub struct PartEncoding {
    /// The encoded values: the absolute first vertex, then one delta per kept vertex.
    pub out: Seq<int>,
    pub px: int,
    pub py: int,
    /// The delta that was pushed last (zero before the first delta).
    pub pdx: int,
    pub pdy: int,
    /// The number of vertices kept so far.
    pub count: nat,
}

pub open spec fn start_part(x: int, y: int) -> PartEncoding {
    PartEncoding { out: seq![x, y], px: x, py: y, pdx: 0, pdy: 0, count: 1 }
}

/// Encode one more vertex.
pub open spec fn step_part(s: PartEncoding, x: int, y: int) -> PartEncoding {
    if x == s.px && y == s.py {
        s
    } else {
        let dx = x - s.px;
        let dy = y - s.py;
        if spec_collinear(s.pdx, s.pdy, dx, dy) {
            let n = s.out.len() as int;
            PartEncoding {
                out: s.out.update(n - 2, s.out[n - 2] + dx).update(n - 1, s.out[n - 1] + dy),
                px: x,
                py: y,
                ..s
            }
        } else {
            PartEncoding {
                out: s.out + seq![dx, dy],
                px: x,
                py: y,
                pdx: dx,
                pdy: dy,
                count: s.count + 1,
            }
        }
    }
}

/// The arithmetic of one step stays inside `i64`, evaluated in the order the encoder uses.
pub open spec fn step_fits(s: PartEncoding, x: int, y: int) -> bool {
    if x == s.px && y == s.py {
        true
    } else {
        let dx = x - s.px;
        let dy = y - s.py;
        let n = s.out.len() as int;
        &&& in_i64(dx)
        &&& in_i64(dy)
        &&& in_i64(s.pdx * dy)
        &&& in_i64(dx * s.pdy)
        &&& (s.pdx * dy == dx * s.pdy) ==> {
            &&& in_i64(s.pdx * dx)
            &&& in_i64(s.pdy * dy)
            &&& in_i64(s.pdx * dx + s.pdy * dy)
        }
        &&& spec_collinear(s.pdx, s.pdy, dx, dy) ==> {
            &&& in_i64(s.out[n - 2] + dx)
            &&& in_i64(s.out[n - 1] + dy)
        }
    }
}

/// Vertex `j` of the part that starts at coordinate index `start`.
pub open spec fn vx(coords: Seq<i64>, start: int, j: int) -> int {
    coords[start + 2 * j] as int
}

pub open spec fn vy(coords: Seq<i64>, start: int, j: int) -> int {
    coords[start + 2 * j + 1] as int
}

/// The part state after its first `j` vertices (`j >= 1`).
pub open spec fn run_part(coords: Seq<i64>, start: int, j: nat) -> PartEncoding
    decreases j,
{
    if j <= 1 {
        start_part(vx(coords, start, 0), vy(coords, start, 0))
    } else {
        step_part(
            run_part(coords, start, (j - 1) as nat),
            vx(coords, start, j - 1),
            vy(coords, start, j - 1),
        )
    }
}

/// Every step of the first `j` vertices stays inside `i64`.
pub open spec fn run_fits(coords: Seq<i64>, start: int, j: nat) -> bool
    decreases j,
{
    if j <= 1 {
        true
    } else {
        run_fits(coords, start, (j - 1) as nat) && step_fits(
            run_part(coords, start, (j - 1) as nat),
            vx(coords, start, j - 1),
            vy(coords, start, j - 1),
        )
    }
}

/// The number of coordinate pairs in the first `k` parts.
pub open spec fn length_sum(lengths: Seq<u32>, k: nat) -> nat
    decreases k,
{
    if k == 0 {
        0
    } else {
        length_sum(lengths, (k - 1) as nat) + lengths[k - 1] as nat
    }
}

pub open spec fn ints(s: Seq<i64>) -> Seq<int> {
    s.map_values(|v: i64| v as int)
}

/// The encoded coordinates and kept part lengths of the first `k` parts.
pub open spec fn encode_parts(coords: Seq<i64>, lengths: Seq<u32>, k: nat, min_length: u32) -> (
    Seq<int>,
    Seq<u32>,
)
    decreases k,
{
    if k == 0 {
        (seq![], seq![])
    } else {
        let prev = encode_parts(coords, lengths, (k - 1) as nat, min_length);
        let n = lengths[k - 1];
        if n == 0 {
            prev
        } else {
            let p = run_part(coords, (2 * length_sum(lengths, (k - 1) as nat)) as int, n as nat);
            if p.count < min_length {
                prev
            } else {
                (prev.0 + p.out, prev.1.push(p.count as u32))
            }
        }
    }
}

/// Every step of every non-empty part among the first `k` stays inside `i64`.
pub open spec fn parts_fit(coords: Seq<i64>, lengths: Seq<u32>, k: nat) -> bool
    decreases k,
{
    if k == 0 {
        true
    } else {
        parts_fit(coords, lengths, (k - 1) as nat) && (lengths[k - 1] == 0 || run_fits(
            coords,
            (2 * length_sum(lengths, (k - 1) as nat)) as int,
            lengths[k - 1] as nat,
        ))
    }
}

proof fn lemma_length_sum_monotonic(lengths: Seq<u32>, j: nat, k: nat)
    requires
        j <= k <= lengths.len(),
    ensures
        length_sum(lengths, j) <= length_sum(lengths, k),
    decreases k,
{
    if j < k {
        lemma_length_sum_monotonic(lengths, j, (k - 1) as nat);
    }
}

/// Invariant of an encoded part: the output holds the first vertex and one delta per further
/// kept vertex.
pub open spec fn part_wf(s: PartEncoding) -> bool {
    &&& s.out.len() == 2 * s.count
    &&& s.count >= 1
    &&& s.count == 1 ==> s.pdx == 0 && s.pdy == 0
}

proof fn lemma_run_part_wf(coords: Seq<i64>, start: int, j: nat)
    requires
        j >= 1,
    ensures
        part_wf(run_part(coords, start, j)),
        run_part(coords, start, j).count <= j,
    decreases j,
{
    if j > 1 {
        lemma_run_part_wf(coords, start, (j - 1) as nat);
    }
}

proof fn lemma_mul_fits_i128(a: i64, b: i64)
    ensures
        -0x4000_0000_0000_0000_0000_0000_0000_0000 <= (a as int) * (b as int)
            <= 0x4000_0000_0000_0000_0000_0000_0000_0000,
{
    assert(-0x8000_0000_0000_0000 <= a <= 0x8000_0000_0000_0000);
    assert(-0x8000_0000_0000_0000 <= b <= 0x8000_0000_0000_0000);
    assert(-0x4000_0000_0000_0000_0000_0000_0000_0000 <= (a as int) * (b as int)
        <= 0x4000_0000_0000_0000_0000_0000_0000_0000) by (nonlinear_arith)
        requires
            -0x8000_0000_0000_0000 <= a <= 0x8000_0000_0000_0000,
            -0x8000_0000_0000_0000 <= b <= 0x8000_0000_0000_0000,
    ;
}

/// Decide whether two deltas continue in the same direction.
fn is_collinear_delta(prev_dx: i64, prev_dy: i64, dx: i64, dy: i64) -> (r: Option<bool>)
    ensures
        r is Some <==> (in_i64(prev_dx * dy) && in_i64(dx * prev_dy) && (prev_dx * dy == dx
            * prev_dy ==> (in_i64(prev_dx * dx) && in_i64(prev_dy * dy) && in_i64(
            prev_dx * dx + prev_dy * dy,
        )))),
        r matches Some(b) ==> b == spec_collinear(prev_dx as int, prev_dy as int, dx as int, dy as int),
{
    proof {
        lemma_mul_fits_i128(prev_dx, dy);
        lemma_mul_fits_i128(dx, prev_dy);
        lemma_mul_fits_i128(prev_dx, dx);
        lemma_mul_fits_i128(prev_dy, dy);
    }
    let lo: i128 = i64::MIN as i128;
    let hi: i128 = i64::MAX as i128;
    let a: i128 = (prev_dx as i128) * (dy as i128);
    let b: i128 = (dx as i128) * (prev_dy as i128);
    if a < lo || a > hi || b < lo || b > hi {
        return None;
    }
    if a != b {
        return Some(false);
    }
    let c: i128 = (prev_dx as i128) * (dx as i128);
    let d: i128 = (prev_dy as i128) * (dy as i128);
    if c < lo || c > hi || d < lo || d > hi {
        return None;
    }
    let e: i128 = c + d;
    if e < lo || e > hi {
        return None;
    }
    Some(e > 0)
}

proof fn lemma_run_fits_prefix(coords: Seq<i64>, start: int, a: nat, b: nat)
    requires
        1 <= a <= b,
        run_fits(coords, start, b),
    ensures
        run_fits(coords, start, a),
    decreases b,
{
    if a < b {
        lemma_run_fits_prefix(coords, start, a, (b - 1) as nat);
    }
}

proof fn lemma_parts_fit_prefix(coords: Seq<i64>, lengths: Seq<u32>, a: nat, b: nat)
    requires
        a <= b <= lengths.len(),
        parts_fit(coords, lengths, b),
    ensures
        parts_fit(coords, lengths, a),
    decreases b,
{
    if a < b {
        lemma_parts_fit_prefix(coords, lengths, a, (b - 1) as nat);
    }
}

/// A step that leaves `i64` inside part `k` makes the whole input unencodable.
proof fn lemma_step_overflow(coords: Seq<i64>, lengths: Seq<u32>, k: nat, j: nat)
    requires
        k < lengths.len(),
        1 <= j < lengths[k as int],
        !step_fits(
            run_part(coords, (2 * length_sum(lengths, k)) as int, j),
            vx(coords, (2 * length_sum(lengths, k)) as int, j as int),
            vy(coords, (2 * length_sum(lengths, k)) as int, j as int),
        ),
    ensures
        !parts_fit(coords, lengths, lengths.len()),
{
    let start = (2 * length_sum(lengths, k)) as int;
    assert(!run_fits(coords, start, j + 1));
    if parts_fit(coords, lengths, lengths.len()) {
        lemma_parts_fit_prefix(coords, lengths, k + 1, lengths.len());
        assert(run_fits(coords, start, lengths[k as int] as nat));
        lemma_run_fits_prefix(coords, start, j + 1, lengths[k as int] as nat);
    }
}

/// Delta-encode quantized parts into caller-provided storage.
///
/// `input_coords` holds interleaved quantized x/y values and `input_lengths` the vertex count of
/// each part. Returns `false`, leaving the outputs unspecified, when a step of the encoding
/// leaves the `i64` range; otherwise the outputs hold the encoded parts.
pub fn encode_quantized_parts(
    input_coords: &[i64],
    input_lengths: &[u32],
    min_length: u32,
    coords: &mut Vec<i64>,
    lengths: &mut Vec<u32>,
) -> (fits: bool)
    requires
        2 * length_sum(input_lengths@, input_lengths@.len()) <= input_coords@.len(),
    ensures
        fits == parts_fit(input_coords@, input_lengths@, input_lengths@.len()),
        fits ==> ints(final(coords)@) == encode_parts(
            input_coords@,
            input_lengths@,
            input_lengths@.len(),
            min_length,
        ).0,
        fits ==> final(lengths)@ == encode_parts(
            input_coords@,
            input_lengths@,
            input_lengths@.len(),
            min_length,
        ).1,
{
    coords.clear();
    lengths.clear();
    let ghost all = input_coords@;
    let ghost ls = input_lengths@;
    let coord_count = input_coords.len();
    let mut offset: usize = 0;
    let mut k: usize = 0;
    assert(ints(coords@) =~= seq![]);
    while k < input_lengths.len()
        invariant
            all == input_coords@,
            ls == input_lengths@,
            all.len() == coord_count,
            k <= ls.len(),
            offset == 2 * length_sum(ls, k as nat),
            2 * length_sum(ls, ls.len()) <= all.len(),
            parts_fit(all, ls, k as nat),
            ints(coords@) == encode_parts(all, ls, k as nat, min_length).0,
            lengths@ == encode_parts(all, ls, k as nat, min_length).1,
        decreases ls.len() - k,
    {
        proof {
            lemma_length_sum_monotonic(ls, (k + 1) as nat, ls.len());
        }
        let point_count = input_lengths[k] as usize;
        if point_count == 0 {
            k = k + 1;
            continue;
        }
        let ring_start = coords.len();
        let ghost prefix = coords@;
        let mut prev_x: i64 = input_coords[offset];
        let mut prev_y: i64 = input_coords[offset + 1];
        coords.push(prev_x);
        coords.push(prev_y);
        let mut out_length: u32 = 1;
        let mut prev_dx: i64 = 0;
        let mut prev_dy: i64 = 0;
        let mut j: usize = 1;
        proof {
            assert(ints(coords@) =~= ints(prefix) + run_part(all, offset as int, 1).out);
            assert(coords@.subrange(0, ring_start as int) =~= prefix);
        }
        while j < point_count
            invariant
                all == input_coords@,
                ls == input_lengths@,
                all.len() == coord_count,
                1 <= j <= point_count,
                k < ls.len(),
                point_count == ls[k as int],
                offset == 2 * length_sum(ls, k as nat),
                offset + 2 * point_count <= all.len(),
                ring_start == prefix.len(),
                coords@.len() >= ring_start,
                coords@.subrange(0, ring_start as int) == prefix,
                run_fits(all, offset as int, j as nat),
                ints(coords@) == ints(prefix) + run_part(all, offset as int, j as nat).out,
                prev_x == run_part(all, offset as int, j as nat).px,
                prev_y == run_part(all, offset as int, j as nat).py,
                prev_dx == run_part(all, offset as int, j as nat).pdx,
                prev_dy == run_part(all, offset as int, j as nat).pdy,
                out_length == run_part(all, offset as int, j as nat).count,
            decreases point_count - j,
        {
            let ghost s = run_part(all, offset as int, j as nat);
            let ghost old_coords = coords@;
            proof {
                lemma_run_part_wf(all, offset as int, j as nat);
                assert(ints(coords@).len() == coords@.len());
            }
            let x = input_coords[offset + 2 * j];
            let y = input_coords[offset + 2 * j + 1];
            let ghost xi = vx(all, offset as int, j as int);
            let ghost yi = vy(all, offset as int, j as int);
            assert(x == xi && y == yi);
            assert(run_part(all, offset as int, (j + 1) as nat) == step_part(s, xi, yi));
            assert(run_fits(all, offset as int, (j + 1) as nat) == step_fits(s, xi, yi));
            if x == prev_x && y == prev_y {
                j = j + 1;
                continue;
            }
            let dx128: i128 = (x as i128) - (prev_x as i128);
            let dy128: i128 = (y as i128) - (prev_y as i128);
            if dx128 < i64::MIN as i128 || dx128 > i64::MAX as i128 || dy128 < i64::MIN as i128
                || dy128 > i64::MAX as i128 {
                proof {
                    lemma_step_overflow(all, ls, k as nat, j as nat);
                }
                return false;
            }
            let dx = dx128 as i64;
            let dy = dy128 as i64;
            assert(!(xi == s.px && yi == s.py));
            assert(dx as int == xi - s.px && dy as int == yi - s.py);
            let collinear = match is_collinear_delta(prev_dx, prev_dy, dx, dy) {
                Some(b) => b,
                None => {
                    proof {
                        lemma_step_overflow(all, ls, k as nat, j as nat);
                    }
                    return false;
                },
            };
            assert(collinear == spec_collinear(s.pdx, s.pdy, xi - s.px, yi - s.py));
            if collinear {
                let len = coords.len();
                let ghost n = s.out.len() as int;
                assert(coords@[len - 2] as int == ints(coords@)[len - 2]);
                assert(ints(coords@)[len - 2] == s.out[n - 2]);
                assert(ints(coords@)[len - 1] == s.out[n - 1]);
                let last_x = coords[len - 2] as i128 + dx as i128;
                let last_y = coords[len - 1] as i128 + dy as i128;
                if last_x < i64::MIN as i128 || last_x > i64::MAX as i128 || last_y < i64::MIN
                    as i128 || last_y > i64::MAX as i128 {
                    proof {
                        lemma_step_overflow(all, ls, k as nat, j as nat);
                    }
                    return false;
                }
                coords.set(len - 2, last_x as i64);
                coords.set(len - 1, last_y as i64);
                prev_x = x;
                prev_y = y;
                proof {
                    let t = step_part(s, xi, yi);
                    assert(t.out == s.out.update(n - 2, s.out[n - 2] + dx).update(
                        n - 1,
                        s.out[n - 1] + dy,
                    ));
                    assert(coords@ == old_coords.update(len - 2, last_x as i64).update(
                        len - 1,
                        last_y as i64,
                    ));
                    assert(ints(old_coords) == ints(prefix) + s.out);
                    assert forall|i: int| 0 <= i < coords@.len() implies #[trigger] ints(
                        coords@,
                    )[i] == (ints(prefix) + t.out)[i] by {
                        if i < len - 2 {
                            assert(ints(coords@)[i] == ints(old_coords)[i]);
                        }
                    }
                    assert(ints(coords@) =~= ints(prefix) + t.out);
                    assert(coords@.subrange(0, ring_start as int) =~= prefix);
                }
            } else {
                coords.push(dx);
                coords.push(dy);
                prev_x = x;
                prev_y = y;
                prev_dx = dx;
                prev_dy = dy;
                out_length = out_length + 1;
                proof {
                    let t = step_part(s, xi, yi);
                    assert(t.out == s.out + seq![dx as int, dy as int]);
                    assert(coords@ == old_coords.push(dx).push(dy));
                    assert(ints(old_coords) == ints(prefix) + s.out);
                    assert forall|i: int| 0 <= i < coords@.len() implies #[trigger] ints(
                        coords@,
                    )[i] == (ints(prefix) + t.out)[i] by {
                        if i < old_coords.len() {
                            assert(ints(coords@)[i] == ints(old_coords)[i]);
                        }
                    }
                    assert(ints(coords@) =~= ints(prefix) + t.out);
                    assert(coords@.subrange(0, ring_start as int) =~= prefix);
                }
            }
            j = j + 1;
        }
        let ghost p = run_part(all, offset as int, point_count as nat);
        if out_length < min_length {
            coords.truncate(ring_start);
            proof {
                assert(coords@ =~= prefix);
            }
        } else {
            lengths.push(out_length);
        }
        offset = offset + point_count * 2;
        k = k + 1;
    }
    true
}

/// The sum of a sequence of part lengths.
pub open spec fn total_length(lengths: Seq<u32>) -> nat
    decreases lengths.len(),
{
    if lengths.len() == 0 {
        0
    } else {
        total_length(lengths.drop_last()) + lengths.last() as nat
    }
}

/// Every encoded part keeps at least `min_length` vertices, and at least one, and the encoded
/// coordinates hold exactly one x/y pair (the first vertex, then deltas) per kept vertex.
pub proof fn lemma_encoded_parts_well_formed(coords: Seq<i64>, lengths: Seq<u32>, k: nat, min_length: u32)
    requires
        k <= lengths.len(),
    ensures
        ({
            let e = encode_parts(coords, lengths, k, min_length);
            &&& e.0.len() == 2 * total_length(e.1)
            &&& forall|i: int| 0 <= i < e.1.len() ==> #[trigger] e.1[i] >= min_length && e.1[i] >= 1
        }),
    decreases k,
{
    if k > 0 {
        lemma_encoded_parts_well_formed(coords, lengths, (k - 1) as nat, min_length);
        let prev = encode_parts(coords, lengths, (k - 1) as nat, min_length);
        let n = lengths[k - 1];
        if n != 0 {
            let start = (2 * length_sum(lengths, (k - 1) as nat)) as int;
            lemma_run_part_wf(coords, start, n as nat);
            let p = run_part(coords, start, n as nat);
            if p.count >= min_length {
                let kept = prev.1.push(p.count as u32);
                assert(kept.drop_last() =~= prev.1);
                assert(kept.last() == p.count as u32);
                let e = encode_parts(coords, lengths, k, min_length);
                assert(e.1 == kept);
                assert forall|i: int| 0 <= i < e.1.len() implies #[trigger] e.1[i] >= min_length
                    && e.1[i] >= 1 by {
                    if i < prev.1.len() {
                        assert(e.1[i] == prev.1[i]);
                    }
                }
            }
        }
    }
}

/// The `k`-th point that an encoded part decodes to: the first vertex plus the first `k` deltas.
pub open spec fn decoded_point(out: Seq<int>, k: nat) -> (int, int)
    decreases k,
{
    if k == 0 {
        (out[0], out[1])
    } else {
        let p = decoded_point(out, (k - 1) as nat);
        (p.0 + out[2 * k as int], p.1 + out[2 * k as int + 1])
    }
}

/// The indices, within the part, of the input vertices that the encoded points stand for.
pub open spec fn kept_indices(coords: Seq<i64>, start: int, j: nat) -> Seq<int>
    decreases j,
{
    if j <= 1 {
        seq![0]
    } else {
        let s = run_part(coords, start, (j - 1) as nat);
        let prev = kept_indices(coords, start, (j - 1) as nat);
        let x = vx(coords, start, j - 1);
        let y = vy(coords, start, j - 1);
        if x == s.px && y == s.py {
            prev
        } else if spec_collinear(s.pdx, s.pdy, x - s.px, y - s.py) {
            prev.update(prev.len() - 1, j - 1)
        } else {
            prev.push(j - 1)
        }
    }
}

proof fn lemma_decoded_point_prefix(a: Seq<int>, b: Seq<int>, k: nat)
    requires
        2 * k + 2 <= a.len(),
        2 * k + 2 <= b.len(),
        forall|i: int| 0 <= i < 2 * k + 2 ==> a[i] == b[i],
    ensures
        decoded_point(a, k) == decoded_point(b, k),
    decreases k,
{
    if k > 0 {
        lemma_decoded_point_prefix(a, b, (k - 1) as nat);
    }
}

/// Decoding an encoded part by prefix sums gives input vertices of the part, in strictly
/// increasing input order: the first point is the part's first vertex, and the last point is
/// where the part ends (the coordinates of its last vertex). Duplicate and collinear vertices
/// are the ones skipped.
pub proof fn lemma_part_decodes_to_kept_vertices(coords: Seq<i64>, start: int, j: nat)
    requires
        j >= 1,
    ensures
        ({
            let s = run_part(coords, start, j);
            let ks = kept_indices(coords, start, j);
            &&& ks.len() == s.count
            &&& ks[0] == 0
            &&& forall|a: int, b: int| 0 <= a < b < ks.len() ==> ks[a] < ks[b]
            &&& forall|a: int| 0 <= a < ks.len() ==> 0 <= #[trigger] ks[a] < j
            &&& forall|k: int|
                0 <= k < ks.len() ==> #[trigger] decoded_point(s.out, k as nat) == (
                    vx(coords, start, ks[k]),
                    vy(coords, start, ks[k]),
                )
            &&& (s.px, s.py) == (vx(coords, start, j - 1), vy(coords, start, j - 1))
            &&& decoded_point(s.out, (s.count - 1) as nat) == (s.px, s.py)
        }),
    decreases j,
{
    lemma_run_part_wf(coords, start, j);
    if j > 1 {
        let jm = (j - 1) as nat;
        lemma_part_decodes_to_kept_vertices(coords, start, jm);
        lemma_run_part_wf(coords, start, jm);
        let s0 = run_part(coords, start, jm);
        let prev = kept_indices(coords, start, jm);
        let s = run_part(coords, start, j);
        let ks = kept_indices(coords, start, j);
        let x = vx(coords, start, j - 1);
        let y = vy(coords, start, j - 1);
        let n = s0.out.len() as int;
        let c = s0.count;
        if x == s0.px && y == s0.py {
            assert(s == s0);
            assert(ks == prev);
        } else if spec_collinear(s0.pdx, s0.pdy, x - s0.px, y - s0.py) {
            assert(c >= 2) by {
                if c == 1 {
                    assert(s0.pdx == 0 && s0.pdy == 0);
                }
            }
            assert(ks == prev.update(prev.len() - 1, j - 1));
            assert forall|k: int| 0 <= k < ks.len() implies #[trigger] decoded_point(s.out, k as nat) == (
                vx(coords, start, ks[k]),
                vy(coords, start, ks[k]),
            ) by {
                if k < c - 1 {
                    lemma_decoded_point_prefix(s.out, s0.out, k as nat);
                } else {
                    lemma_decoded_point_prefix(s.out, s0.out, (k - 1) as nat);
                    lemma_decoded_point_prefix(s0.out, s0.out, (k - 1) as nat);
                    assert(decoded_point(s0.out, k as nat) == (s0.px, s0.py));
                }
            }
            assert forall|a: int, b: int| 0 <= a < b < ks.len() implies ks[a] < ks[b] by {
                if b == ks.len() - 1 {
                    assert(prev[a] < jm);
                }
            }
            let k = c - 1;
            assert(decoded_point(s.out, k as nat) == (x, y)) by {
                lemma_decoded_point_prefix(s.out, s0.out, (k - 1) as nat);
            }
        } else {
            assert(ks == prev.push(j - 1));
            assert(s.out == s0.out + seq![x - s0.px, y - s0.py]);
            assert forall|k: int| 0 <= k < ks.len() implies #[trigger] decoded_point(s.out, k as nat) == (
                vx(coords, start, ks[k]),
                vy(coords, start, ks[k]),
            ) by {
                if k < c {
                    lemma_decoded_point_prefix(s.out, s0.out, k as nat);
                } else {
                    lemma_decoded_point_prefix(s.out, s0.out, (k - 1) as nat);
                }
            }
            assert forall|a: int, b: int| 0 <= a < b < ks.len() implies ks[a] < ks[b] by {
                if b == ks.len() - 1 {
                    assert(prev[a] < jm);
                }
            }
        }
    }
}

/// The cross product of two plane vectors: zero exactly when they are parallel.
pub open spec fn cross(a: (int, int), b: (int, int)) -> int {
    a.0 * b.1 - a.1 * b.0
}

/// The vector from `q` to `p`.
pub open spec fn minus(p: (int, int), q: (int, int)) -> (int, int) {
    (p.0 - q.0, p.1 - q.1)
}

/// Vertex `v` of the part that starts at coordinate index `start`.
pub open spec fn vertex(coords: Seq<i64>, start: int, v: int) -> (int, int) {
    (vx(coords, start, v), vy(coords, start, v))
}

/// The dot product of two plane vectors.
pub open spec fn dot(a: (int, int), b: (int, int)) -> int {
    a.0 * b.0 + a.1 * b.1
}

/// Whether `w` lies on the segment from the origin to `u`: parallel to it, not behind the
/// origin, and not beyond `u`.
pub open spec fn within_segment(u: (int, int), w: (int, int)) -> bool {
    cross(u, w) == 0 && 0 <= dot(u, w) <= dot(u, u)
}

/// Input vertex `v` lies on the straight segment between the encoded points `k - 1` and `k`.
pub open spec fn on_kept_segment(coords: Seq<i64>, start: int, out: Seq<int>, k: int, v: int) -> bool {
    let p = decoded_point(out, (k - 1) as nat);
    within_segment(minus(decoded_point(out, k as nat), p), minus(vertex(coords, start, v), p))
}

proof fn lemma_parallel_transfer(a: (int, int), b: (int, int), c: (int, int))
    requires
        a.0 != 0 || a.1 != 0,
        cross(a, b) == 0,
        cross(a, c) == 0,
    ensures
        cross(b, c) == 0,
{
    let (ax, ay) = a;
    let (bx, by) = b;
    let (cx, cy) = c;
    assert(ax * (bx * cy - by * cx) == 0) by (nonlinear_arith)
        requires
            ax * by == ay * bx,
            ax * cy == ay * cx,
    ;
    assert(ay * (bx * cy - by * cx) == 0) by (nonlinear_arith)
        requires
            ax * by == ay * bx,
            ax * cy == ay * cx,
    ;
    assert(bx * cy - by * cx == 0) by (nonlinear_arith)
        requires
            ax != 0 || ay != 0,
            ax * (bx * cy - by * cx) == 0,
            ay * (bx * cy - by * cx) == 0,
    ;
}

proof fn lemma_regroup(w: int, x: int, y: int, z: int)
    ensures
        (w * x) * (y * z) == (w * y) * (x * z),
{
    assert((w * x) * (y * z) == (w * y) * (x * z)) by (nonlinear_arith);
}

proof fn lemma_expand(p: int, q: int, r: int, t: int)
    ensures
        (p + q) * (r + t) == p * r + p * t + q * r + q * t,
        (p - q) * (r - t) == p * r - p * t - q * r + q * t,
{
    assert((p + q) * (r + t) == p * r + p * t + q * r + q * t) by (nonlinear_arith);
    assert((p - q) * (r - t) == p * r - p * t - q * r + q * t) by (nonlinear_arith);
}

proof fn lemma_dot_cross_identity(a: (int, int), b: (int, int), c: (int, int))
    ensures
        dot(a, b) * dot(c, c) == dot(a, c) * dot(b, c) + cross(a, c) * cross(b, c),
{
    let (a0, a1) = a;
    let (b0, b1) = b;
    let (c0, c1) = c;
    lemma_expand(a0 * b0, a1 * b1, c0 * c0, c1 * c1);
    lemma_expand(a0 * c0, a1 * c1, b0 * c0, b1 * c1);
    lemma_expand(a0 * c1, a1 * c0, b0 * c1, b1 * c0);
    lemma_regroup(a0, c0, b0, c0);
    lemma_regroup(a0, c0, b1, c1);
    lemma_regroup(a1, c1, b0, c0);
    lemma_regroup(a1, c1, b1, c1);
    lemma_regroup(a0, c1, b0, c1);
    lemma_regroup(a0, c1, b1, c0);
    lemma_regroup(a1, c0, b0, c1);
    lemma_regroup(a1, c0, b1, c0);
    lemma_regroup(a0, b1, c0, c1);
    lemma_regroup(a0, b1, c1, c0);
    lemma_regroup(a1, b0, c1, c0);
    lemma_regroup(a1, b0, c0, c1);
    assert(c1 * c0 == c0 * c1) by (nonlinear_arith);
}

/// Two vectors parallel to a nonzero `c`, neither pointing against it, do not point against
/// each other.
proof fn lemma_same_side(a: (int, int), b: (int, int), c: (int, int))
    requires
        c.0 != 0 || c.1 != 0,
        cross(a, c) == 0,
        cross(b, c) == 0,
        dot(a, c) >= 0,
        dot(b, c) >= 0,
    ensures
        dot(a, b) >= 0,
{
    lemma_dot_cross_identity(a, b, c);
    let (ab, cc, ac, bc) = (dot(a, b), dot(c, c), dot(a, c), dot(b, c));
    assert(cc > 0) by (nonlinear_arith)
        requires
            c.0 != 0 || c.1 != 0,
            cc == c.0 * c.0 + c.1 * c.1,
    ;
    assert(ab >= 0) by (nonlinear_arith)
        requires
            ab * cc == ac * bc,
            cc > 0,
            ac >= 0,
            bc >= 0,
    ;
}

proof fn lemma_cross_antisymmetric(a: (int, int), b: (int, int))
    ensures
        cross(a, b) == -cross(b, a),
{
    assert(cross(a, b) == -cross(b, a)) by (nonlinear_arith);
}

proof fn lemma_cross_add(a: (int, int), b: (int, int), w: (int, int))
    ensures
        cross((a.0 + b.0, a.1 + b.1), w) == cross(a, w) + cross(b, w),
{
    assert(cross((a.0 + b.0, a.1 + b.1), w) == cross(a, w) + cross(b, w)) by (nonlinear_arith);
}

/// The geometric facts of a partly encoded part: each skipped vertex lies on the segment between
/// its kept neighbours, vertices after the last kept one repeat it, and the last delta points
/// along the last pushed delta.
proof fn lemma_part_geometry(coords: Seq<i64>, start: int, j: nat)
    requires
        j >= 1,
    ensures
        ({
            let s = run_part(coords, start, j);
            let ks = kept_indices(coords, start, j);
            let c = ks.len() as int;
            let u = (s.out[2 * c - 2], s.out[2 * c - 1]);
            &&& forall|k: int, v: int|
                1 <= k < c && ks[k - 1] < v < ks[k] ==> #[trigger] on_kept_segment(coords, start, s.out, k, v)
            &&& forall|v: int|
                ks[c - 1] < v < j ==> #[trigger] vertex(coords, start, v) == decoded_point(
                    s.out,
                    (c - 1) as nat,
                )
            &&& c >= 2 ==> {
                &&& (s.pdx != 0 || s.pdy != 0)
                &&& cross(u, (s.pdx, s.pdy)) == 0
                &&& u.0 * s.pdx + u.1 * s.pdy > 0
            }
        }),
    decreases j,
{
    lemma_part_decodes_to_kept_vertices(coords, start, j);
    lemma_run_part_wf(coords, start, j);
    if j > 1 {
        let jm = (j - 1) as nat;
        lemma_part_geometry(coords, start, jm);
        lemma_part_decodes_to_kept_vertices(coords, start, jm);
        lemma_run_part_wf(coords, start, jm);
        let s0 = run_part(coords, start, jm);
        let prev = kept_indices(coords, start, jm);
        let s = run_part(coords, start, j);
        let ks = kept_indices(coords, start, j);
        let x = vx(coords, start, j - 1);
        let y = vy(coords, start, j - 1);
        let c0 = prev.len() as int;
        let c = ks.len() as int;
        let d = (x - s0.px, y - s0.py);
        let last0 = decoded_point(s0.out, (c0 - 1) as nat);
        assert(last0 == (s0.px, s0.py));
        if x == s0.px && y == s0.py {
            assert(s == s0);
            assert(ks == prev);
            assert forall|v: int| ks[c - 1] < v < j implies #[trigger] vertex(coords, start, v)
                == decoded_point(s.out, (c - 1) as nat) by {
                if v == j - 1 {
                } else {
                    assert(vertex(coords, start, v) == last0);
                }
            }
        } else if spec_collinear(s0.pdx, s0.pdy, d.0, d.1) {
            assert(c0 >= 2) by {
                if c0 == 1 {
                    assert(s0.pdx == 0 && s0.pdy == 0);
                }
            }
            assert(c == c0);
            let pd = (s0.pdx, s0.pdy);
            let n = s0.out.len() as int;
            let u0 = (s0.out[2 * c0 - 2], s0.out[2 * c0 - 1]);
            let u1 = (s.out[2 * c - 2], s.out[2 * c - 1]);
            assert(u1 == (u0.0 + d.0, u0.1 + d.1));
            assert(cross(pd, d) == 0);
            let p2 = decoded_point(s0.out, (c0 - 2) as nat);
            lemma_decoded_point_prefix(s.out, s0.out, (c0 - 2) as nat);
            assert(decoded_point(s.out, (c - 2) as nat) == p2);
            assert(last0 == (p2.0 + u0.0, p2.1 + u0.1));
            assert(decoded_point(s.out, (c - 1) as nat) == (p2.0 + u1.0, p2.1 + u1.1));
            // The last delta stays along the pushed delta.
            lemma_cross_add(u0, d, pd);
            lemma_cross_antisymmetric(d, pd);
            lemma_cross_antisymmetric(u0, pd);
            assert(cross(d, pd) == 0);
            assert(u1.0 * pd.0 + u1.1 * pd.1 > 0) by (nonlinear_arith)
                requires
                    u1 == (u0.0 + d.0, u0.1 + d.1),
                    u0.0 * pd.0 + u0.1 * pd.1 > 0,
                    pd.0 * d.0 + pd.1 * d.1 > 0,
            ;
            assert(u0.0 != 0 || u0.1 != 0) by (nonlinear_arith)
                requires
                    u0.0 * pd.0 + u0.1 * pd.1 > 0,
            ;
            // The new segment direction is parallel to the old one and to the pushed delta.
            lemma_parallel_transfer(pd, d, u0);
            assert forall|k: int, v: int| 1 <= k < c && ks[k - 1] < v < ks[k] implies #[trigger] on_kept_segment(
                coords,
                start,
                s.out,
                k,
                v,
            ) by {
                if k < c - 1 {
                    lemma_decoded_point_prefix(s.out, s0.out, k as nat);
                    lemma_decoded_point_prefix(s.out, s0.out, (k - 1) as nat);
                    assert(ks[k - 1] == prev[k - 1] && ks[k] == prev[k]);
                    assert(on_kept_segment(coords, start, s0.out, k, v));
                } else {
                    let w = minus(vertex(coords, start, v), p2);
                    assert(ks[k - 1] == prev[k - 1]);
                    if v < prev[c0 - 1] {
                        assert(on_kept_segment(coords, start, s0.out, k, v));
                    } else {
                        assert(vertex(coords, start, v) == last0);
                        assert(w == u0);
                        assert(cross(u0, u0) == 0) by (nonlinear_arith);
                        assert(dot(u0, u0) >= 0) by (nonlinear_arith);
                    }
                    assert(within_segment(u0, w));
                    lemma_parallel_transfer(u0, pd, w);
                    lemma_parallel_transfer(pd, d, w);
                    lemma_cross_add(u0, d, w);
                    // Along the pushed delta, the new delta and the segment point the same way.
                    lemma_cross_antisymmetric(u0, pd);
                    assert(dot(d, pd) == pd.0 * d.0 + pd.1 * d.1) by (nonlinear_arith);
                    lemma_same_side(d, u0, pd);
                    lemma_cross_antisymmetric(d, u0);
                    lemma_cross_antisymmetric(u0, w);
                    assert(dot(w, u0) == dot(u0, w)) by (nonlinear_arith);
                    lemma_same_side(d, w, u0);
                    let r = minus(u0, w);
                    assert(cross(r, u0) == 0 && dot(r, u0) >= 0) by (nonlinear_arith)
                        requires
                            r == (u0.0 - w.0, u0.1 - w.1),
                            cross(u0, w) == 0,
                            dot(u0, w) <= dot(u0, u0),
                    ;
                    lemma_same_side(d, r, u0);
                    assert(within_segment(u1, w)) by (nonlinear_arith)
                        requires
                            u1 == (u0.0 + d.0, u0.1 + d.1),
                            r == (u0.0 - w.0, u0.1 - w.1),
                            cross(u1, w) == cross(u0, w) + cross(d, w),
                            cross(u0, w) == 0,
                            cross(d, w) == 0,
                            0 <= dot(u0, w) <= dot(u0, u0),
                            dot(d, w) >= 0,
                            dot(d, u0) >= 0,
                            dot(d, r) >= 0,
                    ;
                }
            }
        } else {
            assert(c == c0 + 1);
            assert(s.out == s0.out + seq![d.0, d.1]);
            assert(d.0 != 0 || d.1 != 0);
            assert(d.0 * d.0 + d.1 * d.1 > 0) by (nonlinear_arith)
                requires
                    d.0 != 0 || d.1 != 0,
            ;
            assert(cross(d, d) == 0) by (nonlinear_arith);
            assert(s.out[2 * c - 2] == d.0 && s.out[2 * c - 1] == d.1);
            assert forall|k: int, v: int| 1 <= k < c && ks[k - 1] < v < ks[k] implies #[trigger] on_kept_segment(
                coords,
                start,
                s.out,
                k,
                v,
            ) by {
                if k < c - 1 {
                    lemma_decoded_point_prefix(s.out, s0.out, k as nat);
                    lemma_decoded_point_prefix(s.out, s0.out, (k - 1) as nat);
                    assert(ks[k - 1] == prev[k - 1] && ks[k] == prev[k]);
                    assert(on_kept_segment(coords, start, s0.out, k, v));
                } else {
                    lemma_decoded_point_prefix(s.out, s0.out, (k - 1) as nat);
                    assert(ks[k - 1] == prev[c0 - 1]);
                    assert(vertex(coords, start, v) == last0);
                    assert(minus(vertex(coords, start, v), last0) == (0int, 0int));
                    let u = minus(decoded_point(s.out, k as nat), last0);
                    assert(within_segment(u, (0int, 0int))) by (nonlinear_arith);
                }
            }
        }
    }
}

/// Every input vertex that the encoder skips is a duplicate or lies on the straight segment
/// between its kept neighbours: between two consecutive encoded points, each skipped input
/// vertex is on the segment joining them, and input vertices after the last encoded point
/// repeat it.
pub proof fn lemma_skipped_vertices_lie_on_kept_segments(coords: Seq<i64>, start: int, j: nat)
    requires
        j >= 1,
    ensures
        ({
            let s = run_part(coords, start, j);
            let ks = kept_indices(coords, start, j);
            let c = ks.len() as int;
            &&& forall|k: int, v: int|
                1 <= k < c && ks[k - 1] < v < ks[k] ==> #[trigger] on_kept_segment(coords, start, s.out, k, v)
            &&& forall|v: int|
                ks[c - 1] < v < j ==> #[trigger] vertex(coords, start, v) == decoded_point(
                    s.out,
                    (c - 1) as nat,
                )
        }),
{
    lemma_part_geometry(coords, start, j);
}

/// The step from encoded point `k - 1` to encoded point `k`.
pub open spec fn encoded_step(out: Seq<int>, k: int) -> (int, int) {
    (out[2 * k], out[2 * k + 1])
}

/// Two consecutive steps that continue straight on in the same direction.
pub open spec fn continues_straight(a: (int, int), b: (int, int)) -> bool {
    cross(a, b) == 0 && dot(a, b) > 0
}

proof fn lemma_nonzero_from_dot(a: (int, int), b: (int, int))
    requires
        dot(a, b) > 0,
    ensures
        a.0 != 0 || a.1 != 0,
        b.0 != 0 || b.1 != 0,
{
    assert((a.0 != 0 || a.1 != 0) && (b.0 != 0 || b.1 != 0)) by (nonlinear_arith)
        requires
            a.0 * b.0 + a.1 * b.1 > 0,
    ;
}

/// If `a` and `b` are parallel to a nonzero `c` and both point along it, they point the same
/// way as each other; if one points along and the other does not, their dot product shows it.
proof fn lemma_dot_sign_transfer(a: (int, int), b: (int, int), c: (int, int))
    requires
        c.0 != 0 || c.1 != 0,
        cross(a, c) == 0,
        cross(b, c) == 0,
        dot(a, c) > 0,
        dot(b, a) > 0,
    ensures
        dot(b, c) > 0,
{
    lemma_dot_cross_identity(b, c, a);
    lemma_dot_cross_identity(b, a, c);
    lemma_nonzero_from_dot(a, c);
    let (ba, cc, bc, ac) = (dot(b, a), dot(c, c), dot(b, c), dot(a, c));
    assert(cc > 0) by (nonlinear_arith)
        requires
            c.0 != 0 || c.1 != 0,
            cc == c.0 * c.0 + c.1 * c.1,
    ;
    assert(dot(a, c) == dot(c, a)) by (nonlinear_arith);
    assert(bc > 0) by (nonlinear_arith)
        requires
            ba * cc == bc * ac,
            cc > 0,
            ba > 0,
            ac > 0,
    ;
}

/// An encoded part has no redundant point: every step between consecutive encoded points moves,
/// and no two consecutive steps continue straight on in the same direction.
pub proof fn lemma_encoded_part_has_no_redundant_points(coords: Seq<i64>, start: int, j: nat)
    requires
        j >= 1,
    ensures
        ({
            let s = run_part(coords, start, j);
            let c = s.count as int;
            &&& forall|k: int| 1 <= k < c ==> #[trigger] encoded_step(s.out, k) != (0int, 0int)
            &&& forall|k: int|
                2 <= k < c ==> !continues_straight(encoded_step(s.out, k - 1), #[trigger] encoded_step(s.out, k))
        }),
    decreases j,
{
    lemma_run_part_wf(coords, start, j);
    lemma_part_geometry(coords, start, j);
    lemma_part_decodes_to_kept_vertices(coords, start, j);
    if j > 1 {
        let jm = (j - 1) as nat;
        lemma_encoded_part_has_no_redundant_points(coords, start, jm);
        lemma_run_part_wf(coords, start, jm);
        lemma_part_geometry(coords, start, jm);
        lemma_part_decodes_to_kept_vertices(coords, start, jm);
        let s0 = run_part(coords, start, jm);
        let s = run_part(coords, start, j);
        let x = vx(coords, start, j - 1);
        let y = vy(coords, start, j - 1);
        let c0 = s0.count as int;
        let c = s.count as int;
        let d = (x - s0.px, y - s0.py);
        let pd = (s0.pdx, s0.pdy);
        if x == s0.px && y == s0.py {
            assert(s == s0);
        } else if spec_collinear(s0.pdx, s0.pdy, d.0, d.1) {
            assert(c0 >= 2) by {
                if c0 == 1 {
                    assert(s0.pdx == 0 && s0.pdy == 0);
                }
            }
            let u0 = encoded_step(s0.out, c0 - 1);
            let u1 = encoded_step(s.out, c - 1);
            assert(u1 == (u0.0 + d.0, u0.1 + d.1));
            assert(dot(u0, pd) == u0.0 * pd.0 + u0.1 * pd.1);
            lemma_nonzero_from_dot(u0, pd);
            assert(dot(u1, pd) > 0) by (nonlinear_arith)
                requires
                    u1 == (u0.0 + d.0, u0.1 + d.1),
                    u0.0 * pd.0 + u0.1 * pd.1 > 0,
                    pd.0 * d.0 + pd.1 * d.1 > 0,
            ;
            lemma_nonzero_from_dot(u1, pd);
            // u1 runs along u0 in the same direction.
            lemma_cross_antisymmetric(u0, pd);
            lemma_cross_antisymmetric(d, pd);
            assert(cross(pd, d) == 0);
            lemma_parallel_transfer(pd, u0, d);
            lemma_cross_add(u0, d, u0);
            assert(cross(u0, u0) == 0) by (nonlinear_arith);
            lemma_cross_antisymmetric(d, u0);
            lemma_cross_antisymmetric(u1, u0);
            assert(dot(d, pd) == pd.0 * d.0 + pd.1 * d.1) by (nonlinear_arith);
            lemma_same_side(d, u0, pd);
            assert(dot(u1, u0) > 0) by (nonlinear_arith)
                requires
                    u1 == (u0.0 + d.0, u0.1 + d.1),
                    u0.0 != 0 || u0.1 != 0,
                    dot(d, u0) >= 0,
            ;
            assert forall|k: int| 1 <= k < c implies #[trigger] encoded_step(s.out, k) != (0int, 0int) by {
                if k < c - 1 {
                    assert(encoded_step(s.out, k) == encoded_step(s0.out, k));
                }
            }
            assert forall|k: int| 2 <= k < c implies !continues_straight(
                encoded_step(s.out, k - 1),
                #[trigger] encoded_step(s.out, k),
            ) by {
                assert(encoded_step(s.out, k - 1) == encoded_step(s0.out, k - 1));
                if k < c - 1 {
                    assert(encoded_step(s.out, k) == encoded_step(s0.out, k));
                } else {
                    let p = encoded_step(s0.out, k - 1);
                    assert(!continues_straight(p, u0));
                    if continues_straight(p, u1) {
                        lemma_cross_antisymmetric(p, u1);
                        lemma_parallel_transfer(u1, p, u0);
                        assert(dot(u1, u0) == dot(u0, u1)) by (nonlinear_arith);
                        assert(dot(p, u1) == dot(u1, p)) by (nonlinear_arith);
                        lemma_dot_sign_transfer(u1, p, u0);
                        assert(dot(p, u0) > 0);
                        assert(false);
                    }
                }
            }
        } else {
            assert(c == c0 + 1);
            assert(s.out == s0.out + seq![d.0, d.1]);
            assert(encoded_step(s.out, c - 1) == d);
            assert forall|k: int| 1 <= k < c implies #[trigger] encoded_step(s.out, k) != (0int, 0int) by {
                if k < c - 1 {
                    assert(encoded_step(s.out, k) == encoded_step(s0.out, k));
                }
            }
            assert forall|k: int| 2 <= k < c implies !continues_straight(
                encoded_step(s.out, k - 1),
                #[trigger] encoded_step(s.out, k),
            ) by {
                assert(encoded_step(s.out, k - 1) == encoded_step(s0.out, k - 1));
                if k < c - 1 {
                    assert(encoded_step(s.out, k) == encoded_step(s0.out, k));
                } else {
                    let u0 = encoded_step(s0.out, c0 - 1);
                    if continues_straight(u0, d) {
                        assert(dot(u0, pd) == u0.0 * pd.0 + u0.1 * pd.1);
                        lemma_nonzero_from_dot(u0, pd);
                        lemma_cross_antisymmetric(u0, pd);
                        lemma_parallel_transfer(u0, pd, d);
                        assert(dot(pd, u0) == dot(u0, pd)) by (nonlinear_arith);
                        lemma_cross_antisymmetric(d, pd);
                        assert(dot(d, u0) == dot(u0, d)) by (nonlinear_arith);
                        assert(dot(d, u0) > 0);
                        lemma_dot_sign_transfer(u0, d, pd);
                        assert(dot(d, pd) == pd.0 * d.0 + pd.1 * d.1) by (nonlinear_arith);
                        assert(spec_collinear(s0.pdx, s0.pdy, d.0, d.1));
                        assert(false);
                    }
                }
            }
        }
    }
}

} // verus!
