//! Flattens source geometry into interleaved coordinate sequences plus part lengths.
//!
//! One traversal serves every display category: points and multipoints become one part,
//! lines one part each, and polygons one part per ring, with an empty part standing for a
//! missing exterior ring. The coordinate type is a parameter; geometry decoding instantiates it
//! with the source's floating-point type.

use vstd::prelude::*;
use crate::pbf::{length_sum, DisplayGeometryType};

verus! {

/// The rings of one polygon.
pub struct PolygonRings<C> {
    /// The exterior ring, absent for an empty polygon.
    pub exterior: Option<Vec<(C, C)>>,
    /// The interior rings, in order.
    pub interiors: Vec<Vec<(C, C)>>,
}

/// A decoded source geometry, reduced to the coordinates the display traversal reads.
pub enum SourceGeometry<C> {
    /// A point, absent for an empty point.
    Point(Option<(C, C)>),
    /// One line string.
    LineString(Vec<(C, C)>),
    /// One polygon.
    Polygon(PolygonRings<C>),
    /// Member points, each absent when empty.
    MultiPoint(Vec<Option<(C, C)>>),
    /// Member line strings.
    MultiLineString(Vec<Vec<(C, C)>>),
    /// Member polygons.
    MultiPolygon(Vec<PolygonRings<C>>),
    /// Any other geometry kind (collections, rectangles, triangles, lines).
    Other,
}

/// A geometry flattened for display.
pub struct FlatGeometryPayload<C> {
    /// Interleaved x/y coordinates of every traversed part.
    pub coords: Vec<C>,
    /// The coordinate-pair count of each part.
    pub lengths: Vec<u32>,
}

/// A source geometry that does not belong to the requested display category.
#[derive(Clone, Copy, Debug, PartialEq, Eq, Structural)]
pub struct UnsupportedDisplayGeometry {
    pub geometry_type: DisplayGeometryType,
}

pub open spec fn point_part<C>(point: Option<(C, C)>) -> Seq<(C, C)> {
    match point {
        Some(c) => seq![c],
        None => Seq::empty(),
    }
}

/// The present points of a multipoint, in order.
pub open spec fn present_points<C>(points: Seq<Option<(C, C)>>) -> Seq<(C, C)>
    decreases points.len(),
{
    if points.len() == 0 {
        Seq::empty()
    } else {
        present_points(points.drop_last()) + point_part(points.last())
    }
}

pub open spec fn ring_views<C>(rings: Seq<Vec<(C, C)>>) -> Seq<Seq<(C, C)>> {
    rings.map_values(|r: Vec<(C, C)>| r@)
}

/// The parts of one polygon: its exterior ring, or an empty part, then its interior rings.
pub open spec fn polygon_parts<C>(polygon: PolygonRings<C>) -> Seq<Seq<(C, C)>> {
    seq![
        match polygon.exterior {
            Some(r) => r@,
            None => Seq::empty(),
        },
    ] + ring_views(polygon.interiors@)
}

/// The parts of several polygons, in order.
pub open spec fn multipolygon_parts<C>(polygons: Seq<PolygonRings<C>>) -> Seq<Seq<(C, C)>>
    decreases polygons.len(),
{
    if polygons.len() == 0 {
        Seq::empty()
    } else {
        multipolygon_parts(polygons.drop_last()) + polygon_parts(polygons.last())
    }
}

/// The parts that the display traversal produces, or `None` where the geometry does not belong
/// to the display category.
pub open spec fn display_parts<C>(geometry: SourceGeometry<C>, geometry_type: DisplayGeometryType) -> Option<
    Seq<Seq<(C, C)>>,
> {
    match (geometry_type, geometry) {
        (DisplayGeometryType::Point, SourceGeometry::Point(p)) => Some(seq![point_part(p)]),
        (DisplayGeometryType::MultiPoint, SourceGeometry::MultiPoint(ps)) => Some(
            seq![present_points(ps@)],
        ),
        (DisplayGeometryType::Polyline, SourceGeometry::LineString(l)) => Some(seq![l@]),
        (DisplayGeometryType::Polyline, SourceGeometry::MultiLineString(ls)) => Some(
            ring_views(ls@),
        ),
        (DisplayGeometryType::Polygon, SourceGeometry::Polygon(p)) => Some(polygon_parts(p)),
        (DisplayGeometryType::Polygon, SourceGeometry::MultiPolygon(ps)) => Some(
            multipolygon_parts(ps@),
        ),
        _ => None,
    }
}

/// The interleaved coordinates of a sequence of pairs.
pub open spec fn pair_coords<C>(pairs: Seq<(C, C)>) -> Seq<C>
    decreases pairs.len(),
{
    if pairs.len() == 0 {
        Seq::empty()
    } else {
        pair_coords(pairs.drop_last()) + seq![pairs.last().0, pairs.last().1]
    }
}

/// The interleaved coordinates of every part, in order.
pub open spec fn flat_coords<C>(parts: Seq<Seq<(C, C)>>) -> Seq<C>
    decreases parts.len(),
{
    if parts.len() == 0 {
        Seq::empty()
    } else {
        flat_coords(parts.drop_last()) + pair_coords(parts.last())
    }
}

/// The number of coordinate pairs of each part.
pub open spec fn part_lengths<C>(parts: Seq<Seq<(C, C)>>) -> Seq<u32> {
    parts.map_values(|p: Seq<(C, C)>| p.len() as u32)
}

/// Every part's pair count fits the `u32` length field.
pub open spec fn parts_fit_u32<C>(parts: Seq<Seq<(C, C)>>) -> bool {
    forall|i: int| 0 <= i < parts.len() ==> (#[trigger] parts[i]).len() <= u32::MAX
}

proof fn lemma_flat_coords_append<C>(a: Seq<Seq<(C, C)>>, b: Seq<Seq<(C, C)>>)
    ensures
        flat_coords(a + b) == flat_coords(a) + flat_coords(b),
    decreases b.len(),
{
    if b.len() == 0 {
        assert(a + b =~= a);
        assert(flat_coords(a) + flat_coords(b) =~= flat_coords(a));
    } else {
        lemma_flat_coords_append(a, b.drop_last());
        assert((a + b).drop_last() =~= a + b.drop_last());
        assert((a + b).last() == b.last());
        assert(flat_coords(a + b) =~= flat_coords(a) + flat_coords(b));
    }
}

proof fn lemma_flat_coords_single<C>(part: Seq<(C, C)>)
    ensures
        flat_coords(seq![part]) == pair_coords(part),
        part_lengths(seq![part]) == seq![part.len() as u32],
{
    assert(seq![part].drop_last() =~= Seq::<Seq<(C, C)>>::empty());
    assert(seq![part].last() == part);
    assert(flat_coords(Seq::<Seq<(C, C)>>::empty()) == Seq::<C>::empty());
    assert(Seq::<C>::empty() + pair_coords(part) =~= pair_coords(part));
    assert(part_lengths(seq![part]) =~= seq![part.len() as u32]);
}

proof fn lemma_nothing_appended<C>(coords: Seq<C>, lengths: Seq<u32>)
    ensures
        coords + flat_coords(Seq::<Seq<(C, C)>>::empty()) == coords,
        lengths + part_lengths(Seq::<Seq<(C, C)>>::empty()) == lengths,
{
    assert(coords + flat_coords(Seq::<Seq<(C, C)>>::empty()) =~= coords);
    assert(lengths + part_lengths(Seq::<Seq<(C, C)>>::empty()) =~= lengths);
}

/// Appending `more` after `parts` extends the output by `more`'s coordinates and lengths.
proof fn lemma_append_parts<C>(
    coords: Seq<C>,
    lengths: Seq<u32>,
    parts: Seq<Seq<(C, C)>>,
    more: Seq<Seq<(C, C)>>,
)
    ensures
        coords + flat_coords(parts) + flat_coords(more) == coords + flat_coords(parts + more),
        lengths + part_lengths(parts) + part_lengths(more) == lengths + part_lengths(parts + more),
{
    lemma_flat_coords_append(parts, more);
    assert(coords + flat_coords(parts) + flat_coords(more) =~= coords + (flat_coords(parts)
        + flat_coords(more)));
    assert(part_lengths(parts + more) =~= part_lengths(parts) + part_lengths(more));
    assert(lengths + part_lengths(parts) + part_lengths(more) =~= lengths + part_lengths(
        parts + more,
    ));
}

proof fn lemma_pair_coords_append<C>(a: Seq<(C, C)>, b: Seq<(C, C)>)
    ensures
        pair_coords(a + b) == pair_coords(a) + pair_coords(b),
    decreases b.len(),
{
    if b.len() == 0 {
        assert(a + b =~= a);
        assert(pair_coords(a) + pair_coords(b) =~= pair_coords(a));
    } else {
        lemma_pair_coords_append(a, b.drop_last());
        assert((a + b).drop_last() =~= a + b.drop_last());
        assert((a + b).last() == b.last());
        assert(pair_coords(a + b) =~= pair_coords(a) + pair_coords(b));
    }
}

/// Accumulates flattened coordinates and part lengths during traversal.
struct PayloadBuilder<C> {
    coords: Vec<C>,
    lengths: Vec<u32>,
    current_len: u32,
}

impl<C: Copy> PayloadBuilder<C> {
    fn new() -> (builder: Self)
        ensures
            builder.coords@ == Seq::<C>::empty(),
            builder.lengths@ == Seq::<u32>::empty(),
            builder.current_len == 0,
    {
        PayloadBuilder { coords: Vec::new(), lengths: Vec::new(), current_len: 0 }
    }

    fn start_part(&mut self)
        ensures
            final(self).coords@ == old(self).coords@,
            final(self).lengths@ == old(self).lengths@,
            final(self).current_len == 0,
    {
        self.current_len = 0;
    }

    fn push_coord(&mut self, x: C, y: C)
        requires
            old(self).current_len < u32::MAX,
        ensures
            final(self).coords@ == old(self).coords@ + seq![x, y],
            final(self).lengths@ == old(self).lengths@,
            final(self).current_len == old(self).current_len + 1,
    {
        self.coords.push(x);
        self.coords.push(y);
        self.current_len = self.current_len + 1;
    }

    fn finish_part(&mut self)
        ensures
            final(self).coords@ == old(self).coords@,
            final(self).lengths@ == old(self).lengths@.push(old(self).current_len),
            final(self).current_len == 0,
    {
        self.lengths.push(self.current_len);
        self.current_len = 0;
    }

    fn finish(self) -> (payload: FlatGeometryPayload<C>)
        ensures
            payload.coords@ == self.coords@,
            payload.lengths@ == self.lengths@,
    {
        FlatGeometryPayload { coords: self.coords, lengths: self.lengths }
    }
}

/// Append the parts in `parts` to the builder's output.
spec fn appended<C>(before: PayloadBuilder<C>, after: PayloadBuilder<C>, parts: Seq<Seq<(C, C)>>) -> bool {
    &&& after.coords@ == before.coords@ + flat_coords(parts)
    &&& after.lengths@ == before.lengths@ + part_lengths(parts)
}

fn visit_line_string<C: Copy>(line: &Vec<(C, C)>, builder: &mut PayloadBuilder<C>)
    requires
        line@.len() <= u32::MAX,
    ensures
        appended(*old(builder), *final(builder), seq![line@]),
{
    builder.start_part();
    let mut i: usize = 0;
    while i < line.len()
        invariant
            i <= line@.len() <= u32::MAX,
            builder.current_len == i,
            builder.lengths@ == old(builder).lengths@,
            builder.coords@ == old(builder).coords@ + pair_coords(line@.subrange(0, i as int)),
        decreases line@.len() - i,
    {
        let (x, y) = line[i];
        builder.push_coord(x, y);
        proof {
            let next = line@.subrange(0, i + 1);
            assert(next.drop_last() =~= line@.subrange(0, i as int));
            assert(next.last() == line@[i as int]);
        }
        i = i + 1;
    }
    builder.finish_part();
    proof {
        assert(line@.subrange(0, line@.len() as int) =~= line@);
        lemma_flat_coords_single(line@);
        assert(final(builder).lengths@ =~= old(builder).lengths@ + seq![line@.len() as u32]);
    }
}

fn visit_point<C: Copy>(point: &Option<(C, C)>, builder: &mut PayloadBuilder<C>)
    ensures
        appended(*old(builder), *final(builder), seq![point_part(*point)]),
{
    builder.start_part();
    if let Some((x, y)) = point {
        builder.push_coord(*x, *y);
    }
    builder.finish_part();
    proof {
        let part = point_part(*point);
        lemma_flat_coords_single(part);
        if part.len() == 1 {
            assert(part.drop_last() =~= Seq::<(C, C)>::empty());
            assert(pair_coords(Seq::<(C, C)>::empty()) == Seq::<C>::empty());
            assert(pair_coords(part) =~= Seq::<C>::empty() + seq![part.last().0, part.last().1]);
        } else {
            assert(pair_coords(part) == Seq::<C>::empty());
        }
        assert(final(builder).coords@ =~= old(builder).coords@ + pair_coords(part));
        assert(final(builder).lengths@ =~= old(builder).lengths@ + seq![part.len() as u32]);
    }
}

fn visit_multipoint<C: Copy>(points: &Vec<Option<(C, C)>>, builder: &mut PayloadBuilder<C>)
    requires
        present_points(points@).len() <= u32::MAX,
    ensures
        appended(*old(builder), *final(builder), seq![present_points(points@)]),
{
    builder.start_part();
    let mut i: usize = 0;
    proof {
        assert(points@.subrange(0, 0) =~= Seq::<Option<(C, C)>>::empty());
        assert(pair_coords(Seq::<(C, C)>::empty()) == Seq::<C>::empty());
        assert(builder.coords@ =~= old(builder).coords@ + pair_coords(Seq::<(C, C)>::empty()));
    }
    while i < points.len()
        invariant
            i <= points@.len(),
            present_points(points@).len() <= u32::MAX,
            builder.current_len == present_points(points@.subrange(0, i as int)).len(),
            builder.lengths@ == old(builder).lengths@,
            builder.coords@ == old(builder).coords@ + pair_coords(
                present_points(points@.subrange(0, i as int)),
            ),
        decreases points@.len() - i,
    {
        proof {
            let next = points@.subrange(0, i + 1);
            assert(next.drop_last() =~= points@.subrange(0, i as int));
            assert(next.last() == points@[i as int]);
            lemma_present_points_prefix(points@, i + 1);
        }
        if let Some((x, y)) = points[i] {
            builder.push_coord(x, y);
        }
        proof {
            let prefix = points@.subrange(0, i as int);
            let part = point_part(points@[i as int]);
            lemma_pair_coords_append(present_points(prefix), part);
            if part.len() == 1 {
                assert(part.drop_last() =~= Seq::<(C, C)>::empty());
                assert(pair_coords(Seq::<(C, C)>::empty()) == Seq::<C>::empty());
                assert(pair_coords(part) =~= Seq::<C>::empty() + seq![part.last().0, part.last().1]);
            } else {
                assert(part =~= Seq::<(C, C)>::empty());
                assert(present_points(prefix) + part =~= present_points(prefix));
                assert(pair_coords(part) == Seq::<C>::empty());
            }
            assert(builder.coords@ =~= old(builder).coords@ + pair_coords(present_points(prefix))
                + pair_coords(part));
        }
        i = i + 1;
    }
    builder.finish_part();
    proof {
        let all = present_points(points@);
        assert(points@.subrange(0, points@.len() as int) =~= points@);
        lemma_flat_coords_single(all);
        assert(final(builder).lengths@ =~= old(builder).lengths@ + seq![all.len() as u32]);
    }
}

proof fn lemma_present_points_prefix<C>(points: Seq<Option<(C, C)>>, k: int)
    requires
        0 <= k <= points.len(),
    ensures
        present_points(points.subrange(0, k)).len() <= present_points(points).len(),
    decreases points.len() - k,
{
    if k < points.len() {
        lemma_present_points_prefix(points, k + 1);
        let next = points.subrange(0, k + 1);
        assert(next.drop_last() =~= points.subrange(0, k));
    } else {
        assert(points.subrange(0, k) =~= points);
    }
}

/// Visit several rings or lines, one part each.
fn visit_line_strings<C: Copy>(lines: &Vec<Vec<(C, C)>>, builder: &mut PayloadBuilder<C>)
    requires
        parts_fit_u32(ring_views(lines@)),
    ensures
        appended(*old(builder), *final(builder), ring_views(lines@)),
{
    let mut i: usize = 0;
    proof {
        assert(ring_views(lines@.subrange(0, 0)) =~= Seq::<Seq<(C, C)>>::empty());
        lemma_nothing_appended(old(builder).coords@, old(builder).lengths@);
    }
    while i < lines.len()
        invariant
            i <= lines@.len(),
            parts_fit_u32(ring_views(lines@)),
            appended(*old(builder), *builder, ring_views(lines@.subrange(0, i as int))),
        decreases lines@.len() - i,
    {
        let ghost before = *builder;
        proof {
            assert(ring_views(lines@)[i as int] == lines@[i as int]@);
        }
        visit_line_string(&lines[i], builder);
        proof {
            let prefix = ring_views(lines@.subrange(0, i as int));
            let part = lines@[i as int]@;
            assert(ring_views(lines@.subrange(0, i + 1)) =~= prefix + seq![part]);
            lemma_append_parts(old(builder).coords@, old(builder).lengths@, prefix, seq![part]);
        }
        i = i + 1;
    }
    proof {
        assert(lines@.subrange(0, lines@.len() as int) =~= lines@);
    }
}

fn visit_polygon<C: Copy>(polygon: &PolygonRings<C>, builder: &mut PayloadBuilder<C>)
    requires
        parts_fit_u32(polygon_parts(*polygon)),
    ensures
        appended(*old(builder), *final(builder), polygon_parts(*polygon)),
{
    let ghost parts = polygon_parts(*polygon);
    let ghost first = parts[0];
    proof {
        assert(parts[0] == first);
    }
    match &polygon.exterior {
        Some(exterior) => {
            proof {
                assert(parts =~= seq![exterior@] + ring_views(polygon.interiors@));
                assert(first == exterior@);
            }
            visit_line_string(exterior, builder);
        },
        None => {
            builder.start_part();
            builder.finish_part();
            proof {
                lemma_flat_coords_single(first);
                assert(first =~= Seq::<(C, C)>::empty());
                assert(pair_coords(first) == Seq::<C>::empty());
                assert(builder.coords@ =~= old(builder).coords@ + flat_coords(seq![first]));
                assert(builder.lengths@ =~= old(builder).lengths@ + seq![first.len() as u32]);
            }
        },
    }
    let ghost middle = *builder;
    assert(appended(*old(builder), middle, seq![first]));
    proof {
        let rest = ring_views(polygon.interiors@);
        assert forall|i: int| 0 <= i < rest.len() implies (#[trigger] rest[i]).len() <= u32::MAX by {
            assert(parts[i + 1] == rest[i]);
        }
    }
    visit_line_strings(&polygon.interiors, builder);
    proof {
        let rest = ring_views(polygon.interiors@);
        assert(parts =~= seq![first] + rest);
        lemma_append_parts(old(builder).coords@, old(builder).lengths@, seq![first], rest);
    }
}

fn visit_multipolygon<C: Copy>(polygons: &Vec<PolygonRings<C>>, builder: &mut PayloadBuilder<C>)
    requires
        parts_fit_u32(multipolygon_parts(polygons@)),
    ensures
        appended(*old(builder), *final(builder), multipolygon_parts(polygons@)),
{
    let mut i: usize = 0;
    proof {
        assert(polygons@.subrange(0, 0) =~= Seq::<PolygonRings<C>>::empty());
        lemma_nothing_appended(old(builder).coords@, old(builder).lengths@);
    }
    while i < polygons.len()
        invariant
            i <= polygons@.len(),
            parts_fit_u32(multipolygon_parts(polygons@)),
            appended(*old(builder), *builder, multipolygon_parts(polygons@.subrange(0, i as int))),
        decreases polygons@.len() - i,
    {
        let ghost prefix = multipolygon_parts(polygons@.subrange(0, i as int));
        let ghost part = polygon_parts(polygons@[i as int]);
        proof {
            let next = polygons@.subrange(0, i + 1);
            assert(next.drop_last() =~= polygons@.subrange(0, i as int));
            assert(next.last() == polygons@[i as int]);
            lemma_multipolygon_parts_prefix(polygons@, i + 1);
            assert forall|j: int| 0 <= j < part.len() implies (#[trigger] part[j]).len() <= u32::MAX by {
                assert(multipolygon_parts(next)[prefix.len() + j] == part[j]);
            }
        }
        visit_polygon(&polygons[i], builder);
        proof {
            lemma_append_parts(old(builder).coords@, old(builder).lengths@, prefix, part);
            let next = polygons@.subrange(0, i + 1);
            assert(multipolygon_parts(next) == prefix + part);
        }
        i = i + 1;
    }
    proof {
        assert(polygons@.subrange(0, polygons@.len() as int) =~= polygons@);
    }
}

proof fn lemma_multipolygon_parts_prefix<C>(polygons: Seq<PolygonRings<C>>, k: int)
    requires
        0 <= k <= polygons.len(),
        parts_fit_u32(multipolygon_parts(polygons)),
    ensures
        parts_fit_u32(multipolygon_parts(polygons.subrange(0, k))),
    decreases polygons.len() - k,
{
    if k < polygons.len() {
        lemma_multipolygon_parts_prefix(polygons, k + 1);
        let next = polygons.subrange(0, k + 1);
        assert(next.drop_last() =~= polygons.subrange(0, k));
        let shorter = multipolygon_parts(polygons.subrange(0, k));
        assert forall|i: int| 0 <= i < shorter.len() implies (#[trigger] shorter[i]).len()
            <= u32::MAX by {
            assert(multipolygon_parts(next)[i] == shorter[i]);
        }
    } else {
        assert(polygons.subrange(0, k) =~= polygons);
    }
}

/// Flatten a source geometry that belongs to the requested display category.
///
/// Points and multipoints give one part, lines one part each, and polygons one part per ring.
/// A geometry of another kind is refused.
pub fn flatten_for_display<C: Copy>(geometry: &SourceGeometry<C>, geometry_type: DisplayGeometryType) -> (result:
    Result<FlatGeometryPayload<C>, UnsupportedDisplayGeometry>)
    requires
        display_parts(*geometry, geometry_type) matches Some(parts) ==> parts_fit_u32(parts),
    ensures
        match display_parts(*geometry, geometry_type) {
            Some(parts) => result matches Ok(payload) && payload.coords@ == flat_coords(parts)
                && payload.lengths@ == part_lengths(parts),
            None => result == Err::<FlatGeometryPayload<C>, UnsupportedDisplayGeometry>(
                UnsupportedDisplayGeometry { geometry_type },
            ),
        },
{
    let mut builder = PayloadBuilder::new();
    let ghost start = builder;
    match (geometry_type, geometry) {
        (DisplayGeometryType::Point, SourceGeometry::Point(p)) => {
            visit_point(p, &mut builder);
        },
        (DisplayGeometryType::MultiPoint, SourceGeometry::MultiPoint(ps)) => {
            proof {
                assert(seq![present_points(ps@)][0] == present_points(ps@));
            }
            visit_multipoint(ps, &mut builder);
        },
        (DisplayGeometryType::Polyline, SourceGeometry::LineString(l)) => {
            proof {
                assert(seq![l@][0] == l@);
            }
            visit_line_string(l, &mut builder);
        },
        (DisplayGeometryType::Polyline, SourceGeometry::MultiLineString(ls)) => {
            visit_line_strings(ls, &mut builder);
        },
        (DisplayGeometryType::Polygon, SourceGeometry::Polygon(p)) => {
            visit_polygon(p, &mut builder);
        },
        (DisplayGeometryType::Polygon, SourceGeometry::MultiPolygon(ps)) => {
            visit_multipolygon(ps, &mut builder);
        },
        _ => {
            return Err(UnsupportedDisplayGeometry { geometry_type });
        },
    }
    proof {
        let parts = display_parts(*geometry, geometry_type)->Some_0;
        assert(builder.coords@ =~= flat_coords(parts));
        assert(builder.lengths@ =~= part_lengths(parts));
    }
    Ok(builder.finish())
}

proof fn lemma_pair_coords_len<C>(pairs: Seq<(C, C)>)
    ensures
        pair_coords(pairs).len() == 2 * pairs.len(),
    decreases pairs.len(),
{
    if pairs.len() > 0 {
        lemma_pair_coords_len(pairs.drop_last());
    }
}

proof fn lemma_length_sum_prefix(a: Seq<u32>, b: Seq<u32>, k: nat)
    requires
        k <= a.len(),
        k <= b.len(),
        forall|i: int| 0 <= i < k ==> a[i] == b[i],
    ensures
        length_sum(a, k) == length_sum(b, k),
    decreases k,
{
    if k > 0 {
        lemma_length_sum_prefix(a, b, (k - 1) as nat);
    }
}

/// A flattened payload holds one x/y pair per counted vertex, which is what the quantized
/// encoder requires of its input.
pub proof fn lemma_flattened_payload_fits_encoder<C>(parts: Seq<Seq<(C, C)>>)
    requires
        parts_fit_u32(parts),
    ensures
        flat_coords(parts).len() == 2 * length_sum(part_lengths(parts), parts.len()),
    decreases parts.len(),
{
    if parts.len() > 0 {
        let shorter = parts.drop_last();
        assert(parts_fit_u32(shorter)) by {
            assert forall|i: int| 0 <= i < shorter.len() implies (#[trigger] shorter[i]).len()
                <= u32::MAX by {
                assert(shorter[i] == parts[i]);
            }
        }
        lemma_flattened_payload_fits_encoder(shorter);
        lemma_pair_coords_len(parts.last());
        lemma_length_sum_prefix(
            part_lengths(parts),
            part_lengths(shorter),
            (parts.len() - 1) as nat,
        );
        assert(part_lengths(parts)[parts.len() - 1] == parts.last().len() as u32);
        assert(parts[parts.len() - 1].len() <= u32::MAX);
    }
}

/// The number of coordinate pairs in a sequence of rings.
pub open spec fn rings_pair_count<C>(rings: Seq<Vec<(C, C)>>) -> nat
    decreases rings.len(),
{
    if rings.len() == 0 {
        0
    } else {
        rings_pair_count(rings.drop_last()) + rings.last()@.len()
    }
}

/// The number of coordinate pairs in a sequence of parts.
pub open spec fn parts_pair_count<C>(parts: Seq<Seq<(C, C)>>) -> nat
    decreases parts.len(),
{
    if parts.len() == 0 {
        0
    } else {
        parts_pair_count(parts.drop_last()) + parts.last().len()
    }
}

proof fn lemma_flat_coords_len<C>(parts: Seq<Seq<(C, C)>>)
    ensures
        flat_coords(parts).len() == 2 * parts_pair_count(parts),
    decreases parts.len(),
{
    if parts.len() > 0 {
        lemma_flat_coords_len(parts.drop_last());
        lemma_pair_coords_len(parts.last());
    }
}

proof fn lemma_parts_pair_count_append<C>(a: Seq<Seq<(C, C)>>, b: Seq<Seq<(C, C)>>)
    ensures
        parts_pair_count(a + b) == parts_pair_count(a) + parts_pair_count(b),
    decreases b.len(),
{
    if b.len() == 0 {
        assert(a + b =~= a);
    } else {
        lemma_parts_pair_count_append(a, b.drop_last());
        assert((a + b).drop_last() =~= a + b.drop_last());
    }
}

proof fn lemma_ring_views_pair_count<C>(rings: Seq<Vec<(C, C)>>)
    ensures
        parts_pair_count(ring_views(rings)) == rings_pair_count(rings),
    decreases rings.len(),
{
    if rings.len() > 0 {
        lemma_ring_views_pair_count(rings.drop_last());
        assert(ring_views(rings).drop_last() =~= ring_views(rings.drop_last()));
    }
}

/// A polygon flattens to its exterior ring (or an empty part where it has none) followed by
/// every interior ring in order: one part more than it has interior rings, each part's length
/// the length of its ring, and one coordinate pair for every vertex of every ring.
pub proof fn lemma_polygon_flattens_to_all_rings<C>(polygon: PolygonRings<C>)
    ensures
        ({
            let exterior = match polygon.exterior {
                Some(r) => r@,
                None => Seq::<(C, C)>::empty(),
            };
            let n = polygon.interiors@.len();
            &&& display_parts(SourceGeometry::Polygon(polygon), DisplayGeometryType::Polygon) matches Some(
                parts,
            ) && {
                &&& parts.len() == 1 + n
                &&& parts[0] == exterior
                &&& forall|i: int| 0 <= i < n ==> #[trigger] parts[i + 1] == polygon.interiors@[i]@
                &&& flat_coords(parts).len() == 2 * (exterior.len() + rings_pair_count(
                    polygon.interiors@,
                ))
            }
        }),
{
    let exterior = match polygon.exterior {
        Some(r) => r@,
        None => Seq::<(C, C)>::empty(),
    };
    let parts = polygon_parts(polygon);
    let rest = ring_views(polygon.interiors@);
    assert(parts == seq![exterior] + rest);
    assert forall|i: int| 0 <= i < polygon.interiors@.len() implies #[trigger] parts[i + 1]
        == polygon.interiors@[i]@ by {
        assert(parts[i + 1] == rest[i]);
    }
    lemma_flat_coords_len(parts);
    lemma_parts_pair_count_append(seq![exterior], rest);
    assert(seq![exterior].drop_last() =~= Seq::<Seq<(C, C)>>::empty());
    assert(parts_pair_count(Seq::<Seq<(C, C)>>::empty()) == 0);
    assert(parts_pair_count(seq![exterior]) == exterior.len());
    lemma_ring_views_pair_count(polygon.interiors@);
    assert(parts[0] == exterior);
    assert(parts.len() == 1 + polygon.interiors@.len());
    assert(display_parts(SourceGeometry::Polygon(polygon), DisplayGeometryType::Polygon) == Some(parts));
}

pub open spec fn exterior_len<C>(polygon: PolygonRings<C>) -> nat {
    match polygon.exterior {
        Some(r) => r@.len(),
        None => 0,
    }
}

/// The number of rings, counting a missing exterior as one, of several polygons.
pub open spec fn polygons_ring_count<C>(polygons: Seq<PolygonRings<C>>) -> nat
    decreases polygons.len(),
{
    if polygons.len() == 0 {
        0
    } else {
        polygons_ring_count(polygons.drop_last()) + 1 + polygons.last().interiors@.len()
    }
}

/// The number of coordinate pairs in all rings of several polygons.
pub open spec fn polygons_pair_count<C>(polygons: Seq<PolygonRings<C>>) -> nat
    decreases polygons.len(),
{
    if polygons.len() == 0 {
        0
    } else {
        polygons_pair_count(polygons.drop_last()) + exterior_len(polygons.last()) + rings_pair_count(
            polygons.last().interiors@,
        )
    }
}

proof fn lemma_multipolygon_counts<C>(polygons: Seq<PolygonRings<C>>)
    ensures
        multipolygon_parts(polygons).len() == polygons_ring_count(polygons),
        flat_coords(multipolygon_parts(polygons)).len() == 2 * polygons_pair_count(polygons),
    decreases polygons.len(),
{
    if polygons.len() > 0 {
        let prefix = polygons.drop_last();
        lemma_multipolygon_counts(prefix);
        lemma_polygon_flattens_to_all_rings(polygons.last());
        lemma_flat_coords_append(multipolygon_parts(prefix), polygon_parts(polygons.last()));
    }
}

/// A multipolygon flattens to every ring of every member polygon: one part per ring (an empty
/// part for a missing exterior) and one coordinate pair per vertex of every ring.
pub proof fn lemma_multipolygon_flattens_to_all_rings<C>(polygons: Vec<PolygonRings<C>>)
    ensures
        display_parts(SourceGeometry::MultiPolygon(polygons), DisplayGeometryType::Polygon) matches Some(
            parts,
        ) && parts.len() == polygons_ring_count(polygons@) && flat_coords(parts).len() == 2
            * polygons_pair_count(polygons@),
{
    lemma_multipolygon_counts(polygons@);
}

/// A multi-line string flattens to its member lines, one part each, in order.
pub proof fn lemma_multiline_flattens_to_every_line<C>(lines: Vec<Vec<(C, C)>>)
    ensures
        display_parts(SourceGeometry::MultiLineString(lines), DisplayGeometryType::Polyline) matches Some(
            parts,
        ) && parts.len() == lines@.len() && (forall|i: int| 0 <= i < lines@.len() ==> #[trigger] parts[i]
            == lines@[i]@) && flat_coords(parts).len() == 2 * rings_pair_count(lines@),
{
    let parts = ring_views(lines@);
    lemma_flat_coords_len(parts);
    lemma_ring_views_pair_count(lines@);
}

/// The number of present points of a multipoint.
pub open spec fn present_count<C>(points: Seq<Option<(C, C)>>) -> nat
    decreases points.len(),
{
    if points.len() == 0 {
        0
    } else {
        present_count(points.drop_last()) + if points.last() is Some {
            1nat
        } else {
            0nat
        }
    }
}

proof fn lemma_present_points_len<C>(points: Seq<Option<(C, C)>>)
    ensures
        present_points(points).len() == present_count(points),
    decreases points.len(),
{
    if points.len() > 0 {
        lemma_present_points_len(points.drop_last());
    }
}

/// A multipoint flattens to one part holding every present member point, in order, and
/// nothing for an empty member.
pub proof fn lemma_multipoint_flattens_to_present_points<C>(points: Vec<Option<(C, C)>>)
    ensures
        display_parts(SourceGeometry::MultiPoint(points), DisplayGeometryType::MultiPoint) matches Some(
            parts,
        ) && parts.len() == 1 && parts[0].len() == present_count(points@),
{
    lemma_present_points_len(points@);
}

} // verus!
