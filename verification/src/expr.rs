//! Builds typed expressions for geometry processing.
//!
//! An expression names the display function to apply and its arguments: input columns and
//! literal values. The coordinate type of literals is a parameter; the query engine integration
//! instantiates it with its floating-point type and turns each expression into an engine
//! expression whose function implementation calls back into this crate.

use vstd::prelude::*;
use crate::pbf::DisplayGeometryType;

verus! {

/// Names the point Z-order code column.
pub const POINT_Z_CODE_COLUMN: &'static str = "zCode";

/// Names the point x-coordinate column.
pub const POINT_X_COLUMN: &'static str = "x";

/// Names the point y-coordinate column.
pub const POINT_Y_COLUMN: &'static str = "y";

/// Names the non-point geodisplay struct column.
pub const DISPLAY_COLUMN: &'static str = "geodisplay";

/// Names the XZ-order code field inside the geodisplay struct.
pub const XZ_CODE_COLUMN: &'static str = "xzCode";

/// Names the feature bounds field inside the geodisplay struct.
pub const BOUNDS_COLUMN: &'static str = "bounds";

/// Names the GeoParquet covering bbox column.
pub const COVERING_BBOX_COLUMN: &'static str = "bbox";

/// Names the temporary XZ-order code column used for sorting non-point rows.
pub const TEMP_XZ_CODE_COLUMN: &'static str = "__display_xz_code";

/// Names the temporary minimum-x column of non-point rows.
pub const TEMP_XMIN_COLUMN: &'static str = "__display_xmin";

/// Names the temporary minimum-y column of non-point rows.
pub const TEMP_YMIN_COLUMN: &'static str = "__display_ymin";

/// Names the temporary maximum-x column of non-point rows.
pub const TEMP_XMAX_COLUMN: &'static str = "__display_xmax";

/// Names the temporary maximum-y column of non-point rows.
pub const TEMP_YMAX_COLUMN: &'static str = "__display_ymax";

/// An axis-aligned extent.
#[derive(Clone, Copy, Debug, PartialEq)]
pub struct Extent2D<T> {
    pub xmin: T,
    pub ymin: T,
    pub xmax: T,
    pub ymax: T,
}

/// Per-axis quantization scale values and origins.
#[derive(Clone, Copy, Debug, PartialEq)]
pub struct QuantizationTransform<T> {
    pub scale: [T; 4],
    pub translate: [T; 4],
}

/// Describes one multiscale level of the non-point display payload.
#[derive(Debug, PartialEq)]
pub struct GeometryEncoding<T> {
    /// The multiscale level.
    pub level: u16,
    /// Names the generated payload column.
    pub column: String,
    /// The coordinate resolution of the level.
    pub resolution: T,
    /// The map scale denominator of the level.
    pub scale: T,
    /// The quantization transform of the level.
    pub transform: QuantizationTransform<T>,
    /// The fewest vertices a part keeps at this level.
    pub min_length: usize,
}

impl<T: Copy> GeometryEncoding<T> {
    /// Return an equal, independently owned encoding.
    pub fn duplicate(&self) -> (copy: Self)
        ensures
            copy == *self,
    {
        GeometryEncoding {
            level: self.level,
            column: self.column.clone(),
            resolution: self.resolution,
            scale: self.scale,
            transform: self.transform,
            min_length: self.min_length,
        }
    }
}

/// Stores source and target CRS definitions for deferred transform construction.
#[derive(Debug, PartialEq, Eq, Hash)]
pub struct TransformSpec {
    source_definition: String,
    target_definition: String,
}

impl TransformSpec {
    pub closed spec fn spec_source(&self) -> Seq<char> {
        self.source_definition@
    }

    pub closed spec fn spec_target(&self) -> Seq<char> {
        self.target_definition@
    }

    /// Store a source and a target CRS definition.
    pub fn new(source_definition: String, target_definition: String) -> (spec: Self)
        ensures
            spec.spec_source() == source_definition@,
            spec.spec_target() == target_definition@,
    {
        TransformSpec { source_definition, target_definition }
    }

    /// Return the source CRS definition.
    pub fn source_definition(&self) -> (definition: &str)
        ensures
            definition@ == self.spec_source(),
    {
        self.source_definition.as_str()
    }

    /// Return the target CRS definition.
    pub fn target_definition(&self) -> (definition: &str)
        ensures
            definition@ == self.spec_target(),
    {
        self.target_definition.as_str()
    }

    /// Return an equal, independently owned specification.
    pub fn duplicate(&self) -> (copy: Self)
        ensures
            copy == *self,
    {
        TransformSpec {
            source_definition: self.source_definition.clone(),
            target_definition: self.target_definition.clone(),
        }
    }
}

/// Names one display function together with its fixed parameters.
#[derive(Debug, PartialEq)]
pub enum DisplayUdf<T> {
    /// Z-order code of a WKB point within a full extent.
    PointZcode,
    /// XZ-order code of a WKB geometry's bounds within a full extent.
    NonPointXzcode,
    /// X coordinate of a WKB point.
    PointX,
    /// Y coordinate of a WKB point.
    PointY,
    /// Minimum x of a WKB geometry.
    BoundsXmin,
    /// Minimum y of a WKB geometry.
    BoundsYmin,
    /// Maximum x of a WKB geometry.
    BoundsXmax,
    /// Maximum y of a WKB geometry.
    BoundsYmax,
    /// Z-order code from precomputed x/y columns.
    PointZcodeFromXy,
    /// XZ-order code from precomputed bound columns.
    NonPointXzcodeFromBounds,
    /// Target-CRS x/y struct of a WKB point.
    TransformedPointCoords(TransformSpec),
    /// Target-CRS bounds struct of a WKB geometry.
    TransformedBounds(TransformSpec, DisplayGeometryType),
    /// WKB geometry reprojected into the target CRS.
    ReprojectGeometry(TransformSpec),
    /// GeoParquet covering bbox struct.
    FeatureBbox,
    /// Non-point geodisplay struct with code, bounds, and encoded levels.
    NonPointGeodisplay(DisplayGeometryType, Vec<GeometryEncoding<T>>),
}

pub open spec fn spec_udf_name<T>(udf: DisplayUdf<T>) -> Seq<char> {
    match udf {
        DisplayUdf::PointZcode => "display_point_zcode"@,
        DisplayUdf::NonPointXzcode => "display_nonpoint_xzcode"@,
        DisplayUdf::PointX => "display_point_x"@,
        DisplayUdf::PointY => "display_point_y"@,
        DisplayUdf::BoundsXmin => "display_bounds_xmin"@,
        DisplayUdf::BoundsYmin => "display_bounds_ymin"@,
        DisplayUdf::BoundsXmax => "display_bounds_xmax"@,
        DisplayUdf::BoundsYmax => "display_bounds_ymax"@,
        DisplayUdf::PointZcodeFromXy => "display_point_zcode_from_xy"@,
        DisplayUdf::NonPointXzcodeFromBounds => "display_nonpoint_xzcode_from_bounds"@,
        DisplayUdf::TransformedPointCoords(_) => "display_transformed_point_coords"@,
        DisplayUdf::TransformedBounds(_, _) => "display_transformed_bounds"@,
        DisplayUdf::ReprojectGeometry(_) => "display_reproject_geometry"@,
        DisplayUdf::FeatureBbox => "display_feature_bbox"@,
        DisplayUdf::NonPointGeodisplay(_, _) => "display_nonpoint_geodisplay"@,
    }
}

impl<T> DisplayUdf<T> {
    /// Return the registered function name.
    pub fn name(&self) -> (name: &'static str)
        ensures
            name@ == spec_udf_name(*self),
    {
        match self {
            DisplayUdf::PointZcode => "display_point_zcode",
            DisplayUdf::NonPointXzcode => "display_nonpoint_xzcode",
            DisplayUdf::PointX => "display_point_x",
            DisplayUdf::PointY => "display_point_y",
            DisplayUdf::BoundsXmin => "display_bounds_xmin",
            DisplayUdf::BoundsYmin => "display_bounds_ymin",
            DisplayUdf::BoundsXmax => "display_bounds_xmax",
            DisplayUdf::BoundsYmax => "display_bounds_ymax",
            DisplayUdf::PointZcodeFromXy => "display_point_zcode_from_xy",
            DisplayUdf::NonPointXzcodeFromBounds => "display_nonpoint_xzcode_from_bounds",
            DisplayUdf::TransformedPointCoords(_) => "display_transformed_point_coords",
            DisplayUdf::TransformedBounds(_, _) => "display_transformed_bounds",
            DisplayUdf::ReprojectGeometry(_) => "display_reproject_geometry",
            DisplayUdf::FeatureBbox => "display_feature_bbox",
            DisplayUdf::NonPointGeodisplay(_, _) => "display_nonpoint_geodisplay",
        }
    }
}

/// A display expression.
#[derive(Debug, PartialEq)]
pub enum DisplayExpr<T> {
    /// The value of a named input column.
    Column(String),
    /// A literal value.
    Literal(T),
    /// A display function applied to arguments.
    Call(DisplayUdf<T>, Vec<DisplayExpr<T>>),
    /// An expression under an output name.
    Alias(Box<DisplayExpr<T>>, String),
}

/// `e` reads the column called `name`.
pub open spec fn is_column<T>(e: DisplayExpr<T>, name: Seq<char>) -> bool {
    match e {
        DisplayExpr::Column(c) => c@ == name,
        _ => false,
    }
}

/// `e` calls `udf` on the columns in `columns`, in order, followed by the four values of
/// `extent` when there is one.
pub open spec fn is_call<T>(
    e: DisplayExpr<T>,
    udf: DisplayUdf<T>,
    columns: Seq<Seq<char>>,
    extent: Option<Extent2D<T>>,
) -> bool {
    match e {
        DisplayExpr::Call(f, args) => {
            let n = columns.len() as int;
            &&& f == udf
            &&& forall|i: int| 0 <= i < n ==> is_column(#[trigger] args@[i], columns[i])
            &&& match extent {
                None => args@.len() == n,
                Some(x) => {
                    &&& args@.len() == n + 4
                    &&& args@[n] == DisplayExpr::Literal(x.xmin)
                    &&& args@[n + 1] == DisplayExpr::Literal(x.ymin)
                    &&& args@[n + 2] == DisplayExpr::Literal(x.xmax)
                    &&& args@[n + 3] == DisplayExpr::Literal(x.ymax)
                },
            }
        },
        _ => false,
    }
}

/// `e` is the call described by `is_call` under the output name `name`.
pub open spec fn is_aliased_call<T>(
    e: DisplayExpr<T>,
    name: Seq<char>,
    udf: DisplayUdf<T>,
    columns: Seq<Seq<char>>,
    extent: Option<Extent2D<T>>,
) -> bool {
    match e {
        DisplayExpr::Alias(inner, n) => n@ == name && is_call(*inner, udf, columns, extent),
        _ => false,
    }
}

/// The display function of an aliased call.
pub open spec fn aliased_udf<T>(e: DisplayExpr<T>) -> DisplayUdf<T> {
    match e {
        DisplayExpr::Alias(inner, _) => match *inner {
            DisplayExpr::Call(f, _) => f,
            _ => arbitrary(),
        },
        _ => arbitrary(),
    }
}

fn column<T>(name: &str) -> (e: DisplayExpr<T>)
    ensures
        is_column(e, name@),
{
    DisplayExpr::Column(name.to_string())
}

fn alias<T>(e: DisplayExpr<T>, name: &str) -> (a: DisplayExpr<T>)
    ensures
        a == DisplayExpr::Alias(Box::new(e), a->Alias_1) && a->Alias_1@ == name@,
{
    DisplayExpr::Alias(Box::new(e), name.to_string())
}

/// Apply `udf` to one geometry column.
fn unary_call<T>(udf: DisplayUdf<T>, geometry_column: &str) -> (e: DisplayExpr<T>)
    ensures
        is_call(e, udf, seq![geometry_column@], None),
{
    let args = vec![column(geometry_column)];
    proof {
        assert(args@[0] == args[0]);
    }
    DisplayExpr::Call(udf, args)
}

/// Apply `udf` to one geometry column and the full extent.
fn extent_call<T: Copy>(udf: DisplayUdf<T>, geometry_column: &str, full_extent: Extent2D<T>) -> (e:
    DisplayExpr<T>)
    ensures
        is_call(e, udf, seq![geometry_column@], Some(full_extent)),
{
    let args = vec![
        column(geometry_column),
        DisplayExpr::Literal(full_extent.xmin),
        DisplayExpr::Literal(full_extent.ymin),
        DisplayExpr::Literal(full_extent.xmax),
        DisplayExpr::Literal(full_extent.ymax),
    ];
    DisplayExpr::Call(udf, args)
}

/// The display function computing the Z-order code of a WKB point.
pub fn point_zcode_udf<T>() -> (udf: DisplayUdf<T>)
    ensures
        udf == DisplayUdf::<T>::PointZcode,
{
    DisplayUdf::PointZcode
}

/// The display function computing the XZ-order code of a WKB geometry's bounds.
pub fn non_point_xzcode_udf<T>() -> (udf: DisplayUdf<T>)
    ensures
        udf == DisplayUdf::<T>::NonPointXzcode,
{
    DisplayUdf::NonPointXzcode
}

/// The display function computing the x coordinate of a WKB point.
pub fn point_x_udf<T>() -> (udf: DisplayUdf<T>)
    ensures
        udf == DisplayUdf::<T>::PointX,
{
    DisplayUdf::PointX
}

/// The display function computing the y coordinate of a WKB point.
pub fn point_y_udf<T>() -> (udf: DisplayUdf<T>)
    ensures
        udf == DisplayUdf::<T>::PointY,
{
    DisplayUdf::PointY
}

/// The display function computing the minimum x of a WKB geometry.
pub fn bounds_xmin_udf<T>() -> (udf: DisplayUdf<T>)
    ensures
        udf == DisplayUdf::<T>::BoundsXmin,
{
    DisplayUdf::BoundsXmin
}

/// The display function computing the minimum y of a WKB geometry.
pub fn bounds_ymin_udf<T>() -> (udf: DisplayUdf<T>)
    ensures
        udf == DisplayUdf::<T>::BoundsYmin,
{
    DisplayUdf::BoundsYmin
}

/// The display function computing the maximum x of a WKB geometry.
pub fn bounds_xmax_udf<T>() -> (udf: DisplayUdf<T>)
    ensures
        udf == DisplayUdf::<T>::BoundsXmax,
{
    DisplayUdf::BoundsXmax
}

/// The display function computing the maximum y of a WKB geometry.
pub fn bounds_ymax_udf<T>() -> (udf: DisplayUdf<T>)
    ensures
        udf == DisplayUdf::<T>::BoundsYmax,
{
    DisplayUdf::BoundsYmax
}

/// The display function computing the Z-order code from x/y columns.
pub fn point_zcode_from_xy_udf<T>() -> (udf: DisplayUdf<T>)
    ensures
        udf == DisplayUdf::<T>::PointZcodeFromXy,
{
    DisplayUdf::PointZcodeFromXy
}

/// The display function computing the XZ-order code from bound columns.
pub fn non_point_xzcode_from_bounds_udf<T>() -> (udf: DisplayUdf<T>)
    ensures
        udf == DisplayUdf::<T>::NonPointXzcodeFromBounds,
{
    DisplayUdf::NonPointXzcodeFromBounds
}

/// The display function computing the covering bbox struct.
pub fn feature_bbox_udf<T>() -> (udf: DisplayUdf<T>)
    ensures
        udf == DisplayUdf::<T>::FeatureBbox,
{
    DisplayUdf::FeatureBbox
}

/// The display function projecting a WKB point into the target CRS.
pub fn transformed_point_coords_udf<T>(transform: TransformSpec) -> (udf: DisplayUdf<T>)
    ensures
        udf == DisplayUdf::<T>::TransformedPointCoords(transform),
{
    DisplayUdf::TransformedPointCoords(transform)
}

/// The display function computing target-CRS bounds of a WKB geometry.
pub fn transformed_bounds_udf<T>(transform: TransformSpec, geometry_type: DisplayGeometryType) -> (udf:
    DisplayUdf<T>)
    ensures
        udf == DisplayUdf::<T>::TransformedBounds(transform, geometry_type),
{
    DisplayUdf::TransformedBounds(transform, geometry_type)
}

/// The display function reprojecting a WKB geometry into the target CRS.
pub fn reproject_geometry_udf<T>(transform: TransformSpec) -> (udf: DisplayUdf<T>)
    ensures
        udf == DisplayUdf::<T>::ReprojectGeometry(transform),
{
    DisplayUdf::ReprojectGeometry(transform)
}

/// The display function building the non-point geodisplay struct.
pub fn non_point_geodisplay_udf<T>(
    geometry_type: DisplayGeometryType,
    encodings: Vec<GeometryEncoding<T>>,
) -> (udf: DisplayUdf<T>)
    ensures
        udf == DisplayUdf::<T>::NonPointGeodisplay(geometry_type, encodings),
{
    DisplayUdf::NonPointGeodisplay(geometry_type, encodings)
}

/// Build a point Z-order expression from a WKB geometry column.
pub fn point_zcode_expr<T: Copy>(geometry_column: &str, full_extent: Extent2D<T>) -> (e: DisplayExpr<T>)
    ensures
        is_aliased_call(e, POINT_Z_CODE_COLUMN@, DisplayUdf::PointZcode, seq![geometry_column@], Some(full_extent)),
{
    alias(extent_call(point_zcode_udf(), geometry_column, full_extent), POINT_Z_CODE_COLUMN)
}

/// Build an expression that extracts point x coordinates from WKB.
pub fn point_x_expr<T>(geometry_column: &str) -> (e: DisplayExpr<T>)
    ensures
        is_aliased_call(e, POINT_X_COLUMN@, DisplayUdf::PointX, seq![geometry_column@], None),
{
    alias(unary_call(point_x_udf(), geometry_column), POINT_X_COLUMN)
}

/// Build an expression that extracts point y coordinates from WKB.
pub fn point_y_expr<T>(geometry_column: &str) -> (e: DisplayExpr<T>)
    ensures
        is_aliased_call(e, POINT_Y_COLUMN@, DisplayUdf::PointY, seq![geometry_column@], None),
{
    alias(unary_call(point_y_udf(), geometry_column), POINT_Y_COLUMN)
}

/// Build a struct expression containing target-CRS point coordinates.
pub fn transformed_point_coords_expr<T>(geometry_column: &str, transform: &TransformSpec) -> (e:
    DisplayExpr<T>)
    ensures
        is_call(e, DisplayUdf::TransformedPointCoords(*transform), seq![geometry_column@], None),
{
    unary_call(transformed_point_coords_udf(transform.duplicate()), geometry_column)
}

/// Build a point Z-order expression from precomputed x/y columns.
pub fn point_zcode_from_xy_expr<T: Copy>(x_column: &str, y_column: &str, full_extent: Extent2D<T>) -> (e:
    DisplayExpr<T>)
    ensures
        is_aliased_call(
            e,
            POINT_Z_CODE_COLUMN@,
            DisplayUdf::PointZcodeFromXy,
            seq![x_column@, y_column@],
            Some(full_extent),
        ),
{
    let args = vec![
        column(x_column),
        column(y_column),
        DisplayExpr::Literal(full_extent.xmin),
        DisplayExpr::Literal(full_extent.ymin),
        DisplayExpr::Literal(full_extent.xmax),
        DisplayExpr::Literal(full_extent.ymax),
    ];
    alias(DisplayExpr::Call(point_zcode_from_xy_udf(), args), POINT_Z_CODE_COLUMN)
}

/// Build a non-point XZ-order expression by decoding WKB bounds.
pub fn non_point_xzcode_expr<T: Copy>(geometry_column: &str, full_extent: Extent2D<T>) -> (e: DisplayExpr<T>)
    ensures
        is_aliased_call(e, TEMP_XZ_CODE_COLUMN@, DisplayUdf::NonPointXzcode, seq![geometry_column@], Some(full_extent)),
{
    alias(extent_call(non_point_xzcode_udf(), geometry_column, full_extent), TEMP_XZ_CODE_COLUMN)
}

/// Build the non-point geodisplay struct containing code, bounds, and encoded LOD columns.
pub fn non_point_geodisplay_expr<T: Copy>(
    geometry_column: &str,
    geometry_type: DisplayGeometryType,
    encodings: &[GeometryEncoding<T>],
) -> (e: DisplayExpr<T>)
    ensures
        is_aliased_call(
            e,
            DISPLAY_COLUMN@,
            aliased_udf(e),
            seq![
                geometry_column@,
                TEMP_XZ_CODE_COLUMN@,
                TEMP_XMIN_COLUMN@,
                TEMP_YMIN_COLUMN@,
                TEMP_XMAX_COLUMN@,
                TEMP_YMAX_COLUMN@,
            ],
            None,
        ),
        aliased_udf(e) matches DisplayUdf::NonPointGeodisplay(t, owned) && t == geometry_type
            && owned@ == encodings@,
{
    let mut owned: Vec<GeometryEncoding<T>> = Vec::new();
    let mut i: usize = 0;
    while i < encodings.len()
        invariant
            i <= encodings@.len(),
            owned@ == encodings@.subrange(0, i as int),
        decreases encodings@.len() - i,
    {
        owned.push(encodings[i].duplicate());
        i = i + 1;
    }
    let args = vec![
        column(geometry_column),
        column(TEMP_XZ_CODE_COLUMN),
        column(TEMP_XMIN_COLUMN),
        column(TEMP_YMIN_COLUMN),
        column(TEMP_XMAX_COLUMN),
        column(TEMP_YMAX_COLUMN),
    ];
    alias(DisplayExpr::Call(non_point_geodisplay_udf(geometry_type, owned), args), DISPLAY_COLUMN)
}

/// Build an expression that extracts geometry minimum x.
pub fn bounds_xmin_expr<T>(geometry_column: &str) -> (e: DisplayExpr<T>)
    ensures
        is_aliased_call(e, TEMP_XMIN_COLUMN@, DisplayUdf::BoundsXmin, seq![geometry_column@], None),
{
    alias(unary_call(bounds_xmin_udf(), geometry_column), TEMP_XMIN_COLUMN)
}

/// Build an expression that extracts geometry minimum y.
pub fn bounds_ymin_expr<T>(geometry_column: &str) -> (e: DisplayExpr<T>)
    ensures
        is_aliased_call(e, TEMP_YMIN_COLUMN@, DisplayUdf::BoundsYmin, seq![geometry_column@], None),
{
    alias(unary_call(bounds_ymin_udf(), geometry_column), TEMP_YMIN_COLUMN)
}

/// Build an expression that extracts geometry maximum x.
pub fn bounds_xmax_expr<T>(geometry_column: &str) -> (e: DisplayExpr<T>)
    ensures
        is_aliased_call(e, TEMP_XMAX_COLUMN@, DisplayUdf::BoundsXmax, seq![geometry_column@], None),
{
    alias(unary_call(bounds_xmax_udf(), geometry_column), TEMP_XMAX_COLUMN)
}

/// Build an expression that extracts geometry maximum y.
pub fn bounds_ymax_expr<T>(geometry_column: &str) -> (e: DisplayExpr<T>)
    ensures
        is_aliased_call(e, TEMP_YMAX_COLUMN@, DisplayUdf::BoundsYmax, seq![geometry_column@], None),
{
    alias(unary_call(bounds_ymax_udf(), geometry_column), TEMP_YMAX_COLUMN)
}

/// Build a struct expression containing geometry bounds in the target CRS.
pub fn transformed_bounds_expr<T>(
    geometry_column: &str,
    geometry_type: DisplayGeometryType,
    transform: &TransformSpec,
) -> (e: DisplayExpr<T>)
    ensures
        is_call(e, DisplayUdf::TransformedBounds(*transform, geometry_type), seq![geometry_column@], None),
{
    unary_call(transformed_bounds_udf(transform.duplicate(), geometry_type), geometry_column)
}

/// Build a non-point XZ-order expression from precomputed bound columns.
pub fn non_point_xzcode_from_bounds_expr<T: Copy>(
    xmin_column: &str,
    ymin_column: &str,
    xmax_column: &str,
    ymax_column: &str,
    full_extent: Extent2D<T>,
) -> (e: DisplayExpr<T>)
    ensures
        is_aliased_call(
            e,
            TEMP_XZ_CODE_COLUMN@,
            DisplayUdf::NonPointXzcodeFromBounds,
            seq![xmin_column@, ymin_column@, xmax_column@, ymax_column@],
            Some(full_extent),
        ),
{
    let args = vec![
        column(xmin_column),
        column(ymin_column),
        column(xmax_column),
        column(ymax_column),
        DisplayExpr::Literal(full_extent.xmin),
        DisplayExpr::Literal(full_extent.ymin),
        DisplayExpr::Literal(full_extent.xmax),
        DisplayExpr::Literal(full_extent.ymax),
    ];
    alias(DisplayExpr::Call(non_point_xzcode_from_bounds_udf(), args), TEMP_XZ_CODE_COLUMN)
}

/// Build the GeoParquet covering bbox struct while preserving geometry nullability.
pub fn feature_bbox_expr<T>(
    geometry_column: &str,
    xmin_column: &str,
    ymin_column: &str,
    xmax_column: &str,
    ymax_column: &str,
) -> (e: DisplayExpr<T>)
    ensures
        is_aliased_call(
            e,
            COVERING_BBOX_COLUMN@,
            DisplayUdf::FeatureBbox,
            seq![geometry_column@, xmin_column@, ymin_column@, xmax_column@, ymax_column@],
            None,
        ),
{
    let args = vec![
        column(geometry_column),
        column(xmin_column),
        column(ymin_column),
        column(xmax_column),
        column(ymax_column),
    ];
    alias(DisplayExpr::Call(feature_bbox_udf(), args), COVERING_BBOX_COLUMN)
}

/// Build an expression that reprojects one WKB geometry column.
pub fn reproject_geometry_expr<T>(geometry_column: &str, transform: &TransformSpec) -> (e: DisplayExpr<T>)
    ensures
        is_call(e, DisplayUdf::ReprojectGeometry(*transform), seq![geometry_column@], None),
{
    unary_call(reproject_geometry_udf(transform.duplicate()), geometry_column)
}

/// The stateless display functions that a session registers once, in registration order.
pub open spec fn stateless_udfs<T>() -> Seq<DisplayUdf<T>> {
    seq![
        DisplayUdf::PointZcode,
        DisplayUdf::PointX,
        DisplayUdf::PointY,
        DisplayUdf::NonPointXzcode,
        DisplayUdf::BoundsXmin,
        DisplayUdf::BoundsYmin,
        DisplayUdf::BoundsXmax,
        DisplayUdf::BoundsYmax,
    ]
}

/// The names of the stateless display functions, in registration order.
pub open spec fn stateless_udf_names() -> Seq<Seq<char>> {
    seq![
        "display_point_zcode"@,
        "display_point_x"@,
        "display_point_y"@,
        "display_nonpoint_xzcode"@,
        "display_bounds_xmin"@,
        "display_bounds_ymin"@,
        "display_bounds_xmax"@,
        "display_bounds_ymax"@,
    ]
}

/// The registered functions of `registry` whose names are not among `names`, in order.
pub open spec fn udfs_without_names<T>(registry: Seq<DisplayUdf<T>>, names: Seq<Seq<char>>) -> Seq<
    DisplayUdf<T>,
>
    decreases registry.len(),
{
    if registry.len() == 0 {
        Seq::empty()
    } else {
        let rest = udfs_without_names(registry.drop_last(), names);
        if names.contains(spec_udf_name(registry.last())) {
            rest
        } else {
            rest.push(registry.last())
        }
    }
}

/// Whether `name` is the name of one of the stateless display functions.
fn is_stateless_udf_name(name: &str) -> (found: bool)
    ensures
        found == stateless_udf_names().contains(name@),
{
    let found = crate::text::text_eq(name, "display_point_zcode") || crate::text::text_eq(
        name,
        "display_point_x",
    ) || crate::text::text_eq(name, "display_point_y") || crate::text::text_eq(
        name,
        "display_nonpoint_xzcode",
    ) || crate::text::text_eq(name, "display_bounds_xmin") || crate::text::text_eq(
        name,
        "display_bounds_ymin",
    ) || crate::text::text_eq(name, "display_bounds_xmax") || crate::text::text_eq(
        name,
        "display_bounds_ymax",
    );
    proof {
        let names = stateless_udf_names();
        if found {
            assert(exists|k: int| 0 <= k < names.len() && names[k] == name@) by {
                if name@ == "display_point_zcode"@ {
                    assert(names[0] == name@);
                } else if name@ == "display_point_x"@ {
                    assert(names[1] == name@);
                } else if name@ == "display_point_y"@ {
                    assert(names[2] == name@);
                } else if name@ == "display_nonpoint_xzcode"@ {
                    assert(names[3] == name@);
                } else if name@ == "display_bounds_xmin"@ {
                    assert(names[4] == name@);
                } else if name@ == "display_bounds_ymin"@ {
                    assert(names[5] == name@);
                } else if name@ == "display_bounds_xmax"@ {
                    assert(names[6] == name@);
                } else {
                    assert(names[7] == name@);
                }
            }
        } else {
            assert forall|k: int| 0 <= k < names.len() implies names[k] != name@ by {}
        }
    }
    found
}

/// Register reusable stateless geometry functions in a session's function registry.
///
/// An earlier registration under one of their names is replaced: it leaves the registry, and
/// the new functions are appended in registration order. Parameterized reprojection and
/// multiscale functions are embedded directly in expressions and are not registered.
pub fn register_display_udfs<T>(registry: &mut Vec<DisplayUdf<T>>)
    ensures
        final(registry)@ == udfs_without_names(old(registry)@, stateless_udf_names())
            + stateless_udfs::<T>(),
{
    let ghost original = registry@;
    let initial_len: usize = registry.len();
    assert(original.len() == initial_len);
    let mut pending: Vec<DisplayUdf<T>> = Vec::new();
    std::mem::swap(&mut pending, registry);
    let ghost names = stateless_udf_names();
    let mut k: usize = 0;
    proof {
        assert(original.subrange(0, 0) =~= Seq::<DisplayUdf<T>>::empty());
        assert(pending@ =~= original.subrange(0, original.len() as int));
    }
    while pending.len() > 0
        invariant
            names == stateless_udf_names(),
            original.len() <= usize::MAX,
            k + pending@.len() == original.len(),
            pending@ == original.subrange(k as int, original.len() as int),
            registry@ == udfs_without_names(original.subrange(0, k as int), names),
        decreases pending@.len(),
    {
        let udf = pending.remove(0);
        proof {
            assert(udf == original[k as int]);
            let next = original.subrange(0, k + 1);
            assert(next.drop_last() =~= original.subrange(0, k as int));
            assert(next.last() == original[k as int]);
            assert(pending@ =~= original.subrange(k + 1, original.len() as int));
        }
        if !is_stateless_udf_name(udf.name()) {
            registry.push(udf);
        }
        k = k + 1;
    }
    proof {
        assert(original.subrange(0, k as int) =~= original);
    }
    registry.push(point_zcode_udf());
    registry.push(point_x_udf());
    registry.push(point_y_udf());
    registry.push(non_point_xzcode_udf());
    registry.push(bounds_xmin_udf());
    registry.push(bounds_ymin_udf());
    registry.push(bounds_xmax_udf());
    registry.push(bounds_ymax_udf());
    proof {
        assert(registry@ =~= udfs_without_names(original, names) + stateless_udfs::<T>());
    }
}

proof fn lemma_udfs_without_names_excludes<T>(registry: Seq<DisplayUdf<T>>, names: Seq<Seq<char>>)
    ensures
        forall|i: int|
            0 <= i < udfs_without_names(registry, names).len() ==> !names.contains(
                spec_udf_name(#[trigger] udfs_without_names(registry, names)[i]),
            ),
    decreases registry.len(),
{
    if registry.len() > 0 {
        lemma_udfs_without_names_excludes(registry.drop_last(), names);
        let rest = udfs_without_names(registry.drop_last(), names);
        let w = udfs_without_names(registry, names);
        assert forall|i: int| 0 <= i < w.len() implies !names.contains(spec_udf_name(#[trigger] w[i])) by {
            if i < rest.len() {
                assert(w[i] == rest[i]);
            }
        }
    }
}

/// After registration, a lookup of any stateless function's name finds exactly the newly
/// registered function: every entry before the appended block carries none of their names, and
/// the block holds the eight functions, each under its own name, in registration order.
pub proof fn lemma_registered_names_resolve_to_new_functions<T>(registry: Seq<DisplayUdf<T>>)
    ensures
        ({
            let after = udfs_without_names(registry, stateless_udf_names()) + stateless_udfs::<T>();
            let base = after.len() - 8;
            &&& forall|i: int|
                0 <= i < base ==> !stateless_udf_names().contains(spec_udf_name(#[trigger] after[i]))
            &&& forall|j: int|
                0 <= j < 8 ==> #[trigger] after[base + j] == stateless_udfs::<T>()[j]
                    && spec_udf_name(after[base + j]) == stateless_udf_names()[j]
        }),
{
    let kept = udfs_without_names(registry, stateless_udf_names());
    let after = kept + stateless_udfs::<T>();
    lemma_udfs_without_names_excludes(registry, stateless_udf_names());
    assert forall|i: int| 0 <= i < after.len() - 8 implies !stateless_udf_names().contains(
        spec_udf_name(#[trigger] after[i]),
    ) by {
        assert(after[i] == kept[i]);
    }
    assert forall|j: int| 0 <= j < 8 implies #[trigger] after[after.len() - 8 + j]
        == stateless_udfs::<T>()[j] && spec_udf_name(after[after.len() - 8 + j])
        == stateless_udf_names()[j] by {
        assert(after[after.len() - 8 + j] == stateless_udfs::<T>()[j]);
    }
}

} // verus!
