//! GeoJSON geometry kinds and their map-vector-tile counterparts.

use vstd::prelude::*;

verus! {

/// A GeoJSON geometry kind.
#[derive(Clone, Copy, Debug, PartialEq, Eq, Structural)]
pub enum GeoJsonType {
    Point,
    MultiPoint,
    LineString,
    MultiLineString,
}

#[verifier::external_type_specification]
#[verifier::external_body]
pub struct ExGeomType(mvt::GeomType);

impl GeoJsonType {
    /// Relies on mvt's `GeomType`: single and multi points map to `Point`,
    /// single and multi line strings to `Linestring`. The result is handed
    /// to the tile encoder; nothing of it is read back here.
    #[verifier::external_body]
    pub fn get_geom_type(&self) -> mvt::GeomType {
        match self {
            GeoJsonType::Point => mvt::GeomType::Point,
            GeoJsonType::MultiPoint => mvt::GeomType::Point,
            GeoJsonType::LineString => mvt::GeomType::Linestring,
            GeoJsonType::MultiLineString => mvt::GeomType::Linestring,
        }
    }
}

} // verus!
