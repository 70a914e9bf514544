//! Shared record types of the decoder.

use vstd::prelude::*;

use crate::geom::Geometry;
use crate::str_map::StrMap;

verus! {

/// One decoded feature: identifier, geometry, attributes, and the
/// feature class it belongs to.
#[derive(Debug)]
pub struct Feature {
    /// Cadastral identifier when present, else the record identifier.
    pub id: String,
    /// The reconstructed geometry.
    pub geometry: Geometry,
    /// Attribute name to textual value.
    pub properties: StrMap<String>,
    /// Feature class, kept verbatim for configuration compatibility.
    pub feature_type: String,
}

/// The projection an archive declares.
#[derive(Debug, Clone, Copy)]
pub struct Projection {
    /// EPSG code.
    pub epsg: u32,
    /// The recognised projection name.
    pub name: &'static str,
}

impl Projection {
    /// The default projection: Lambert-93.
    pub fn lambert93() -> (r: Self)
        ensures
            r.epsg == 2154,
            r.name@ == "LAMB93"@,
    {
        Projection { epsg: 2154, name: "LAMB93" }
    }
}

/// Text encoding of the archive's files, as named by the header.
#[derive(Debug, Clone, Copy, PartialEq, Eq, Structural)]
pub enum TextEncoding {
    /// Latin-9, the default for French cadastral text.
    Latin9,
    Iso8859_2,
    Iso8859_3,
    Iso8859_4,
    Iso8859_5,
    Iso8859_6,
    Iso8859_7,
    Iso8859_8,
    /// Turkish, compatible with the ninth Latin part.
    Windows1254,
}

impl TextEncoding {
    /// The canonical name of the encoding.
    pub fn name(&self) -> (r: &'static str)
        ensures
            *self is Latin9 ==> r@ == "ISO-8859-15"@,
    {
        match self {
            TextEncoding::Latin9 => "ISO-8859-15",
            TextEncoding::Iso8859_2 => "ISO-8859-2",
            TextEncoding::Iso8859_3 => "ISO-8859-3",
            TextEncoding::Iso8859_4 => "ISO-8859-4",
            TextEncoding::Iso8859_5 => "ISO-8859-5",
            TextEncoding::Iso8859_6 => "ISO-8859-6",
            TextEncoding::Iso8859_7 => "ISO-8859-7",
            TextEncoding::Iso8859_8 => "ISO-8859-8",
            TextEncoding::Windows1254 => "windows-1254",
        }
    }
}

/// What the header file yields: the text encoding and the vintage
/// year.
#[derive(Debug, Clone, Copy, PartialEq, Eq, Structural)]
pub struct ThfData {
    pub encoding: TextEncoding,
    pub year: u16,
}

/// Lineage dates of one object, from the quality file.
#[derive(Debug, Clone)]
pub struct Quality {
    pub create_date: Option<String>,
    pub update_date: Option<String>,
    pub update_type: Option<String>,
}

impl Quality {
    /// A quality record with nothing known.
    pub fn empty() -> (r: Self)
        ensures
            r.create_date is None,
            r.update_date is None,
            r.update_type is None,
    {
        Quality { create_date: None, update_date: None, update_type: None }
    }
}

/// Everything one archive decodes to.
#[derive(Debug)]
pub struct ParseResult {
    /// Features grouped by feature class.
    pub features: StrMap<Vec<Feature>>,
    /// The source projection.
    pub projection: Projection,
    /// Vintage year from the header.
    pub year: u16,
    /// Departement code derived from the archive name.
    pub departement: String,
    /// Non-fatal errors collected along the way.
    pub errors: Vec<crate::errors::EdigeoError>,
}

} // verus!
