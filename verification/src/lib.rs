//! Verified core of an EDIGEO (French cadastral exchange format) ingest
//! pipeline: record decoding, ring reconstruction, geometry normalisation
//! and hashing, and the row encoding used by the bulk-load path.
//!
//! Coordinates are carried as fixed-point integers (billionths of the
//! source unit), so every geometric decision made here is exact.

pub mod archive;
pub mod builder;
pub mod bytes;
pub mod codec;
pub mod config;
pub mod dates;
pub mod db_config;
pub mod errors;
pub mod escape;
pub mod geom;
pub mod hash;
pub mod import_plan;
pub mod numbers;
pub mod parser;
pub mod repair;
pub mod report;
pub mod reproject;
pub mod row;
pub mod sql;
pub mod str_map;
pub mod text;
pub mod topology;
pub mod transaction;
pub mod types;
pub mod versioning;

use vstd::prelude::*;

verus! {

/// Compares two 32-byte geometry digests.
pub fn hashes_equal(a: &[u8; 32], b: &[u8; 32]) -> (r: bool)
    ensures
        r == (a@ =~= b@),
{
    let mut i: usize = 0;
    while i < 32
        invariant
            0 <= i <= 32,
            forall|j: int| 0 <= j < i ==> a@[j] == b@[j],
        decreases 32 - i,
    {
        if a[i] != b[i] {
            return false;
        }
        i = i + 1;
    }
    true
}

/// Features grouped by class, every geometry fit to emit and in range.
pub open spec fn features_ok(m: Map<Seq<char>, Vec<crate::types::Feature>>) -> bool {
    forall|k: Seq<char>|
        m.contains_key(k) ==> (forall|i: int|
            0 <= i < (#[trigger] m[k])@.len() ==> crate::builder::geometry_sane(
                (#[trigger] m[k]@[i]).geometry,
            ) && crate::geom::geometry_bounded(m[k]@[i].geometry))
}

/// Decodes one archive: header, projection and quality files first,
/// then every payload file, decoded with the declared encoding, read
/// into records and built into features, grouped by class. The
/// departement code comes off the archive name, with `00` standing in
/// when the name shows none. An unrecognised projection fails the
/// whole archive; everything else degrades per record.
#[verifier::rlimit(60)]
pub fn parse(archive_name: &str, archive: &crate::archive::EdigeoArchive) -> (r: Result<
    crate::types::ParseResult,
    crate::errors::EdigeoError,
>)
    ensures
        match r {
            Ok(res) => {
                &&& features_ok(res.features@)
                &&& res.year == crate::parser::thf::spec_year(archive.thf@)
                &&& (crate::parser::geo::spec_proj_code(archive.geo@) matches Some(code)
                    && crate::parser::geo::spec_epsg_of(code) == Some(res.projection.epsg)
                    && crate::parser::geo::spec_name_of(code) == res.projection.name@)
                &&& (match crate::archive::spec_extract_departement(archive_name@) {
                    Some(d) => res.departement@ == d,
                    None => res.departement@ == "00"@,
                })
            },
            Err(e) => e matches crate::errors::EdigeoError::UnknownProjection { .. },
        },
        (r is Err) == !(match crate::parser::geo::spec_proj_code(archive.geo@) {
            Some(code) => crate::parser::geo::spec_epsg_of(code) is Some,
            None => false,
        }),
        r matches Ok(res) ==> (forall|e: int|
            0 <= e < res.errors@.len() ==> (#[trigger] res.errors@[e]) matches
                crate::errors::EdigeoError::RepairFailed { .. }),
{
    proof {
        reveal_strlit("00");
    }
    let departement = match crate::archive::extract_departement(archive_name) {
        Some(d) => d,
        None => "00".to_owned(),
    };
    let thf = match crate::parser::thf::parse(archive.thf.as_slice()) {
        Ok(t) => t,
        Err(_) => {
            proof {
                assert(false);
            }
            return Err(crate::errors::EdigeoError::UnknownProjection(String::new()));
        },
    };
    let projection = match crate::parser::geo::parse(archive.geo.as_slice()) {
        Ok(p) => p,
        Err(e) => {
            return Err(e);
        },
    };
    let quality = match crate::parser::qal::parse(archive.qal.as_slice()) {
        Ok(q) => q,
        Err(_) => {
            proof {
                assert(false);
            }
            return Err(crate::errors::EdigeoError::UnknownProjection(String::new()));
        },
    };
    let mut all_features: crate::str_map::StrMap<Vec<crate::types::Feature>> =
        crate::str_map::StrMap::new();
    let mut errors: Vec<crate::errors::EdigeoError> = Vec::new();
    let vn = archive.vec_files.len();
    let mut i: usize = 0;
    while i < vn
        invariant
            0 <= i <= vn,
            vn == archive.vec_files@.len(),
            features_ok(all_features@),
            forall|e: int|
                0 <= e < errors@.len() ==> (#[trigger] errors@[e]) matches
                    crate::errors::EdigeoError::RepairFailed { .. },
        decreases vn - i,
    {
        let decoded = crate::codec::decode_text(&archive.vec_files[i], thf.encoding);
        let parsed = match crate::parser::vec_records::parse(decoded.as_str()) {
            Ok(p) => p,
            Err(_) => {
                i = i + 1;
                continue ;
            },
        };
        let ghost errors_pre = errors@;
        let built = match crate::builder::build_geometries(&parsed, &quality, &mut errors) {
            Ok(b) => b,
            Err(_) => {
                i = i + 1;
                continue ;
            },
        };
        proof {
            assert forall|e: int|
                0 <= e < errors@.len() implies (#[trigger] errors@[e]) matches
                crate::errors::EdigeoError::RepairFailed { .. } by {
                if e < errors_pre.len() {
                    assert(errors@[e] == errors@.subrange(0, errors_pre.len() as int)[e]);
                }
            }
        }
        let mut fs = built;
        loop
            invariant
                features_ok(all_features@),
                forall|j: int|
                    0 <= j < fs@.len() ==> crate::builder::geometry_sane(
                        (#[trigger] fs@[j]).geometry,
                    ) && crate::geom::geometry_bounded(fs@[j].geometry),
            decreases fs@.len(),
        {
            let feature = match fs.pop() {
                Some(f) => f,
                None => {
                    break ;
                },
            };
            let key = feature.feature_type.clone();
            let mut group: Vec<crate::types::Feature> = match all_features.remove(key.as_str()) {
                Some(g) => g,
                None => Vec::new(),
            };
            proof {
                assert(forall|j: int|
                    0 <= j < group@.len() ==> crate::builder::geometry_sane(
                        (#[trigger] group@[j]).geometry,
                    ) && crate::geom::geometry_bounded(group@[j].geometry));
            }
            group.push(feature);
            all_features.insert(key, group);
            proof {
                assert forall|k: Seq<char>| all_features@.contains_key(k) implies (forall|j: int|
                    0 <= j < (#[trigger] all_features@[k])@.len()
                        ==> crate::builder::geometry_sane((#[trigger] all_features@[k]@[j]).geometry)
                        && crate::geom::geometry_bounded(all_features@[k]@[j].geometry)) by {}
            }
        }
        i = i + 1;
    }
    Ok(crate::types::ParseResult {
        features: all_features,
        projection,
        year: thf.year,
        departement,
        errors,
    })
}

} // verus!
