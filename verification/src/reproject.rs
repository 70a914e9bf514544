//! Choice of reprojection plan. The pointwise coordinate mathematics
//! runs outside the verified core; here lives the decision which plan
//! a source/target pair gets, which is what the import orchestrator
//! branches on.

use vstd::prelude::*;

verus! {

/// Whether an external projection engine was built in; this build
/// carries none.
pub fn is_available() -> (r: bool)
    ensures
        r == false,
{
    false
}

/// The in-repo reprojection plan: French source grids to the two
/// supported targets.
#[derive(Debug, Clone, Copy, PartialEq, Eq, Structural)]
pub struct ReprojectorLite {
    source_epsg: u32,
    target_epsg: u32,
}

/// Source grids the in-repo formulae cover: Lambert-93 and the
/// overseas UTM zones.
pub open spec fn supported_source(epsg: u32) -> bool {
    epsg == 2154 || epsg == 32620 || epsg == 32622 || epsg == 32738 || epsg == 32740
}

/// Targets the in-repo formulae cover: geographic and web-mercator.
pub open spec fn supported_target(epsg: u32) -> bool {
    epsg == 4326 || epsg == 3857
}

impl ReprojectorLite {
    /// A plan from `source_epsg` to `target_epsg`; refused exactly when
    /// either side is outside the supported set.
    pub fn new(source_epsg: u32, target_epsg: u32) -> (r: Result<Self, String>)
        ensures
            r matches Ok(p) ==> p.source_epsg() == source_epsg && p.target_epsg() == target_epsg,
            (r is Ok) == (supported_source(source_epsg) && supported_target(target_epsg)),
    {
        if !Self::is_supported_source(source_epsg) {
            return Err("unsupported source EPSG".to_owned());
        }
        if !Self::is_supported_target(target_epsg) {
            return Err("unsupported target EPSG".to_owned());
        }
        Ok(ReprojectorLite { source_epsg, target_epsg })
    }

    /// The source code of the plan.
    pub closed spec fn source_epsg(self) -> u32 {
        self.source_epsg
    }

    /// The target code of the plan.
    pub closed spec fn target_epsg(self) -> u32 {
        self.target_epsg
    }

    /// The plan's source code.
    pub fn source(&self) -> (r: u32)
        ensures
            r == self.source_epsg(),
    {
        self.source_epsg
    }

    /// The plan's target code.
    pub fn target(&self) -> (r: u32)
        ensures
            r == self.target_epsg(),
    {
        self.target_epsg
    }

    /// Whether the in-repo formulae read this source grid.
    pub fn is_supported_source(epsg: u32) -> (r: bool)
        ensures
            r == supported_source(epsg),
    {
        epsg == 2154 || epsg == 32620 || epsg == 32622 || epsg == 32738 || epsg == 32740
    }

    /// Whether the in-repo formulae write this target grid.
    pub fn is_supported_target(epsg: u32) -> (r: bool)
        ensures
            r == supported_target(epsg),
    {
        epsg == 4326 || epsg == 3857
    }

    /// Whether the pair is covered.
    pub fn is_supported(source: u32, target: u32) -> (r: bool)
        ensures
            r == (supported_source(source) && supported_target(target)),
    {
        Self::is_supported_source(source) && Self::is_supported_target(target)
    }
}

/// The projector variant a source/target pair gets.
pub enum SmartReprojector {
    /// The in-repo formulae cover the pair.
    Lite(ReprojectorLite),
    /// Source and target coincide; nothing to do.
    Identity,
}

impl SmartReprojector {
    /// Picks the plan: identity for equal codes, the in-repo formulae
    /// for a covered pair, an error otherwise.
    pub fn new(source_epsg: u32, target_epsg: u32) -> (r: Result<Self, String>)
        ensures
            source_epsg == target_epsg ==> (r matches Ok(p) && p is Identity),
            source_epsg != target_epsg && supported_source(source_epsg) && supported_target(
                target_epsg,
            ) ==> (r matches Ok(p) && (p matches SmartReprojector::Lite(l) && l.source_epsg()
                == source_epsg && l.target_epsg() == target_epsg)),
            source_epsg != target_epsg && !(supported_source(source_epsg) && supported_target(
                target_epsg,
            )) ==> r is Err,
    {
        if source_epsg == target_epsg {
            return Ok(SmartReprojector::Identity);
        }
        if ReprojectorLite::is_supported(source_epsg, target_epsg) {
            match ReprojectorLite::new(source_epsg, target_epsg) {
                Ok(lite) => Ok(SmartReprojector::Lite(lite)),
                Err(e) => Err(e),
            }
        } else {
            Err("unsupported reprojection pair".to_owned())
        }
    }

    /// Names the plan in force.
    pub fn description(&self) -> (r: &'static str)
        ensures
            self is Identity ==> r@ == "identity (no reprojection)"@,
            self is Lite ==> r@ == "built-in formulae (pure fixed-point plan)"@,
    {
        match self {
            SmartReprojector::Identity => "identity (no reprojection)",
            SmartReprojector::Lite(_) => "built-in formulae (pure fixed-point plan)",
        }
    }
}

} // verus!
