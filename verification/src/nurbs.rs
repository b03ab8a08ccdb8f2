//! NURBS curve / surface-direction forms and tessellation options.

use vstd::prelude::*;

verus! {

/// Curve / surface-direction form.
#[derive(Clone, Copy, Debug, PartialEq, Eq, Structural)]
pub enum NurbsForm {
    /// Ends unrelated.
    Open,
    /// Geometrically closed by authorship; evaluated as `Open`.
    Closed,
    /// The control polygon wraps; the parameter wraps modulo the period.
    Periodic,
}

impl NurbsForm {
    /// Whether the parameter wraps around the domain.
    pub fn wraps(self) -> (r: bool)
        ensures r == (self == NurbsForm::Periodic),
    {
        match self {
            NurbsForm::Periodic => true,
            _ => false,
        }
    }
}

/// Tessellation segment counts per direction (both default to 16).
#[derive(Clone, Copy, Debug, PartialEq, Eq, Structural)]
pub struct TessellationOptions {
    pub resolution_u: u32,
    pub resolution_v: u32,
}

impl Default for TessellationOptions {
    fn default() -> (o: Self)
        ensures o.resolution_u == 16 && o.resolution_v == 16,
    {
        TessellationOptions { resolution_u: 16, resolution_v: 16 }
    }
}

impl TessellationOptions {
    /// The same resolution in both directions.
    pub fn uniform(resolution: u32) -> (o: Self)
        ensures o.resolution_u == resolution && o.resolution_v == resolution,
    {
        TessellationOptions { resolution_u: resolution, resolution_v: resolution }
    }
}

} // verus!
