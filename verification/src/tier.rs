use vstd::prelude::*;

verus! {

/// Tier of sub-trit precision importance.
#[derive(Debug, Clone, Copy, PartialEq, Eq, Structural)]
pub enum SubTritTier {
    /// Deviation < 0.1 — barely matters.
    Negligible,
    /// Deviation 0.1–0.25 — subtle but measurable.
    Subtle,
    /// Deviation 0.25–0.4 — moderate impact.
    Moderate,
    /// Deviation >= 0.4 — significant; integer trit loses a lot.
    Significant,
}

} // verus!
