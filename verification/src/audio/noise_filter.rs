//! The noise gate's setting: how aggressively quiet samples are silenced.
use vstd::prelude::*;

verus! {

/// How strong the noise gate is.
#[derive(Debug, Clone, Copy, PartialEq, Eq)]
pub enum NoiseLevel {
    Off,
    Low,
    Moderate,
    High,
    VeryHigh,
}

/// The noise gate's level; it is enabled exactly when the level is not `Off`.
pub struct NoiseFilter {
    level: NoiseLevel,
    enabled: bool,
}

impl View for NoiseFilter {
    type V = NoiseLevel;

    closed spec fn view(&self) -> NoiseLevel {
        self.level
    }
}

impl NoiseFilter {
    #[verifier::type_invariant]
    spec fn enabled_unless_off(self) -> bool {
        self.enabled == !(self.level is Off)
    }

    /// A gate at `level`.
    pub fn new(level: NoiseLevel) -> (r: Self)
        ensures
            r@ == level,
    {
        NoiseFilter { enabled: !matches!(level, NoiseLevel::Off), level }
    }

    /// Changes the level.
    pub fn set_level(&mut self, level: NoiseLevel)
        ensures
            final(self)@ == level,
    {
        *self = NoiseFilter { enabled: !matches!(level, NoiseLevel::Off), level };
    }

    /// The current level.
    pub fn level(&self) -> (r: NoiseLevel)
        ensures
            r == self@,
    {
        self.level
    }

    /// Whether the filter is active (its level is not `Off`).
    pub fn is_enabled(&self) -> (r: bool)
        ensures
            r == !(self@ is Off),
    {
        proof {
            use_type_invariant(self);
        }
        self.enabled
    }
}

} // verus!
