use vstd::prelude::*;

verus! {

/// Largest version number a subject can hold.
pub const MAX_VERSION: u32 = 2_147_483_647;

/// Whether `v` lies in the legal range of version numbers, `1 ..= 2^31 - 1`.
pub open spec fn version_in_range(v: int) -> bool {
    1 <= v <= 2_147_483_647
}

/// A number that may be the version of a subject.
pub trait VersionLimit {
    /// The number lies in the legal range of version numbers.
    spec fn limits_hold(&self) -> bool;

    /// Whether the number lies in the legal range of version numbers.
    fn within_limits(&self) -> (ok: bool)
        ensures
            ok == self.limits_hold(),
    ;
}

impl VersionLimit for u32 {
    open spec fn limits_hold(&self) -> bool {
        version_in_range(*self as int)
    }

    fn within_limits(&self) -> (ok: bool) {
        *self > 0 && *self <= MAX_VERSION
    }
}

} // verus!
