//! Bundle versions and their order.

use vstd::prelude::*;
use core::cmp::Ordering;

verus! {

/// Semantic version for bundles.
#[derive(Debug, Clone, Copy, PartialEq, Eq, Structural)]
pub struct BundleVersion {
    pub major: u32,
    pub minor: u32,
    pub patch: u32,
    pub build: Option<u32>,
}

/// The build number, with an absent build counting as 0.
pub open spec fn build_or_zero(v: BundleVersion) -> u32 {
    match v.build {
        Some(b) => b,
        None => 0,
    }
}

/// `a` orders before `b`: by major, then minor, then patch, then build number.
pub open spec fn version_lt(a: BundleVersion, b: BundleVersion) -> bool {
    ||| a.major < b.major
    ||| a.major == b.major && a.minor < b.minor
    ||| a.major == b.major && a.minor == b.minor && a.patch < b.patch
    ||| a.major == b.major && a.minor == b.minor && a.patch == b.patch && build_or_zero(a)
        < build_or_zero(b)
}

/// `a` and `b` rank the same: equal numbers, an absent build counting as 0.
pub open spec fn version_same_rank(a: BundleVersion, b: BundleVersion) -> bool {
    a.major == b.major && a.minor == b.minor && a.patch == b.patch && build_or_zero(a)
        == build_or_zero(b)
}

pub open spec fn version_order(a: BundleVersion, b: BundleVersion) -> Ordering {
    if version_lt(a, b) {
        Ordering::Less
    } else if version_same_rank(a, b) {
        Ordering::Equal
    } else {
        Ordering::Greater
    }
}

fn build_number(v: &BundleVersion) -> (r: u32)
    ensures
        r == build_or_zero(*v),
{
    match v.build {
        Some(b) => b,
        None => 0,
    }
}

impl PartialOrd for BundleVersion {
    fn partial_cmp(&self, other: &Self) -> (r: Option<Ordering>) {
        let a = build_number(self);
        let b = build_number(other);
        if self.major != other.major {
            if self.major < other.major {
                Some(Ordering::Less)
            } else {
                Some(Ordering::Greater)
            }
        } else if self.minor != other.minor {
            if self.minor < other.minor {
                Some(Ordering::Less)
            } else {
                Some(Ordering::Greater)
            }
        } else if self.patch != other.patch {
            if self.patch < other.patch {
                Some(Ordering::Less)
            } else {
                Some(Ordering::Greater)
            }
        } else if a != b {
            if a < b {
                Some(Ordering::Less)
            } else {
                Some(Ordering::Greater)
            }
        } else {
            Some(Ordering::Equal)
        }
    }
}

impl vstd::std_specs::cmp::PartialOrdSpecImpl for BundleVersion {
    open spec fn obeys_partial_cmp_spec() -> bool {
        true
    }

    open spec fn partial_cmp_spec(&self, other: &Self) -> Option<Ordering> {
        Some(version_order(*self, *other))
    }
}

} // verus!
