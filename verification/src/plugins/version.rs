//! Plugin versions and their order.

use vstd::prelude::*;
use core::cmp::Ordering;

verus! {

/// Semantic version for plugins.
#[derive(Debug, Clone, Copy, PartialEq, Eq, Structural, Ord)]
pub struct PluginVersion {
    pub major: u32,
    pub minor: u32,
    pub patch: u32,
}

/// `a` orders before `b`: by major, then minor, then patch.
pub open spec fn plugin_version_lt(a: PluginVersion, b: PluginVersion) -> bool {
    ||| a.major < b.major
    ||| a.major == b.major && a.minor < b.minor
    ||| a.major == b.major && a.minor == b.minor && a.patch < b.patch
}

pub open spec fn plugin_version_order(a: PluginVersion, b: PluginVersion) -> Ordering {
    if plugin_version_lt(a, b) {
        Ordering::Less
    } else if a == b {
        Ordering::Equal
    } else {
        Ordering::Greater
    }
}

impl PartialOrd for PluginVersion {
    fn partial_cmp(&self, other: &Self) -> (r: Option<Ordering>) {
        if self.major != other.major {
            if self.major < other.major {
                Some(Ordering::Less)
            } else {
                Some(Ordering::Greater)
            }
        } else if self.minor != other.minor {
            if self.minor < other.minor {
                Some(Ordering::Less)
            } else {
                Some(Ordering::Greater)
            }
        } else if self.patch != other.patch {
            if self.patch < other.patch {
                Some(Ordering::Less)
            } else {
                Some(Ordering::Greater)
            }
        } else {
            Some(Ordering::Equal)
        }
    }
}

impl vstd::std_specs::cmp::PartialOrdSpecImpl for PluginVersion {
    open spec fn obeys_partial_cmp_spec() -> bool {
        true
    }

    open spec fn partial_cmp_spec(&self, other: &Self) -> Option<Ordering> {
        Some(plugin_version_order(*self, *other))
    }
}

} // verus!
