//! Naming rules for IPv6 lease files.  Decoding the lease bytes themselves
//! is left to the caller's DHCP decoder.

use vstd::prelude::*;

use crate::dhcpcd::{extension_is, spec_extension};

verus! {

/// Whether a path names an IPv6 lease file: its extension is `lease6`.
pub fn is_lease_file(path: &str) -> (r: bool)
    ensures
        r == (spec_extension(path@) == Some(("lease6")@)),
{
    extension_is(path, "lease6")
}

} // verus!
