//! Naming rules for IPv4 lease files.  Decoding the lease bytes themselves
//! is left to the caller's DHCP decoder.

use vstd::prelude::*;

use crate::dhcpcd::{extension_is, spec_extension};

verus! {

/// Whether a path names an IPv4 lease file: its extension is `lease`.
pub fn is_lease_file(path: &str) -> (r: bool)
    ensures
        r == (spec_extension(path@) == Some(("lease")@)),
{
    extension_is(path, "lease")
}

} // verus!
