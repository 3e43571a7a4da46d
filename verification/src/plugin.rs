//! The three plugins, and how Suricata takes them.

use vstd::prelude::*;

verus! {

/// One of the plugins.
#[derive(Debug, Clone, Copy, PartialEq, Eq, Structural)]
pub enum Plugin {
    Eve,
    Filedata,
    Rawdata,
}

/// Whether Suricata refused a logger, going by the status that it returned: -1 means that it did.
pub fn registration_failed(status: i32) -> (failed: bool)
    ensures
        failed == (status == -1),
{
    assert(!status == 0 <==> status == -1) by (bit_vector);
    !status == 0
}

/// Of all statuses that Suricata can return, only -1 says that it refused a logger.
pub proof fn law_one_status_means_refusal(status: i32, failed: bool)
    requires
        call_ensures(registration_failed, (status,), failed),
    ensures
        failed ==> status + 1 == 0,
        status + 1 == 0 ==> failed,
{
}

} // verus!
