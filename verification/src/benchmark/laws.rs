//! What holds of a closed loop of workloads.

use vstd::prelude::*;

use crate::benchmark::CloseLoop;
use crate::context::Addr;

verus! {

/// A workload that has changed is still at its address, and all others are as they
/// were.
pub proof fn law_one_workload_changes<W>(
    before: &CloseLoop<W>,
    after: &CloseLoop<W>,
    i: int,
    w: W,
    j: int,
)
    requires
        0 <= i < before.workloads@.len(),
        after.changed_at(before, i, w),
    ensures
        after.workloads@.len() == before.workloads@.len(),
        after.workloads@[i] == (before.workloads@[i].0, w),
        0 <= j < before.workloads@.len() && j != i ==> after.workloads@[j] == before.workloads@[j],
{
}

/// There is a workload at an address just if one of the list is there.
pub proof fn law_workload_is_at_its_address<W>(before: &CloseLoop<W>, addr: Addr)
    ensures
        before.has(addr) <==> exists|i: int|
            0 <= i < before.workloads@.len() && (#[trigger] before.workloads@[i]).0 == addr,
{
}

/// Workloads stay in their places.
pub proof fn law_workloads_stay_in_place<W>(before: &CloseLoop<W>, after: &CloseLoop<W>, i: int)
    requires
        after.same_addrs(before),
        0 <= i < before.workloads@.len(),
    ensures
        after.workloads@.len() == before.workloads@.len(),
        after.workloads@[i].0 == before.workloads@[i].0,
{
}

} // verus!
