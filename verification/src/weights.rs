//! Cost accounting for the boundary layer.
//!
//! Each operation touches the backing store a fixed number of times in the
//! worst case; the boundary layer prices a call from those counts and the
//! per-access costs of its host. The counts here include the host's key
//! lookup alongside the store reads and writes the operations themselves
//! make.

use vstd::prelude::*;

verus! {

/// Worst-case storage accesses of one operation.
#[derive(Clone, Copy, Debug, PartialEq, Eq, Structural)]
pub struct WeightInfo {
    pub reads: u64,
    pub writes: u64,
}

impl WeightInfo {
    /// The operation's cost, given the host's price per read and per
    /// write; `None` when it does not fit in 64 bits.
    pub fn total(&self, read_cost: u64, write_cost: u64) -> (r: Option<u64>)
        ensures
            match r {
                Some(t) => t == self.reads * read_cost + self.writes * write_cost,
                None => self.reads * read_cost + self.writes * write_cost > u64::MAX,
            },
    {
        proof {
            assert((self.reads as u128) * (read_cost as u128) <= 0xffff_ffff_ffff_ffffu128
                * 0xffff_ffff_ffff_ffffu128 && (self.writes as u128) * (write_cost as u128)
                <= 0xffff_ffff_ffff_ffffu128 * 0xffff_ffff_ffff_ffffu128) by (nonlinear_arith)
                requires
                    self.reads <= 0xffff_ffff_ffff_ffffu64,
                    read_cost <= 0xffff_ffff_ffff_ffffu64,
                    self.writes <= 0xffff_ffff_ffff_ffffu64,
                    write_cost <= 0xffff_ffff_ffff_ffffu64,
            ;
        }
        let rc = (self.reads as u128) * (read_cost as u128);
        if rc > u64::MAX as u128 {
            return None;
        }
        let wc = (self.writes as u128) * (write_cost as u128);
        if wc > u64::MAX as u128 {
            return None;
        }
        let sum = rc + wc;
        if sum > u64::MAX as u128 {
            None
        } else {
            Some(sum as u64)
        }
    }

    pub fn add_role() -> (w: WeightInfo)
        ensures
            w == (WeightInfo { reads: 2, writes: 2 }),
    {
        WeightInfo { reads: 2, writes: 2 }
    }

    pub fn update_role() -> (w: WeightInfo)
        ensures
            w == (WeightInfo { reads: 2, writes: 2 }),
    {
        WeightInfo { reads: 2, writes: 2 }
    }

    pub fn disable_role() -> (w: WeightInfo)
        ensures
            w == (WeightInfo { reads: 2, writes: 2 }),
    {
        WeightInfo { reads: 2, writes: 2 }
    }

    pub fn fetch_role() -> (w: WeightInfo)
        ensures
            w == (WeightInfo { reads: 1, writes: 0 }),
    {
        WeightInfo { reads: 1, writes: 0 }
    }

    pub fn fetch_roles() -> (w: WeightInfo)
        ensures
            w == (WeightInfo { reads: 1, writes: 0 }),
    {
        WeightInfo { reads: 1, writes: 0 }
    }

    pub fn assign_role_to_user() -> (w: WeightInfo)
        ensures
            w == (WeightInfo { reads: 2, writes: 1 }),
    {
        WeightInfo { reads: 2, writes: 1 }
    }

    pub fn unassign_role_to_user() -> (w: WeightInfo)
        ensures
            w == (WeightInfo { reads: 1, writes: 1 }),
    {
        WeightInfo { reads: 1, writes: 1 }
    }

    pub fn assign_role_to_group() -> (w: WeightInfo)
        ensures
            w == (WeightInfo { reads: 3, writes: 1 }),
    {
        WeightInfo { reads: 3, writes: 1 }
    }

    pub fn unassign_role_to_group() -> (w: WeightInfo)
        ensures
            w == (WeightInfo { reads: 1, writes: 1 }),
    {
        WeightInfo { reads: 1, writes: 1 }
    }

    pub fn fetch_user_roles() -> (w: WeightInfo)
        ensures
            w == (WeightInfo { reads: 1, writes: 0 }),
    {
        WeightInfo { reads: 1, writes: 0 }
    }

    pub fn add_permission() -> (w: WeightInfo)
        ensures
            w == (WeightInfo { reads: 2, writes: 2 }),
    {
        WeightInfo { reads: 2, writes: 2 }
    }

    pub fn update_permission() -> (w: WeightInfo)
        ensures
            w == (WeightInfo { reads: 2, writes: 2 }),
    {
        WeightInfo { reads: 2, writes: 2 }
    }

    pub fn disable_permission() -> (w: WeightInfo)
        ensures
            w == (WeightInfo { reads: 2, writes: 2 }),
    {
        WeightInfo { reads: 2, writes: 2 }
    }

    pub fn fetch_permission() -> (w: WeightInfo)
        ensures
            w == (WeightInfo { reads: 1, writes: 0 }),
    {
        WeightInfo { reads: 1, writes: 0 }
    }

    pub fn fetch_permissions() -> (w: WeightInfo)
        ensures
            w == (WeightInfo { reads: 1, writes: 0 }),
    {
        WeightInfo { reads: 1, writes: 0 }
    }

    pub fn assign_permission_to_role() -> (w: WeightInfo)
        ensures
            w == (WeightInfo { reads: 3, writes: 1 }),
    {
        WeightInfo { reads: 3, writes: 1 }
    }

    pub fn unassign_permission_to_role() -> (w: WeightInfo)
        ensures
            w == (WeightInfo { reads: 1, writes: 1 }),
    {
        WeightInfo { reads: 1, writes: 1 }
    }

    pub fn fetch_role_permissions() -> (w: WeightInfo)
        ensures
            w == (WeightInfo { reads: 1, writes: 0 }),
    {
        WeightInfo { reads: 1, writes: 0 }
    }

    pub fn add_group() -> (w: WeightInfo)
        ensures
            w == (WeightInfo { reads: 2, writes: 2 }),
    {
        WeightInfo { reads: 2, writes: 2 }
    }

    pub fn update_group() -> (w: WeightInfo)
        ensures
            w == (WeightInfo { reads: 2, writes: 2 }),
    {
        WeightInfo { reads: 2, writes: 2 }
    }

    pub fn disable_group() -> (w: WeightInfo)
        ensures
            w == (WeightInfo { reads: 2, writes: 2 }),
    {
        WeightInfo { reads: 2, writes: 2 }
    }

    pub fn fetch_group() -> (w: WeightInfo)
        ensures
            w == (WeightInfo { reads: 1, writes: 0 }),
    {
        WeightInfo { reads: 1, writes: 0 }
    }

    pub fn fetch_groups() -> (w: WeightInfo)
        ensures
            w == (WeightInfo { reads: 1, writes: 0 }),
    {
        WeightInfo { reads: 1, writes: 0 }
    }

    pub fn assign_user_to_group() -> (w: WeightInfo)
        ensures
            w == (WeightInfo { reads: 2, writes: 1 }),
    {
        WeightInfo { reads: 2, writes: 1 }
    }

    pub fn unassign_user_to_group() -> (w: WeightInfo)
        ensures
            w == (WeightInfo { reads: 1, writes: 1 }),
    {
        WeightInfo { reads: 1, writes: 1 }
    }

    pub fn fetch_user_groups() -> (w: WeightInfo)
        ensures
            w == (WeightInfo { reads: 1, writes: 0 }),
    {
        WeightInfo { reads: 1, writes: 0 }
    }

    pub fn fetch_user_permissions() -> (w: WeightInfo)
        ensures
            w == (WeightInfo { reads: 5, writes: 0 }),
    {
        WeightInfo { reads: 5, writes: 0 }
    }

    pub fn fetch_group_permissions() -> (w: WeightInfo)
        ensures
            w == (WeightInfo { reads: 3, writes: 0 }),
    {
        WeightInfo { reads: 3, writes: 0 }
    }

    pub fn fetch_group_roles() -> (w: WeightInfo)
        ensures
            w == (WeightInfo { reads: 1, writes: 0 }),
    {
        WeightInfo { reads: 1, writes: 0 }
    }
}

} // verus!
