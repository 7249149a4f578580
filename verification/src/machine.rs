//! The parallel-jobs suggestion for this machine.
use vstd::prelude::*;

verus! {

/// Bytes of memory per parallel job: 1.5 GiB.
pub open spec fn mem_per_job() -> nat {
    1610612736
}

/// A quarter of the physical cores, rounded half up, at least one.
pub open spec fn by_cores(physical_cores: u32) -> nat {
    let q = (physical_cores as nat + 2) / 4;
    if q < 1 {
        1
    } else {
        q
    }
}

/// One job per whole 1.5 GiB of memory, at least one.
pub open spec fn by_mem(total_mem_bytes: u64) -> nat {
    let q = total_mem_bytes as nat / mem_per_job();
    if q < 1 {
        1
    } else {
        q
    }
}

/// The suggestion: the smaller of the two limits, kept within 1..=4, and halved
/// (at least one) for HD output.
pub open spec fn suggest_jobs_spec(physical_cores: u32, total_mem_bytes: u64, hd: bool) -> nat {
    let m = if by_cores(physical_cores) < by_mem(total_mem_bytes) {
        by_cores(physical_cores)
    } else {
        by_mem(total_mem_bytes)
    };
    let n = if m > 4 {
        4
    } else {
        m
    };
    if hd {
        if n / 2 < 1 {
            1
        } else {
            n / 2
        }
    } else {
        n
    }
}

/// How many encodes to run at once on a machine with `physical_cores` cores and
/// `total_mem_bytes` of memory; `hd` asks for HD output.
pub fn suggest_jobs(physical_cores: u32, total_mem_bytes: u64, hd: bool) -> (r: u32)
    ensures
        r == suggest_jobs_spec(physical_cores, total_mem_bytes, hd),
{
    let c: u64 = (physical_cores as u64 + 2) / 4;
    let by_c: u64 = if c < 1 {
        1
    } else {
        c
    };
    let q: u64 = total_mem_bytes / 1610612736;
    let by_m: u64 = if q < 1 {
        1
    } else {
        q
    };
    let m = if by_c < by_m {
        by_c
    } else {
        by_m
    };
    let mut n: u64 = if m > 4 {
        4
    } else {
        m
    };
    if hd {
        n = if n / 2 < 1 {
            1
        } else {
            n / 2
        };
    }
    n as u32
}

/// Law: the suggestion is between one and four jobs, HD output never gets more than
/// other output, and more cores or more memory never lower it.
pub proof fn law_suggest_jobs(cores: u32, cores2: u32, mem: u64, mem2: u64, hd: bool)
    requires
        cores <= cores2,
        mem <= mem2,
    ensures
        1 <= suggest_jobs_spec(cores, mem, hd) <= 4,
        suggest_jobs_spec(cores, mem, true) <= suggest_jobs_spec(cores, mem, false),
        suggest_jobs_spec(cores, mem, hd) <= suggest_jobs_spec(cores2, mem2, hd),
{
    assert((cores as nat + 2) / 4 <= (cores2 as nat + 2) / 4) by (nonlinear_arith)
        requires
            cores <= cores2,
    ;
    assert(mem as nat / mem_per_job() <= mem2 as nat / mem_per_job()) by (nonlinear_arith)
        requires
            mem <= mem2,
    ;
}

} // verus!
