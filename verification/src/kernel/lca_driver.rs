//! The crystal storage driver that the build protocol generated for the kernel:
//! it checks dynamic memory by writing and reading back a vector.
use vstd::prelude::*;

verus! {

/// The size of the test vector in bytes.
pub const TEST_LEN: usize = 1024;

/// The lines that a successful start of the driver logs, in order.
pub open spec fn init_log() -> Seq<Seq<char>> {
    seq![
        "[LCA] Initializing Crystal Storage..."@,
        "[LCA] Allocating dynamic vector..."@,
        "[LCA] Vector capacity: 1024 bytes allocated dynamically!"@,
        "[LCA] Verification PASSED! Dynamic Memory R/W OK."@,
        "[LCA] Dropping vector, memory will be deallocated automatically."@,
        "[LCA] Crystal Storage Online."@,
    ]
}

/// Fills a vector with `i % 256` at every index `i` and reads it back; returns
/// whether every byte read equals the byte written.
fn write_read_check() -> (passed: bool)
    ensures
        passed,
{
    let mut data: Vec<u8> = Vec::with_capacity(TEST_LEN);
    let mut i: usize = 0;
    while i < TEST_LEN
        invariant
            i <= TEST_LEN,
            data@.len() == i,
            forall|j: int| 0 <= j < i ==> #[trigger] data@[j] == (j % 256) as u8,
        decreases TEST_LEN - i,
    {
        data.push((i % 256) as u8);
        i = i + 1;
    }
    let mut check_passed = true;
    let mut k: usize = 0;
    while k < TEST_LEN
        invariant
            k <= TEST_LEN,
            data@.len() == TEST_LEN,
            forall|j: int| 0 <= j < TEST_LEN ==> #[trigger] data@[j] == (j % 256) as u8,
            check_passed,
        decreases TEST_LEN - k,
    {
        if data[k] != (k % 256) as u8 {
            check_passed = false;
            break;
        }
        k = k + 1;
    }
    check_passed
}

/// Starts the driver and returns the lines that it logs.
pub fn init() -> (r: Vec<&'static str>)
    ensures
        r@.map_values(|l: &str| l@) == init_log(),
{
    let mut log: Vec<&'static str> = Vec::new();
    log.push("[LCA] Initializing Crystal Storage...");
    log.push("[LCA] Allocating dynamic vector...");
    let passed = write_read_check();
    log.push("[LCA] Vector capacity: 1024 bytes allocated dynamically!");
    if passed {
        log.push("[LCA] Verification PASSED! Dynamic Memory R/W OK.");
    } else {
        log.push("[LCA] Verification FAILED!");
    }
    log.push("[LCA] Dropping vector, memory will be deallocated automatically.");
    log.push("[LCA] Crystal Storage Online.");
    assert(log@.map_values(|l: &str| l@) =~= init_log());
    log
}

} // verus!
