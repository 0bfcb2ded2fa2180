//! The supervisor trap handler: what it records of an exception and where the
//! program resumes. Reading and writing the `scause` and `sepc` registers is the
//! platform layer's part; it hands their values in and writes the result back.
use vstd::prelude::*;
use vstd::string::StringSliceAdditionalSpecFns;
use crate::kernel::log::{TrapLog, spec_log_write, hex_text, law_writes_compose, LOG_CAPACITY};

verus! {

/// The interrupt bit of `scause`.
pub const INTERRUPT_BIT: u64 = 0x8000_0000_0000_0000;

/// The exception code bits of `scause`.
pub const CAUSE_MASK: u64 = 0x7FFF_FFFF_FFFF_FFFF;

/// The trap is an asynchronous interrupt rather than an exception.
pub open spec fn is_interrupt(scause: u64) -> bool {
    scause & INTERRUPT_BIT != 0
}

/// The exception code of a trap.
pub open spec fn cause_code(scause: u64) -> u64 {
    scause & CAUSE_MASK
}

/// The line that names an exception code.
pub open spec fn cause_line(code: u64) -> Seq<u8> {
    if code == 9 {
        "[TRAP] Type: Environment Call (ecall)\r\n".spec_bytes()
    } else if code == 3 {
        "[TRAP] Type: Breakpoint (ebreak)\r\n".spec_bytes()
    } else if code == 13 {
        "[TRAP] Type: Load Access Fault\r\n".spec_bytes()
    } else {
        "[TRAP] Type: Unknown Exception\r\n".spec_bytes()
    }
}

/// What the handler records of an exception: a header with the code in
/// hexadecimal, then the line that names it.
pub open spec fn trap_report(code: u64) -> Seq<u8> {
    "\r\n[TRAP] Exception detected! scause=".spec_bytes() + hex_text(code) + "\r\n".spec_bytes()
        + cause_line(code)
}

/// Handles a trap with cause `scause` taken at `sepc`. An interrupt is ignored:
/// nothing is logged and the result is `None`, so execution resumes where it
/// was. An exception is logged without blocking and the result is the address
/// of the next instruction, `sepc + 4`, so the faulting one is skipped.
pub fn rust_trap_handler(log: &mut TrapLog, scause: u64, sepc: u64) -> (r: Option<u64>)
    requires
        !is_interrupt(scause) ==> sepc + 4 <= u64::MAX,
    ensures
        is_interrupt(scause) ==> r is None && final(log)@ == old(log)@,
        !is_interrupt(scause) ==> r == Some((sepc + 4) as u64) && final(log)@ == spec_log_write(
            old(log)@,
            trap_report(cause_code(scause)),
        ),
{
    let interrupt = (scause & INTERRUPT_BIT) != 0;
    let code = scause & CAUSE_MASK;
    if interrupt {
        return None;
    }
    let ghost q0 = log@;
    let header = "\r\n[TRAP] Exception detected! scause=";
    let crlf = "\r\n";
    let line = if code == 9 {
        "[TRAP] Type: Environment Call (ecall)\r\n"
    } else if code == 3 {
        "[TRAP] Type: Breakpoint (ebreak)\r\n"
    } else if code == 13 {
        "[TRAP] Type: Load Access Fault\r\n"
    } else {
        "[TRAP] Type: Unknown Exception\r\n"
    };
    log.trap_log_write(header);
    log.trap_log_write_hex(code);
    log.trap_log_write(crlf);
    log.trap_log_write(line);
    proof {
        assert(line.spec_bytes() == cause_line(code));
        lemma_bounded_write(q0, header.spec_bytes());
        law_writes_compose(q0, header.spec_bytes(), hex_text(code));
        lemma_bounded_write(q0, header.spec_bytes() + hex_text(code));
        law_writes_compose(q0, header.spec_bytes() + hex_text(code), crlf.spec_bytes());
        lemma_bounded_write(q0, header.spec_bytes() + hex_text(code) + crlf.spec_bytes());
        law_writes_compose(q0, header.spec_bytes() + hex_text(code) + crlf.spec_bytes(), line.spec_bytes());
    }
    Some(sepc + 4)
}

proof fn lemma_bounded_write(q: Seq<u8>, b: Seq<u8>)
    requires
        q.len() <= LOG_CAPACITY,
    ensures
        spec_log_write(q, b).len() <= LOG_CAPACITY,
{
}

} // verus!
