//! Console output through the supervisor binary interface (SBI).
//!
//! The kernel decides which SBI calls to make; the calls themselves are
//! `ecall` instructions that the platform layer performs in order.
use vstd::prelude::*;
use vstd::string::StringSliceAdditionalSpecFns;

verus! {

/// One SBI call: extension, function and first argument.
#[derive(Debug, Clone, Copy, PartialEq, Eq, Structural)]
pub struct SbiCall {
    pub eid: usize,
    pub fid: usize,
    pub arg0: usize,
}

/// The legacy console extension, whose function 0 writes one byte.
pub const SBI_CONSOLE_PUTCHAR: usize = 0x01;

pub open spec fn putchar_call(c: u8) -> SbiCall {
    SbiCall { eid: SBI_CONSOLE_PUTCHAR, fid: 0, arg0: c as usize }
}

/// The call that writes one byte to the console.
pub fn sbi_print_char(c: u8) -> (r: SbiCall)
    ensures
        r == putchar_call(c),
{
    SbiCall { eid: SBI_CONSOLE_PUTCHAR, fid: 0x00, arg0: c as usize }
}

/// The calls that write the bytes of `s` to the console, one call per byte in order.
pub fn sbi_print(s: &str) -> (r: Vec<SbiCall>)
    ensures
        r@ == s.spec_bytes().map_values(|b: u8| putchar_call(b)),
{
    let bytes = s.as_bytes();
    let mut r: Vec<SbiCall> = Vec::new();
    let mut i: usize = 0;
    while i < bytes.len()
        invariant
            bytes@ == s.spec_bytes(),
            i <= bytes@.len(),
            r@ == bytes@.subrange(0, i as int).map_values(|b: u8| putchar_call(b)),
        decreases bytes@.len() - i,
    {
        r.push(sbi_print_char(bytes[i]));
        assert(bytes@.subrange(0, i + 1).map_values(|b: u8| putchar_call(b)) =~= bytes@.subrange(
            0,
            i as int,
        ).map_values(|b: u8| putchar_call(b)).push(putchar_call(bytes@[i as int])));
        i = i + 1;
    }
    assert(bytes@.subrange(0, bytes@.len() as int) =~= bytes@);
    r
}

/// The calls that write `s` followed by a carriage return and a line feed.
pub fn sbi_println(s: &str) -> (r: Vec<SbiCall>)
    ensures
        r@ == (s.spec_bytes() + seq![13u8, 10u8]).map_values(|b: u8| putchar_call(b)),
{
    let mut r = sbi_print(s);
    r.push(sbi_print_char(13));
    r.push(sbi_print_char(10));
    assert(r@ =~= (s.spec_bytes() + seq![13u8, 10u8]).map_values(|b: u8| putchar_call(b)));
    r
}

} // verus!
