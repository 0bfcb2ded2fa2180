//! The trap log: a ring buffer of bytes that the trap handler fills without
//! blocking and that the kernel drains to the console from a safe context.
use vstd::prelude::*;
use vstd::string::StringSliceAdditionalSpecFns;
use crate::kernel::sbi::{SbiCall, putchar_call, sbi_print_char};

verus! {

/// The number of slots of the ring; one slot always stays empty, so at most
/// `LOG_BUF_SIZE - 1` bytes wait to be flushed.
pub const LOG_BUF_SIZE: usize = 512;

/// The most bytes the log holds.
pub const LOG_CAPACITY: usize = 511;

/// What writing `bytes` does to the unread bytes `q`: the bytes are appended in
/// order until the log is full; the bytes that do not fit are dropped, so unread
/// bytes are never overwritten.
pub open spec fn spec_log_write(q: Seq<u8>, bytes: Seq<u8>) -> Seq<u8> {
    if bytes.len() + q.len() <= LOG_CAPACITY {
        q + bytes
    } else {
        q + bytes.take(LOG_CAPACITY - q.len())
    }
}

/// The ASCII code of the hexadecimal digit `n`, for `n < 16`.
pub open spec fn hex_char(n: u64) -> u8 {
    if n < 10 {
        (48 + n) as u8
    } else {
        (87 + n) as u8
    }
}

/// The value of a hexadecimal digit.
pub open spec fn hex_digit_value(c: u8) -> int {
    if c < 58 {
        c - 48
    } else {
        c - 87
    }
}

/// The sixteen hexadecimal digits of `v`, most significant first.
pub open spec fn hex_digits(v: u64) -> Seq<u8> {
    Seq::new(16, |i: int| hex_char((v >> ((60 - 4 * i) as u64)) & 15u64))
}

/// `0x` followed by the sixteen hexadecimal digits of `v`.
pub open spec fn hex_text(v: u64) -> Seq<u8> {
    seq![48u8, 120u8] + hex_digits(v)
}

/// The number that a string of hexadecimal digits denotes.
pub open spec fn hex_value(s: Seq<u8>) -> int
    decreases s.len(),
{
    if s.len() == 0 {
        0
    } else {
        hex_value(s.drop_last()) * 16 + hex_digit_value(s.last())
    }
}

/// A ring buffer of the bytes that wait to be printed.
pub struct TrapLog {
    buf: [u8; 512],
    /// Where the next byte is written.
    head: usize,
    /// Where the next byte is read.
    tail: usize,
}

impl TrapLog {
    #[verifier::type_invariant]
    spec fn inv(&self) -> bool {
        self.head < 512 && self.tail < 512
    }

    spec fn pending(&self) -> nat {
        if self.head >= self.tail {
            (self.head - self.tail) as nat
        } else {
            (self.head + 512 - self.tail) as nat
        }
    }

    spec fn slot(&self, j: int) -> int {
        if self.tail + j < 512 {
            self.tail + j
        } else {
            self.tail + j - 512
        }
    }
}

impl View for TrapLog {
    /// The bytes written and not yet flushed, oldest first.
    type V = Seq<u8>;

    closed spec fn view(&self) -> Seq<u8> {
        Seq::new(self.pending(), |j: int| self.buf@[self.slot(j)])
    }
}

impl TrapLog {
    /// An empty log.
    pub fn new() -> (r: Self)
        ensures
            r@ == Seq::<u8>::empty(),
    {
        let r = TrapLog { buf: [0u8; 512], head: 0, tail: 0 };
        assert(r@ =~= Seq::<u8>::empty());
        r
    }

    /// Appends one byte unless the log is full; tells whether it was appended.
    fn push_byte(&mut self, c: u8) -> (ok: bool)
        ensures
            ok == (old(self)@.len() < LOG_CAPACITY),
            final(self)@ == (if ok { old(self)@.push(c) } else { old(self)@ }),
    {
        proof {
            use_type_invariant(&*self);
        }
        let next_head = (self.head + 1) % LOG_BUF_SIZE;
        if next_head != self.tail {
            let ghost before = self@;
            self.buf[self.head] = c;
            self.head = next_head;
            proof {
                assert(self@ =~= before.push(c));
            }
            true
        } else {
            false
        }
    }

    fn write_bytes(&mut self, bytes: &[u8])
        ensures
            final(self)@ == spec_log_write(old(self)@, bytes@),
            old(self)@.len() <= LOG_CAPACITY,
    {
        proof {
            use_type_invariant(&*self);
        }
        let mut i: usize = 0;
        loop
            invariant
                i <= bytes@.len(),
                old(self)@.len() + i <= LOG_CAPACITY,
                self@ == old(self)@ + bytes@.take(i as int),
            ensures
                self@ == old(self)@ + bytes@.take(i as int),
                i == bytes@.len() || self@.len() == LOG_CAPACITY,
                i <= bytes@.len(),
                old(self)@.len() + i <= LOG_CAPACITY,
            decreases bytes@.len() - i,
        {
            if i == bytes.len() {
                break;
            }
            let ghost before = self@;
            if !self.push_byte(bytes[i]) {
                break;
            }
            proof {
                assert(bytes@.take(i + 1) =~= bytes@.take(i as int).push(bytes@[i as int]));
            }
            i = i + 1;
        }
        proof {
            if i == bytes@.len() {
                assert(bytes@.take(i as int) =~= bytes@);
            }
        }
    }

    /// Appends the bytes of `s` in order, dropping those that do not fit.
    pub fn trap_log_write(&mut self, s: &str)
        ensures
            final(self)@ == spec_log_write(old(self)@, s.spec_bytes()),
            old(self)@.len() <= LOG_CAPACITY,
    {
        self.write_bytes(s.as_bytes());
    }

    /// Appends `0x` and the sixteen hexadecimal digits of `val`.
    pub fn trap_log_write_hex(&mut self, val: u64)
        ensures
            final(self)@ == spec_log_write(old(self)@, hex_text(val)),
            old(self)@.len() <= LOG_CAPACITY,
    {
        let mut buf: Vec<u8> = Vec::new();
        buf.push(48u8);
        buf.push(120u8);
        let mut i: u64 = 0;
        while i < 16
            invariant
                i <= 16,
                buf@ == seq![48u8, 120u8] + hex_digits(val).take(i as int),
            decreases 16 - i,
        {
            let shifted = val >> ((15 - i) * 4);
            let nibble = shifted & 0xF;
            proof {
                assert(nibble < 16) by (bit_vector)
                    requires
                        nibble == shifted & 0xF,
                ;
            }
            let c: u8 = if nibble < 10 { 48 + nibble as u8 } else { 87 + nibble as u8 };
            proof {
                assert((60 - 4 * i) as u64 == (15 - i) * 4);
                assert(c == hex_char(nibble));
                assert(hex_digits(val)[i as int] == c);
                assert(hex_digits(val).take(i + 1) =~= hex_digits(val).take(i as int).push(c));
            }
            buf.push(c);
            i = i + 1;
        }
        proof {
            assert(hex_digits(val).take(16) =~= hex_digits(val));
        }
        self.write_bytes(buf.as_slice());
    }

    /// Drains the log: the console calls that print the unread bytes, oldest first.
    pub fn flush_logs(&mut self) -> (r: Vec<SbiCall>)
        ensures
            r@ == old(self)@.map_values(|b: u8| putchar_call(b)),
            final(self)@ == Seq::<u8>::empty(),
    {
        proof {
            use_type_invariant(&*self);
        }
        let mut r: Vec<SbiCall> = Vec::new();
        let ghost mut done: Seq<u8> = Seq::empty();
        while self.head != self.tail
            invariant
                old(self)@ == done + self@,
                r@ == done.map_values(|b: u8| putchar_call(b)),
            decreases self@.len(),
        {
            proof {
                use_type_invariant(&*self);
            }
            let ghost before = self@;
            let c = self.buf[self.tail];
            self.tail = (self.tail + 1) % LOG_BUF_SIZE;
            r.push(sbi_print_char(c));
            proof {
                assert(before[0] == c);
                assert(self@ =~= before.drop_first());
                assert(done.push(c) + self@ =~= done + before);
                assert(done.push(c).map_values(|b: u8| putchar_call(b)) =~= done.map_values(|b: u8| putchar_call(b)).push(putchar_call(c)));
                done = done.push(c);
            }
        }
        proof {
            assert(self@ =~= Seq::<u8>::empty());
            assert(done =~= old(self)@);
        }
        r
    }
}

/// Writing `a` and then `b` leaves the log as writing `a` followed by `b` at
/// once: bytes are kept in order and only the ones that do not fit are lost.
pub proof fn law_writes_compose(q: Seq<u8>, a: Seq<u8>, b: Seq<u8>)
    requires
        q.len() <= LOG_CAPACITY,
    ensures
        spec_log_write(spec_log_write(q, a), b) == spec_log_write(q, a + b),
{
    let room = LOG_CAPACITY - q.len();
    if a.len() + b.len() <= room {
    } else if a.len() <= room {
        assert((a + b).take(room) =~= a + b.take(room - a.len()));
        assert(q + a + b.take(room - a.len()) =~= q + (a + b.take(room - a.len())));
    } else {
        assert((a + b).take(room) =~= a.take(room));
        assert(b.take(0) =~= Seq::<u8>::empty());
        assert(q + a.take(room) + b.take(0) =~= q + a.take(room));
    }
}

/// Flushing an empty log after a write gives back exactly the bytes that fit,
/// in the order they were written.
pub proof fn law_flush_returns_writes(bytes: Seq<u8>)
    ensures
        spec_log_write(Seq::empty(), bytes) == (if bytes.len() <= LOG_CAPACITY {
            bytes
        } else {
            bytes.take(LOG_CAPACITY as int)
        }),
{
    assert(Seq::<u8>::empty() + bytes =~= bytes);
    assert(Seq::<u8>::empty() + bytes.take(LOG_CAPACITY as int) =~= bytes.take(LOG_CAPACITY as int));
}

proof fn lemma_nibble_step(v: u64, s: u64)
    requires
        s <= 56,
    ensures
        (v >> ((s + 4) as u64)) * 16 + ((v >> s) & 15u64) == v >> s,
{
    assert((v >> ((s + 4) as u64)) * 16 + ((v >> s) & 15u64) == v >> s) by (bit_vector)
        requires
            s <= 56,
    ;
}

proof fn lemma_digit_value(v: u64, i: int)
    requires
        0 <= i < 16,
    ensures
        hex_digit_value(hex_digits(v)[i]) == (v >> ((60 - 4 * i) as u64)) & 15u64,
{
    let x = v >> ((60 - 4 * i) as u64);
    let n = x & 15u64;
    assert(n < 16) by (bit_vector)
        requires
            n == x & 15u64,
    ;
}

proof fn lemma_hex_prefix(v: u64, k: int)
    requires
        1 <= k <= 16,
    ensures
        hex_value(hex_digits(v).take(k)) == v >> ((64 - 4 * k) as u64),
    decreases k,
{
    let d = hex_digits(v);
    lemma_digit_value(v, k - 1);
    assert(d.take(k).drop_last() =~= d.take(k - 1));
    assert(d.take(k).last() == d[k - 1]);
    assert(hex_value(d.take(k)) == hex_value(d.take(k - 1)) * 16 + hex_digit_value(d[k - 1]));
    if k == 1 {
        assert(hex_value(d.take(0)) == 0);
        assert((v >> 60u64) & 15u64 == v >> 60u64) by (bit_vector);
    } else {
        lemma_hex_prefix(v, k - 1);
        lemma_nibble_step(v, (64 - 4 * k) as u64);
        assert(((64 - 4 * k) as u64 + 4) as u64 == (64 - 4 * (k - 1)) as u64);
    }
}

/// The digits written by `trap_log_write_hex` denote the number back: the
/// sixteen digits after `0x` read in base 16 give `v`.
pub proof fn law_hex_text_denotes_value(v: u64)
    ensures
        hex_text(v).len() == 18,
        hex_value(hex_text(v).subrange(2, 18)) == v,
{
    assert(hex_text(v).subrange(2, 18) =~= hex_digits(v));
    assert(hex_digits(v).take(16) =~= hex_digits(v));
    lemma_hex_prefix(v, 16);
    assert(v >> 0u64 == v) by (bit_vector);
}

} // verus!
