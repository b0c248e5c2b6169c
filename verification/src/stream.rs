//! What the bytes in the send buffer mean to the MPSSE.

use crate::command_compacter::{
    bit, encoding, is_run, reply_lengths, tms_byte, JtagBit, CLOCK_TMS, CLOCK_TMS_CAPTURE, MAX_BITS,
    SEND_IMMEDIATE,
};
use vstd::prelude::*;

verus! {

/// Whether a buffer is made up of whole commands.
pub open spec fn is_stream(bytes: Seq<u8>) -> bool
    decreases bytes.len(),
{
    if bytes.len() == 0 {
        true
    } else if bytes[0] == SEND_IMMEDIATE {
        is_stream(bytes.skip(1))
    } else {
        &&& bytes.len() >= 3
        &&& bytes[0] == CLOCK_TMS || bytes[0] == CLOCK_TMS_CAPTURE
        &&& bytes[1] < MAX_BITS
        &&& is_stream(bytes.skip(3))
    }
}

/// The clock cycles that the MPSSE carries out on a buffer of whole commands, in order.
pub open spec fn clocked(bytes: Seq<u8>) -> Seq<JtagBit>
    decreases bytes.len(),
{
    if bytes.len() == 0 {
        seq![]
    } else if bytes[0] == SEND_IMMEDIATE {
        clocked(bytes.skip(1))
    } else if bytes.len() < 3 {
        seq![]
    } else {
        clocked_by(bytes[0], bytes[1], bytes[2]) + clocked(bytes.skip(3))
    }
}

/// The clock cycles that one command carries out: one more than its length byte says, with TMS
/// from the low bits of its data byte, and with the top bit of that on TDI.
pub open spec fn clocked_by(opcode: u8, length: u8, data: u8) -> Seq<JtagBit> {
    Seq::new(
        (length + 1) as nat,
        |i: int|
            JtagBit {
                tms: bit(data, i),
                tdi: bit(data, 7),
                capture: opcode == CLOCK_TMS_CAPTURE,
            },
    )
}

/// For every byte with which the MPSSE replies to a buffer of whole commands, how many bits it
/// holds.
pub open spec fn replies(bytes: Seq<u8>) -> Seq<usize>
    decreases bytes.len(),
{
    if bytes.len() == 0 {
        seq![]
    } else if bytes[0] == SEND_IMMEDIATE {
        replies(bytes.skip(1))
    } else if bytes.len() < 3 {
        seq![]
    } else if bytes[0] == CLOCK_TMS_CAPTURE {
        seq![(bytes[1] + 1) as usize] + replies(bytes.skip(3))
    } else {
        replies(bytes.skip(3))
    }
}

/// Two buffers of whole commands, one after the other, are one, and mean what both mean.
pub proof fn lemma_concat(a: Seq<u8>, b: Seq<u8>)
    requires
        is_stream(a),
        is_stream(b),
    ensures
        is_stream(a + b),
        clocked(a + b) == clocked(a) + clocked(b),
        replies(a + b) == replies(a) + replies(b),
    decreases a.len(),
{
    if a.len() == 0 {
        assert(a + b =~= b);
        assert(clocked(a) + clocked(b) =~= clocked(b));
        assert(replies(a) + replies(b) =~= replies(b));
    } else if a[0] == SEND_IMMEDIATE {
        lemma_concat(a.skip(1), b);
        assert((a + b).skip(1) =~= a.skip(1) + b);
    } else {
        lemma_concat(a.skip(3), b);
        assert((a + b).skip(3) =~= a.skip(3) + b);
        let head = clocked_by(a[0], a[1], a[2]);
        assert(head + (clocked(a.skip(3)) + clocked(b)) =~= (head + clocked(a.skip(3))) + clocked(
            b,
        ));
        let count = seq![(a[1] + 1) as usize];
        assert(count + (replies(a.skip(3)) + replies(b)) =~= (count + replies(a.skip(3)))
            + replies(b));
    }
}

/// Send Immediate is a command that clocks nothing and has no reply of its own.
pub proof fn lemma_send_immediate(bytes: Seq<u8>)
    requires
        is_stream(bytes),
    ensures
        is_stream(bytes.push(SEND_IMMEDIATE)),
        clocked(bytes.push(SEND_IMMEDIATE)) == clocked(bytes),
        replies(bytes.push(SEND_IMMEDIATE)) == replies(bytes),
{
    let sealed = seq![SEND_IMMEDIATE];
    assert(sealed.skip(1) =~= Seq::<u8>::empty());
    reveal_with_fuel(is_stream, 2);
    reveal_with_fuel(clocked, 2);
    reveal_with_fuel(replies, 2);
    lemma_concat(bytes, sealed);
    assert(bytes + sealed =~= bytes.push(SEND_IMMEDIATE));
    assert(clocked(bytes) + clocked(sealed) =~= clocked(bytes));
    assert(replies(bytes) + replies(sealed) =~= replies(bytes));
}

/// The TMS levels come back out of the byte that they were put into, and nothing lies above them.
pub proof fn lemma_tms_byte(bits: Seq<JtagBit>)
    requires
        bits.len() <= MAX_BITS,
    ensures
        tms_byte(bits) < (1u8 << (bits.len() as u8)),
        forall|i: int| 0 <= i < bits.len() ==> #[trigger] bit(tms_byte(bits), i) == bits[i].tms,
    decreases bits.len(),
{
    if bits.len() == 0 {
        assert(1u8 << 0u8 == 1u8) by (bit_vector);
    } else {
        let before = tms_byte(bits.drop_last());
        let after = tms_byte(bits);
        let n = (bits.len() - 1) as u8;
        let tms = bits.last().tms;
        lemma_tms_byte(bits.drop_last());
        assert(after < (1u8 << ((n + 1) as u8)) && (after >> n) & 1u8 == if tms { 1u8 } else { 0u8 })
            by (bit_vector)
            requires
                n < 7,
                before < (1u8 << n),
                after == if tms { before | (1u8 << n) } else { before },
        ;
        assert forall|i: int| 0 <= i < bits.len() implies #[trigger] bit(after, i)
            == bits[i].tms by {
            if i < n {
                let k = i as u8;
                assert((before | (1u8 << n)) >> k & 1u8 == before >> k & 1u8) by (bit_vector)
                    requires
                        k < n < 7,
                ;
                assert(bit(before, i) == bits.drop_last()[i].tms);
            }
        }
    }
}

/// A run of cycles comes back out of its encoding: the MPSSE carries out just these cycles, and
/// replies with as many bits as are sampled.
pub proof fn lemma_encoding(bits: Seq<JtagBit>)
    requires
        is_run(bits),
    ensures
        is_stream(encoding(bits)),
        clocked(encoding(bits)) == bits,
        replies(encoding(bits)) == reply_lengths(bits),
{
    let bytes = encoding(bits);
    if bits.len() == 0 {
        assert(bits =~= Seq::<JtagBit>::empty());
    } else {
        let tms = tms_byte(bits);
        let tdi = bits[0].tdi;
        let data = bytes[2];
        lemma_tms_byte(bits);
        let n = bits.len() as u8;
        assert((data >> 7u8) & 1u8 == if tdi { 1u8 } else { 0u8 }) by (bit_vector)
            requires
                n <= 7,
                tms < (1u8 << n),
                data == tms | if tdi { 0x80u8 } else { 0u8 },
        ;
        assert forall|i: int| 0 <= i < bits.len() implies bit(data, i) == bits[i].tms by {
            let k = i as u8;
            assert((tms | 0x80u8) >> k & 1u8 == tms >> k & 1u8 && (tms | 0u8) == tms)
                by (bit_vector)
                requires
                    k < 7,
            ;
            assert(bit(tms, i) == bits[i].tms);
        }
        assert(clocked_by(bytes[0], bytes[1], data) =~= bits);
        assert(bytes.skip(3) =~= Seq::<u8>::empty());
        reveal_with_fuel(is_stream, 2);
        reveal_with_fuel(clocked, 2);
        reveal_with_fuel(replies, 2);
        assert(clocked(bytes) =~= bits);
        assert(replies(bytes) =~= reply_lengths(bits));
    }
}

} // verus!
