//! Single commands, single replies, and single messages, bit by bit and digit by digit.

use crate::command_compacter::{bit, encoding, is_run, joins, reply_lengths, tms_byte, JtagBit};
use crate::state::{overrun_text, reply_bits};
use crate::stream::{clocked, clocked_by, lemma_encoding, lemma_tms_byte};
use crate::text::decimal;
use vstd::prelude::*;

verus! {

/// Whether some command of the MPSSE carries out these cycles. The data byte of a command has room
/// for seven levels of TMS below the level of TDI.
pub open spec fn one_command_clocks(bits: Seq<JtagBit>) -> bool {
    exists|opcode: u8, length: u8, data: u8|
        length < 7 && #[trigger] clocked_by(opcode, length, data) == bits
}

/// A run is just what one command can clock.
pub proof fn law_runs_are_what_one_command_clocks(bits: Seq<JtagBit>)
    requires
        bits.len() > 0,
    ensures
        is_run(bits) <==> one_command_clocks(bits),
{
    if is_run(bits) {
        let bytes = encoding(bits);
        lemma_encoding(bits);
        let head = clocked_by(bytes[0], bytes[1], bytes[2]);
        assert(bytes.skip(3) =~= Seq::<u8>::empty());
        assert(clocked(bytes) =~= head) by {
            reveal_with_fuel(clocked, 2);
        }
    }
    if one_command_clocks(bits) {
        let (opcode, length, data) = choose|opcode: u8, length: u8, data: u8|
            length < 7 && #[trigger] clocked_by(opcode, length, data) == bits;
        assert(clocked_by(opcode, length, data).len() == length + 1);
    }
}

/// A cycle joins those that have been gathered whenever one command can clock all of them: no
/// command is cut short, and none carries too much.
pub proof fn law_cycles_join_whenever_they_can(bits: Seq<JtagBit>, next: JtagBit)
    requires
        is_run(bits),
    ensures
        joins(bits, next) <==> one_command_clocks(bits.push(next)),
{
    let all = bits.push(next);
    law_runs_are_what_one_command_clocks(all);
    if joins(bits, next) {
        assert forall|i: int| 0 <= i < all.len() implies (#[trigger] all[i]).tdi == all[0].tdi
            && all[i].capture == all[0].capture by {
            if i < bits.len() {
                assert(all[i] == bits[i]);
            }
        }
    }
    if is_run(all) && bits.len() > 0 {
        assert(all[bits.len() as int] == next);
        assert(all[0] == bits[0]);
    }
}

/// A command of any cycles is three bytes: an opcode that tells whether TDO is read, the number
/// of cycles less one, and a byte with the level of TMS during cycle `i` in bit `i`, with nothing
/// above these levels, and with the level of TDI on top. The reply to it is one byte with a bit
/// for each cycle if TDO is read, else nothing. No cycles are no bytes, and have no reply.
pub proof fn law_command_bit_by_bit(bits: Seq<JtagBit>)
    requires
        is_run(bits),
    ensures
        bits.len() == 0 ==> encoding(bits).len() == 0 && reply_lengths(bits).len() == 0,
        bits.len() > 0 ==> {
            let bytes = encoding(bits);
            &&& bytes.len() == 3
            &&& bytes[0] == if bits[0].capture { 0x6bu8 } else { 0x4bu8 }
            &&& bytes[1] + 1 == bits.len()
            &&& forall|i: u8|
                i < 7 ==> (#[trigger] (bytes[2] >> i) & 1u8 == 1u8 <==> i < bits.len()
                    && bits[i as int].tms)
            &&& (bytes[2] >> 7u8) & 1u8 == 1u8 <==> bits[0].tdi
            &&& bits[0].capture ==> reply_lengths(bits) == seq![bits.len() as usize]
            &&& !bits[0].capture ==> reply_lengths(bits).len() == 0
        },
{
    if bits.len() > 0 {
        let tms = tms_byte(bits);
        let tdi = bits[0].tdi;
        let data = encoding(bits)[2];
        let n = bits.len() as u8;
        lemma_tms_byte(bits);
        assert((data >> 7u8) & 1u8 == if tdi { 1u8 } else { 0u8 }) by (bit_vector)
            requires
                n <= 7,
                tms < (1u8 << n),
                data == tms | if tdi { 0x80u8 } else { 0u8 },
        ;
        assert forall|i: u8| i < 7 implies (#[trigger] (data >> i) & 1u8 == 1u8 <==> i < bits.len()
            && bits[i as int].tms) by {
            assert((data >> i) & 1u8 == (tms >> i) & 1u8 && (n <= i ==> (tms >> i) & 1u8 == 0))
                by (bit_vector)
                requires
                    i < 7,
                    n <= 7,
                    tms < (1u8 << n),
                    data == tms | if tdi { 0x80u8 } else { 0u8 },
            ;
            if i < bits.len() {
                assert(bit(tms, i as int) == bits[i as int].tms);
            }
        }
    }
}

/// The register into which the MPSSE shifts what it samples: everything moves down by one, and
/// the new level comes in at the top.
pub open spec fn shifted_in(register: u8, levels: Seq<bool>) -> u8
    decreases levels.len(),
{
    if levels.len() == 0 {
        register
    } else {
        (shifted_in(register, levels.drop_last()) >> 1u8) | if levels.last() {
            0x80u8
        } else {
            0u8
        }
    }
}

/// The levels that have been shifted in sit at the top.
proof fn lemma_shifted_in(register: u8, levels: Seq<bool>, j: int)
    requires
        0 <= j < levels.len() <= 8,
    ensures
        bit(shifted_in(register, levels), 8 - levels.len() + j) == levels[j],
    decreases levels.len(),
{
    let before = shifted_in(register, levels.drop_last());
    let last = levels.last();
    let after = shifted_in(register, levels);
    let place = (8 - levels.len() + j) as u8;
    if j < levels.len() - 1 {
        lemma_shifted_in(register, levels.drop_last(), j);
        assert((after >> place) & 1u8 == (before >> ((place + 1) as u8)) & 1u8) by (bit_vector)
            requires
                place < 7,
                after == (before >> 1u8) | if last { 0x80u8 } else { 0u8 },
        ;
    } else {
        assert((after >> 7u8) & 1u8 == if last { 1u8 } else { 0u8 }) by (bit_vector)
            requires
                after == (before >> 1u8) | if last { 0x80u8 } else { 0u8 },
        ;
    }
}

/// Whatever levels are sampled, and whatever was in the register before, the levels come back out
/// of the reply, in order.
pub proof fn law_samples_come_back(register: u8, levels: Seq<bool>)
    requires
        levels.len() <= 8,
    ensures
        reply_bits(shifted_in(register, levels), levels.len() as usize) == levels,
{
    let count = levels.len() as usize;
    let byte = shifted_in(register, levels);
    assert forall|j: int| 0 <= j < levels.len() implies reply_bits(byte, count)[j] == levels[j] by {
        lemma_shifted_in(register, levels, j);
    }
    assert(reply_bits(byte, count) =~= levels);
}

/// The value of a sequence of decimal digits.
pub open spec fn value(text: Seq<char>) -> int
    decreases text.len(),
{
    if text.len() == 0 {
        0
    } else {
        value(text.drop_last()) * 10 + (text.last() as int - '0' as int)
    }
}

/// Whether a text is how a number is written: in digits, without leading zeros.
pub open spec fn writes(text: Seq<char>, n: nat) -> bool {
    &&& value(text) == n
    &&& text.len() > 0
    &&& forall|i: int| 0 <= i < text.len() ==> '0' <= #[trigger] text[i] <= '9'
    &&& text.len() > 1 ==> text[0] != '0'
}

/// A number in decimal is how that number is written.
pub proof fn law_decimal_writes_the_number(n: nat)
    ensures
        writes(decimal(n), n),
    decreases n,
{
    reveal_with_fuel(value, 2);
    let text = decimal(n);
    if n < 10 {
        assert(text.drop_last() =~= Seq::<char>::empty());
    } else {
        let head = decimal(n / 10);
        law_decimal_writes_the_number(n / 10);
        assert(text.drop_last() =~= head);
        assert forall|i: int| 0 <= i < text.len() implies '0' <= #[trigger] text[i] <= '9' by {
            if i < head.len() {
                assert(text[i] == head[i]);
            }
        }
        if head.len() == 1 {
            assert(head =~= seq![head[0]]);
            assert(head.drop_last() =~= Seq::<char>::empty());
            assert(value(head) == head[0] as int - '0' as int);
        }
        assert(text[0] == head[0]);
    }
}

/// The message for a response that is too long tells how many bytes were expected, and how many
/// came.
pub proof fn law_overrun_text_tells_both_numbers(expected: nat, got: nat) -> (numbers: (
    Seq<char>,
    Seq<char>,
))
    ensures
        writes(numbers.0, expected),
        writes(numbers.1, got),
        overrun_text(expected, got) == "Read more data than expected. Expected "@ + numbers.0
            + " bytes, got "@ + numbers.1 + " bytes"@,
{
    law_decimal_writes_the_number(expected);
    law_decimal_writes_the_number(got);
    (decimal(expected), decimal(got))
}

} // verus!
