//! Packing single JTAG clock cycles into MPSSE commands.
//!
//! Every cycle drives TMS and TDI and may sample TDO. The MPSSE can clock up to seven TMS bits
//! with one command, as long as TDI keeps its level and all of them are sampled, or none. A
//! [`Command`] gathers such a run of cycles and knows how to write itself out. The command bytes
//! are those of FTDI's application note AN_108, "Command Processor for MPSSE and MCU Host Bus
//! Emulation Modes".

use vstd::prelude::*;

verus! {

/// The most clock cycles that one command can carry.
pub const MAX_BITS: usize = 7;

/// Clock data to TMS, LSB first, without reading TDO.
pub const CLOCK_TMS: u8 = 0x4b;

/// Clock data to TMS, LSB first, and read TDO back.
pub const CLOCK_TMS_CAPTURE: u8 = 0x6b;

/// Send Immediate: the chip flushes its buffer back to the host.
pub const SEND_IMMEDIATE: u8 = 0x87;

/// One JTAG clock cycle.
#[derive(Clone, Copy, Debug, PartialEq, Eq, Structural)]
pub struct JtagBit {
    /// The level of TMS during the cycle.
    pub tms: bool,
    /// The level of TDI during the cycle.
    pub tdi: bool,
    /// Whether TDO is sampled.
    pub capture: bool,
}

/// Bit `i` of a byte, counted from the least significant one.
pub open spec fn bit(byte: u8, i: int) -> bool {
    (byte >> (i as u8)) & 1u8 == 1u8
}

/// The byte whose bit `i` is the TMS level of cycle `i`, and whose other bits are clear.
pub open spec fn tms_byte(bits: Seq<JtagBit>) -> u8
    decreases bits.len(),
{
    if bits.len() == 0 {
        0
    } else if bits.last().tms {
        tms_byte(bits.drop_last()) | (1u8 << ((bits.len() - 1) as u8))
    } else {
        tms_byte(bits.drop_last())
    }
}

/// The bytes of the command that clocks `bits`: nothing at all for no cycles, else the opcode,
/// the number of cycles less one, and the TMS levels with the level of TDI above them.
pub open spec fn encoding(bits: Seq<JtagBit>) -> Seq<u8> {
    if bits.len() == 0 {
        seq![]
    } else {
        seq![
            if bits[0].capture { CLOCK_TMS_CAPTURE } else { CLOCK_TMS },
            (bits.len() - 1) as u8,
            tms_byte(bits) | if bits[0].tdi { 0x80u8 } else { 0u8 },
        ]
    }
}

/// The lengths of the replies that the command for `bits` gives rise to: one reply with one bit
/// for each cycle if TDO is sampled, else none.
pub open spec fn reply_lengths(bits: Seq<JtagBit>) -> Seq<usize> {
    if bits.len() > 0 && bits[0].capture {
        seq![bits.len() as usize]
    } else {
        seq![]
    }
}

/// Whether one command can clock these cycles: there are not too many of them, TDI keeps its
/// level, and either all of them are sampled or none is.
pub open spec fn is_run(bits: Seq<JtagBit>) -> bool {
    &&& bits.len() <= MAX_BITS
    &&& forall|i: int|
        0 <= i < bits.len() ==> (#[trigger] bits[i]).tdi == bits[0].tdi && bits[i].capture
            == bits[0].capture
}

/// Whether a cycle still fits into the command that clocks `bits`.
pub open spec fn joins(bits: Seq<JtagBit>, next: JtagBit) -> bool {
    bits.len() == 0 || (bits.len() < MAX_BITS && bits[0].tdi == next.tdi && bits[0].capture
        == next.capture)
}

/// A run of JTAG clock cycles that one MPSSE command carries out. Its view is the cycles.
#[derive(Clone, Copy, Debug)]
pub struct Command {
    bit_count: usize,
    tms_bits: u8,
    tdi: bool,
    capture: bool,
}

impl View for Command {
    type V = Seq<JtagBit>;

    closed spec fn view(&self) -> Seq<JtagBit> {
        Seq::new(
            self.bit_count as nat,
            |i: int| JtagBit { tms: bit(self.tms_bits, i), tdi: self.tdi, capture: self.capture },
        )
    }
}

impl Command {
    /// The number of cycles is in range and the TMS bits above them are clear.
    pub closed spec fn wf(&self) -> bool {
        &&& self.bit_count <= MAX_BITS
        &&& self.tms_bits < (1u8 << (self.bit_count as u8))
        &&& self.tms_bits == tms_byte(self@)
    }

    /// Adds a clock cycle. Where it does not fit, the gathered run is complete and handed out,
    /// and a new one starts with the cycle.
    pub fn append_jtag_bit(&mut self, tms: bool, tdi: bool, capture: bool) -> (complete: Option<
        Command,
    >)
        requires
            old(self).wf(),
        ensures
            final(self).wf(),
            joins(old(self)@, JtagBit { tms, tdi, capture }) ==> complete is None && final(self)@
                == old(self)@.push(JtagBit { tms, tdi, capture }),
            !joins(old(self)@, JtagBit { tms, tdi, capture }) ==> {
                &&& complete matches Some(run) && run.wf() && run@ == old(self)@
                &&& final(self)@ == seq![JtagBit { tms, tdi, capture }]
            },
    {
        if self.bit_count == 0 {
            *self = Self::single(tms, tdi, capture);
            None
        } else if self.bit_count < MAX_BITS && self.tdi == tdi && self.capture == capture {
            let n: u8 = self.bit_count as u8;
            let tms_bits: u8 = if tms { self.tms_bits | (1u8 << n) } else { self.tms_bits };
            proof {
                let before = self.tms_bits;
                assert(tms_bits < (1u8 << ((n + 1) as u8))) by (bit_vector)
                    requires
                        n < 7,
                        before < (1u8 << n),
                        tms_bits == before || tms_bits == before | (1u8 << n),
                ;
                assert((tms_bits >> n) & 1u8 == if tms { 1u8 } else { 0u8 }) by (bit_vector)
                    requires
                        n < 7,
                        before < (1u8 << n),
                        tms_bits == if tms { before | (1u8 << n) } else { before },
                ;
                assert forall|i: int| 0 <= i < n implies bit(tms_bits, i) == bit(before, i) by {
                    let k = i as u8;
                    assert((before | (1u8 << n)) >> k & 1u8 == before >> k & 1u8) by (bit_vector)
                        requires
                            k < n < 7,
                    ;
                }
            }
            let ghost joined = self@.push(JtagBit { tms, tdi, capture });
            *self = Command { bit_count: self.bit_count + 1, tms_bits, tdi, capture };
            assert(self@ =~= joined);
            assert(joined.drop_last() =~= old(self)@);
            None
        } else {
            let complete = *self;
            *self = Self::single(tms, tdi, capture);
            Some(complete)
        }
    }

    /// The command that clocks one cycle.
    fn single(tms: bool, tdi: bool, capture: bool) -> (command: Command)
        ensures
            command.wf(),
            command@ == seq![JtagBit { tms, tdi, capture }],
    {
        let command = Command {
            bit_count: 1,
            tms_bits: if tms { 1u8 } else { 0u8 },
            tdi,
            capture,
        };
        proof {
            assert((1u8 >> 0u8) & 1u8 == 1u8) by (bit_vector);
            assert((0u8 >> 0u8) & 1u8 == 0u8) by (bit_vector);
            assert(1u8 << 1u8 == 2u8) by (bit_vector);
            assert(0u8 | (1u8 << 0u8) == 1u8) by (bit_vector);
            assert(command@ =~= seq![JtagBit { tms, tdi, capture }]);
            assert(command@.drop_last() =~= Seq::<JtagBit>::empty());
            reveal_with_fuel(tms_byte, 2);
        }
        command
    }

    /// Hands the gathered run out, if there is any, and starts over with none.
    pub fn take(&mut self) -> (taken: Option<Command>)
        requires
            old(self).wf(),
        ensures
            final(self).wf(),
            final(self)@ == Seq::<JtagBit>::empty(),
            old(self)@.len() == 0 ==> taken is None,
            old(self)@.len() > 0 ==> (taken matches Some(run) && run.wf() && run@ == old(self)@),
    {
        if self.bit_count == 0 {
            assert(self@ =~= Seq::<JtagBit>::empty());
            None
        } else {
            let taken = *self;
            *self = Self::default();
            Some(taken)
        }
    }

    /// The number of bytes that [`Command::encode`] writes.
    pub fn len(&self) -> (len: usize)
        requires
            self.wf(),
        ensures
            len == encoding(self@).len(),
    {
        if self.bit_count == 0 {
            0
        } else {
            3
        }
    }

    /// Adds the lengths of the replies that this command gives rise to.
    pub fn add_captured_bits(&self, in_bit_counts: &mut Vec<usize>)
        requires
            self.wf(),
        ensures
            final(in_bit_counts)@ == old(in_bit_counts)@ + reply_lengths(self@),
    {
        if self.bit_count > 0 && self.capture {
            in_bit_counts.push(self.bit_count);
        }
        assert(in_bit_counts@ =~= old(in_bit_counts)@ + reply_lengths(self@));
    }

    /// Appends the bytes of this command.
    pub fn encode(&self, out: &mut Vec<u8>)
        requires
            self.wf(),
        ensures
            final(out)@ == old(out)@ + encoding(self@),
    {
        if self.bit_count > 0 {
            out.push(if self.capture { CLOCK_TMS_CAPTURE } else { CLOCK_TMS });
            out.push((self.bit_count - 1) as u8);
            out.push(self.tms_bits | if self.tdi { 0x80u8 } else { 0u8 });
        }
        assert(out@ =~= old(out)@ + encoding(self@));
    }

    /// One command can clock the cycles that a command has gathered.
    pub proof fn lemma_is_run(&self)
        requires
            self.wf(),
        ensures
            is_run(self@),
    {
    }
}

impl Default for Command {
    /// The command with no cycles.
    fn default() -> (command: Self)
        ensures
            command.wf(),
            command@ == Seq::<JtagBit>::empty(),
    {
        let command = Command { bit_count: 0, tms_bits: 0, tdi: false, capture: false };
        proof {
            assert(1u8 << 0u8 == 1u8) by (bit_vector);
            assert(command@ =~= Seq::<JtagBit>::empty());
        }
        command
    }
}

} // verus!
