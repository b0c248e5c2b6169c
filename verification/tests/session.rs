use ftdaye::ftdaye::ChipType;
use ftdaye::{FtdiDevice, JtagAdapter, OpenedDevice, Step};

/// A chip whose TDO is high in every third cycle.
struct Chip {
    cycles: Vec<(bool, bool, bool)>,
    expected: Vec<bool>,
    largest: usize,
}

impl Chip {
    fn new() -> Self {
        Chip { cycles: vec![], expected: vec![], largest: 0 }
    }

    /// Carries out a buffer and returns the reply.
    fn exchange(&mut self, buffer: &[u8]) -> Vec<u8> {
        self.largest = self.largest.max(buffer.len());
        let mut reply = vec![];
        let mut rest = buffer;
        while !rest.is_empty() {
            if rest[0] == 0x87 {
                rest = &rest[1..];
                continue;
            }
            let capture = match rest[0] {
                0x4b => false,
                0x6b => true,
                other => panic!("{:x}", other),
            };
            assert!(rest[1] <= 6);
            let mut shifted_in: u8 = 0;
            for i in 0..=rest[1] {
                let tdo = self.cycles.len() % 3 == 0;
                shifted_in = (shifted_in >> 1) | ((tdo as u8) << 7);
                if capture {
                    self.expected.push(tdo);
                }
                self.cycles.push((rest[2] >> i & 1 == 1, rest[2] >> 7 == 1, capture));
            }
            if capture {
                reply.push(shifted_in);
            }
            rest = &rest[3..];
        }
        reply
    }
}

fn run(adapter: &mut JtagAdapter, chip: &mut Chip, mut step: Step) -> Vec<bool> {
    let mut reply = vec![];
    let mut reads: usize = 0;
    loop {
        step = match step {
            Step::Done => return vec![],
            Step::Captured(bits) => return bits.to_vec(),
            Step::Failed(error) => panic!("{:?}", error),
            Step::Send(sending) => {
                reply = chip.exchange(adapter.outgoing());
                adapter.sent(sending, Ok(()))
            }
            Step::Receive(reading) => {
                assert!(adapter.response_fits());
                // Every other read brings nothing, the others bring a few bytes.
                reads += 1;
                let count = if reads % 2 == 0 { 0 } else { reply.len().min(reads % 5 + 1) };
                let rest = reply.split_off(count);
                let data = std::mem::replace(&mut reply, rest);
                adapter.received(reading, Ok(data), 0, 0)
            }
        };
    }
}

fn session(chip_type: ChipType, buffer_size: usize) {
    let ftdi = FtdiDevice { id: (0x0403, 0x6010), fallback_chip_type: chip_type };
    let device = OpenedDevice {
        vendor_id: 0x0403,
        product_id: 0x6010,
        product_string: None,
        chip_type: Some(chip_type),
    };
    let mut adapter = JtagAdapter::open(ftdi, device).unwrap();
    let mut chip = Chip::new();
    let mut shifted = vec![];
    let mut noise: u32 = 1;
    for _ in 0..5000 {
        noise = noise.wrapping_mul(1664525).wrapping_add(1013904223);
        let bit = (noise >> 31 == 1, noise >> 29 & 3 == 3, noise >> 26 & 7 != 7);
        shifted.push(bit);
        let step = adapter.shift_bit(bit.0, bit.1, bit.2);
        assert!(run(&mut adapter, &mut chip, step).is_empty());
        if noise >> 20 & 63 == 0 {
            let step = adapter.finalize_command();
            assert!(run(&mut adapter, &mut chip, step).is_empty());
        }
        if noise >> 14 & 63 == 0 {
            let step = adapter.flush();
            assert!(run(&mut adapter, &mut chip, step).is_empty());
        }
    }
    let step = adapter.read_captured_bits();
    let captured = run(&mut adapter, &mut chip, step);
    assert_eq!(chip.cycles, shifted);
    assert_eq!(captured, chip.expected);
    assert_eq!(captured.len(), shifted.iter().filter(|bit| bit.2).count());
    assert!(chip.largest <= buffer_size);
    assert!(adapter.outgoing().is_empty());
}

#[test]
fn a_session_with_a_small_buffer() {
    session(ChipType::FT2232C, 128);
}

#[test]
fn a_session_with_a_large_buffer() {
    session(ChipType::FT4232H, 4096);
}
