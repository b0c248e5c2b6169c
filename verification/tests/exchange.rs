use ftdaye::command_compacter::Command;
use ftdaye::ftdaye::ChipType;
use ftdaye::{
    CapturedBits, FtdiDevice, JtagAdapter, JtagProbeError, OpenedDevice, Reading, Sending, Step,
};

const MS: u128 = 1_000_000;

fn adapter() -> JtagAdapter {
    let ftdi = FtdiDevice { id: (0x0403, 0x6010), fallback_chip_type: ChipType::FT2232C };
    let device = OpenedDevice {
        vendor_id: 0x0403,
        product_id: 0x6010,
        product_string: None,
        chip_type: None,
    };
    JtagAdapter::open(ftdi, device).unwrap()
}

fn stalled() -> std::io::Error {
    std::io::Error::new(std::io::ErrorKind::Other, "stalled")
}

fn done(step: Step) {
    assert!(matches!(step, Step::Done), "{:?}", step);
}

fn send(step: Step) -> Sending {
    match step {
        Step::Send(sending) => sending,
        other => panic!("{:?}", other),
    }
}

fn receive(step: Step) -> Reading {
    match step {
        Step::Receive(reading) => reading,
        other => panic!("{:?}", other),
    }
}

fn captured(step: Step) -> CapturedBits {
    match step {
        Step::Captured(bits) => bits,
        other => panic!("{:?}", other),
    }
}

fn failed(step: Step) -> JtagProbeError {
    match step {
        Step::Failed(error) => error,
        other => panic!("{:?}", other),
    }
}

/// Shifts three sampled cycles and starts reading the response.
fn reading_three(adapter: &mut JtagAdapter) -> Reading {
    for tms in [true, false, true] {
        done(adapter.shift_bit(tms, false, true));
    }
    let sending = send(adapter.flush());
    assert_eq!(adapter.outgoing(), &[0x6b, 2, 0b101, 0x87]);
    let reading = receive(adapter.sent(sending, Ok(())));
    assert!(adapter.outgoing().is_empty());
    reading
}

#[test]
fn nothing_to_do_is_done_at_once() {
    let mut adapter = adapter();
    done(adapter.flush());
    done(adapter.send_buffer());
    done(adapter.read_response());
    done(adapter.finalize_command());
    assert_eq!(captured(adapter.read_captured_bits()).to_vec(), Vec::<bool>::new());
}

#[test]
fn a_response_holds_its_bits_at_the_top() {
    let mut adapter = adapter();
    let reading = reading_three(&mut adapter);
    done(adapter.received(reading, Ok(vec![0b0110_1111]), 0, 0));
    let bits = captured(adapter.read_captured_bits());
    assert_eq!(bits.to_vec(), vec![true, true, false]);
    assert_eq!(bits.len(), 3);
}

#[test]
fn captured_bits_are_handed_out_once_and_in_order() {
    let mut adapter = adapter();
    let reading = reading_three(&mut adapter);
    done(adapter.received(reading, Ok(vec![0b0010_0000]), 0, 0));
    let reading = reading_three(&mut adapter);
    done(adapter.received(reading, Ok(vec![0b1100_0000]), 0, 0));
    let bits = captured(adapter.read_captured_bits());
    assert_eq!(bits.to_vec(), vec![true, false, false, false, true, true]);
    assert!(captured(adapter.read_captured_bits()).to_vec().is_empty());
}

#[test]
fn reading_captured_bits_flushes_first() {
    let mut adapter = adapter();
    done(adapter.shift_bit(false, true, true));
    done(adapter.shift_bit(false, false, true));
    let sending = send(adapter.read_captured_bits());
    assert_eq!(adapter.outgoing(), &[0x6b, 0, 0x80, 0x6b, 0, 0x00, 0x87]);
    let reading = receive(adapter.sent(sending, Ok(())));
    let bits = captured(adapter.received(reading, Ok(vec![0x80, 0x7f]), 0, 0));
    assert_eq!(bits.to_vec(), vec![true, false]);
}

#[test]
fn cycles_that_are_not_sampled_have_no_response() {
    let mut adapter = adapter();
    done(adapter.shift_bit(true, false, false));
    let sending = send(adapter.flush());
    assert_eq!(adapter.outgoing(), &[0x4b, 0, 1, 0x87]);
    done(adapter.sent(sending, Ok(())));
    assert!(adapter.outgoing().is_empty());
}

#[test]
fn finalizing_moves_the_command_into_the_buffer() {
    let mut adapter = adapter();
    done(adapter.shift_bit(true, true, false));
    assert!(adapter.outgoing().is_empty());
    done(adapter.finalize_command());
    assert_eq!(adapter.outgoing(), &[0x4b, 0, 0x81]);
    done(adapter.finalize_command());
    assert_eq!(adapter.outgoing(), &[0x4b, 0, 0x81]);
}

#[test]
fn sending_alone_leaves_the_response_to_be_read() {
    let mut adapter = adapter();
    done(adapter.shift_bit(true, false, true));
    done(adapter.finalize_command());
    let sending = send(adapter.send_buffer());
    done(adapter.sent(sending, Ok(())));
    let reading = receive(adapter.read_response());
    done(adapter.received(reading, Ok(vec![0x80]), 0, 0));
    done(adapter.read_response());
    assert_eq!(captured(adapter.read_captured_bits()).to_vec(), vec![true]);
}

#[test]
fn a_response_may_come_in_pieces() {
    let mut adapter = adapter();
    done(adapter.shift_bit(false, false, true));
    done(adapter.shift_bit(false, true, true));
    done(adapter.shift_bit(false, false, true));
    let sending = send(adapter.flush());
    let reading = receive(adapter.sent(sending, Ok(())));
    let reading = receive(adapter.received(reading, Ok(vec![]), 2 * MS, 2 * MS));
    let reading = receive(adapter.received(reading, Ok(vec![0x80]), 9 * MS, 9 * MS));
    // The clock starts anew with every piece.
    let reading = receive(adapter.received(reading, Ok(vec![]), 19 * MS, 19 * MS));
    done(adapter.received(reading, Ok(vec![0x00, 0x80]), 19 * MS, 20 * MS));
    let bits = captured(adapter.read_captured_bits());
    assert_eq!(bits.to_vec(), vec![true, false, true]);
}

#[test]
fn a_silent_device_times_out() {
    let mut adapter = adapter();
    let reading = reading_three(&mut adapter);
    let reading = receive(adapter.received(reading, Ok(vec![]), 10 * MS, 10 * MS));
    let step = adapter.received(reading, Ok(vec![]), 10 * MS, 10 * MS + 1);
    assert!(matches!(failed(step), JtagProbeError::Timeout));
    // The response is still due.
    let reading = receive(adapter.read_response());
    done(adapter.received(reading, Ok(vec![0]), 0, 0));
}

#[test]
fn a_clock_that_runs_backwards_does_not_time_out() {
    let mut adapter = adapter();
    let reading = reading_three(&mut adapter);
    done(adapter.received(reading, Ok(vec![0]), 50 * MS, 20 * MS));
}

#[test]
fn a_response_that_is_too_long_is_an_error() {
    let mut adapter = adapter();
    let reading = reading_three(&mut adapter);
    match failed(adapter.received(reading, Ok(vec![0; 12]), 0, 0)) {
        JtagProbeError::Other(text) => assert_eq!(
            text,
            "Read more data than expected. Expected 1 bytes, got 12 bytes"
        ),
        other => panic!("{:?}", other),
    }
    assert!(matches!(adapter.read_response(), Step::Receive(_)));
}

#[test]
fn a_failed_read_is_a_usb_error() {
    let mut adapter = adapter();
    let reading = reading_three(&mut adapter);
    let step = adapter.received(reading, Err(stalled()), 0, 0);
    assert!(matches!(failed(step), JtagProbeError::Usb(_)));
    assert!(matches!(adapter.read_response(), Step::Receive(_)));
}

#[test]
fn a_failed_write_keeps_the_buffer() {
    let mut adapter = adapter();
    done(adapter.shift_bit(true, false, false));
    let sending = send(adapter.flush());
    assert!(matches!(failed(adapter.sent(sending, Err(stalled()))), JtagProbeError::Usb(_)));
    assert_eq!(adapter.outgoing(), &[0x4b, 0, 1, 0x87]);
    let sending = send(adapter.send_buffer());
    assert_eq!(adapter.outgoing(), &[0x4b, 0, 1, 0x87, 0x87]);
    done(adapter.sent(sending, Ok(())));
}

#[test]
fn a_full_buffer_is_sent_before_the_next_command() {
    // Every command takes 3 of the 128 bytes, and one byte is for Send Immediate.
    let mut adapter = adapter();
    for i in 0..43 {
        done(adapter.shift_bit(false, i % 2 == 0, true));
    }
    assert_eq!(adapter.outgoing().len(), 42 * 3);
    // The 43rd command does not fit any more.
    let sending = send(adapter.shift_bit(true, false, true));
    assert_eq!(adapter.outgoing().len(), 42 * 3 + 1);
    assert!(adapter.outgoing().len() <= 128);
    let reading = receive(adapter.sent(sending, Ok(())));
    done(adapter.received(reading, Ok(vec![0x80; 42]), 0, 0));
    assert_eq!(adapter.outgoing(), &[0x6b, 0, 0x80]);

    // The rest follows with the flush.
    let sending = send(adapter.read_captured_bits());
    assert_eq!(adapter.outgoing(), &[0x6b, 0, 0x80, 0x6b, 0, 0x01, 0x87]);
    let reading = receive(adapter.sent(sending, Ok(())));
    let bits = captured(adapter.received(reading, Ok(vec![0x00, 0x80]), 0, 0)).to_vec();
    let mut expected = vec![true; 42];
    expected.push(false);
    expected.push(true);
    assert_eq!(bits, expected);
}

#[test]
fn a_flush_of_a_full_buffer_takes_two_turns() {
    let mut adapter = adapter();
    for i in 0..43 {
        done(adapter.shift_bit(false, i % 2 == 0, true));
    }
    let sending = send(adapter.flush());
    assert_eq!(adapter.outgoing().len(), 42 * 3 + 1);
    let reading = receive(adapter.sent(sending, Ok(())));
    let sending = send(adapter.received(reading, Ok(vec![0x00; 42]), 0, 0));
    assert_eq!(adapter.outgoing(), &[0x6b, 0, 0x80, 0x87]);
    let reading = receive(adapter.sent(sending, Ok(())));
    done(adapter.received(reading, Ok(vec![0x80]), 0, 0));
    assert!(adapter.outgoing().is_empty());
    let bits = captured(adapter.read_captured_bits()).to_vec();
    assert_eq!(bits.len(), 43);
    assert!(bits[42]);
}

#[test]
fn a_command_is_lost_with_the_send_that_was_to_make_room_for_it() {
    let mut adapter = adapter();
    for i in 0..43 {
        done(adapter.shift_bit(false, i % 2 == 0, false));
    }
    let sending = send(adapter.shift_bit(true, false, false));
    assert!(matches!(failed(adapter.sent(sending, Err(stalled()))), JtagProbeError::Usb(_)));
    assert_eq!(adapter.outgoing().len(), 42 * 3 + 1);
    let sending = send(adapter.send_buffer());
    done(adapter.sent(sending, Ok(())));
    done(adapter.finalize_command());
    assert_eq!(adapter.outgoing(), &[0x4b, 0, 0x01]);
}

#[test]
fn commands_can_be_appended_as_they_are() {
    let mut adapter = adapter();
    let mut command = Command::default();
    for _ in 0..7 {
        assert!(command.append_jtag_bit(true, false, true).is_none());
    }
    done(adapter.append_command(command));
    assert_eq!(adapter.outgoing(), &[0x6b, 6, 0x7f]);
    let sending = send(adapter.flush());
    let reading = receive(adapter.sent(sending, Ok(())));
    done(adapter.received(reading, Ok(vec![0b1010_0101]), 0, 0));
    let bits = captured(adapter.read_captured_bits()).to_vec();
    assert_eq!(bits, vec![false, true, false, false, true, false, true]);
}

#[test]
fn new_captured_bits_are_empty() {
    let bits = CapturedBits::new();
    assert_eq!(bits.len(), 0);
    assert!(bits.to_vec().is_empty());
}

#[test]
fn completing_a_response_can_be_foreseen() {
    let mut adapter = adapter();
    done(adapter.shift_bit(false, false, true));
    done(adapter.shift_bit(false, true, true));
    let sending = send(adapter.flush());
    let reading = receive(adapter.sent(sending, Ok(())));
    assert_eq!(adapter.response_len(), 2);
    assert_eq!(reading.len(), 0);
    assert!(adapter.completes(&reading, &Ok(vec![1, 2]), 0, 0));
    assert!(!adapter.completes(&reading, &Ok(vec![1]), 0, 0));
    assert!(!adapter.completes(&reading, &Ok(vec![1, 2, 3]), 0, 0));
    assert!(!adapter.completes(&reading, &Err(stalled()), 0, 0));
    assert!(adapter.completes(&reading, &Ok(vec![1, 2]), 5 * MS, 15 * MS));
    assert!(!adapter.completes(&reading, &Ok(vec![1, 2]), 5 * MS, 15 * MS + 1));
    let reading = receive(adapter.received(reading, Ok(vec![1]), 0, 0));
    assert_eq!(reading.len(), 1);
    assert!(adapter.completes(&reading, &Ok(vec![2]), 0, 0));
}

#[test]
fn a_flush_is_finalize_send_and_read_in_turn() {
    let fill = |adapter: &mut JtagAdapter| {
        for i in 0..3 {
            done(adapter.shift_bit(true, i % 2 == 0, true));
        }
    };
    let mut at_once = adapter();
    fill(&mut at_once);
    let sending = send(at_once.flush());
    let sent = at_once.outgoing().to_vec();
    let reading = receive(at_once.sent(sending, Ok(())));
    done(at_once.received(reading, Ok(vec![0x80, 0x00, 0x80]), 0, 0));

    let mut in_turn = adapter();
    fill(&mut in_turn);
    done(in_turn.finalize_command());
    let sending = send(in_turn.send_buffer());
    assert_eq!(in_turn.outgoing(), sent);
    done(in_turn.sent(sending, Ok(())));
    let reading = receive(in_turn.read_response());
    done(in_turn.received(reading, Ok(vec![0x80, 0x00, 0x80]), 0, 0));

    let bits = captured(at_once.read_captured_bits()).to_vec();
    assert_eq!(bits, vec![true, false, true]);
    assert_eq!(captured(in_turn.read_captured_bits()).to_vec(), bits);
}

#[test]
fn an_appended_command_goes_before_the_gathered_cycles() {
    let mut adapter = adapter();
    done(adapter.shift_bit(true, false, false));
    let mut command = Command::default();
    assert!(command.append_jtag_bit(false, true, false).is_none());
    done(adapter.append_command(command));
    done(adapter.finalize_command());
    assert_eq!(adapter.outgoing(), &[0x4b, 0, 0x80, 0x4b, 0, 0x01]);
}
