use ftdaye::command_compacter::Command;

fn encoded(command: &Command) -> Vec<u8> {
    let mut out = Vec::new();
    command.encode(&mut out);
    assert_eq!(out.len(), command.len());
    out
}

#[test]
fn an_empty_command_is_nothing() {
    let mut command = Command::default();
    let mut counts = vec![5];
    command.add_captured_bits(&mut counts);
    assert_eq!(counts, vec![5]);
    assert_eq!(command.len(), 0);
    assert_eq!(encoded(&command), Vec::<u8>::new());
    assert!(command.take().is_none());
}

#[test]
fn cycles_are_gathered_lsb_first() {
    let mut command = Command::default();
    for tms in [true, false, true, true] {
        assert!(command.append_jtag_bit(tms, false, false).is_none());
    }
    assert_eq!(encoded(&command), vec![0x4b, 3, 0b0000_1101]);
    let mut counts = vec![];
    command.add_captured_bits(&mut counts);
    assert!(counts.is_empty());
}

#[test]
fn tdi_is_the_top_bit_and_sampling_has_its_own_opcode() {
    let mut command = Command::default();
    assert!(command.append_jtag_bit(false, true, true).is_none());
    assert!(command.append_jtag_bit(true, true, true).is_none());
    assert_eq!(encoded(&command), vec![0x6b, 1, 0b1000_0010]);
    let mut counts = vec![];
    command.add_captured_bits(&mut counts);
    assert_eq!(counts, vec![2]);
}

#[test]
fn the_eighth_cycle_starts_a_new_command() {
    let mut command = Command::default();
    for _ in 0..7 {
        assert!(command.append_jtag_bit(true, false, false).is_none());
    }
    let complete = command.append_jtag_bit(true, false, false).unwrap();
    assert_eq!(encoded(&complete), vec![0x4b, 6, 0x7f]);
    assert_eq!(encoded(&command), vec![0x4b, 0, 0x01]);
}

#[test]
fn a_change_of_tdi_or_of_sampling_starts_a_new_command() {
    let mut command = Command::default();
    assert!(command.append_jtag_bit(false, false, false).is_none());
    let complete = command.append_jtag_bit(false, true, false).unwrap();
    assert_eq!(encoded(&complete), vec![0x4b, 0, 0x00]);
    let complete = command.append_jtag_bit(false, true, true).unwrap();
    assert_eq!(encoded(&complete), vec![0x4b, 0, 0x80]);
    let taken = command.take().unwrap();
    assert_eq!(encoded(&taken), vec![0x6b, 0, 0x80]);
    assert_eq!(command.len(), 0);
}

#[test]
fn encoding_appends() {
    let mut command = Command::default();
    assert!(command.append_jtag_bit(true, false, false).is_none());
    let mut out = vec![0x87];
    command.encode(&mut out);
    assert_eq!(out, vec![0x87, 0x4b, 0, 1]);
}
