use ftdaye::ftdaye::error::FtdiError;
use ftdaye::ftdaye::ChipType;
use ftdaye::{
    DeviceAction, FtdiDevice, FtdiProbeFactory, FtdiProperties, JtagAdapter, JtagProbeError,
    OpenedDevice, SetupStep,
};

fn ftdi(fallback_chip_type: ChipType) -> FtdiDevice {
    FtdiDevice { id: (0x0403, 0x6010), fallback_chip_type }
}

fn device(product_id: u16, product: Option<&str>, chip_type: Option<ChipType>) -> OpenedDevice {
    OpenedDevice {
        vendor_id: 0x0403,
        product_id,
        product_string: product.map(String::from),
        chip_type,
    }
}

fn adapter(chip_type: ChipType) -> JtagAdapter {
    JtagAdapter::open(ftdi(ChipType::Bm), device(0x6010, None, Some(chip_type))).unwrap()
}

fn stalled() -> FtdiError {
    FtdiError::from(std::io::Error::new(std::io::ErrorKind::Other, "stalled"))
}

/// Runs through a setup in which the actions with the given numbers fail. Yields the actions that
/// were performed, and how the setup ended.
fn set_up(
    adapter: &mut JtagAdapter,
    mut step: SetupStep,
    failing: &[usize],
) -> (Vec<DeviceAction>, Result<(), FtdiError>) {
    let mut performed = vec![];
    loop {
        step = match step {
            SetupStep::Done => return (performed, Ok(())),
            SetupStep::Failed(error) => return (performed, Err(error)),
            SetupStep::Perform(setup) => {
                let fails = failing.contains(&performed.len());
                performed.push(setup.action());
                adapter.performed(setup, if fails { Err(stalled()) } else { Ok(()) })
            }
        };
    }
}

fn clock_actions(chip_type: ChipType, speed_khz: u32) -> Vec<DeviceAction> {
    let mut adapter = adapter(chip_type);
    let (step, _) = adapter.apply_clock_speed(speed_khz);
    let (performed, ended) = set_up(&mut adapter, step, &[]);
    assert!(ended.is_ok());
    performed
}

fn speed(chip_type: ChipType, speed_khz: u32) -> u32 {
    let mut adapter = adapter(chip_type);
    let (step, actual_speed) = adapter.apply_clock_speed(speed_khz);
    assert!(set_up(&mut adapter, step, &[]).1.is_ok());
    assert_eq!(adapter.speed_khz(), actual_speed);
    actual_speed
}

fn attach_actions() -> Vec<DeviceAction> {
    vec![
        DeviceAction::UsbReset,
        DeviceAction::EnterMpsse { pins: 0x0b },
        DeviceAction::SetLatencyTimer { ms: 1 },
        DeviceAction::PurgeBuffers,
        DeviceAction::DiscardInput,
        DeviceAction::SetPins { output: 0x0008, direction: 0x000b },
        DeviceAction::DisableDivideBy5,
        DeviceAction::ConfigureClockDivider { divisor: 4 },
        DeviceAction::DisableLoopback,
    ]
}

#[test]
fn properties_of_the_known_chips() {
    let of = |chip_type| FtdiProperties::try_from((ftdi(ChipType::Am), Some(chip_type)));
    let large = FtdiProperties { buffer_size: 4096, max_clock: 30_000, has_divide_by_5: true };
    assert_eq!(of(ChipType::FT2232H).unwrap(), large);
    assert_eq!(of(ChipType::FT4232H).unwrap(), large);
    let single = FtdiProperties { buffer_size: 1024, max_clock: 30_000, has_divide_by_5: true };
    assert_eq!(of(ChipType::FT232H).unwrap(), single);
    let old = FtdiProperties { buffer_size: 128, max_clock: 6_000, has_divide_by_5: false };
    assert_eq!(of(ChipType::FT2232C).unwrap(), old);
}

#[test]
fn chips_without_mpsse_are_refused() {
    for chip_type in [ChipType::Am, ChipType::Bm, ChipType::R, ChipType::FT230X] {
        let refused = FtdiProperties::try_from((ftdi(ChipType::FT232H), Some(chip_type)));
        assert!(matches!(refused, Err(FtdiError::UnsupportedChipType(t)) if t == chip_type));
    }
}

#[test]
fn the_fallback_stands_in_for_an_unknown_chip() {
    let known = FtdiProperties::try_from((ftdi(ChipType::FT232H), None)).unwrap();
    assert_eq!(known.buffer_size, 1024);
    let refused = FtdiProperties::try_from((ftdi(ChipType::R), None));
    assert!(matches!(refused, Err(FtdiError::UnsupportedChipType(ChipType::R))));
}

#[test]
fn opening_an_unsupported_chip_fails() {
    let refused = JtagAdapter::open(
        ftdi(ChipType::FT2232H),
        device(0x6010, None, Some(ChipType::FT230X)),
    );
    assert!(matches!(
        refused,
        Err(JtagProbeError::FtdiError(FtdiError::UnsupportedChipType(ChipType::FT230X)))
    ));
}

#[test]
fn a_new_adapter_is_idle_at_one_megahertz() {
    let adapter = adapter(ChipType::FT2232H);
    assert_eq!(adapter.speed_khz(), 1000);
    assert!(adapter.outgoing().is_empty());
    assert!(adapter.response_fits());
}

#[test]
fn pin_layouts() {
    let layout = |product_id, product| {
        let opened = device(product_id, product, Some(ChipType::FT232H));
        JtagAdapter::open(ftdi(ChipType::Am), opened).unwrap().pin_layout()
    };
    assert_eq!(layout(0x6014, Some("Digilent USB Device")), (0x2088, 0x308b));
    assert_eq!(layout(0x6014, Some("Digilent Adept USB Device")), (0x00e8, 0x60eb));
    assert_eq!(layout(0x6010, Some("Digilent Adept USB Device")), (0x0088, 0x008b));
    assert_eq!(layout(0x6010, Some("Digilent USB Device")), (0x0008, 0x000b));
    assert_eq!(layout(0x6014, Some("Digilent")), (0x0008, 0x000b));
    assert_eq!(layout(0x6014, None), (0x0008, 0x000b));
}

#[test]
fn pin_layout_depends_on_the_vendor() {
    let opened = OpenedDevice {
        vendor_id: 0x15ba,
        product_id: 0x6014,
        product_string: Some(String::from("Digilent USB Device")),
        chip_type: Some(ChipType::FT232H),
    };
    let adapter = JtagAdapter::open(ftdi(ChipType::Am), opened).unwrap();
    assert_eq!(adapter.pin_layout(), (0x0008, 0x000b));
}

#[test]
fn setting_the_speed_is_remembered() {
    let mut adapter = adapter(ChipType::FT232H);
    assert_eq!(adapter.set_speed_khz(4000), 4000);
    assert_eq!(adapter.speed_khz(), 4000);
}

#[test]
fn clock_actions_of_a_fast_and_of_a_slow_chip() {
    assert_eq!(
        clock_actions(ChipType::FT232H, 1000),
        vec![
            DeviceAction::DisableDivideBy5,
            DeviceAction::ConfigureClockDivider { divisor: 29 },
        ]
    );
    assert_eq!(
        clock_actions(ChipType::FT2232C, 4000),
        vec![
            DeviceAction::EnableDivideBy5,
            DeviceAction::ConfigureClockDivider { divisor: 1 },
        ]
    );
}

#[test]
fn clock_speeds_are_met_or_rounded_down() {
    assert_eq!(speed(ChipType::FT232H, 30_000), 30_000);
    assert_eq!(speed(ChipType::FT232H, 15_000), 15_000);
    assert_eq!(speed(ChipType::FT232H, 7_000), 6_000);
    assert_eq!(speed(ChipType::FT232H, 29_999), 15_000);
    assert_eq!(speed(ChipType::FT232H, 1), 1);
    assert_eq!(speed(ChipType::FT2232C, 4_000), 3_000);
}

#[test]
fn zero_and_excessive_speeds_mean_the_maximum() {
    assert_eq!(speed(ChipType::FT232H, 0), 30_000);
    assert_eq!(speed(ChipType::FT2232C, 0), 6_000);
    assert_eq!(speed(ChipType::FT232H, 30_001), 30_000);
    assert_eq!(speed(ChipType::FT232H, u32::MAX), 30_000);
}

#[test]
fn attaching_runs_through_the_whole_setup() {
    let mut adapter = adapter(ChipType::FT2232H);
    adapter.set_speed_khz(7_000);
    let step = adapter.attach();
    let (performed, ended) = set_up(&mut adapter, step, &[]);
    assert!(ended.is_ok());
    assert_eq!(performed, attach_actions());
    assert_eq!(adapter.speed_khz(), 6_000);
}

#[test]
fn attaching_stops_at_the_first_failure() {
    for failing in [0, 1, 2, 3, 5, 6, 7, 8] {
        let mut adapter = adapter(ChipType::FT2232H);
        adapter.set_speed_khz(7_000);
        let step = adapter.attach();
        let (performed, ended) = set_up(&mut adapter, step, &[failing, 8]);
        match ended {
            Err(FtdiError::Usb(error)) => assert_eq!(error.to_string(), "stalled"),
            other => panic!("{:?}", other),
        }
        assert_eq!(performed, attach_actions()[..=failing]);
        let speed_khz = if failing == 8 { 6_000 } else { 7_000 };
        assert_eq!(adapter.speed_khz(), speed_khz);
    }
}

#[test]
fn failing_to_discard_input_is_ignored() {
    let mut adapter = adapter(ChipType::FT2232H);
    adapter.set_speed_khz(7_000);
    let step = adapter.attach();
    let (performed, ended) = set_up(&mut adapter, step, &[4]);
    assert!(ended.is_ok());
    assert_eq!(performed, attach_actions());
    assert_eq!(adapter.speed_khz(), 6_000);
}

#[test]
fn a_failure_to_apply_the_clock_speed_keeps_the_speed() {
    for failing in [0, 1] {
        let mut adapter = adapter(ChipType::FT2232C);
        let (step, _) = adapter.apply_clock_speed(4_000);
        let (performed, ended) = set_up(&mut adapter, step, &[failing]);
        assert!(matches!(ended, Err(FtdiError::Usb(_))));
        assert_eq!(performed.len(), failing + 1);
        assert_eq!(adapter.speed_khz(), 1_000);
    }
}

#[test]
fn a_setup_can_be_started_again() {
    let mut adapter = adapter(ChipType::FT2232H);
    adapter.set_speed_khz(7_000);
    let step = adapter.attach();
    assert!(set_up(&mut adapter, step, &[3]).1.is_err());
    let step = adapter.attach();
    let (performed, ended) = set_up(&mut adapter, step, &[]);
    assert!(ended.is_ok());
    assert_eq!(performed, attach_actions());
}

#[test]
fn usb_errors_stay_usb_errors() {
    let error = std::io::Error::new(std::io::ErrorKind::BrokenPipe, "gone");
    match JtagProbeError::from(FtdiError::from(error)) {
        JtagProbeError::Usb(error) => assert_eq!(error.kind(), std::io::ErrorKind::BrokenPipe),
        other => panic!("{:?}", other),
    }
}

#[test]
fn chip_errors_are_wrapped() {
    let error = FtdiError::UnsupportedChipType(ChipType::Am);
    assert!(matches!(
        JtagProbeError::from(error),
        JtagProbeError::FtdiError(FtdiError::UnsupportedChipType(ChipType::Am))
    ));
}

#[test]
fn the_factory_has_a_name() {
    assert_eq!(FtdiProbeFactory.name(), "FTDI");
}
