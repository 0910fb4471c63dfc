use nostos::expander::{
    bring_up, bring_up_pins, in_bit, kick_pin, kick_registers, level, set_output_verified,
    write_again, BusStep, Kick, Pin, PinStep, Search, SearchNext, StartStep, Verdict,
};
use nostos::led::{led_color, low_battery, Led, LedInputs};
use nostos::lora::{
    arm_rx, debug_status, encode_sync_word, poll, power_up, probe, read_request, start_rx, Poll,
    PowerStep, Probe, RadioStep, RxPacket,
};
use nostos::power::{
    configure_power_button, frontlight_duty, hold_power, literal_address, load_ui_settings,
    next_task, save_ui_settings, set_frontlight, start_tasks, Action, Change, Reg, Reply, Task,
};

fn idle() -> LedInputs {
    LedInputs {
        age_secs: None,
        rx_ms: None,
        vbat_mv: Some(4000),
        vin_mv: None,
        stale_secs: 180,
        vin_present_mv: 4000,
    }
}

#[test]
fn colours_by_urgency() {
    let all = LedInputs {
        age_secs: Some(180),
        rx_ms: Some(0),
        vbat_mv: Some(3499),
        vin_mv: Some(5000),
        ..idle()
    };
    assert_eq!(led_color(&all, 0), (true, false, false));
    assert_eq!(led_color(&all, 500), (false, false, false));
    let stale = LedInputs { vbat_mv: Some(3500), ..all };
    assert_eq!(led_color(&stale, 999), (true, true, false));
    assert_eq!(led_color(&stale, 1000), (false, false, false));
    let fresh = LedInputs { age_secs: Some(0), rx_ms: Some(599), ..stale };
    assert_eq!(led_color(&fresh, 0), (false, true, false));
    let supplied = LedInputs { rx_ms: Some(600), ..fresh };
    assert_eq!(led_color(&supplied, 0), (false, false, true));
    assert_eq!(led_color(&idle(), 0), (false, false, false));
    assert!(!low_battery(Some(0)));
    assert!(!low_battery(None));
    assert!(low_battery(Some(1)));
}

#[test]
fn the_light_is_written_when_it_changes() {
    let mut led = Led::new();
    assert_eq!(led.update(&idle(), 0), Some((false, false, false)));
    assert_eq!(led.update(&idle(), 50), None);
    let fresh = LedInputs { age_secs: Some(0), rx_ms: Some(0), ..idle() };
    assert_eq!(led.update(&fresh, 100), Some((false, true, false)));
    assert_eq!(led.update(&fresh, 150), None);
    assert_eq!(led.update(&idle(), 200), Some((false, false, false)));
}

#[test]
fn radio_is_set_up_for_the_beacon() {
    assert_eq!(
        start_rx(),
        vec![
            RadioStep::Standby,
            RadioStep::RegulatorLdo,
            RadioStep::TcxoOn,
            RadioStep::CalibrateImage,
            RadioStep::RfSwitch,
            RadioStep::PacketTypeLora,
            RadioStep::Frequency(923_000_000),
            RadioStep::Modulation(9, 125_000, 5),
            RadioStep::PacketParams(8, 255),
            RadioStep::SyncWord(0x34A4),
            RadioStep::Standby,
            RadioStep::ClearIrq,
            RadioStep::IrqParams,
            RadioStep::BaseAddress(0, 0),
            RadioStep::Receive(0xFF_FF_FF),
        ]
    );
    assert_eq!(
        arm_rx(false),
        vec![
            RadioStep::Standby,
            RadioStep::ClearIrq,
            RadioStep::BaseAddress(0, 0),
            RadioStep::Receive(0xFF_FF_FF),
        ]
    );
    assert_eq!(encode_sync_word(0x2B), 0x24B4);
    assert_eq!(encode_sync_word(0xFF), 0xF4F4);
}

#[test]
fn radio_is_powered_in_order() {
    assert_eq!(
        power_up(),
        vec![
            PowerStep::Reset(false),
            PowerStep::AntennaSwitch(true),
            PowerStep::Rail(true),
            PowerStep::WaitMs(15),
            PowerStep::Reset(true),
            PowerStep::WaitMs(20),
        ]
    );
}

#[test]
fn radio_is_asked_three_times() {
    assert_eq!(probe(0, Some(true)), Probe::Found);
    assert_eq!(probe(0, Some(false)), Probe::Again);
    assert_eq!(probe(1, None), Probe::Again);
    assert_eq!(probe(2, None), Probe::Absent);
    assert_eq!(probe(2, Some(true)), Probe::Found);
}

#[test]
fn reports_of_the_radio() {
    let (crc, done) = (0x40, 0x02);
    assert_eq!(poll(None, crc, done), Poll::Nothing);
    assert_eq!(poll(Some(0), crc, done), Poll::Nothing);
    assert_eq!(poll(Some(0x01), crc, done), Poll::Nothing);
    assert_eq!(poll(Some(0x02), crc, done), Poll::Read);
    assert_eq!(poll(Some(0x42), crc, done), Poll::Rearm);
}

#[test]
fn packets_are_read_up_to_their_limit() {
    assert_eq!(read_request(None), (0, 0));
    assert_eq!(read_request(Some((16, 128))), (128, 16));
    assert_eq!(read_request(Some((255, 3))), (3, 32));
    let p = RxPacket::new(&[1, 2, 3], None);
    assert_eq!(p.payload(), &[1, 2, 3]);
    assert_eq!(p.buf[3..], [0u8; 29]);
    assert_eq!((p.len, p.rssi, p.snr), (3, -100, 0));
    let q = RxPacket::new(&[9; 32], Some((-56, 11)));
    assert_eq!(q.payload(), &[9; 32]);
    assert_eq!((q.rssi, q.snr), (-56, 11));
}

#[test]
fn what_could_not_be_read_of_the_radio() {
    assert_eq!(debug_status(None, None, None), (0xFFFF, -127, 0xFF));
    assert_eq!(debug_status(Some(1), Some(-2), Some(3)), (1, -2, 3));
}

fn work(tasks: &[Task], read: Option<u8>, write: bool) -> (Vec<(Reg, u8)>, bool) {
    let (mut p, mut a) = start_tasks(tasks);
    let mut writes = Vec::new();
    loop {
        let reply = match a {
            Action::Read(_) => Reply::Value(read),
            Action::Write(reg, v) => {
                writes.push((reg, v));
                Reply::Written(write)
            }
            Action::Done(ok) => return (writes, ok),
        };
        let next = next_task(tasks, p, reply);
        p = next.0;
        a = next.1;
    }
}

#[test]
fn power_is_held() {
    let tasks = hold_power();
    assert_eq!(
        work(&tasks, Some(0x09), true),
        (
            vec![
                (Reg::I2cCfg, 0),
                (Reg::WdtCnt, 0),
                (Reg::PwrCfg, 0x0F),
                (Reg::HoldCfg, 0x29),
            ],
            true
        )
    );
    assert_eq!(work(&tasks, None, true), (vec![(Reg::I2cCfg, 0), (Reg::WdtCnt, 0)], false));
    assert!(!work(&tasks, Some(0), false).1);
}

#[test]
fn addresses_of_registers() {
    let at: Vec<Option<u8>> = [
        Reg::I2cCfg,
        Reg::WdtCnt,
        Reg::BtnCfg1,
        Reg::BtnCfg2,
        Reg::IrqMask3,
        Reg::IrqStatus3,
        Reg::PwrCfg,
        Reg::HoldCfg,
    ]
    .into_iter()
    .map(literal_address)
    .collect();
    let six = [0x09, 0x0A, 0x49, 0x4A, 0x45, 0x42].map(Some);
    assert_eq!(at[..6], six);
    assert_eq!(at[6..], [None, None]);
}

#[test]
fn the_power_button_is_made_harmless() {
    let tasks = configure_power_button();
    assert_eq!(
        work(&tasks, Some(0xFE), true),
        (
            vec![
                (Reg::BtnCfg1, 0x7F),
                (Reg::BtnCfg2, 0xFF),
                (Reg::IrqMask3, 0x07),
                (Reg::IrqStatus3, 0x00),
            ],
            true
        )
    );
    assert_eq!(
        work(&tasks, None, true),
        (vec![(Reg::IrqMask3, 0x07), (Reg::IrqStatus3, 0x00)], false)
    );
}

#[test]
fn what_is_not_needed_may_fail() {
    let tasks = [Task { change: Change::Write(Reg::IrqMask3, 7), needed: false }];
    assert_eq!(work(&tasks, None, false), (vec![(Reg::IrqMask3, 7)], true));
    assert_eq!(work(&[], None, false), (vec![], true));
}

#[test]
fn settings_are_saved_and_loaded() {
    assert_eq!(save_ui_settings(3, true), [(0xA0, 0x5A), (0xA1, 3), (0xA2, 1)]);
    assert_eq!(save_ui_settings(9, false), [(0xA0, 0x5A), (0xA1, 4), (0xA2, 0)]);
    assert_eq!(load_ui_settings(Some(0x5A), Some(3), Some(1)), Some((3, true)));
    assert_eq!(load_ui_settings(Some(0x5A), Some(200), Some(0)), Some((4, false)));
    assert_eq!(load_ui_settings(Some(0x5B), Some(3), Some(1)), None);
    assert_eq!(load_ui_settings(None, Some(3), Some(1)), None);
    assert_eq!(load_ui_settings(Some(0x5A), None, Some(1)), None);
    assert_eq!(load_ui_settings(Some(0x5A), Some(3), None), None);
}

#[test]
fn brightness_of_the_front_light() {
    assert_eq!(frontlight_duty(0x34, 0x12, 0x80), 0);
    assert_eq!(frontlight_duty(0x34, 0x92, 0x80), 0x234);
    assert_eq!(frontlight_duty(0xFF, 0xFF, 0x80), 0xFFF);
    assert_eq!(set_frontlight(0), (false, 0));
    assert_eq!(set_frontlight(77), (true, 77));
}

#[test]
fn the_device_is_brought_up() {
    assert_eq!(
        bring_up(),
        vec![
            StartStep::WaitMs(500),
            StartStep::HoldPower,
            StartStep::ConfigureButton,
            StartStep::ProbePowerChip,
            StartStep::FindExpander,
        ]
    );
    assert!(bring_up_pins(false).is_empty());
    assert_eq!(
        bring_up_pins(true),
        vec![
            PinStep::SetVerified(Pin::ChargerGate, false),
            PinStep::SetVerified(Pin::MicPower, false),
            PinStep::SetVerified(Pin::PanelPower, true),
            PinStep::SetVerified(Pin::CardPower, true),
            PinStep::SetVerified(Pin::TouchReset, false),
            PinStep::SetVerified(Pin::TouchPower, false),
            PinStep::WaitMs(30),
            PinStep::SetVerified(Pin::TouchPower, true),
            PinStep::WaitMs(20),
            PinStep::SetVerified(Pin::TouchReset, true),
            PinStep::WaitMs(100),
        ]
    );
}

#[test]
fn pins_and_their_registers() {
    assert_eq!(in_bit(1), (0x07, 0));
    assert_eq!(in_bit(8), (0x07, 7));
    assert_eq!(in_bit(9), (0x08, 0));
    assert_eq!(in_bit(16), (0x08, 7));
    assert_eq!(kick_registers(3), (0x03, 0x09));
    assert_eq!(kick_registers(14), (0x04, 0x0A));
    assert_eq!(level(Some(0x04), 2), Some(true));
    assert_eq!(level(Some(0x04), 3), Some(false));
    assert_eq!(level(None, 2), None);
}

#[test]
fn a_pin_that_does_not_follow_is_kicked() {
    assert_eq!(
        kick_pin(3, Some(0xFF), Some(0x01)),
        vec![
            Kick::Write(0x09, 0x05),
            Kick::Write(0x03, 0xFB),
            Kick::WaitMs(5),
            Kick::Write(0x09, 0x01),
            Kick::Write(0x03, 0xFF),
            Kick::WaitMs(2),
        ]
    );
    assert!(kick_pin(3, None, Some(0)).is_empty());
    assert!(kick_pin(3, Some(0), None).is_empty());
    assert_eq!(set_output_verified(0, true, Some(true)), Verdict::Follows);
    assert_eq!(set_output_verified(2, false, Some(false)), Verdict::Follows);
    assert_eq!(set_output_verified(0, true, Some(false)), Verdict::KickAndRetry);
    assert_eq!(set_output_verified(1, false, Some(true)), Verdict::KickAndRetry);
    assert_eq!(set_output_verified(2, true, Some(false)), Verdict::KickAndGiveUp);
    assert_eq!(set_output_verified(0, false, None), Verdict::KickAndRetry);
    assert_eq!(set_output_verified(2, false, None), Verdict::KickAndGiveUp);
    assert!(write_again(0, false));
    assert!(write_again(3, false));
    assert!(!write_again(4, false));
    assert!(!write_again(0, true));
}

#[test]
fn the_expander_is_looked_for() {
    let mut s = Search::start();
    let mut asked = Vec::new();
    let mut steps = Vec::new();
    loop {
        steps.extend(s.before());
        asked.push(s.address());
        steps.extend(s.after());
        match s.next(false) {
            SearchNext::Ask(t) => s = t,
            SearchNext::Absent => break,
            SearchNext::Found(_) => unreachable!(),
        }
    }
    assert_eq!(asked, vec![0x4F, 0x4F, 0x4F, 0x6F, 0x6F, 0x6F]);
    assert_eq!(
        steps[0..10],
        [
            BusStep::Slow,
            BusStep::Wake,
            BusStep::WaitMs(10),
            BusStep::WaitMs(800),
            BusStep::Wake,
            BusStep::WaitMs(10),
            BusStep::Fast,
            BusStep::Wake,
            BusStep::WaitMs(10),
            BusStep::Slow,
        ]
    );
    assert_eq!(Search::start().next(true), SearchNext::Found(0x4F));
    assert_eq!(s.next(true), SearchNext::Found(0x6F));
}
