use nostos::panel::{
    begin, clear_command, lut_commands, power_cycle, wait_busy_low, wait_busy_rise, Drive, Lut,
    Panel, Pixels, Ram, Step, Update, Wait, DRIVE, LUT_FAST, LUT_FASTEST, PARTIALS_BEFORE_FULL,
};

const BYTES: usize = 48_000;

fn is_full(steps: &[Step], drive: Drive) -> bool {
    match drive {
        Drive::Otp => steps.contains(&Step::Select(Update::OtpMono)),
        Drive::M5gfx => steps.contains(&Step::SendLut(Lut::Fast)),
    }
}

#[test]
fn the_first_update_is_full_and_later_ones_partial() {
    for drive in [Drive::Otp, Drive::M5gfx] {
        let plane = vec![0u8; BYTES];
        let mut p = Panel::new();
        assert!(is_full(&p.paint_mono_fast(drive), drive));
        p.mono_painted(drive, &plane, &plane);
        for _ in 0..PARTIALS_BEFORE_FULL {
            assert!(!is_full(&p.paint_mono_fast(drive), drive));
            p.mono_painted(drive, &plane, &plane);
        }
        assert!(is_full(&p.paint_mono_fast(drive), drive));
        p.mono_painted(drive, &plane, &plane);
        assert!(!is_full(&p.paint_mono_fast(drive), drive));
    }
}

#[test]
fn after_grays_the_next_update_is_full() {
    for drive in [Drive::Otp, Drive::M5gfx] {
        let plane = vec![0u8; BYTES];
        let mut p = Panel::new();
        p.mono_painted(drive, &plane, &plane);
        assert!(!is_full(&p.paint_mono_fast(drive), drive));
        p.gray_painted();
        assert!(is_full(&p.paint_mono_fast(drive), drive));
    }
}

#[test]
fn steps_of_a_partial_update() {
    let plane = vec![0u8; BYTES];
    let mut p = Panel::new();
    p.mono_painted(Drive::Otp, &plane, &plane);
    assert_eq!(
        p.paint_mono_fast(Drive::Otp),
        vec![
            Step::ResetPin(false),
            Step::WaitMs(10),
            Step::ResetPin(true),
            Step::WaitMs(10),
            Step::WaitBusyLow,
            Step::MonoAddressing,
            Step::BorderPartial,
            Step::WriteRam(Ram::Bw, Pixels::Paper),
            Step::ControlNormal,
            Step::Select(Update::OtpPartial),
            Step::Activate,
            Step::WaitBusyCycle,
            Step::WriteRam(Ram::Red, Pixels::Paper),
            Step::DeepSleep,
        ]
    );
}

#[test]
fn steps_of_a_full_update() {
    let v = Panel::new().paint_mono_fast(Drive::Otp);
    assert_eq!(
        v[5..],
        [
            Step::WaitReady,
            Step::SwReset,
            Step::WaitMs(10),
            Step::WaitBusyLow,
            Step::InitMono,
            Step::Select(Update::OtpMonoSync),
            Step::WriteRam(Ram::Bw, Pixels::Ink),
            Step::Activate,
            Step::WaitBusyCycle,
            Step::WriteRam(Ram::Red, Pixels::Paper),
            Step::WriteRam(Ram::Bw, Pixels::Paper),
            Step::BorderFull,
            Step::Select(Update::OtpMono),
            Step::Activate,
            Step::WaitBusyCycle,
            Step::DeepSleep,
        ]
    );
}

#[test]
fn steps_of_an_update_with_a_table() {
    let v = Panel::new().paint_gray(Drive::M5gfx);
    assert_eq!(
        v[5..],
        [
            Step::SwReset,
            Step::WaitMs(10),
            Step::WaitBusyLow,
            Step::InitMono,
            Step::WaitBusyLow,
            Step::ClearRam(Ram::Bw),
            Step::WaitBusyLow,
            Step::ClearRam(Ram::Red),
            Step::WaitBusyLow,
            Step::WriteRam(Ram::Bw, Pixels::PlaneBw),
            Step::WriteRam(Ram::Red, Pixels::PlaneRed),
            Step::SendLut(Lut::Fast),
            Step::ControlNormal,
            Step::Select(Update::Table),
            Step::Activate,
            Step::WaitBusyCycle,
            Step::Select(Update::PowerOff),
            Step::Activate,
            Step::WaitBusyLow,
            Step::DeepSleep,
        ]
    );
    let plane = vec![0u8; BYTES];
    let mut p = Panel::new();
    p.mono_painted(Drive::M5gfx, &plane, &plane);
    let d = p.paint_mono_fast(Drive::M5gfx);
    assert!(d.contains(&Step::WriteRam(Ram::Bw, Pixels::Paper)));
    assert!(d.contains(&Step::WriteRam(Ram::Red, Pixels::OldPaper)));
    assert!(d.contains(&Step::SendLut(Lut::Fastest)));
}

#[test]
fn steps_of_an_update_in_grays() {
    let v = Panel::new().paint_gray(Drive::Otp);
    assert_eq!(v[9], Step::InitGray);
    assert_eq!(v[10], Step::WriteRam(Ram::Bw, Pixels::GrayBw));
    assert_eq!(v[11], Step::WriteRam(Ram::Red, Pixels::GrayRed));
    assert_eq!(v[12], Step::Select(Update::OtpGray));
    assert_eq!(v[v.len() - 1], Step::DeepSleep);
}

#[test]
fn codes_of_updates() {
    assert_eq!(Update::OtpMonoSync.code(), 0xF8);
    assert_eq!(Update::OtpMono.code(), 0x14);
    assert_eq!(Update::OtpPartial.code(), 0xFF);
    assert_eq!(Update::OtpGray.code(), 0xD7);
    assert_eq!(Update::Table.code(), 0xCC);
    assert_eq!(Update::PowerOff.code(), 0x03);
    assert_eq!(clear_command(Ram::Bw), (0x46, 0xF7));
    assert_eq!(clear_command(Ram::Red), (0x47, 0xF7));
    assert_eq!(DRIVE, Drive::Otp);
}

#[test]
fn tables_are_sent_whole() {
    for (lut, table) in [(Lut::Fast, LUT_FAST), (Lut::Fastest, LUT_FASTEST)] {
        let v = lut_commands(lut);
        let codes: Vec<u8> = v.iter().map(|(c, _)| *c).collect();
        assert_eq!(codes, vec![0x32, 0x03, 0x04, 0x2C]);
        let lens: Vec<usize> = v.iter().map(|(_, d)| d.len()).collect();
        assert_eq!(lens, vec![105, 1, 3, 1]);
        let bytes: Vec<u8> = v.iter().flat_map(|(_, d)| d.clone()).collect();
        assert_eq!(bytes, table.to_vec());
    }
    assert_eq!(LUT_FAST[105..], [0x17, 0x41, 0xA8, 0x32, 0x30]);
    assert_eq!(LUT_FASTEST[105..], [0x17, 0x46, 0xA8, 0x32, 0x30]);
    assert_eq!(LUT_FASTEST[10..12], [0x6A, 0xA0]);
}

#[test]
fn rows_of_the_memories() {
    let mut bw = vec![0u8; BYTES];
    let mut red = vec![0u8; BYTES];
    bw[60 * 2] = 0x80;
    red[60 * 2] = 0x20;
    let coords: Vec<(u16, u16)> = (0..16u16).map(|x| (x, 2)).collect();
    let mut p = Panel::new();
    assert_eq!(p.ram_row(Pixels::Ink, &bw, &red, &coords), vec![0xA0, 0x00]);
    assert_eq!(p.ram_row(Pixels::Paper, &bw, &red, &coords), vec![0x5F, 0xFF]);
    assert_eq!(p.ram_row(Pixels::PlaneBw, &bw, &red, &coords), vec![0x80, 0x00]);
    assert_eq!(p.ram_row(Pixels::PlaneRed, &bw, &red, &coords), vec![0x20, 0x00]);
    assert_eq!(p.ram_row(Pixels::GrayBw, &bw, &red, &coords), vec![0x00, 0x01]);
    assert_eq!(p.ram_row(Pixels::GrayRed, &bw, &red, &coords), vec![0x00, 0x04]);
    p.mono_painted(Drive::M5gfx, &bw, &red);
    let blank = vec![0u8; BYTES];
    assert_eq!(p.ram_row(Pixels::OldPaper, &blank, &blank, &coords), vec![0x5F, 0xFF]);
    let off: Vec<(u16, u16)> = (0..8u16).map(|x| (480 + x, 2)).collect();
    assert_eq!(p.ram_row(Pixels::Ink, &[0xFF; BYTES], &red, &off), vec![0x00]);
}

#[test]
fn starting_the_panel() {
    assert_eq!(
        power_cycle(),
        vec![
            Step::ResetPinVerified(false),
            Step::PowerPinVerified(false),
            Step::WaitMs(300),
            Step::PowerPinVerified(true),
        ]
    );
    assert!(begin(false).is_none());
    let (steps, panel) = begin(true).unwrap();
    assert_eq!(steps[0], Step::WaitMs(500));
    assert_eq!(steps[steps.len() - 1], Step::WaitBusyLow);
    assert_eq!(steps.len(), 17);
    assert_eq!(panel.last_busy_rose(), None);
}

#[test]
fn whether_the_panel_became_busy_is_kept() {
    let mut p = Panel::new();
    p.note_busy(false);
    assert_eq!(p.last_busy_rose(), Some(false));
    p.gray_painted();
    assert_eq!(p.last_busy_rose(), Some(false));
    p.note_busy(true);
    assert_eq!(p.last_busy_rose(), Some(true));
}

#[test]
fn waiting_for_the_panel() {
    assert_eq!(wait_busy_low(5, 10, true), Wait::Again);
    assert_eq!(wait_busy_low(5, 10, false), Wait::Done);
    assert_eq!(wait_busy_low(10, 10, true), Wait::Done);
    assert_eq!(wait_busy_rise(5, 10, false), (Wait::Again, false));
    assert_eq!(wait_busy_rise(10, 10, false), (Wait::Done, false));
    assert_eq!(wait_busy_rise(5, 10, true), (Wait::Done, true));
}

#[test]
fn the_panel_is_waited_for() {
    let plane = vec![0u8; BYTES];
    let mut plans = vec![begin(true).unwrap().0];
    for drive in [Drive::Otp, Drive::M5gfx] {
        let mut p = Panel::new();
        plans.push(p.paint_mono_fast(drive));
        plans.push(p.paint_gray(drive));
        p.mono_painted(drive, &plane, &plane);
        plans.push(p.paint_mono_fast(drive));
    }
    for plan in plans {
        for (i, step) in plan.iter().enumerate() {
            let busy = match step {
                Step::Activate | Step::SwReset | Step::ClearRam(_) => true,
                Step::ResetPin(high) | Step::ResetPinVerified(high) => *high,
                _ => false,
            };
            if busy {
                let next = plan[i + 1..].iter().find(|s| !matches!(s, Step::WaitMs(_)));
                assert!(matches!(next, Some(Step::WaitBusyLow | Step::WaitBusyCycle)));
            }
        }
    }
}
