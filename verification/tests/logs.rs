use nostos::frame::NostosFrame;
use nostos::sdlog::{fat_partition, Append, Next, Op, CSV_HEADER, LOG_FILE, STATUS_FILE, STATUS_HEADER};
use nostos::statuslog::{batt_pct, write_rx, Sample};
use nostos::text::{FmtBuf, LineBuf};

fn sample() -> Sample<'static> {
    Sample {
        uptime_s: 6,
        est_unix: 0,
        vbat_mv: Some(3926),
        vin_mv: Some(4980),
        pwr_src: Some(0x05),
        pwr_cfg: Some(0x07),
        radio: Some((-109, 0xd2)),
        last_rx_age_s: None,
        rx_count: 0,
        frontlight: 0,
        reset_reason: 0x15,
        event: "boot",
    }
}

#[test]
fn status_line_of_a_start() {
    let mut out = LineBuf::new();
    assert!(sample().write_csv(&mut out));
    assert_eq!(out.as_bytes(), b"6,0,3926,4980,69,0x05,0x07,-109,0xd2,--,0,0,0x15,boot\n");
}

#[test]
fn unread_values_are_dashes() {
    let mut out = LineBuf::new();
    let s = Sample {
        uptime_s: u64::MAX,
        est_unix: 1_700_000_042,
        vbat_mv: None,
        vin_mv: None,
        pwr_src: None,
        pwr_cfg: None,
        radio: None,
        last_rx_age_s: Some(181),
        rx_count: u32::MAX,
        frontlight: 4,
        reset_reason: 0,
        event: "rx_lost",
    };
    assert!(s.write_csv(&mut out));
    assert_eq!(
        out.as_bytes(),
        b"18446744073709551615,1700000042,--,--,--,--,--,--,--,181,4294967295,4,0x00,rx_lost\n"
    );
}

#[test]
fn a_voltage_of_zero_has_no_charge() {
    let mut out = LineBuf::new();
    let s = Sample { vbat_mv: Some(0), ..sample() };
    assert!(s.write_csv(&mut out));
    assert!(out.as_bytes().starts_with(b"6,0,0,4980,--,0x05"));
}

#[test]
fn a_line_that_does_not_fit_is_refused() {
    let long = "x".repeat(120);
    let s = Sample { event: long.as_str(), ..sample() };
    let mut out = LineBuf::new();
    assert!(!s.write_csv(&mut out));
    assert!(out.as_bytes().len() <= 160);
    assert!(out.as_bytes().starts_with(b"6,0,3926"));
    let fits = "x".repeat(109);
    let s = Sample { event: fits.as_str(), ..sample() };
    let mut out = LineBuf::new();
    assert!(s.write_csv(&mut out));
    assert_eq!(out.as_bytes().len(), 159);
}

#[test]
fn the_longest_status_line_fits() {
    let s = Sample {
        uptime_s: u64::MAX,
        est_unix: u64::MAX,
        vbat_mv: Some(u16::MAX),
        vin_mv: Some(u16::MAX),
        radio: Some((i16::MIN, 255)),
        last_rx_age_s: Some(u64::MAX),
        rx_count: u32::MAX,
        frontlight: 255,
        event: "abcdefghijklmnopqrstuvwxyzabcdefghijkl",
        ..sample()
    };
    let mut out = LineBuf::new();
    assert!(s.write_csv(&mut out));
    assert_eq!(out.len(), 160);
}

#[test]
fn charge_is_linear_between_its_ends() {
    assert_eq!(batt_pct(0), 0);
    assert_eq!(batt_pct(3300), 0);
    assert_eq!(batt_pct(3309), 1);
    assert_eq!(batt_pct(3750), 50);
    assert_eq!(batt_pct(4199), 99);
    assert_eq!(batt_pct(4200), 100);
    assert_eq!(batt_pct(u16::MAX), 100);
}

#[test]
fn line_of_a_frame() {
    let f = NostosFrame::new(7, -335_000_000, 1_413_544_000, 1_700_000_000, true);
    assert_eq!(
        write_rx(&f, false, -98, 7).as_bytes(),
        b"1700000000,7,1,0,-335000000,1413544000,-98,7\n"
    );
    let g = NostosFrame::new(255, i32::MIN, i32::MIN, u32::MAX, false);
    assert_eq!(
        write_rx(&g, true, i16::MIN, i8::MIN).as_bytes(),
        b"4294967295,255,0,1,-2147483648,-2147483648,-32768,-128\n"
    );
}

#[test]
fn names_and_first_lines_of_the_logs() {
    assert_eq!(LOG_FILE, "NOSTOS.CSV");
    assert_eq!(CSV_HEADER, "time_unix,seq,fix,home,lat_e7,lon_e7,rssi,snr\n");
    assert_eq!(STATUS_FILE, "STATUS.CSV");
    assert!(STATUS_HEADER.starts_with("uptime_s,est_unix,vbat_mv"));
    assert!(STATUS_HEADER.ends_with("reset_reason,event\n"));
    assert_eq!(STATUS_HEADER.split(',').count(), 14);
}

#[test]
fn a_short_text_is_cut_off() {
    let mut b = FmtBuf::<8>::new();
    b.write_str("SEQ ");
    b.write_decimal(123);
    b.write_signed(-45);
    assert_eq!(b.as_str(), "SEQ 123-");
}

#[test]
fn a_character_cut_in_two_leaves_nothing() {
    let mut b = FmtBuf::<2>::new();
    b.write_str("a·");
    assert_eq!(b.as_str(), "");
    let mut c = FmtBuf::<3>::new();
    c.write_str("a·b");
    assert_eq!(c.as_str(), "a·");
}

#[test]
fn numbers_are_padded_with_zeros() {
    let mut b = FmtBuf::<24>::new();
    b.write_padded(7, 2);
    b.write_str(":");
    b.write_padded(2250, 5);
    b.write_str(":");
    b.write_padded(123, 2);
    assert_eq!(b.as_str(), "07:02250:123");
}

fn run(answers: &[(Op, bool)]) -> (Vec<Op>, bool) {
    let (mut a, mut op) = Append::start();
    let mut ops = vec![op];
    loop {
        let ok = answers.iter().find(|(o, _)| *o == op).map_or(true, |(_, k)| *k);
        match a.next(ok) {
            Next::Do(next) => {
                op = next;
                ops.push(op);
            }
            Next::Done(added) => return (ops, added),
        }
    }
}

#[test]
fn a_line_is_added_to_a_file_that_is_there() {
    assert_eq!(
        run(&[]),
        (vec![Op::Mount, Op::Open, Op::SeekEnd, Op::WriteLine, Op::Flush, Op::Unmount], true)
    );
}

#[test]
fn a_new_file_gets_its_first_line() {
    assert_eq!(
        run(&[(Op::Open, false)]),
        (
            vec![
                Op::Mount,
                Op::Open,
                Op::Create,
                Op::WriteHeader,
                Op::SeekEnd,
                Op::WriteLine,
                Op::Flush,
                Op::Unmount
            ],
            true
        )
    );
}

#[test]
fn whatever_fails_the_card_is_unmounted() {
    assert_eq!(run(&[(Op::Mount, false)]), (vec![Op::Mount], false));
    for op in [Op::SeekEnd, Op::WriteLine, Op::Flush] {
        let (ops, added) = run(&[(op, false)]);
        assert!(!added);
        assert_eq!(ops[ops.len() - 2..], [op, Op::Unmount]);
    }
    for op in [Op::Create, Op::WriteHeader] {
        let (ops, added) = run(&[(Op::Open, false), (op, false)]);
        assert!(!added);
        assert_eq!(ops[ops.len() - 2..], [op, Op::Unmount]);
    }
    assert!(run(&[(Op::Unmount, false)]).1);
}

#[test]
fn the_first_fat_partition_is_used() {
    assert_eq!(fat_partition(&[]), None);
    assert_eq!(fat_partition(&[false, false]), None);
    assert_eq!(fat_partition(&[false, true, true]), Some(1));
}
