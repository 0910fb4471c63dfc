use nostos::device::{Command, Config, Device, Heard, Inputs};
use nostos::draw::LastRx;
use nostos::frame::NostosFrame;
use nostos::nav::GeoPoint;
use nostos::receiver::{log_status, Event, Health, Readings, Track};
use nostos::ui::{
    brightness_duty, brightness_name, brightness_step, deed, sd_state, Buttons, Deed, Gesture,
    Layout, Light, Redraw, Scene, Screen, SdState, Shown, Touch,
};

const SEC: u64 = 1_000_000;
const HOME: u8 = 0x02;

fn layout() -> Layout {
    Layout { tabs: 740, auto_off: (200, 260), reset: (300, 360), card: (400, 460) }
}

fn config() -> Config {
    Config { home_flag: HOME, vin_present_mv: 4000, layout: layout() }
}

fn still(now_us: u64) -> Inputs {
    Inputs { now_us, heard: None, a: false, b: false, finger: None }
}

fn frame(seq: u8, lat: i32, lon: i32, fix: bool) -> NostosFrame {
    NostosFrame::new(seq, lat, lon, 1_700_000_000, fix)
}

fn home_frame(seq: u8, lat: i32, lon: i32) -> NostosFrame {
    let mut f = frame(seq, lat, lon, true);
    f.flags |= HOME;
    f
}

fn heard(frame: NostosFrame, moved: bool) -> Option<Heard> {
    Some(Heard { frame, moved, rssi: -56, snr: 11 })
}

fn device() -> Device<4> {
    Device::new(Some((2, true)), 0, Some(4000), None, true, 0)
}

/// Runs turns from `from_us` on with a finger at each place for a look, then lets go.
fn touch(d: &mut Device<4>, from_us: u64, step_us: u64, places: &[(i32, i32)]) -> Vec<Command> {
    let mut now = from_us;
    for p in places {
        let i = Inputs { finger: Some(*p), ..still(now) };
        d.tick(&i, &config());
        now += step_us;
    }
    for _ in 0..2 {
        d.tick(&still(now), &config());
        now += 50_000;
    }
    d.tick(&still(now), &config())
}

#[test]
fn frames_fill_the_trail() {
    let mut t: Track<3> = Track::new();
    for k in 0..5u8 {
        assert!(!t.receive(&frame(k, k as i32, 0, true), HOME, false, -50, 3, SEC * k as u64));
    }
    let lats: Vec<i32> = t.trail().iter().iter().map(|p| p.lat_e7).collect();
    assert_eq!(lats, vec![2, 3, 4]);
    t.receive(&frame(9, 77, 77, false), HOME, false, -50, 3, 9 * SEC);
    assert_eq!(t.trail().len(), 3);
    assert_eq!(t.age_secs(12 * SEC + 1), Some(3));
    assert_eq!(t.age_ms(9 * SEC + 1500), Some(1));
    assert_eq!(t.est_unix(12 * SEC), 1_700_000_003);
    let st = t.status(12 * SEC, 5, None, true, None);
    assert_eq!(
        st.last,
        Some(LastRx {
            seq: 9,
            fix: false,
            lat_e7: 77,
            lon_e7: 77,
            time_unix: 1_700_000_000,
            rssi: -50,
            snr: 3
        })
    );
    assert_eq!(st.age_secs, Some(3));
}

#[test]
fn a_start_is_no_position() {
    let mut t: Track<8> = Track::new();
    t.receive(&frame(1, 1, 1, true), HOME, false, 0, 0, 0);
    assert!(t.begins_journey(&home_frame(5, 2, 2), HOME, false));
    assert!(t.receive(&home_frame(5, 2, 2), HOME, false, 0, 0, 0));
    assert!(!t.begins_journey(&home_frame(6, 2, 2), HOME, false));
    assert!(t.begins_journey(&home_frame(0, 2, 2), HOME, false));
    assert!(t.begins_journey(&home_frame(6, 2, 2), HOME, true));
    assert!(!t.begins_journey(&frame(0, 2, 2, true), HOME, true));
    assert_eq!(t.home(), Some(GeoPoint::from_e7(2, 2)));
    assert!(t.trail().is_empty());
    t.receive(&frame(6, 3, 3, true), HOME, false, 0, 0, 0);
    assert!(!t.receive(&home_frame(7, 4, 4), HOME, false, 0, 0, 0));
    assert_eq!(t.home(), Some(GeoPoint::from_e7(4, 4)));
    assert_eq!(t.trail().len(), 1);
    assert!(t.receive(&home_frame(8, 5, 5), HOME, true, 0, 0, 0));
    assert!(t.trail().is_empty());
    t.receive(&frame(9, 3, 3, true), HOME, false, 0, 0, 0);
    assert!(t.receive(&home_frame(0, 5, 5), HOME, false, 0, 0, 0));
    assert!(t.trail().is_empty());
}

#[test]
fn the_map_follows_until_it_is_moved() {
    let mut t: Track<8> = Track::new();
    assert_eq!(t.center(), None);
    t.receive(&home_frame(1, 9, 9), HOME, false, 0, 0, 0);
    assert_eq!(t.center(), Some(GeoPoint::from_e7(9, 9)));
    t.receive(&frame(2, 1, 1, true), HOME, false, 0, 0, 0);
    assert_eq!(t.center(), Some(GeoPoint::from_e7(1, 1)));
    t.pan_to(GeoPoint::from_e7(7, 7));
    t.receive(&frame(3, 2, 2, true), HOME, false, 0, 0, 0);
    assert_eq!(t.center(), Some(GeoPoint::from_e7(7, 7)));
    assert!(t.recenter());
    assert!(!t.recenter());
    assert_eq!(t.center(), Some(GeoPoint::from_e7(2, 2)));
    t.pan_to(GeoPoint::from_e7(7, 7));
    t.receive(&home_frame(0, 9, 9), HOME, false, 0, 0, 0);
    assert!(!t.panned());
}

#[test]
fn an_unknown_time_is_zero() {
    let mut t: Track<8> = Track::new();
    assert_eq!(t.est_unix(5 * SEC), 0);
    let f = NostosFrame::new(1, 0, 0, 0, true);
    t.receive(&f, HOME, false, 0, 0, 0);
    assert_eq!(t.est_unix(5 * SEC), 0);
}

#[test]
fn health_is_logged_when_due() {
    let mut h = Health::new(0);
    assert_eq!(h.check(599 * SEC, Some(4000), None), None);
    assert_eq!(h.check(600 * SEC, Some(4000), None), Some(Event::Periodic));
    assert_eq!(h.check(605 * SEC, Some(4000), None), None);
    assert_eq!(h.check(610 * SEC, Some(3499), None), Some(Event::LowBatt));
    assert_eq!(h.check(615 * SEC, Some(3499), None), None);
    assert_eq!(h.check(620 * SEC, Some(3600), None), None);
    assert_eq!(h.check(625 * SEC, Some(3499), Some(180)), Some(Event::RxLost));
    assert_eq!(h.check(630 * SEC, Some(3499), Some(185)), Some(Event::LowBatt));
    assert_eq!(h.check(632 * SEC, Some(3499), Some(187)), None);
    h.frame_received();
    assert_eq!(h.check(635 * SEC, Some(3499), Some(180)), Some(Event::RxLost));
    assert_eq!(h.check(1234 * SEC, Some(3499), Some(180)), None);
    assert_eq!(h.check(1235 * SEC, Some(3499), Some(180)), Some(Event::Periodic));
    h.frame_received();
    assert_eq!(h.check(1240 * SEC, Some(3600), Some(0)), None);
    assert_eq!(h.check(1440 * SEC, Some(3499), Some(200)), Some(Event::RxLost));
    assert_eq!(h.check(1445 * SEC, Some(3600), Some(205)), None);
    assert_eq!(h.check(1450 * SEC, Some(3499), Some(210)), Some(Event::LowBatt));
}

#[test]
fn events_of_the_start() {
    assert_eq!(Event::at_boot(true, None).name(), "boot");
    assert_eq!(Event::at_boot(true, Some(true)).name(), "boot");
    assert_eq!(Event::at_boot(true, Some(false)).name(), "boot_panel_nobusy");
    assert_eq!(Event::at_boot(false, None).name(), "boot_panel_fail");
    assert_eq!(Event::Periodic.name(), "periodic");
    assert_eq!(Event::LowBatt.name(), "low_batt");
    assert_eq!(Event::RxLost.name(), "rx_lost");
    assert_eq!(Event::SdEject.name(), "sd_eject");
}

#[test]
fn line_of_the_health() {
    let mut t: Track<8> = Track::new();
    let r = Readings {
        vbat_mv: Some(3926),
        vin_mv: Some(4980),
        pwr_src: Some(5),
        pwr_cfg: Some(7),
        radio: Some((-109, 0xd2)),
        frontlight: 0,
        reset_reason: 0x15,
    };
    let l = log_status(&t, &r, "boot", 6 * SEC + 999_999).unwrap();
    assert_eq!(l.as_bytes(), b"6,0,3926,4980,69,0x05,0x07,-109,0xd2,--,0,0,0x15,boot\n");
    t.receive(&frame(1, 0, 0, true), HOME, false, 0, 0, 10 * SEC);
    let l = log_status(&t, &r, "rx_lost", 200 * SEC).unwrap();
    assert_eq!(
        l.as_bytes(),
        b"200,1700000190,3926,4980,69,0x05,0x07,-109,0xd2,190,1,0,0x15,rx_lost\n"
    );
    assert!(log_status(&t, &r, &"y".repeat(200), 200 * SEC).is_none());
}

#[test]
fn buttons_zoom_and_light() {
    let mut b = Buttons::new(1, 0);
    assert_eq!(b.m_per_px(), 2);
    let p = b.look(true, false, false);
    assert!(p.input && p.zoomed && !p.lit);
    assert_eq!(b.m_per_px(), 1);
    assert!(!b.look(true, false, false).input);
    assert!(!b.look(false, false, false).input);
    let p = b.look(true, false, false);
    assert!(p.input && !p.zoomed);
    for _ in 0..10 {
        b.look(false, false, false);
        b.look(false, true, false);
    }
    assert_eq!(b.m_per_px(), 100);
    for _ in 0..6 {
        b.look(false, false, true);
        b.look(true, false, true);
    }
    assert_eq!(b.knobs.brightness, 4);
    b.look(false, false, true);
    let p = b.look(true, true, true);
    assert!(p.lit);
    assert_eq!(b.knobs.brightness, 3);
}

#[test]
fn brightness_of_steps() {
    let duties: Vec<u16> = (0..6).map(|s| brightness_duty(s, 4095)).collect();
    assert_eq!(duties, vec![0, 511, 1023, 2047, 4095, 4095]);
    for s in 0..5u8 {
        assert_eq!(brightness_step(brightness_duty(s, 4095), 4095), s);
    }
    assert_eq!(brightness_step(1, 4095), 0);
    assert_eq!(brightness_step(0, 0), 0);
    let names: Vec<&str> = (0..5).map(brightness_name).collect();
    assert_eq!(names, vec!["OFF", "1", "2", "3", "MAX"]);
}

#[test]
fn touches_are_told_apart() {
    let mut t = Touch::new(0);
    assert_eq!(t.look(Some((100, 100)), 0), None);
    assert_eq!(t.look(Some((139, 100)), 50_000), None);
    assert_eq!(t.look(None, 100_000), None);
    assert_eq!(t.look(None, 150_000), None);
    assert_eq!(t.look(None, 200_000), Some(Gesture::Tap(139, 100)));
    assert_eq!(t.look(None, 250_000), None);
    t.look(Some((100, 100)), SEC);
    t.look(Some((140, 100)), SEC);
    t.look(None, SEC);
    t.look(None, SEC);
    assert_eq!(t.look(None, SEC), Some(Gesture::Swipe(40, 0)));
    t.look(Some((100, 100)), 2 * SEC);
    t.look(None, 2 * SEC);
    t.look(Some((100, 100)), 2 * SEC);
    t.look(None, 2 * SEC);
    t.look(None, 2 * SEC);
    assert_eq!(t.look(None, 2 * SEC + 800_000), Some(Gesture::Long(800_000)));
}

#[test]
fn what_gestures_do() {
    let trail = Scene {
        screen: Screen::Trail,
        tabs_ready: true,
        logging: true,
        panned: false,
        centered: true,
    };
    let settings = Scene { screen: Screen::Settings, ..trail };
    let l = layout();
    assert_eq!(deed(Gesture::Swipe(50, -3), &trail, &l), Deed::Pan(50, -3));
    assert_eq!(
        deed(Gesture::Swipe(50, -3), &Scene { centered: false, ..trail }, &l),
        Deed::Nothing
    );
    assert_eq!(deed(Gesture::Swipe(50, -3), &settings, &l), Deed::Nothing);
    let short = Gesture::Long(800_000);
    let long = Gesture::Long(1_000_000);
    assert_eq!(deed(short, &trail, &l), Deed::Nothing);
    assert_eq!(deed(short, &Scene { panned: true, ..trail }, &l), Deed::Recenter);
    assert_eq!(deed(long, &Scene { panned: true, ..trail }, &l), Deed::Recenter);
    assert_eq!(deed(Gesture::Long(999_999), &settings, &l), Deed::Nothing);
    assert_eq!(deed(long, &settings, &l), Deed::PowerOff);
    assert_eq!(deed(Gesture::Tap(159, 740), &trail, &l), Deed::Nothing);
    assert_eq!(deed(Gesture::Tap(160, 740), &trail, &l), Deed::Show(Screen::Homing));
    assert_eq!(deed(Gesture::Tap(320, 799), &trail, &l), Deed::Show(Screen::Settings));
    assert_eq!(
        deed(Gesture::Tap(320, 799), &Scene { tabs_ready: false, ..trail }, &l),
        Deed::Nothing
    );
    assert_eq!(deed(Gesture::Tap(10, 739), &trail, &l), Deed::Nothing);
    assert_eq!(deed(Gesture::Tap(10, 200), &settings, &l), Deed::ToggleAutoOff);
    assert_eq!(deed(Gesture::Tap(10, 260), &settings, &l), Deed::Nothing);
    assert_eq!(deed(Gesture::Tap(10, 359), &settings, &l), Deed::WarmReset);
    assert_eq!(deed(Gesture::Tap(10, 400), &settings, &l), Deed::EjectCard);
    assert_eq!(
        deed(Gesture::Tap(10, 400), &Scene { logging: false, ..settings }, &l),
        Deed::Nothing
    );
}

#[test]
fn the_front_light_goes_off_and_comes_back() {
    let mut l = Light::new(true, 0);
    assert_eq!(l.attend(false, 3, 29 * SEC), None);
    assert_eq!(l.attend(false, 3, 30 * SEC), Some(0));
    assert_eq!(l.effective(3), 0);
    assert_eq!(l.attend(false, 3, 31 * SEC), None);
    assert_eq!(l.attend(true, 3, 32 * SEC), Some(3));
    assert_eq!(l.effective(3), 3);
    assert_eq!(l.attend(false, 0, 100 * SEC), None);
    l.toggle_auto_off();
    assert_eq!(l.attend(false, 3, 1000 * SEC), None);
}

#[test]
fn when_the_page_is_drawn() {
    let mut r = Redraw::new(0);
    assert!(!r.due(false, true, 179 * SEC));
    assert!(r.due(false, true, 180 * SEC));
    assert!(!r.due(false, false, 180 * SEC));
    assert!(r.due(true, false, 0));
    r.brightness_changed(SEC);
    assert!(!r.due(false, false, SEC + 599_999));
    assert!(r.due(false, false, SEC + 600_000));
    r.drawn(2 * SEC);
    assert!(!r.due(false, true, 3 * SEC));
    assert!(!r.due(false, true, 181 * SEC));
    assert!(r.due(false, true, 182 * SEC));
    assert!(!r.due(false, false, 1000 * SEC));
}

#[test]
fn state_of_the_card() {
    assert_eq!(sd_state(true, false), SdState::Logging);
    assert_eq!(sd_state(false, true), SdState::Ejected);
    assert_eq!(sd_state(false, false), SdState::NoCard);
    assert_eq!(SdState::Logging.name(), "LOGGING");
    assert_eq!(SdState::Ejected.name(), "REMOVE OK");
    assert_eq!(SdState::NoCard.name(), "NO CARD");
}

#[test]
fn tabs_wait_after_a_change() {
    let mut s = Shown::new(0);
    assert!(!s.tabs_ready(1_499_999));
    assert!(s.tabs_ready(1_500_000));
    s.show(Screen::Homing, 2 * SEC);
    assert!(!s.tabs_ready(3 * SEC));
    assert!(s.screen.in_grays());
    assert!(!Screen::Trail.in_grays());
}

#[test]
fn a_frame_is_logged_and_drawn() {
    let mut d = device();
    let out = d.tick(&still(50_000), &config());
    assert_eq!(out, vec![Command::WriteLed(false, false, false)]);
    let i = Inputs { heard: heard(frame(3, 1, 2, true), false), ..still(100_000) };
    assert_eq!(
        d.tick(&i, &config()),
        vec![
            Command::LogFrame,
            Command::WriteLed(false, true, false),
            Command::Draw(Screen::Trail)
        ]
    );
    d.drawn(200_000);
    assert!(d.tick(&still(250_000), &config()).is_empty());
    assert_eq!(d.track().trail().len(), 1);
    let out = d.tick(&still(180 * SEC + 200_000), &config());
    assert!(out.contains(&Command::Draw(Screen::Trail)));
}

#[test]
fn voltages_are_looked_at_every_hundred_turns() {
    let mut d = device();
    let due: Vec<(bool, bool)> = (0..1200).map(|_| d.count_turn()).collect();
    assert_eq!(due.iter().filter(|x| x.0).count(), 12);
    assert_eq!(due.iter().filter(|x| x.1).count(), 1);
    assert_eq!(due[99], (true, false));
    assert_eq!(due[1199], (true, true));
    assert_eq!(d.check_power(Some(3400), Some(5000), 5 * SEC), Some((Event::LowBatt, 2)));
    assert_eq!(d.voltages(), (Some(3400), Some(5000)));
    assert_eq!(d.check_power(Some(3400), Some(5000), 10 * SEC), None);
}

#[test]
fn swipes_move_the_map() {
    let mut d = device();
    let i = Inputs { heard: heard(frame(3, 1, 2, true), false), ..still(0) };
    d.tick(&i, &config());
    d.drawn(0);
    let out = touch(&mut d, SEC, 50_000, &[(100, 300), (160, 310)]);
    assert_eq!(out, vec![Command::Pan(60, 10), Command::Draw(Screen::Trail)]);
    assert!(!d.touching());
    d.pan_to(GeoPoint::from_e7(5, 5));
    d.drawn(2 * SEC);
    assert_eq!(d.track().center(), Some(GeoPoint::from_e7(5, 5)));
    let out = touch(&mut d, 3 * SEC, 900_000, &[(100, 300)]);
    assert_eq!(out, vec![Command::Draw(Screen::Trail)]);
    assert_eq!(d.track().center(), Some(GeoPoint::from_e7(1, 2)));
}

#[test]
fn the_card_is_let_go_of() {
    let mut d = device();
    d.tick(&still(0), &config());
    let out = touch(&mut d, 2 * SEC, 50_000, &[(400, 780)]);
    assert_eq!(out, vec![Command::Click, Command::Draw(Screen::Settings)]);
    assert_eq!(d.card(), SdState::Logging);
    let out = touch(&mut d, 3 * SEC, 50_000, &[(100, 420)]);
    assert_eq!(
        out[0..2],
        [Command::LogStatus(Event::SdEject, 2), Command::StopLogging]
    );
    assert_eq!(d.card(), SdState::Ejected);
    let i = Inputs { heard: heard(frame(3, 1, 2, true), false), ..still(4 * SEC) };
    assert!(!d.tick(&i, &config()).contains(&Command::LogFrame));
    let out = touch(&mut d, 5 * SEC, 50_000, &[(100, 420)]);
    assert!(!out.contains(&Command::StopLogging));
}

#[test]
fn settings_can_switch_off_and_restart() {
    let mut d = device();
    d.tick(&still(0), &config());
    touch(&mut d, 2 * SEC, 50_000, &[(400, 780)]);
    let out = touch(&mut d, 3 * SEC, 50_000, &[(100, 320)]);
    assert_eq!(out[0], Command::WarmReset);
    let out = touch(&mut d, 4 * SEC, 50_000, &[(100, 230)]);
    assert_eq!(out[0], Command::SaveSettings(2, false));
    assert!(!d.light().auto_off);
    let out = touch(&mut d, 5 * SEC, 850_000, &[(100, 100)]);
    assert!(out.is_empty());
    let out = touch(&mut d, 7 * SEC, 900_000, &[(100, 100)]);
    assert_eq!(out[0], Command::PowerOff);
}

#[test]
fn brightness_is_set_at_once_and_shown_later() {
    let mut d = device();
    d.tick(&still(0), &config());
    touch(&mut d, 2 * SEC, 50_000, &[(400, 780)]);
    d.drawn(3 * SEC);
    let up = Inputs { a: true, ..still(4 * SEC) };
    assert_eq!(
        d.tick(&up, &config()),
        vec![Command::SetLight(3), Command::SaveSettings(3, true)]
    );
    assert!(d.tick(&still(4 * SEC + 300_000), &config()).is_empty());
    let up = Inputs { a: true, ..still(4 * SEC + 500_000) };
    assert_eq!(d.tick(&up, &config())[0], Command::SetLight(4));
    assert!(d.tick(&still(4 * SEC + 1_050_000), &config()).is_empty());
    assert_eq!(
        d.tick(&still(4 * SEC + 1_100_000), &config()),
        vec![Command::Draw(Screen::Settings)]
    );
    assert_eq!(d.buttons().knobs.brightness, 4);
}

#[test]
fn the_device_dims_its_light() {
    let mut d = device();
    d.tick(&still(0), &config());
    assert_eq!(d.tick(&still(30 * SEC), &config()), vec![Command::SetLight(0)]);
    let a = Inputs { a: true, ..still(31 * SEC) };
    assert_eq!(
        d.tick(&a, &config()),
        vec![Command::SetLight(2), Command::Draw(Screen::Trail)]
    );
}

#[test]
fn without_saved_settings_the_light_is_as_found() {
    let d: Device<4> = Device::new(None, 3, None, None, false, 0);
    assert_eq!(d.buttons().knobs.brightness, 3);
    assert!(d.light().auto_off);
    assert_eq!(d.card(), SdState::NoCard);
}

#[test]
fn idle_turns_draw_nothing() {
    let mut d = device();
    d.tick(&still(0), &config());
    d.tick(&Inputs { heard: heard(frame(3, 1, 2, true), false), ..still(SEC) }, &config());
    d.drawn(SEC);
    for k in 2..25 {
        let out = d.tick(&still(k * SEC), &config());
        assert!(!out.contains(&Command::Draw(Screen::Trail)));
    }
    assert_eq!(d.track().trail().len(), 1);
    let i = Inputs { finger: Some((5, 5)), ..still(26 * SEC) };
    assert!(d.tick(&i, &config()).is_empty());
    assert!(d.touching());
}
