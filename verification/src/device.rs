//! The device as a whole: one turn of its main loop, from what was read to what is to be
//! done.
//!
//! A turn takes in, in this order, a frame, the buttons and the finger; then it attends to
//! the front light, the status light and the page. Before some turns the voltages are
//! looked at. Nothing is read or written here: a turn gives back the commands to carry
//! out, in order.

use vstd::prelude::*;

use crate::frame::NostosFrame;
use crate::led::{Led, LedInputs, Rgb};
use crate::nav::GeoPoint;
use crate::receiver::{Event, Health, Track, TrackState, STALE_REDRAW_SECS};
use crate::ui;
use crate::ui::{
    Buttons, Deed, Gesture, Layout, Light, Pressed, Redraw, Scene, Screen, SdState, Shown, Touch,
};

verus! {

/// Turns from one reading of the voltages to the next.
pub const POWER_TURNS: u32 = 100;

/// Turns from one report on the radio to the next.
pub const DEBUG_TURNS: u32 = 1200;

/// Zoom step at the start.
pub const FIRST_SCALE: usize = 1;

/// Something to carry out.
#[derive(Debug, Clone, Copy, PartialEq, Eq, Structural)]
pub enum Command {
    /// Log the device's health, with the step of the front light that is in effect.
    LogStatus(Event, u8),
    /// Log the frame.
    LogFrame,
    /// Set the front light to a step.
    SetLight(u8),
    /// Save the brightness step, and whether the light goes off by itself.
    SaveSettings(u8, bool),
    /// Move the map by so many points right and down.
    Pan(i32, i32),
    /// Click, so that the user knows of the change of screens.
    Click,
    /// Switch the device off.
    PowerOff,
    /// Start the device anew with its supplies on.
    WarmReset,
    /// Let go of the card.
    StopLogging,
    /// Set the status light.
    WriteLed(bool, bool, bool),
    /// Draw a screen.
    Draw(Screen),
}

/// What the device is told once.
#[derive(Debug, Clone, Copy)]
pub struct Config {
    /// The bit that marks frames that announce the start.
    pub home_flag: u8,
    /// Supply voltage from which on there is a supply, in millivolts.
    pub vin_present_mv: u16,
    /// Where the screens have something to tap.
    pub layout: Layout,
}

/// A frame as it was received, and whether it is more than a metre from the start known
/// so far.
#[derive(Debug, Clone, Copy)]
pub struct Heard {
    pub frame: NostosFrame,
    pub moved: bool,
    pub rssi: i16,
    pub snr: i8,
}

/// What was read in a turn.
#[derive(Debug, Clone, Copy)]
pub struct Inputs {
    /// Microseconds since the start.
    pub now_us: u64,
    /// A frame, where one came.
    pub heard: Option<Heard>,
    /// Whether button A is down.
    pub a: bool,
    /// Whether button B is down.
    pub b: bool,
    /// Where the finger is, if there is one.
    pub finger: Option<(i32, i32)>,
}

/// The device.
pub struct Device<const N: usize> {
    track: Track<N>,
    health: Health,
    shown: Shown,
    buttons: Buttons,
    touch: Touch,
    light: Light,
    redraw: Redraw,
    led: Led,
    vbat_mv: Option<u16>,
    vin_mv: Option<u16>,
    turns: u32,
    logging: bool,
    ejected: bool,
}

/// The device, apart from how it is stored.
pub struct DeviceState {
    pub track: TrackState,
    pub health: Health,
    pub shown: Shown,
    pub buttons: Buttons,
    pub touch: Touch,
    pub light: Light,
    pub redraw: Redraw,
    pub led: Rgb,
    pub vbat_mv: Option<u16>,
    pub vin_mv: Option<u16>,
    pub turns: u32,
    pub logging: bool,
    pub ejected: bool,
}

impl<const N: usize> View for Device<N> {
    type V = DeviceState;

    closed spec fn view(&self) -> DeviceState {
        DeviceState {
            track: self.track@,
            health: self.health,
            shown: self.shown,
            buttons: self.buttons,
            touch: self.touch,
            light: self.light,
            redraw: self.redraw,
            led: self.led@,
            vbat_mv: self.vbat_mv,
            vin_mv: self.vin_mv,
            turns: self.turns,
            logging: self.logging,
            ejected: self.ejected,
        }
    }
}

impl DeviceState {
    /// The event that voltages or the time bring.
    pub open spec fn power_event(self, vbat_mv: Option<u16>, now_us: u64) -> Option<Event> {
        let lost = self.track.age(now_us) matches Some(a) && a >= STALE_REDRAW_SECS;
        self.health.event(now_us, crate::led::is_low(vbat_mv), lost)
    }

    /// After the voltages were looked at: they are kept, and the event that they or the time
    /// bring counts as logged.
    pub open spec fn after_power(
        self,
        vbat_mv: Option<u16>,
        vin_mv: Option<u16>,
        now_us: u64,
    ) -> Self {
        let lost = self.track.age(now_us) matches Some(a) && a >= STALE_REDRAW_SECS;
        DeviceState {
            vbat_mv,
            vin_mv,
            health: self.health.checked(now_us, crate::led::is_low(vbat_mv), lost),
            ..self
        }
    }

    /// Steps that exist, and times that are not in the future.
    pub open spec fn valid(self, now_us: u64) -> bool {
        &&& now_us <= u64::MAX / 2
        &&& self.track.before(now_us)
        &&& self.health.last_us <= now_us
        &&& self.shown.since_us <= now_us
        &&& self.touch.valid(now_us)
        &&& self.light.input_us <= now_us
        &&& self.redraw.drawn_us <= now_us
        &&& self.buttons.knobs.valid()
        &&& self.turns < DEBUG_TURNS
    }

    /// The step of the front light that is in effect.
    pub open spec fn light_step(self) -> u8 {
        self.light.in_effect(self.buttons.knobs.brightness)
    }

    /// What a gesture depends on.
    pub open spec fn scene(self, now_us: u64) -> Scene {
        Scene {
            screen: self.shown.screen,
            tabs_ready: ui::passed_ms(self.shown.since_us, now_us, ui::TAB_GUARD_MS),
            logging: self.logging,
            panned: self.track.view_center is Some,
            centered: self.track.view_center is Some || self.track.trail.len() > 0
                || self.track.home is Some,
        }
    }

    /// What the status light depends on.
    pub open spec fn led_inputs(self, c: Config, now_us: u64) -> LedInputs {
        LedInputs {
            age_secs: self.track.age(now_us),
            rx_ms: match self.track.last_rx_us {
                Some(t) => Some(((now_us - t) / 1_000) as u64),
                None => None,
            },
            vbat_mv: self.vbat_mv,
            vin_mv: self.vin_mv,
            stale_secs: STALE_REDRAW_SECS,
            vin_present_mv: c.vin_present_mv,
        }
    }
}

/// The brightness step and whether the light goes off by itself at the start.
pub open spec fn first_settings(settings: Option<(u8, bool)>, step: u8) -> (u8, bool) {
    match settings {
        Some(s) => s,
        None => (step, true),
    }
}

/// The count of turns after one more.
pub open spec fn counted(turns: u32) -> int {
    (turns + 1) % (DEBUG_TURNS as int)
}

/// Whether the voltages are to be looked at before the next turn.
pub open spec fn power_due(turns: u32) -> bool {
    (turns + 1) % (POWER_TURNS as int) == 0
}

/// Whether the radio is to be reported on at the next turn.
pub open spec fn debug_due(turns: u32) -> bool {
    turns + 1 == DEBUG_TURNS
}

/// A turn so far: the device, the commands, whether the page is to be drawn and whether
/// the user did something.
pub struct Turn {
    pub device: DeviceState,
    pub out: Seq<Command>,
    pub asked: bool,
    pub input: bool,
}

impl Turn {
    /// With a command added.
    pub open spec fn with(self, c: Command) -> Self {
        Turn { out: self.out.push(c), ..self }
    }

    /// A frame: it is taken in, logged where lines are logged, and shown.
    pub open spec fn after_heard(self, h: Option<Heard>, c: Config, now_us: u64, cap: int) -> Self {
        match h {
            None => self,
            Some(h) => {
                let d = self.device;
                let t = Turn {
                    device: DeviceState {
                        track: d.track.after_frame(
                            h.frame,
                            c.home_flag,
                            h.moved,
                            h.rssi,
                            h.snr,
                            now_us,
                            cap,
                        ),
                        health: Health { rx_lost_logged: false, ..d.health },
                        ..d
                    },
                    asked: true,
                    ..self
                };
                if d.logging {
                    t.with(Command::LogFrame)
                } else {
                    t
                }
            },
        }
    }

    /// The buttons, for what a look at them has done: a new brightness is set and saved at
    /// once, and shown when the user has stopped; a new zoom is shown at once.
    pub open spec fn after_buttons(self, a: bool, b: bool, p: Pressed, now_us: u64) -> Self {
        let d = self.device;
        let settings = d.shown.screen == Screen::Settings;
        let knobs = d.buttons.turned(a, b, settings);
        let t = Turn {
            device: DeviceState {
                buttons: Buttons { knobs, a, b },
                redraw: if p.lit {
                    Redraw {
                        wanted_us: Some(
                            (now_us + ui::BRIGHTNESS_REDRAW_DELAY_MS * 1000) as u64,
                        ),
                        ..d.redraw
                    }
                } else {
                    d.redraw
                },
                ..d
            },
            asked: self.asked || p.zoomed,
            input: self.input || p.input,
            ..self
        };
        if p.lit {
            t.with(Command::SetLight(knobs.brightness)).with(
                Command::SaveSettings(knobs.brightness, d.light.auto_off),
            )
        } else {
            t
        }
    }

    /// A gesture: what it does.
    pub open spec fn after_deed(self, deed: Deed, now_us: u64) -> Self {
        let d = self.device;
        let asked = Turn { asked: true, ..self };
        match deed {
            Deed::Nothing => self,
            Deed::Pan(dx, dy) => asked.with(Command::Pan(dx, dy)),
            Deed::Recenter => Turn {
                device: DeviceState { track: TrackState { view_center: None, ..d.track }, ..d },
                ..asked
            },
            Deed::PowerOff => self.with(Command::PowerOff),
            Deed::Show(screen) => Turn {
                device: DeviceState { shown: Shown { screen, since_us: now_us }, ..d },
                ..asked
            }.with(Command::Click),
            Deed::ToggleAutoOff => Turn {
                device: DeviceState {
                    light: Light { auto_off: !d.light.auto_off, ..d.light },
                    ..d
                },
                ..asked
            }.with(Command::SaveSettings(d.buttons.knobs.brightness, !d.light.auto_off)),
            Deed::WarmReset => self.with(Command::WarmReset),
            Deed::EjectCard => Turn {
                device: DeviceState {
                    health: Health { last_us: now_us, ..d.health },
                    logging: false,
                    ejected: true,
                    ..d
                },
                ..asked
            }.with(Command::LogStatus(Event::SdEject, d.light_step())).with(Command::StopLogging),
        }
    }

    /// The finger: when a touch is over, what it was is done.
    pub open spec fn after_finger(self, p: Option<(i32, i32)>, c: Config, now_us: u64) -> Self {
        let d = self.device;
        let t = Turn { device: DeviceState { touch: d.touch.seen(p, now_us), ..d }, ..self };
        if d.touch.released(p) {
            let deed = ui::deed_of(d.touch.gesture(now_us), d.scene(now_us), c.layout);
            Turn { input: true, ..t }.after_deed(deed, now_us)
        } else {
            t
        }
    }

    /// The front light: it goes off when the user does nothing, and comes back.
    pub open spec fn after_light(self, now_us: u64) -> Self {
        let d = self.device;
        let step = d.buttons.knobs.brightness;
        let t = Turn {
            device: DeviceState { light: d.light.attended(self.input, step, now_us), ..d },
            ..self
        };
        if self.input && d.light.dimmed && step > 0 {
            t.with(Command::SetLight(step))
        } else if d.light.goes_off(self.input, step, now_us) {
            t.with(Command::SetLight(0))
        } else {
            t
        }
    }

    /// The status light, which is written where its colour changes.
    pub open spec fn after_led(self, c: Config, now_us: u64) -> Self {
        let d = self.device;
        let color = d.led_inputs(c, now_us).color((now_us as int / 1000) as u64);
        let t = Turn { device: DeviceState { led: color, ..d }, ..self };
        if d.led == color {
            t
        } else {
            t.with(Command::WriteLed(color.0, color.1, color.2))
        }
    }

    /// The page, which is drawn where that is due.
    pub open spec fn after_page(self, now_us: u64) -> Self {
        let d = self.device;
        if d.redraw.is_due(self.asked, d.track.last_rx_us is Some, now_us) {
            self.with(Command::Draw(d.shown.screen))
        } else {
            self
        }
    }
}

/// One turn.
pub open spec fn turn(d: DeviceState, i: Inputs, c: Config, cap: int) -> Turn {
    let start = Turn { device: d, out: Seq::empty(), asked: false, input: false };
    let t = start.after_heard(i.heard, c, i.now_us, cap);
    let p = t.device.buttons.pressed(
        i.a,
        i.b,
        t.device.shown.screen == Screen::Settings,
    );
    t.after_buttons(i.a, i.b, p, i.now_us).after_finger(i.finger, c, i.now_us).after_light(
        i.now_us,
    ).after_led(c, i.now_us).after_page(i.now_us)
}

/// A turn so far, as it is carried through the loop.
struct Work {
    out: Vec<Command>,
    asked: bool,
    input: bool,
}

impl Work {
    /// The turn so far.
    spec fn turn(self, d: DeviceState) -> Turn {
        Turn { device: d, out: self.out@, asked: self.asked, input: self.input }
    }
}

impl<const N: usize> Device<N> {
    /// Looks at the voltages. Gives the event to log, if there is one, with the step of
    /// the front light that is in effect.
    pub fn check_power(&mut self, vbat_mv: Option<u16>, vin_mv: Option<u16>, now_us: u64) -> (e:
        Option<(Event, u8)>)
        requires
            old(self)@.valid(now_us),
        ensures
            final(self)@ == old(self)@.after_power(vbat_mv, vin_mv, now_us),
            final(self)@.valid(now_us),
            e == (match old(self)@.power_event(vbat_mv, now_us) {
                Some(event) => Some((event, old(self)@.light_step())),
                None => None,
            }),
    {
        self.vbat_mv = vbat_mv;
        self.vin_mv = vin_mv;
        let step: u8 = self.light.effective(self.buttons.knobs.brightness);
        let age: Option<u64> = self.track.age_secs(now_us);
        match self.health.check(now_us, vbat_mv, age) {
            Some(event) => Some((event, step)),
            None => None,
        }
    }

    /// Takes in a frame.
    fn take_heard(&mut self, w: &mut Work, heard: Option<Heard>, c: &Config, now_us: u64)
        requires
            old(self)@.valid(now_us),
            N > 0,
        ensures
            final(self)@.valid(now_us),
            final(w).turn(final(self)@) == old(w).turn(old(self)@).after_heard(
                heard,
                *c,
                now_us,
                N as int,
            ),
    {
        if let Some(h) = heard {
            let _ = self.track.receive(&h.frame, c.home_flag, h.moved, h.rssi, h.snr, now_us);
            self.health.frame_received();
            w.asked = true;
            if self.logging {
                w.out.push(Command::LogFrame);
            }
        }
    }

    /// Takes in the buttons.
    fn take_buttons(&mut self, w: &mut Work, a: bool, b: bool, now_us: u64)
        requires
            old(self)@.valid(now_us),
        ensures
            final(self)@.valid(now_us),
            final(w).turn(final(self)@) == old(w).turn(old(self)@).after_buttons(
                a,
                b,
                old(self)@.buttons.pressed(
                    a,
                    b,
                    old(self)@.shown.screen == Screen::Settings,
                ),
                now_us,
            ),
    {
        let settings: bool = self.shown.screen == Screen::Settings;
        let p: Pressed = self.buttons.look(a, b, settings);
        if p.lit {
            let step: u8 = self.buttons.knobs.brightness;
            w.out.push(Command::SetLight(step));
            w.out.push(Command::SaveSettings(step, self.light.auto_off));
            self.redraw.brightness_changed(now_us);
        }
        w.asked = w.asked || p.zoomed;
        w.input = w.input || p.input;
    }

    /// Does what a gesture says.
    fn do_deed(&mut self, w: &mut Work, deed: Deed, now_us: u64)
        requires
            old(self)@.valid(now_us),
        ensures
            final(self)@.valid(now_us),
            final(w).turn(final(self)@) == old(w).turn(old(self)@).after_deed(deed, now_us),
    {
        match deed {
            Deed::Nothing => {},
            Deed::Pan(dx, dy) => {
                w.asked = true;
                w.out.push(Command::Pan(dx, dy));
            },
            Deed::Recenter => {
                w.asked = true;
                let _ = self.track.recenter();
            },
            Deed::PowerOff => {
                w.out.push(Command::PowerOff);
            },
            Deed::Show(screen) => {
                w.asked = true;
                self.shown.show(screen, now_us);
                w.out.push(Command::Click);
            },
            Deed::ToggleAutoOff => {
                w.asked = true;
                self.light.toggle_auto_off();
                w.out.push(
                    Command::SaveSettings(self.buttons.knobs.brightness, self.light.auto_off),
                );
            },
            Deed::WarmReset => {
                w.out.push(Command::WarmReset);
            },
            Deed::EjectCard => {
                w.asked = true;
                let step: u8 = self.light.effective(self.buttons.knobs.brightness);
                w.out.push(Command::LogStatus(Event::SdEject, step));
                w.out.push(Command::StopLogging);
                self.health.logged(now_us);
                self.logging = false;
                self.ejected = true;
            },
        }
    }

    /// Takes in the finger.
    fn take_finger(&mut self, w: &mut Work, p: Option<(i32, i32)>, c: &Config, now_us: u64)
        requires
            old(self)@.valid(now_us),
            p matches Some((x, y)) ==> 0 <= x <= i16::MAX && 0 <= y <= i16::MAX,
        ensures
            final(self)@.valid(now_us),
            final(w).turn(final(self)@) == old(w).turn(old(self)@).after_finger(p, *c, now_us),
    {
        let scene = Scene {
            screen: self.shown.screen,
            tabs_ready: self.shown.tabs_ready(now_us),
            logging: self.logging,
            panned: self.track.panned(),
            centered: self.track.center().is_some(),
        };
        assert(scene == old(self)@.scene(now_us));
        let g: Option<Gesture> = self.touch.look(p, now_us);
        if let Some(g) = g {
            w.input = true;
            let deed: Deed = ui::deed(g, &scene, &c.layout);
            self.do_deed(w, deed, now_us);
        }
    }

    /// Attends to the front light.
    fn tend_light(&mut self, w: &mut Work, now_us: u64)
        requires
            old(self)@.valid(now_us),
        ensures
            final(self)@.valid(now_us),
            final(w).turn(final(self)@) == old(w).turn(old(self)@).after_light(now_us),
    {
        if let Some(step) = self.light.attend(w.input, self.buttons.knobs.brightness, now_us) {
            w.out.push(Command::SetLight(step));
        }
    }

    /// Attends to the status light.
    fn tend_led(&mut self, w: &mut Work, c: &Config, now_us: u64)
        requires
            old(self)@.valid(now_us),
        ensures
            final(self)@.valid(now_us),
            final(w).turn(final(self)@) == old(w).turn(old(self)@).after_led(*c, now_us),
    {
        let st = LedInputs {
            age_secs: self.track.age_secs(now_us),
            rx_ms: self.track.age_ms(now_us),
            vbat_mv: self.vbat_mv,
            vin_mv: self.vin_mv,
            stale_secs: STALE_REDRAW_SECS,
            vin_present_mv: c.vin_present_mv,
        };
        if let Some((r, g, b)) = self.led.update(&st, now_us / 1000) {
            w.out.push(Command::WriteLed(r, g, b));
        }
    }

    /// One turn of the main loop: what was read in, what is to be done out.
    pub fn tick(&mut self, i: &Inputs, c: &Config) -> (out: Vec<Command>)
        requires
            N > 0,
            old(self)@.valid(i.now_us),
            i.finger matches Some((x, y)) ==> 0 <= x <= i16::MAX && 0 <= y <= i16::MAX,
        ensures
            final(self)@.valid(i.now_us),
            final(self)@ == turn(old(self)@, *i, *c, N as int).device,
            out@ == turn(old(self)@, *i, *c, N as int).out,
    {
        let now_us: u64 = i.now_us;
        let mut w = Work { out: Vec::new(), asked: false, input: false };
        self.take_heard(&mut w, i.heard, c, now_us);
        self.take_buttons(&mut w, i.a, i.b, now_us);
        self.take_finger(&mut w, i.finger, c, now_us);
        self.tend_light(&mut w, now_us);
        self.tend_led(&mut w, c, now_us);
        if self.redraw.due(w.asked, self.track.has_received(), now_us) {
            w.out.push(Command::Draw(self.shown.screen));
        }
        w.out
    }

    /// The device at the start. `settings` are the saved brightness step and whether the
    /// light goes off by itself; without them the light is taken to be at `step`, and to go
    /// off by itself. `logging` says whether there is a card.
    pub fn new(
        settings: Option<(u8, bool)>,
        step: u8,
        vbat_mv: Option<u16>,
        vin_mv: Option<u16>,
        logging: bool,
        now_us: u64,
    ) -> (d: Self)
        requires
            now_us <= u64::MAX / 2,
            step <= ui::BRIGHTNESS_TOP,
            settings matches Some((s, _)) ==> s <= ui::BRIGHTNESS_TOP,
        ensures
            d@.valid(now_us),
            d@.track.trail == Seq::<GeoPoint>::empty(),
            d@.track.home is None,
            d@.track.view_center is None,
            d@.track.last is None,
            d@.track.last_rx_us is None,
            d@.track.rx_count == 0,
            d@.health == (Health {
                last_us: now_us,
                low_batt_logged: false,
                rx_lost_logged: false,
            }),
            d@.shown == (Shown { screen: Screen::Trail, since_us: now_us }),
            d@.buttons.knobs.scale == FIRST_SCALE,
            d@.buttons.knobs.brightness == (match settings {
                Some((s, _)) => s,
                None => step,
            }),
            !d@.buttons.a && !d@.buttons.b,
            d@.touch == (Touch {
                active: false,
                x0: 0,
                y0: 0,
                x: 0,
                y: 0,
                since_us: now_us,
                idle: 0,
            }),
            d@.light == (Light {
                auto_off: (match settings {
                    Some((_, a)) => a,
                    None => true,
                }),
                dimmed: false,
                input_us: now_us,
            }),
            (d@.buttons.knobs.brightness, d@.light.auto_off) == first_settings(settings, step),
            d@.redraw == (Redraw { drawn_us: now_us, wanted_us: None }),
            d@.led == (true, true, true),
            d@.vbat_mv == vbat_mv,
            d@.vin_mv == vin_mv,
            d@.turns == 0,
            d@.logging == logging,
            !d@.ejected,
    {
        let (brightness, auto_off): (u8, bool) = match settings {
            Some(s) => s,
            None => (step, true),
        };
        Device {
            track: Track::new(),
            health: Health::new(now_us),
            shown: Shown::new(now_us),
            buttons: Buttons::new(FIRST_SCALE, brightness),
            touch: Touch::new(now_us),
            light: Light::new(auto_off, now_us),
            redraw: Redraw::new(now_us),
            led: Led::new(),
            vbat_mv,
            vin_mv,
            turns: 0,
            logging,
            ejected: false,
        }
    }

    /// Counts a turn. Says whether the voltages are to be looked at before it, and whether
    /// the radio is to be reported on.
    pub fn count_turn(&mut self) -> (due: (bool, bool))
        requires
            old(self)@.turns < DEBUG_TURNS,
        ensures
            final(self)@ == (DeviceState {
                turns: ((old(self)@.turns + 1) % (DEBUG_TURNS as int)) as u32,
                ..old(self)@
            }),
            due.0 == ((old(self)@.turns + 1) % (POWER_TURNS as int) == 0),
            due.1 == (old(self)@.turns + 1 == DEBUG_TURNS),
            final(self)@.turns == counted(old(self)@.turns),
            due == (power_due(old(self)@.turns), debug_due(old(self)@.turns)),
    {
        let n: u32 = self.turns + 1;
        self.turns = n % DEBUG_TURNS;
        (n % POWER_TURNS == 0, n == DEBUG_TURNS)
    }

    /// What was received.
    pub fn track(&self) -> (t: &Track<N>)
        ensures
            t@ == self@.track,
    {
        &self.track
    }

    /// The buttons.
    pub fn buttons(&self) -> (b: Buttons)
        ensures
            b == self@.buttons,
    {
        self.buttons
    }

    /// The front light.
    pub fn light(&self) -> (l: Light)
        ensures
            l == self@.light,
    {
        self.light
    }

    /// Battery and supply voltage as they were last read.
    pub fn voltages(&self) -> (v: (Option<u16>, Option<u16>))
        ensures
            v == (self@.vbat_mv, self@.vin_mv),
    {
        (self.vbat_mv, self.vin_mv)
    }

    /// State of the memory card.
    pub fn card(&self) -> (s: SdState)
        ensures
            s == (if self@.logging {
                SdState::Logging
            } else if self@.ejected {
                SdState::Ejected
            } else {
                SdState::NoCard
            }),
            s == ui::card_state(self@.logging, self@.ejected),
    {
        ui::sd_state(self.logging, self.ejected)
    }

    /// Whether a touch is under way, and the finger is to be looked for.
    pub fn touching(&self) -> (yes: bool)
        ensures
            yes == self@.touch.active,
    {
        self.touch.active
    }

    /// Moves the map's centre.
    pub fn pan_to(&mut self, c: GeoPoint)
        ensures
            final(self)@ == (DeviceState {
                track: TrackState { view_center: Some(c), ..old(self)@.track },
                ..old(self)@
            }),
            final(self)@.track == old(self)@.track.centred_on(Some(c)),
    {
        self.track.pan_to(c);
    }

    /// Takes down that the page was drawn.
    pub fn drawn(&mut self, now_us: u64)
        ensures
            final(self)@ == (DeviceState {
                redraw: Redraw { drawn_us: now_us, wanted_us: None },
                ..old(self)@
            }),
            final(self)@.redraw == old(self)@.redraw.done(now_us),
    {
        self.redraw.drawn(now_us);
    }
}

/// A turn in which nothing was logged of a frame, and no card is in use.
spec fn quiet(t: Turn) -> bool {
    !t.device.logging && !t.out.contains(Command::LogFrame)
}

proof fn lemma_quiet_push(out: Seq<Command>, c: Command)
    requires
        !out.contains(Command::LogFrame),
        c != Command::LogFrame,
    ensures
        !out.push(c).contains(Command::LogFrame),
{
    if out.push(c).contains(Command::LogFrame) {
        let k = out.push(c).index_of(Command::LogFrame);
        assert(k < out.len() ==> out[k] == Command::LogFrame);
    }
}

proof fn lemma_quiet_deed(t: Turn, deed: Deed, now_us: u64)
    requires
        quiet(t),
    ensures
        quiet(t.after_deed(deed, now_us)),
{
    assert forall|out: Seq<Command>, c: Command|
        !out.contains(Command::LogFrame) && c != Command::LogFrame implies !(#[trigger] out.push(
        c,
    )).contains(Command::LogFrame) by {
        lemma_quiet_push(out, c);
    }
}

/// Once the card was let go of, or where there is none, no frame is logged any more,
/// whatever comes in; and no turn takes the card into use again.
pub proof fn law_card_is_left_alone(d: DeviceState, i: Inputs, c: Config, cap: int)
    requires
        !d.logging,
    ensures
        !turn(d, i, c, cap).device.logging,
        !turn(d, i, c, cap).out.contains(Command::LogFrame),
{
    assert forall|out: Seq<Command>, c: Command|
        !out.contains(Command::LogFrame) && c != Command::LogFrame implies !(#[trigger] out.push(
        c,
    )).contains(Command::LogFrame) by {
        lemma_quiet_push(out, c);
    }
    let start = Turn { device: d, out: Seq::empty(), asked: false, input: false };
    let t1 = start.after_heard(i.heard, c, i.now_us, cap);
    let p = t1.device.buttons.pressed(
        i.a,
        i.b,
        t1.device.shown.screen == Screen::Settings,
    );
    let t2 = t1.after_buttons(i.a, i.b, p, i.now_us);
    let t3 = t2.after_finger(i.finger, c, i.now_us);
    assert(quiet(t1));
    assert(quiet(t2));
    let e = t2.device;
    if e.touch.released(i.finger) {
        let deed = ui::deed_of(e.touch.gesture(i.now_us), e.scene(i.now_us), c.layout);
        let t = Turn {
            device: DeviceState { touch: e.touch.seen(i.finger, i.now_us), ..e },
            input: true,
            ..t2
        };
        lemma_quiet_deed(t, deed, i.now_us);
    }
    assert(quiet(t3));
    let t4 = t3.after_light(i.now_us);
    assert(quiet(t4));
    let t5 = t4.after_led(c, i.now_us);
    assert(quiet(t5));
}

/// A turn in which no frame came and the user did nothing.
pub open spec fn idle(d: DeviceState, i: Inputs) -> bool {
    &&& i.heard is None
    &&& !(i.a && !d.buttons.a) && !(i.b && !d.buttons.b)
    &&& i.finger is None && !d.touch.active
}

/// In a turn in which no frame came and the user did nothing, the page is drawn only for a
/// brightness changed before, or where frames came once and the page is old; and the trail,
/// the screen, the zoom and the card stay as they are.
pub proof fn law_idle_turns_draw_little(d: DeviceState, i: Inputs, c: Config, cap: int)
    requires
        idle(d, i),
    ensures
        ({
            let t = turn(d, i, c, cap);
            &&& (exists|s: Screen| t.out.contains(Command::Draw(s))) ==> d.redraw.is_due(
                false,
                d.track.last_rx_us is Some,
                i.now_us,
            )
            &&& t.device.track == d.track
            &&& t.device.shown == d.shown
            &&& t.device.buttons.knobs == d.buttons.knobs
            &&& t.device.logging == d.logging
        }),
{
    let t = turn(d, i, c, cap);
    if exists|s: Screen| t.out.contains(Command::Draw(s)) {
        let s = choose|s: Screen| t.out.contains(Command::Draw(s));
        let k = t.out.index_of(Command::Draw(s));
        assert(t.out[k] == Command::Draw(s));
    }
}

/// A frame is always shown: the turn in which it comes ends with drawing the page.
pub proof fn law_frames_are_shown(d: DeviceState, i: Inputs, c: Config, cap: int)
    requires
        i.heard is Some,
    ensures
        turn(d, i, c, cap).out.len() > 0,
        turn(d, i, c, cap).out.last() == Command::Draw(turn(d, i, c, cap).device.shown.screen),
{
    let start = Turn { device: d, out: Seq::empty(), asked: false, input: false };
    let t1 = start.after_heard(i.heard, c, i.now_us, cap);
    let p = t1.device.buttons.pressed(
        i.a,
        i.b,
        t1.device.shown.screen == Screen::Settings,
    );
    let t2 = t1.after_buttons(i.a, i.b, p, i.now_us);
    let t3 = t2.after_finger(i.finger, c, i.now_us);
    assert(t3.asked);
    let t5 = t3.after_light(i.now_us).after_led(c, i.now_us);
    assert(t5.asked);
}

/// Turns are counted from 0 to 1199 and then again from 0. The voltages are looked at every
/// hundredth turn, and the radio is reported on when the count starts again.
pub proof fn law_turns_are_counted(turns: u32)
    requires
        turns < 1200,
    ensures
        turns < 1199 ==> counted(turns) == turns + 1,
        turns == 1199 ==> counted(turns) == 0,
        debug_due(turns) <==> counted(turns) == 0,
        power_due(turns) <==> counted(turns) % 100 == 0,
{
}

/// What a gesture depends on is read off the device: the screen that is shown, and whether
/// it is for a second and a half or more; whether the card is in use; whether the map was
/// moved, and whether there is a place to move it from.
pub proof fn law_scene_is_the_device(d: DeviceState, now_us: u64)
    ensures
        d.scene(now_us).screen == d.shown.screen,
        d.scene(now_us).tabs_ready <==> now_us >= d.shown.since_us + 1_500_000,
        d.scene(now_us).logging == d.logging,
        d.scene(now_us).panned <==> d.track.view_center is Some,
        d.scene(now_us).centered <==> d.track.center() is Some,
{
}

/// What the status light depends on is read off the device: the age of the newest frame in
/// seconds and in milliseconds, three minutes after which it is stale, and the voltages.
pub proof fn law_led_sees_the_device(d: DeviceState, c: Config, now_us: u64)
    requires
        d.track.before(now_us),
    ensures
        ({
            let i = d.led_inputs(c, now_us);
            &&& i.age_secs == d.track.age(now_us)
            &&& i.rx_ms == d.track.age_ms(now_us)
            &&& i.vbat_mv == d.vbat_mv
            &&& i.vin_mv == d.vin_mv
            &&& i.stale_secs == 180
            &&& i.vin_present_mv == c.vin_present_mv
        }),
{
}

/// Looking at the voltages keeps them and logs what they, the age of the newest frame or the
/// time bring, once; nothing else of the device changes.
pub proof fn law_voltages_are_kept(
    d: DeviceState,
    vbat_mv: Option<u16>,
    vin_mv: Option<u16>,
    now_us: u64,
)
    ensures
        ({
            let e = d.after_power(vbat_mv, vin_mv, now_us);
            let low = crate::led::is_low(vbat_mv);
            let lost = crate::receiver::is_lost(d.track.age(now_us));
            &&& e.vbat_mv == vbat_mv
            &&& e.vin_mv == vin_mv
            &&& e.health == d.health.checked(now_us, low, lost)
            &&& d.power_event(vbat_mv, now_us) == d.health.event(now_us, low, lost)
            &&& e.track == d.track && e.shown == d.shown && e.buttons == d.buttons && e.touch
                == d.touch && e.light == d.light && e.redraw == d.redraw && e.led == d.led
            &&& e.turns == d.turns && e.logging == d.logging && e.ejected == d.ejected
        }),
{
}

/// A frame that is heard is taken in with how well it was heard, makes lost reception a thing
/// to be logged anew, asks for the page, and is logged exactly while the card is in use; it
/// changes nothing else. Without one nothing happens.
pub proof fn law_heard_is_taken_in(t: Turn, h: Heard, c: Config, now_us: u64, cap: int)
    ensures
        t.after_heard(None, c, now_us, cap) == t,
        ({
            let u = t.after_heard(Some(h), c, now_us, cap);
            let d = t.device;
            let e = u.device;
            &&& e.track.last matches Some(rx) && {
                &&& rx.lat_e7 == h.frame.lat_e7 && rx.lon_e7 == h.frame.lon_e7
                &&& rx.seq == h.frame.seq && rx.time_unix == h.frame.time_unix
                &&& rx.rssi == h.rssi && rx.snr == h.snr
            }
            &&& e.track.last_rx_us == Some(now_us)
            &&& e.track == d.track.after_frame(
                h.frame,
                c.home_flag,
                h.moved,
                h.rssi,
                h.snr,
                now_us,
                cap,
            )
            &&& !e.health.rx_lost_logged
            &&& e.health.last_us == d.health.last_us && e.health.low_batt_logged
                == d.health.low_batt_logged
            &&& e.shown == d.shown && e.buttons == d.buttons && e.touch == d.touch && e.light
                == d.light && e.redraw == d.redraw && e.led == d.led
            &&& e.vbat_mv == d.vbat_mv && e.vin_mv == d.vin_mv && e.turns == d.turns && e.logging
                == d.logging && e.ejected == d.ejected
            &&& u.asked && u.input == t.input
            &&& d.logging ==> u.out == t.out.push(Command::LogFrame)
            &&& !d.logging ==> u.out == t.out
        }),
{
}

/// What the buttons changed is done: a new brightness is set, saved and shown 600 ms later, a
/// new zoom is shown at once, and nothing else of the device changes.
pub proof fn law_buttons_are_obeyed(t: Turn, a: bool, b: bool, now_us: u64)
    requires
        now_us <= u64::MAX / 2,
    ensures
        ({
            let d = t.device;
            let settings = d.shown.screen == Screen::Settings;
            let p = d.buttons.pressed(a, b, settings);
            let u = t.after_buttons(a, b, p, now_us);
            let e = u.device;
            let step = e.buttons.knobs.brightness;
            &&& e.buttons.a == a && e.buttons.b == b
            &&& e.buttons.knobs == d.buttons.turned(a, b, settings)
            &&& p.lit ==> u.out == t.out.push(Command::SetLight(step)).push(
                Command::SaveSettings(step, d.light.auto_off),
            )
            &&& !p.lit ==> u.out == t.out && e.redraw == d.redraw
            &&& p.lit ==> e.redraw.drawn_us == d.redraw.drawn_us && (
            e.redraw.wanted_us matches Some(w) && w == now_us + 600_000)
            &&& u.asked <==> t.asked || p.zoomed
            &&& u.input <==> t.input || p.input
            &&& e.track == d.track && e.health == d.health && e.shown == d.shown && e.touch
                == d.touch && e.light == d.light && e.led == d.led
            &&& e.vbat_mv == d.vbat_mv && e.vin_mv == d.vin_mv && e.turns == d.turns && e.logging
                == d.logging && e.ejected == d.ejected
        }),
{
}

/// What a deed does to the device and has carried out. Switching off and starting anew are
/// left to be carried out alone; every other deed shows what it did.
pub proof fn law_deeds_are_done(t: Turn, deed: Deed, now_us: u64)
    ensures
        ({
            let u = t.after_deed(deed, now_us);
            let d = t.device;
            let e = u.device;
            &&& u.input == t.input
            &&& u.asked <==> t.asked || !(deed == Deed::Nothing || deed == Deed::PowerOff || deed
                == Deed::WarmReset)
            &&& deed == Deed::Nothing || deed == Deed::Recenter ==> u.out == t.out
            &&& deed == Deed::PowerOff ==> u.out == t.out.push(Command::PowerOff)
            &&& deed == Deed::WarmReset ==> u.out == t.out.push(Command::WarmReset)
            &&& deed matches Deed::Pan(dx, dy) ==> u.out == t.out.push(Command::Pan(dx, dy))
            &&& deed is Show ==> u.out == t.out.push(Command::Click)
            &&& deed == Deed::ToggleAutoOff ==> u.out == t.out.push(
                Command::SaveSettings(d.buttons.knobs.brightness, e.light.auto_off),
            )
            &&& deed == Deed::EjectCard ==> u.out == t.out.push(
                Command::LogStatus(
                    Event::SdEject,
                    if d.light.dimmed {
                        0
                    } else {
                        d.buttons.knobs.brightness
                    },
                ),
            ).push(Command::StopLogging)
            &&& deed matches Deed::Show(screen) ==> e.shown.screen == screen
            &&& !(deed is Show) ==> e.shown.screen == d.shown.screen
            &&& e.shown.since_us == if deed is Show {
                now_us
            } else {
                d.shown.since_us
            }
            &&& e.light.auto_off == (d.light.auto_off != (deed == Deed::ToggleAutoOff))
            &&& e.light.dimmed == d.light.dimmed && e.light.input_us == d.light.input_us
            &&& e.logging == (d.logging && deed != Deed::EjectCard)
            &&& e.ejected == (d.ejected || deed == Deed::EjectCard)
            &&& e.health.last_us == if deed == Deed::EjectCard {
                now_us
            } else {
                d.health.last_us
            }
            &&& e.health.low_batt_logged == d.health.low_batt_logged && e.health.rx_lost_logged
                == d.health.rx_lost_logged
            &&& deed == Deed::Recenter ==> e.track.view_center is None
            &&& deed != Deed::Recenter ==> e.track.view_center == d.track.view_center
            &&& e.track.trail == d.track.trail && e.track.home == d.track.home && e.track.last
                == d.track.last && e.track.last_rx_us == d.track.last_rx_us && e.track.rx_count
                == d.track.rx_count
            &&& e.buttons == d.buttons && e.touch == d.touch && e.redraw == d.redraw && e.led
                == d.led && e.vbat_mv == d.vbat_mv && e.vin_mv == d.vin_mv && e.turns == d.turns
        }),
{
}

/// A finger does nothing until its touch is over, which counts as an input; then what the
/// touch was is done, as the device stands.
pub proof fn law_touches_are_obeyed(t: Turn, p: Option<(i32, i32)>, c: Config, now_us: u64)
    ensures
        ({
            let d = t.device;
            let u = t.after_finger(p, c, now_us);
            let moved = Turn {
                device: DeviceState { touch: d.touch.seen(p, now_us), ..d },
                input: t.input || d.touch.released(p),
                ..t
            };
            &&& !d.touch.released(p) ==> u == moved
            &&& d.touch.released(p) ==> u == moved.after_deed(
                ui::deed_of(d.touch.gesture(now_us), d.scene(now_us), c.layout),
                now_us,
            )
            &&& u.input <==> t.input || d.touch.released(p)
        }),
{
}

/// The brightness and whether the light goes off by itself, as a command saves them.
pub open spec fn saved_by(c: Command) -> Option<(u8, bool)> {
    match c {
        Command::SaveSettings(step, auto_off) => Some((step, auto_off)),
        _ => None,
    }
}

/// The step that a command sets the front light to.
pub open spec fn lit_by(c: Command) -> Option<u8> {
    match c {
        Command::SetLight(step) => Some(step),
        _ => None,
    }
}

/// What commands save last.
pub open spec fn last_saved(out: Seq<Command>) -> Option<(u8, bool)>
    decreases out.len(),
{
    if out.len() == 0 {
        None
    } else if saved_by(out.last()) is Some {
        saved_by(out.last())
    } else {
        last_saved(out.drop_last())
    }
}

/// The step that commands set the front light to last.
pub open spec fn last_light(out: Seq<Command>) -> Option<u8>
    decreases out.len(),
{
    if out.len() == 0 {
        None
    } else if lit_by(out.last()) is Some {
        lit_by(out.last())
    } else {
        last_light(out.drop_last())
    }
}

proof fn lemma_last_push(out: Seq<Command>, c: Command)
    ensures
        saved_by(c) is Some ==> last_saved(out.push(c)) == saved_by(c),
        saved_by(c) is None ==> last_saved(out.push(c)) == last_saved(out),
        lit_by(c) is Some ==> last_light(out.push(c)) == lit_by(c),
        lit_by(c) is None ==> last_light(out.push(c)) == last_light(out),
{
    assert(out.push(c).drop_last() =~= out);
}

/// Whether what was saved last is what is in force, and nothing changed that was not saved;
/// and the same of the front light.
spec fn settled(d: DeviceState, t: Turn) -> bool {
    let step = t.device.buttons.knobs.brightness;
    let auto_off = t.device.light.auto_off;
    &&& match last_saved(t.out) {
        Some(s) => s == (step, auto_off),
        None => step == d.buttons.knobs.brightness && auto_off == d.light.auto_off,
    }
}

/// Whether the front light was set last to what is in effect, and was not changed where it
/// was not set.
spec fn lit(d: DeviceState, t: Turn) -> bool {
    match last_light(t.out) {
        Some(e) => e == t.device.light_step(),
        None => t.device.light_step() == d.light_step(),
    }
}

/// What a turn saves last is what is in force after it, and where it saves nothing the
/// brightness and whether the light goes off by itself are as before. The front light is set
/// last to the step that is then in effect, and where it is not set that step is as before.
pub proof fn law_settings_are_saved_and_lit(d: DeviceState, i: Inputs, c: Config, cap: int)
    requires
        d.buttons.knobs.valid(),
        d.light.input_us <= i.now_us,
    ensures
        ({
            let t = turn(d, i, c, cap);
            let e = t.device;
            &&& last_saved(t.out) matches Some(s) ==> s.0 == e.buttons.knobs.brightness && s.1
                == e.light.auto_off
            &&& last_saved(t.out) is None ==> e.buttons.knobs.brightness
                == d.buttons.knobs.brightness && e.light.auto_off == d.light.auto_off
            &&& last_light(t.out) matches Some(s) ==> s == e.light_step()
            &&& last_light(t.out) is None ==> e.light_step() == d.light_step()
        }),
{
    lemma_first_part(d, i, c, cap);
    lemma_second_part(d, first_part(d, i, c, cap), c, i.now_us);
    assert(turn(d, i, c, cap) == second_part(first_part(d, i, c, cap), c, i.now_us)) by {
        reveal(first_part);
        reveal(second_part);
    }
}

/// A turn up to the finger.
#[verifier::opaque]
spec fn first_part(d: DeviceState, i: Inputs, c: Config, cap: int) -> Turn {
    let start = Turn { device: d, out: Seq::empty(), asked: false, input: false };
    let t = start.after_heard(i.heard, c, i.now_us, cap);
    let p = t.device.buttons.pressed(i.a, i.b, t.device.shown.screen == Screen::Settings);
    t.after_buttons(i.a, i.b, p, i.now_us).after_finger(i.finger, c, i.now_us)
}

/// The rest of a turn.
#[verifier::opaque]
spec fn second_part(t: Turn, c: Config, now_us: u64) -> Turn {
    t.after_light(now_us).after_led(c, now_us).after_page(now_us)
}

proof fn lemma_first_part(d: DeviceState, i: Inputs, c: Config, cap: int)
    requires
        d.buttons.knobs.valid(),
    ensures
        exists|l: bool| pressed_so_far(d, first_part(d, i, c, cap), l),
{
    reveal(first_part);
    let start = Turn { device: d, out: Seq::empty(), asked: false, input: false };
    let t1 = start.after_heard(i.heard, c, i.now_us, cap);
    lemma_last_push(start.out, Command::LogFrame);
    assert(last_saved(t1.out) is None && last_light(t1.out) is None);
    assert(t1.device.light == d.light && t1.device.buttons == d.buttons);
    let settings = t1.device.shown.screen == Screen::Settings;
    let p = t1.device.buttons.pressed(i.a, i.b, settings);
    lemma_after_buttons(d, t1, i.a, i.b, i.now_us);
    lemma_after_finger(
        d,
        t1.after_buttons(i.a, i.b, p, i.now_us),
        p.lit,
        i.finger,
        c,
        i.now_us,
    );
    assert(pressed_so_far(d, first_part(d, i, c, cap), p.lit));
}

proof fn lemma_second_part(d: DeviceState, t: Turn, c: Config, now_us: u64)
    requires
        d.light.input_us <= now_us,
        exists|l: bool| pressed_so_far(d, t, l),
    ensures
        settled(d, second_part(t, c, now_us)),
        lit(d, second_part(t, c, now_us)),
{
    reveal(second_part);
    let u = t.after_light(now_us);
    lemma_after_light(d, t, now_us);
    let v = u.after_led(c, now_us);
    lemma_after_led(d, u, c, now_us);
    lemma_last_push(v.out, Command::Draw(v.device.shown.screen));
}

/// After the buttons: what they changed was saved, and the front light was set to a new
/// brightness but not yet brought back.
spec fn pressed_so_far(d: DeviceState, t: Turn, lit: bool) -> bool {
    let step = t.device.buttons.knobs.brightness;
    &&& settled(d, t)
    &&& last_light(t.out) == if lit {
        Some(step)
    } else {
        None
    }
    &&& lit ==> t.input
    &&& !lit ==> step == d.buttons.knobs.brightness
    &&& t.device.light.dimmed == d.light.dimmed
    &&& t.device.light.input_us == d.light.input_us
}

proof fn lemma_after_buttons(d: DeviceState, t: Turn, a: bool, b: bool, now_us: u64)
    requires
        d.buttons.knobs.valid(),
        last_saved(t.out) is None,
        last_light(t.out) is None,
        t.device.light == d.light,
        t.device.buttons == d.buttons,
    ensures
        ({
            let settings = t.device.shown.screen == Screen::Settings;
            let p = t.device.buttons.pressed(a, b, settings);
            pressed_so_far(d, t.after_buttons(a, b, p, now_us), p.lit)
        }),
{
    let settings = t.device.shown.screen == Screen::Settings;
    let p = t.device.buttons.pressed(a, b, settings);
    ui::law_presses_are_reported(d.buttons, a, b, settings);
    let step = d.buttons.turned(a, b, settings).brightness;
    let one = t.out.push(Command::SetLight(step));
    lemma_last_push(t.out, Command::SetLight(step));
    lemma_last_push(one, Command::SaveSettings(step, d.light.auto_off));
}

proof fn lemma_after_finger(
    d: DeviceState,
    t: Turn,
    lit: bool,
    finger: Option<(i32, i32)>,
    c: Config,
    now_us: u64,
)
    requires
        pressed_so_far(d, t, lit),
    ensures
        pressed_so_far(d, t.after_finger(finger, c, now_us), lit),
{
    let e = t.device;
    if e.touch.released(finger) {
        let moved = Turn {
            device: DeviceState { touch: e.touch.seen(finger, now_us), ..e },
            input: true,
            ..t
        };
        let deed = ui::deed_of(e.touch.gesture(now_us), e.scene(now_us), c.layout);
        assert(t.after_finger(finger, c, now_us) == moved.after_deed(deed, now_us));
        lemma_after_deed(d, moved, lit, deed, now_us);
    }
}

proof fn lemma_after_deed(d: DeviceState, t: Turn, lit: bool, deed: Deed, now_us: u64)
    requires
        pressed_so_far(d, t, lit),
    ensures
        pressed_so_far(d, t.after_deed(deed, now_us), lit),
{
    let step = t.device.buttons.knobs.brightness;
    match deed {
        Deed::Nothing => {},
        Deed::Recenter => {},
        Deed::Pan(dx, dy) => lemma_last_push(t.out, Command::Pan(dx, dy)),
        Deed::PowerOff => lemma_last_push(t.out, Command::PowerOff),
        Deed::Show(screen) => lemma_last_push(t.out, Command::Click),
        Deed::ToggleAutoOff => lemma_last_push(
            t.out,
            Command::SaveSettings(step, !t.device.light.auto_off),
        ),
        Deed::WarmReset => lemma_last_push(t.out, Command::WarmReset),
        Deed::EjectCard => {
            let log = Command::LogStatus(Event::SdEject, t.device.light_step());
            lemma_last_push(t.out, log);
            lemma_last_push(t.out.push(log), Command::StopLogging);
        },
    }
}

proof fn lemma_after_light(d: DeviceState, t: Turn, now_us: u64)
    requires
        d.light.input_us <= now_us,
        exists|l: bool| pressed_so_far(d, t, l),
    ensures
        settled(d, t.after_light(now_us)),
        lit(d, t.after_light(now_us)),
{
    let step = t.device.buttons.knobs.brightness;
    lemma_last_push(t.out, Command::SetLight(step));
    lemma_last_push(t.out, Command::SetLight(0));
}

proof fn lemma_after_led(d: DeviceState, t: Turn, c: Config, now_us: u64)
    requires
        settled(d, t),
        lit(d, t),
    ensures
        settled(d, t.after_led(c, now_us)),
        lit(d, t.after_led(c, now_us)),
{
    let color = t.device.led_inputs(c, now_us).color((now_us as int / 1000) as u64);
    lemma_last_push(t.out, Command::WriteLed(color.0, color.1, color.2));
}

/// The front light is set anew exactly when the step in effect changes, and then to it.
pub proof fn law_light_is_tended(t: Turn, now_us: u64)
    requires
        t.device.light.input_us <= now_us,
    ensures
        ({
            let u = t.after_light(now_us);
            let before = t.device.light_step();
            let after = u.device.light_step();
            &&& after == before ==> u.out == t.out
            &&& after != before ==> u.out == t.out.push(Command::SetLight(after))
            &&& t.input ==> after == t.device.buttons.knobs.brightness
            &&& u.device.buttons == t.device.buttons && u.asked == t.asked && u.input == t.input
        }),
{
    ui::law_light_is_set_when_it_changes(
        t.device.light,
        t.input,
        t.device.buttons.knobs.brightness,
        now_us,
    );
}

/// The status light is written exactly when its colour changes, and then to the colour that
/// it is to have; the page is drawn exactly when that is due, as the screen that is shown.
pub proof fn law_led_and_page_are_tended(t: Turn, c: Config, now_us: u64)
    ensures
        ({
            let u = t.after_led(c, now_us);
            let color = t.device.led_inputs(c, now_us).color((now_us as int / 1000) as u64);
            &&& u.device.led == color
            &&& color == t.device.led ==> u.out == t.out
            &&& color != t.device.led ==> u.out == t.out.push(
                Command::WriteLed(color.0, color.1, color.2),
            )
            &&& u.asked == t.asked && u.input == t.input
        }),
        ({
            let u = t.after_page(now_us);
            let due = t.device.redraw.is_due(
                t.asked,
                t.device.track.last_rx_us is Some,
                now_us,
            );
            &&& u.device == t.device
            &&& due ==> u.out == t.out.push(Command::Draw(t.device.shown.screen))
            &&& !due ==> u.out == t.out
        }),
{
}

/// Settings that were saved are in force from the start; without them the light stays at
/// the step it is found at, and goes off by itself.
pub proof fn law_saved_settings_are_taken(settings: Option<(u8, bool)>, step: u8)
    ensures
        settings matches Some(s) ==> first_settings(settings, step).0 == s.0 && first_settings(
            settings,
            step,
        ).1 == s.1,
        settings is None ==> first_settings(settings, step).0 == step && first_settings(
            settings,
            step,
        ).1,
{
}

} // verus!
