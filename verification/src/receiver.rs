//! The receiver: what frames do to the trail, when the device's health is logged, and what
//! the log and the map are made of.
//!
//! Times are in microseconds since the start and never run backwards.

use vstd::prelude::*;

use crate::draw::{Homing, LastRx, Status};
use crate::frame::NostosFrame;
use crate::led;
use crate::nav;
use crate::nav::{GeoPoint, Trail};
use crate::statuslog::Sample;
use crate::text::LineBuf;

verus! {

/// Number of positions that are kept.
pub const TRAIL_CAP: usize = 256;

/// Seconds without a frame after which reception counts as lost.
pub const STALE_REDRAW_SECS: u64 = 180;

/// Seconds between two samples of the device's health.
pub const STATUS_LOG_SECS: u64 = 600;

/// Whole seconds from one time to another.
pub open spec fn secs_between(from_us: u64, to_us: u64) -> int {
    (to_us - from_us) / 1_000_000
}

/// What was received.
pub struct Track<const N: usize> {
    trail: Trail<N>,
    home: Option<GeoPoint>,
    view_center: Option<GeoPoint>,
    last: Option<LastRx>,
    last_rx_us: Option<u64>,
    rx_count: u32,
}

/// What was received, apart from how it is stored.
pub struct TrackState {
    /// The positions, oldest first.
    pub trail: Seq<GeoPoint>,
    /// The start, if it was announced.
    pub home: Option<GeoPoint>,
    /// Centre of the map, where the user moved it.
    pub view_center: Option<GeoPoint>,
    /// The newest frame.
    pub last: Option<LastRx>,
    /// When the newest frame came.
    pub last_rx_us: Option<u64>,
    /// Number of frames.
    pub rx_count: u32,
}

impl<const N: usize> View for Track<N> {
    type V = TrackState;

    closed spec fn view(&self) -> TrackState {
        TrackState {
            trail: self.trail@,
            home: self.home,
            view_center: self.view_center,
            last: self.last,
            last_rx_us: self.last_rx_us,
            rx_count: self.rx_count,
        }
    }
}

/// What is shown of a frame.
pub open spec fn shown(f: NostosFrame, rssi: i16, snr: i8) -> LastRx {
    LastRx {
        seq: f.seq,
        fix: f.fix_valid(),
        lat_e7: f.lat_e7,
        lon_e7: f.lon_e7,
        time_unix: f.time_unix,
        rssi,
        snr,
    }
}

/// The position of a frame.
pub open spec fn place_of(f: NostosFrame) -> GeoPoint {
    GeoPoint { lat_e7: f.lat_e7, lon_e7: f.lon_e7 }
}

impl TrackState {
    /// Whether a frame that announces the start begins a new journey: it is the first of
    /// its sender, no start was known, or the start has moved.
    pub open spec fn new_journey(self, f: NostosFrame, moved: bool) -> bool {
        f.seq == 0 || self.home is None || moved
    }

    /// Whether a frame empties the trail.
    pub open spec fn emptied_by(self, f: NostosFrame, home_flag: u8, moved: bool) -> bool {
        f.flags & home_flag != 0 && self.new_journey(f, moved)
    }

    /// What a frame that announces the start does: it sets the start, and empties the
    /// trail where a new journey begins. It is no position of the trail.
    pub open spec fn after_home(self, f: NostosFrame, moved: bool) -> Self {
        TrackState {
            trail: if self.new_journey(f, moved) {
                Seq::empty()
            } else {
                self.trail
            },
            view_center: if self.new_journey(f, moved) {
                None
            } else {
                self.view_center
            },
            home: Some(place_of(f)),
            ..self
        }
    }

    /// What another frame does: with a fix, its position is added to the trail.
    pub open spec fn after_report(self, f: NostosFrame, cap: int) -> Self {
        TrackState {
            trail: if f.fix_valid() {
                nav::newest_of(self.trail.push(place_of(f)), cap)
            } else {
                self.trail
            },
            ..self
        }
    }

    /// What a frame does.
    pub open spec fn after_frame(
        self,
        f: NostosFrame,
        home_flag: u8,
        moved: bool,
        rssi: i16,
        snr: i8,
        now_us: u64,
        cap: int,
    ) -> Self {
        let next = if f.flags & home_flag != 0 {
            self.after_home(f, moved)
        } else {
            self.after_report(f, cap)
        };
        TrackState {
            last: Some(shown(f, rssi, snr)),
            last_rx_us: Some(now_us),
            rx_count: if self.rx_count == u32::MAX {
                u32::MAX
            } else {
                (self.rx_count + 1) as u32
            },
            ..next
        }
    }

    /// Seconds since the newest frame.
    pub open spec fn age(self, now_us: u64) -> Option<u64> {
        match self.last_rx_us {
            Some(t) => Some(secs_between(t, now_us) as u64),
            None => None,
        }
    }

    /// With the map centred where the user wants it, or following again.
    pub open spec fn centred_on(self, c: Option<GeoPoint>) -> Self {
        TrackState { view_center: c, ..self }
    }

    /// Milliseconds since the newest frame.
    pub open spec fn age_ms(self, now_us: u64) -> Option<u64> {
        match self.last_rx_us {
            Some(t) => Some(((now_us - t) / 1_000) as u64),
            None => None,
        }
    }

    /// The position that the map is centred on.
    pub open spec fn center(self) -> Option<GeoPoint> {
        if self.view_center is Some {
            self.view_center
        } else if self.trail.len() > 0 {
            Some(self.trail.last())
        } else {
            self.home
        }
    }

    /// What is shown around the map.
    pub open spec fn status(
        self,
        now_us: u64,
        m_per_px: u32,
        homing: Option<Homing>,
        radio_ok: bool,
        vbat_mv: Option<u16>,
    ) -> Status {
        Status {
            last: self.last,
            age_secs: self.age(now_us),
            m_per_px,
            home: self.home,
            homing,
            radio_ok,
            vbat_mv,
            view_center: self.view_center,
        }
    }

    /// Times in order.
    pub open spec fn before(self, now_us: u64) -> bool {
        self.last_rx_us matches Some(t) ==> t <= now_us
    }

    /// Estimated Unix time: that of the newest frame and what passed since; 0 where it is
    /// not known.
    pub open spec fn est_unix(self, now_us: u64) -> u64 {
        match (self.last, self.last_rx_us) {
            (Some(rx), Some(t)) => if rx.time_unix != 0 {
                (rx.time_unix + secs_between(t, now_us)) as u64
            } else {
                0
            },
            _ => 0,
        }
    }
}

impl<const N: usize> Track<N> {
    /// Nothing received.
    pub fn new() -> (t: Self)
        ensures
            t@.trail == Seq::<GeoPoint>::empty(),
            t@.home is None,
            t@.view_center is None,
            t@.last is None,
            t@.last_rx_us is None,
            t@.rx_count == 0,
    {
        Track {
            trail: Trail::new(),
            home: None,
            view_center: None,
            last: None,
            last_rx_us: None,
            rx_count: 0,
        }
    }

    /// The trail.
    pub fn trail(&self) -> (t: &Trail<N>)
        ensures
            t@ == self@.trail,
    {
        &self.trail
    }

    /// The start, if it was announced.
    pub fn home(&self) -> (h: Option<GeoPoint>)
        ensures
            h == self@.home,
    {
        self.home
    }

    /// Whether a frame begins a new journey, for which the trail is emptied. `home_flag` is
    /// the bit that marks frames that announce the start; `moved` says whether such a frame
    /// is more than a metre from the start known so far.
    pub fn begins_journey(&self, f: &NostosFrame, home_flag: u8, moved: bool) -> (yes: bool)
        ensures
            yes == (f.flags & home_flag != 0 && self@.new_journey(*f, moved)),
            yes == self@.emptied_by(*f, home_flag, moved),
    {
        f.is_home(home_flag) && (f.seq == 0 || self.home.is_none() || moved)
    }

    /// Takes in a frame. `home_flag` is the bit that marks frames that announce the start;
    /// `moved` says whether such a frame is more than a metre from the start known so far.
    /// Says whether the trail was emptied.
    pub fn receive(
        &mut self,
        f: &NostosFrame,
        home_flag: u8,
        moved: bool,
        rssi: i16,
        snr: i8,
        now_us: u64,
    ) -> (reset: bool)
        requires
            N > 0,
        ensures
            final(self)@ == old(self)@.after_frame(
                *f,
                home_flag,
                moved,
                rssi,
                snr,
                now_us,
                N as int,
            ),
            reset == (f.flags & home_flag != 0 && old(self)@.new_journey(*f, moved)),
            reset == old(self)@.emptied_by(*f, home_flag, moved),
    {
        let p: GeoPoint = f.geopoint();
        let reset: bool = self.begins_journey(f, home_flag, moved);
        if f.is_home(home_flag) {
            if reset {
                self.trail = Trail::new();
                self.view_center = None;
            }
            self.home = Some(p);
        } else if f.has_fix() {
            self.trail.push(p);
        }
        self.last = Some(
            LastRx {
                seq: f.seq,
                fix: f.has_fix(),
                lat_e7: f.lat_e7,
                lon_e7: f.lon_e7,
                time_unix: f.time_unix,
                rssi,
                snr,
            },
        );
        self.last_rx_us = Some(now_us);
        if self.rx_count < u32::MAX {
            self.rx_count += 1;
        }
        reset
    }

    /// Seconds since the newest frame.
    pub fn age_secs(&self, now_us: u64) -> (a: Option<u64>)
        requires
            self@.before(now_us),
        ensures
            a == self@.age(now_us),
    {
        match self.last_rx_us {
            Some(t) => Some((now_us - t) / 1_000_000),
            None => None,
        }
    }

    /// Milliseconds since the newest frame.
    pub fn age_ms(&self, now_us: u64) -> (a: Option<u64>)
        requires
            self@.before(now_us),
        ensures
            a == (match self@.last_rx_us {
                Some(t) => Some(((now_us - t) / 1_000) as u64),
                None => None,
            }),
            a == self@.age_ms(now_us),
    {
        match self.last_rx_us {
            Some(t) => Some((now_us - t) / 1_000),
            None => None,
        }
    }

    /// Estimated Unix time.
    pub fn est_unix(&self, now_us: u64) -> (t: u64)
        requires
            self@.before(now_us),
        ensures
            t == self@.est_unix(now_us),
    {
        match (self.last, self.last_rx_us) {
            (Some(rx), Some(t)) => if rx.time_unix != 0 {
                rx.time_unix as u64 + (now_us - t) / 1_000_000
            } else {
                0
            },
            _ => 0,
        }
    }

    /// The position that the map is centred on: where the user moved it, else the newest
    /// one, else the start.
    pub fn center(&self) -> (c: Option<GeoPoint>)
        ensures
            c == (if self@.view_center is Some {
                self@.view_center
            } else if self@.trail.len() > 0 {
                Some(self@.trail.last())
            } else {
                self@.home
            }),
            c == self@.center(),
    {
        match self.view_center {
            Some(c) => Some(c),
            None => match self.trail.newest() {
                Some(p) => Some(p),
                None => self.home,
            },
        }
    }

    /// Whether the user has moved the map.
    pub fn panned(&self) -> (yes: bool)
        ensures
            yes == (self@.view_center is Some),
    {
        self.view_center.is_some()
    }

    /// Whether a frame came yet.
    pub fn has_received(&self) -> (yes: bool)
        ensures
            yes == (self@.last_rx_us is Some),
    {
        self.last_rx_us.is_some()
    }

    /// Moves the map's centre.
    pub fn pan_to(&mut self, c: GeoPoint)
        ensures
            final(self)@ == (TrackState { view_center: Some(c), ..old(self)@ }),
            final(self)@ == old(self)@.centred_on(Some(c)),
    {
        self.view_center = Some(c);
    }

    /// Lets the map follow the newest position again. Says whether it did not before.
    pub fn recenter(&mut self) -> (changed: bool)
        ensures
            final(self)@ == (TrackState { view_center: None, ..old(self)@ }),
            final(self)@ == old(self)@.centred_on(None),
            changed == (old(self)@.view_center is Some),
    {
        let changed: bool = self.view_center.is_some();
        self.view_center = None;
        changed
    }

    /// What is shown around the map. `homing` is where the start lies from the newest
    /// position.
    pub fn status(
        &self,
        now_us: u64,
        m_per_px: u32,
        homing: Option<Homing>,
        radio_ok: bool,
        vbat_mv: Option<u16>,
    ) -> (st: Status)
        requires
            self@.before(now_us),
        ensures
            st == (Status {
                last: self@.last,
                age_secs: self@.age(now_us),
                m_per_px,
                home: self@.home,
                homing,
                radio_ok,
                vbat_mv,
                view_center: self@.view_center,
            }),
            st == self@.status(now_us, m_per_px, homing, radio_ok, vbat_mv),
    {
        Status {
            last: self.last,
            age_secs: self.age_secs(now_us),
            m_per_px,
            home: self.home,
            homing,
            radio_ok,
            vbat_mv,
            view_center: self.view_center,
        }
    }
}

/// A frame that announces the start is never a position of the trail: the trail is emptied,
/// and the map follows again, where a new journey begins, and both stay as they are
/// otherwise.
pub proof fn law_start_is_no_position(
    s: TrackState,
    f: NostosFrame,
    home_flag: u8,
    moved: bool,
    rssi: i16,
    snr: i8,
    now_us: u64,
    cap: int,
)
    requires
        f.flags & home_flag != 0,
    ensures
        ({
            let t = s.after_frame(f, home_flag, moved, rssi, snr, now_us, cap);
            &&& t.home == Some(place_of(f))
            &&& moved || s.home is None || f.seq == 0 ==> t.trail.len() == 0
                && t.view_center is None
            &&& !moved && s.home is Some && f.seq != 0 ==> t.trail == s.trail
                && t.view_center == s.view_center
        }),
{
}

/// A frame that does not announce the start leaves the start alone and a moved map where it
/// is, and changes the trail only with a fix, whose position is then the newest one.
pub proof fn law_reports_grow_the_trail(
    s: TrackState,
    f: NostosFrame,
    home_flag: u8,
    moved: bool,
    rssi: i16,
    snr: i8,
    now_us: u64,
    cap: int,
)
    requires
        f.flags & home_flag == 0,
        cap > 0,
    ensures
        ({
            let t = s.after_frame(f, home_flag, moved, rssi, snr, now_us, cap);
            &&& t.home == s.home
            &&& t.view_center == s.view_center
            &&& !f.fix_valid() ==> t.trail == s.trail
            &&& f.fix_valid() ==> t.trail.len() > 0 && t.trail.last() == place_of(f)
        }),
{
}

/// Why the device's health is logged.
#[derive(Debug, Clone, Copy, PartialEq, Eq, Structural)]
pub enum Event {
    Boot,
    BootPanelFail,
    BootPanelNoBusy,
    Periodic,
    LowBatt,
    RxLost,
    SdEject,
}

/// Name of an event in the log.
pub open spec fn event_name(e: Event) -> Seq<char> {
    match e {
        Event::Boot => "boot"@,
        Event::BootPanelFail => "boot_panel_fail"@,
        Event::BootPanelNoBusy => "boot_panel_nobusy"@,
        Event::Periodic => "periodic"@,
        Event::LowBatt => "low_batt"@,
        Event::RxLost => "rx_lost"@,
        Event::SdEject => "sd_eject"@,
    }
}

/// The event of the start, for whether the panel was started and whether it became busy at
/// its first update.
pub open spec fn boot_event(panel: bool, busy_rose: Option<bool>) -> Event {
    if !panel {
        Event::BootPanelFail
    } else if busy_rose == Some(false) {
        Event::BootPanelNoBusy
    } else {
        Event::Boot
    }
}

impl Event {
    /// Name of the event in the log.
    pub fn name(self) -> (s: &'static str)
        ensures
            s@ == event_name(self),
    {
        match self {
            Event::Boot => "boot",
            Event::BootPanelFail => "boot_panel_fail",
            Event::BootPanelNoBusy => "boot_panel_nobusy",
            Event::Periodic => "periodic",
            Event::LowBatt => "low_batt",
            Event::RxLost => "rx_lost",
            Event::SdEject => "sd_eject",
        }
    }

    /// The event of the start, for whether the panel was started and whether it became
    /// busy at its first update.
    pub fn at_boot(panel: bool, busy_rose: Option<bool>) -> (e: Event)
        ensures
            e == (if !panel {
                Event::BootPanelFail
            } else if busy_rose == Some(false) {
                Event::BootPanelNoBusy
            } else {
                Event::Boot
            }),
            e == boot_event(panel, busy_rose),
    {
        if !panel {
            return Event::BootPanelFail;
        }
        match busy_rose {
            Some(false) => Event::BootPanelNoBusy,
            _ => Event::Boot,
        }
    }
}

/// When the device's health was logged, and which events were.
#[derive(Debug, Clone, Copy, PartialEq, Eq, Structural)]
pub struct Health {
    /// When the last line was logged.
    pub last_us: u64,
    /// The battery was low at every check since a line said so.
    pub low_batt_logged: bool,
    /// Lost reception was logged, and no frame came since.
    pub rx_lost_logged: bool,
}

/// Whether reception counts as lost, for the seconds since the newest frame.
pub open spec fn is_lost(age_secs: Option<u64>) -> bool {
    age_secs matches Some(a) && a >= STALE_REDRAW_SECS
}

impl Health {
    /// Whether a sample is due.
    pub open spec fn due(self, now_us: u64) -> bool {
        now_us - self.last_us >= STATUS_LOG_SECS * 1_000_000
    }

    /// The event to log: lost reception that was not logged yet, or else a low battery that
    /// was not, or else a sample that is due.
    pub open spec fn event(self, now_us: u64, low: bool, lost: bool) -> Option<Event> {
        if lost && !self.rx_lost_logged {
            Some(Event::RxLost)
        } else if low && !self.low_batt_logged {
            Some(Event::LowBatt)
        } else if self.due(now_us) {
            Some(Event::Periodic)
        } else {
            None
        }
    }

    /// After a check. A low battery counts as logged once its own line is, and until the
    /// battery is no longer low.
    pub open spec fn checked(self, now_us: u64, low: bool, lost: bool) -> Self {
        let e = self.event(now_us, low, lost);
        Health {
            last_us: if e is Some {
                now_us
            } else {
                self.last_us
            },
            low_batt_logged: low && (self.low_batt_logged || e == Some(Event::LowBatt)),
            rx_lost_logged: self.rx_lost_logged || lost,
        }
    }

    /// Nothing logged yet.
    pub fn new(now_us: u64) -> (h: Self)
        ensures
            h == (Health { last_us: now_us, low_batt_logged: false, rx_lost_logged: false }),
    {
        Health { last_us: now_us, low_batt_logged: false, rx_lost_logged: false }
    }

    /// Decides what to log, for the battery's voltage and the seconds since the newest
    /// frame.
    pub fn check(&mut self, now_us: u64, vbat_mv: Option<u16>, age_secs: Option<u64>) -> (e: Option<
        Event,
    >)
        requires
            old(self).last_us <= now_us,
        ensures
            ({
                let low = led::is_low(vbat_mv);
                let lost = age_secs matches Some(a) && a >= STALE_REDRAW_SECS;
                &&& e == old(self).event(now_us, low, lost)
                &&& *final(self) == old(self).checked(now_us, low, lost)
            }),
            e == old(self).event(now_us, led::is_low(vbat_mv), is_lost(age_secs)),
            *final(self) == old(self).checked(now_us, led::is_low(vbat_mv), is_lost(age_secs)),
    {
        let mut event: Option<Event> = None;
        if now_us - self.last_us >= STATUS_LOG_SECS * 1_000_000 {
            event = Some(Event::Periodic);
        }
        let low: bool = led::low_battery(vbat_mv);
        let lost: bool = match age_secs {
            Some(a) => a >= STALE_REDRAW_SECS,
            None => false,
        };
        if lost && !self.rx_lost_logged {
            self.rx_lost_logged = true;
            event = Some(Event::RxLost);
            self.low_batt_logged = low && self.low_batt_logged;
        } else if low && !self.low_batt_logged {
            event = Some(Event::LowBatt);
            self.low_batt_logged = true;
        } else {
            self.low_batt_logged = low;
        }
        if event.is_some() {
            self.last_us = now_us;
        }
        event
    }

    /// Takes down that a frame came, after which lost reception is logged anew.
    pub fn frame_received(&mut self)
        ensures
            *final(self) == (Health { rx_lost_logged: false, ..*old(self) }),
    {
        self.rx_lost_logged = false;
    }

    /// Takes down that a line was logged for another reason.
    pub fn logged(&mut self, now_us: u64)
        ensures
            *final(self) == (Health { last_us: now_us, ..*old(self) }),
    {
        self.last_us = now_us;
    }
}

/// A line says once that the battery is low, and once that reception is lost: what was
/// logged counts as logged at every check while it lasts, and is then not logged again.
pub proof fn law_events_are_logged_once(
    h: Health,
    now_us: u64,
    low: bool,
    lost: bool,
)
    ensures
        ({
            let e = h.event(now_us, low, lost);
            let g = h.checked(now_us, low, lost);
            &&& e == Some(Event::LowBatt) ==> g.low_batt_logged
            &&& e == Some(Event::RxLost) ==> g.rx_lost_logged
            &&& h.low_batt_logged && low ==> g.low_batt_logged && e != Some(Event::LowBatt)
            &&& h.rx_lost_logged ==> g.rx_lost_logged && e != Some(Event::RxLost)
        }),
{
}

/// Nothing that begins goes without its line. Lost reception is logged by the check that
/// first sees it; a low battery by that check too, or, where that check logs lost reception,
/// by the next one at which the battery is still low.
pub proof fn law_beginnings_are_logged(
    h: Health,
    now_us: u64,
    later_us: u64,
    low: bool,
    lost: bool,
    still_lost: bool,
)
    ensures
        ({
            let e = h.event(now_us, low, lost);
            let g = h.checked(now_us, low, lost);
            &&& lost && !h.rx_lost_logged ==> e == Some(Event::RxLost)
            &&& low && !h.low_batt_logged && e != Some(Event::LowBatt) ==> e == Some(
                Event::RxLost,
            ) && g.event(later_us, true, still_lost) == Some(Event::LowBatt)
        }),
{
}

/// What is logged beside what was received.
#[derive(Debug, Clone, Copy)]
pub struct Readings {
    /// Battery voltage in millivolts.
    pub vbat_mv: Option<u16>,
    /// Supply voltage in millivolts.
    pub vin_mv: Option<u16>,
    /// Power source register.
    pub pwr_src: Option<u8>,
    /// Power configuration register.
    pub pwr_cfg: Option<u8>,
    /// Signal strength in dBm and status of the radio.
    pub radio: Option<(i16, u8)>,
    /// Step of the front light that is in effect.
    pub frontlight: u8,
    /// Why the device was reset.
    pub reset_reason: u8,
}

/// The sample of the device's health at a time.
pub open spec fn sample_of<'a>(
    s: TrackState,
    r: Readings,
    event: &'a str,
    now_us: u64,
) -> Sample<'a> {
    Sample {
        uptime_s: (now_us as int / 1_000_000) as u64,
        est_unix: s.est_unix(now_us),
        vbat_mv: r.vbat_mv,
        vin_mv: r.vin_mv,
        pwr_src: r.pwr_src,
        pwr_cfg: r.pwr_cfg,
        radio: r.radio,
        last_rx_age_s: s.age(now_us),
        rx_count: s.rx_count,
        frontlight: r.frontlight,
        reset_reason: r.reset_reason,
        event,
    }
}

/// Composes the line of the device's health; none where it would not fit.
pub fn log_status<const N: usize>(
    track: &Track<N>,
    r: &Readings,
    event: &str,
    now_us: u64,
) -> (line: Option<LineBuf>)
    requires
        track@.before(now_us),
    ensures
        match line {
            Some(l) => l@ == sample_of(track@, *r, event, now_us).line(),
            None => sample_of(track@, *r, event, now_us).line().len() > crate::text::LINE_CAP,
        },
{
    let sample = Sample {
        uptime_s: now_us / 1_000_000,
        est_unix: track.est_unix(now_us),
        vbat_mv: r.vbat_mv,
        vin_mv: r.vin_mv,
        pwr_src: r.pwr_src,
        pwr_cfg: r.pwr_cfg,
        radio: r.radio,
        last_rx_age_s: track.age_secs(now_us),
        rx_count: track.rx_count,
        frontlight: r.frontlight,
        reset_reason: r.reset_reason,
        event,
    };
    let mut line = LineBuf::new();
    let ok: bool = sample.write_csv(&mut line);
    if ok {
        assert(Seq::<u8>::empty() + sample.line() =~= sample.line());
        Some(line)
    } else {
        None
    }
}

/// Of the newest frame, each value is kept under its own name: latitude, longitude, number
/// and time as the frame has them, the lowest flag as its fix, and how well it was heard.
/// It is kept whether the frame announces the start or not and whether it has a fix or not,
/// with the time at which it came, and every frame is counted.
pub proof fn law_newest_frame_is_kept(
    s: TrackState,
    f: NostosFrame,
    home_flag: u8,
    moved: bool,
    rssi: i16,
    snr: i8,
    now_us: u64,
    cap: int,
)
    ensures
        ({
            let t = s.after_frame(f, home_flag, moved, rssi, snr, now_us, cap);
            &&& t.last matches Some(rx) && {
                &&& rx.lat_e7 == f.lat_e7
                &&& rx.lon_e7 == f.lon_e7
                &&& rx.seq == f.seq
                &&& rx.time_unix == f.time_unix
                &&& rx.fix <==> f.flags % 2 == 1
                &&& rx.rssi == rssi
                &&& rx.snr == snr
            }
            &&& t.last_rx_us == Some(now_us)
            &&& s.rx_count < u32::MAX ==> t.rx_count == s.rx_count + 1
            &&& s.rx_count == u32::MAX ==> t.rx_count == u32::MAX
        }),
{
    let flags = f.flags;
    assert((flags & 1 != 0) == (flags % 2 == 1)) by (bit_vector);
}

/// A frame that announces the start makes its own coordinates the start, each under its own
/// name. Any other frame with a fix makes its coordinates the newest position; the positions
/// before it stay in their order, and only the oldest one leaves, where there is no room.
pub proof fn law_coordinates_are_kept(
    s: TrackState,
    f: NostosFrame,
    home_flag: u8,
    moved: bool,
    rssi: i16,
    snr: i8,
    now_us: u64,
    cap: int,
)
    requires
        0 < cap,
        s.trail.len() <= cap,
    ensures
        ({
            let t = s.after_frame(f, home_flag, moved, rssi, snr, now_us, cap);
            let n = s.trail.len() as int;
            let m = t.trail.len() as int;
            &&& f.flags & home_flag != 0 ==> (t.home matches Some(h) && h.lat_e7 == f.lat_e7
                && h.lon_e7 == f.lon_e7)
            &&& f.flags & home_flag == 0 && f.flags % 2 == 1 ==> {
                &&& m == if n < cap {
                    n + 1
                } else {
                    cap
                }
                &&& t.trail[m - 1].lat_e7 == f.lat_e7
                &&& t.trail[m - 1].lon_e7 == f.lon_e7
                &&& forall|k: int| 2 <= k <= m ==> #[trigger] t.trail[m - k] == s.trail[n - k + 1]
            }
            &&& f.flags & home_flag == 0 && f.flags % 2 == 0 ==> t.trail == s.trail
            &&& f.flags & home_flag == 0 ==> t.home == s.home
        }),
{
    let flags = f.flags;
    assert((flags & 1 != 0) == (flags % 2 == 1)) by (bit_vector);
}

/// Ages are counted in whole seconds and milliseconds, the rest dropped, from the time at
/// which the newest frame came; there is none before the first frame.
pub proof fn law_age_is_whole(s: TrackState, now_us: u64)
    requires
        s.before(now_us),
    ensures
        s.age(now_us) is Some <==> s.last_rx_us is Some,
        s.age_ms(now_us) is Some <==> s.last_rx_us is Some,
        s.last_rx_us matches Some(t) ==> {
            let a = s.age(now_us)->Some_0;
            let ms = s.age_ms(now_us)->Some_0;
            &&& 1_000_000 * a <= now_us - t < 1_000_000 * (a + 1)
            &&& 1_000 * ms <= now_us - t < 1_000 * (ms + 1)
        },
{
}

/// The estimated time runs on with the clock from the newest frame's own time: it is that
/// time and the seconds since, unless none came or it did not know the time, when it is 0.
pub proof fn law_time_runs_on(s: TrackState, now_us: u64)
    requires
        s.before(now_us),
        s.last is Some <==> s.last_rx_us is Some,
    ensures
        s.last is None ==> s.est_unix(now_us) == 0,
        s.last matches Some(rx) ==> {
            let since = now_us - s.last_rx_us->Some_0;
            &&& rx.time_unix == 0 ==> s.est_unix(now_us) == 0
            &&& rx.time_unix != 0 ==> 1_000_000 * (s.est_unix(now_us) - rx.time_unix) <= since
                < 1_000_000 * (s.est_unix(now_us) - rx.time_unix + 1)
        },
{
}

/// The map is centred where the user moved it; while the user has not, on the newest
/// position; before there is one, on the start; and nowhere before that is known.
pub proof fn law_center_follows(s: TrackState)
    ensures
        s.view_center matches Some(c) ==> s.center() == Some(c),
        s.view_center is None && s.trail.len() > 0 ==> s.center() == Some(
            s.trail[s.trail.len() - 1],
        ),
        s.view_center is None && s.trail.len() == 0 ==> s.center() == s.home,
{
}

/// Around the map stands what was received, and what is handed in beside it, each in its
/// own place.
pub proof fn law_status_shows_what_was_received(
    s: TrackState,
    now_us: u64,
    m_per_px: u32,
    homing: Option<Homing>,
    radio_ok: bool,
    vbat_mv: Option<u16>,
)
    requires
        s.before(now_us),
    ensures
        ({
            let st = s.status(now_us, m_per_px, homing, radio_ok, vbat_mv);
            &&& st.last == s.last
            &&& st.home == s.home
            &&& st.view_center == s.view_center
            &&& st.m_per_px == m_per_px
            &&& st.homing == homing
            &&& st.radio_ok == radio_ok
            &&& st.vbat_mv == vbat_mv
            &&& st.age_secs is Some <==> s.last_rx_us is Some
            &&& s.last_rx_us matches Some(t) ==> 1_000_000 * st.age_secs->Some_0 <= now_us - t
                < 1_000_000 * (st.age_secs->Some_0 + 1)
        }),
{
}

/// A panel that was not started is logged as such, whatever it did afterwards; one that was
/// started is logged as never busy exactly if it was seen not to become busy.
pub proof fn law_boot_tells_of_the_panel(busy_rose: Option<bool>)
    ensures
        boot_event(false, busy_rose) == Event::BootPanelFail,
        boot_event(true, busy_rose) == Event::BootPanelNoBusy <==> busy_rose == Some(false),
        boot_event(true, busy_rose) == Event::Boot <==> busy_rose != Some(false),
{
}

/// Lost reception comes before a low battery and a low battery before a sample that is due,
/// which is one ten minutes or more after the last line. Something is logged exactly if one
/// of them is there to be, and only then does the time of the last line move, to now.
pub proof fn law_most_urgent_line(h: Health, now_us: u64, low: bool, lost: bool)
    requires
        h.last_us <= now_us,
    ensures
        ({
            let e = h.event(now_us, low, lost);
            let g = h.checked(now_us, low, lost);
            let rx = lost && !h.rx_lost_logged;
            let batt = low && !h.low_batt_logged;
            let due = now_us - h.last_us >= 600_000_000;
            &&& e == Some(Event::RxLost) <==> rx
            &&& e == Some(Event::LowBatt) <==> batt && !rx
            &&& e == Some(Event::Periodic) <==> due && !rx && !batt
            &&& e is Some <==> rx || batt || due
            &&& e is Some ==> g.last_us == now_us
            &&& e is None ==> g.last_us == h.last_us
            &&& g.rx_lost_logged <==> h.rx_lost_logged || lost
            &&& !low ==> !g.low_batt_logged
            &&& low && !h.low_batt_logged ==> (g.low_batt_logged <==> e == Some(Event::LowBatt))
        }),
{
}

/// Reception is lost when three minutes or more have passed since a frame; where none ever
/// came it cannot be lost.
pub proof fn law_lost_after_three_minutes(age_secs: Option<u64>)
    ensures
        age_secs is None ==> !is_lost(age_secs),
        age_secs matches Some(a) ==> (is_lost(age_secs) <==> a > 179),
{
}

/// A sample says what was read, each value in its own place, together with what was
/// received: how many frames, and how long ago the last one came.
pub proof fn law_sample_says_what_was_read(
    s: TrackState,
    r: Readings,
    event: &str,
    now_us: u64,
)
    requires
        s.before(now_us),
    ensures
        ({
            let m = sample_of(s, r, event, now_us);
            &&& 1_000_000 * m.uptime_s <= now_us < 1_000_000 * (m.uptime_s + 1)
            &&& m.est_unix == s.est_unix(now_us)
            &&& m.vbat_mv == r.vbat_mv
            &&& m.vin_mv == r.vin_mv
            &&& m.pwr_src == r.pwr_src
            &&& m.pwr_cfg == r.pwr_cfg
            &&& m.radio == r.radio
            &&& m.frontlight == r.frontlight
            &&& m.reset_reason == r.reset_reason
            &&& m.event == event
            &&& m.rx_count == s.rx_count
            &&& m.last_rx_age_s is Some <==> s.last_rx_us is Some
            &&& s.last_rx_us matches Some(t) ==> 1_000_000 * m.last_rx_age_s->Some_0 <= now_us - t
                < 1_000_000 * (m.last_rx_age_s->Some_0 + 1)
        }),
{
}

/// No two events have the same name in the log.
pub proof fn law_event_names_differ(a: Event, b: Event)
    requires
        event_name(a) == event_name(b),
    ensures
        a == b,
{
    reveal_strlit("boot");
    reveal_strlit("boot_panel_fail");
    reveal_strlit("boot_panel_nobusy");
    reveal_strlit("periodic");
    reveal_strlit("low_batt");
    reveal_strlit("rx_lost");
    reveal_strlit("sd_eject");
    assert("boot"@.len() == 4 && "boot_panel_fail"@.len() == 15 && "boot_panel_nobusy"@.len() == 17
        && "rx_lost"@.len() == 7);
    assert("periodic"@[0] == 'p' && "low_batt"@[0] == 'l' && "sd_eject"@[0] == 's');
}

/// Moving the map changes nothing of what was received, and letting it follow again undoes
/// every move.
pub proof fn law_moving_the_map(s: TrackState, c: GeoPoint, b: GeoPoint)
    ensures
        ({
            let t = s.centred_on(Some(c));
            &&& t.center() == Some(c)
            &&& t.trail == s.trail && t.home == s.home && t.last == s.last && t.last_rx_us
                == s.last_rx_us && t.rx_count == s.rx_count
            &&& t.centred_on(Some(b)).center() == Some(b)
            &&& t.centred_on(None) == s.centred_on(None)
            &&& s.view_center is None ==> t.centred_on(None) == s
        }),
{
}

/// A frame is said to empty the trail exactly if it announces the start and is the first of
/// its sender, or no start was known, or the start has moved; then no position is left and
/// the map follows again. After any other frame the trail has lost at most its oldest
/// position.
pub proof fn law_emptied_trails_are_told(
    s: TrackState,
    f: NostosFrame,
    home_flag: u8,
    moved: bool,
    rssi: i16,
    snr: i8,
    now_us: u64,
    cap: int,
)
    requires
        0 < cap,
        s.trail.len() <= cap,
    ensures
        ({
            let t = s.after_frame(f, home_flag, moved, rssi, snr, now_us, cap);
            let emptied = s.emptied_by(f, home_flag, moved);
            &&& emptied <==> f.flags & home_flag != 0 && (moved || f.seq == 0 || s.home is None)
            &&& emptied ==> t.trail.len() == 0 && t.view_center is None
            &&& !emptied ==> t.trail.len() >= s.trail.len() && t.view_center == s.view_center
        }),
{
}

} // verus!
