//! The status light: one colour at a time, the most urgent first.

use vstd::prelude::*;

verus! {

/// Voltage under which the battery is low, in millivolts.
pub const LOW_BATT_MV: u16 = 3500;

/// How long a new frame is shown, in milliseconds.
pub const RX_FLASH_MS: u64 = 600;

/// What the light shows depends on these.
#[derive(Debug, Clone, Copy, PartialEq, Eq, Structural)]
pub struct LedInputs {
    /// Seconds since the newest frame.
    pub age_secs: Option<u64>,
    /// Milliseconds since the newest frame.
    pub rx_ms: Option<u64>,
    /// Battery voltage in millivolts.
    pub vbat_mv: Option<u16>,
    /// Supply voltage in millivolts.
    pub vin_mv: Option<u16>,
    /// Seconds after which reception counts as lost.
    pub stale_secs: u64,
    /// Supply voltage from which on there is a supply, in millivolts.
    pub vin_present_mv: u16,
}

/// Red, green and blue of the light.
pub type Rgb = (bool, bool, bool);

/// Whether a battery voltage is low; a voltage of 0 stands for one that was not read.
pub open spec fn is_low(vbat_mv: Option<u16>) -> bool {
    vbat_mv matches Some(v) && 0 < v < LOW_BATT_MV
}

/// Whether a battery voltage is low.
pub fn low_battery(vbat_mv: Option<u16>) -> (low: bool)
    ensures
        low == is_low(vbat_mv),
{
    match vbat_mv {
        Some(v) => v > 0 && v < LOW_BATT_MV,
        None => false,
    }
}

impl LedInputs {
    /// Reception is lost.
    pub open spec fn stale(self) -> bool {
        self.age_secs matches Some(a) && a >= self.stale_secs
    }

    /// A frame just came.
    pub open spec fn fresh(self) -> bool {
        self.rx_ms matches Some(t) && t < RX_FLASH_MS
    }

    /// There is a supply.
    pub open spec fn supplied(self) -> bool {
        self.vin_mv matches Some(v) && v >= self.vin_present_mv
    }

    /// The colour: red blinking for a low battery, else orange blinking slowly for lost
    /// reception, else green for a new frame, else blue for a supply, else none.
    pub open spec fn color(self, now_ms: u64) -> Rgb {
        if is_low(self.vbat_mv) {
            ((now_ms as int / 500) % 2 == 0, false, false)
        } else if self.stale() {
            ((now_ms as int / 1000) % 2 == 0, (now_ms as int / 1000) % 2 == 0, false)
        } else if self.fresh() {
            (false, true, false)
        } else if self.supplied() {
            (false, false, true)
        } else {
            (false, false, false)
        }
    }
}

/// The colour of the light.
pub fn led_color(st: &LedInputs, now_ms: u64) -> (c: Rgb)
    ensures
        c == st.color(now_ms),
{
    if low_battery(st.vbat_mv) {
        return ((now_ms / 500) % 2 == 0, false, false);
    }
    if let Some(a) = st.age_secs {
        if a >= st.stale_secs {
            let on: bool = (now_ms / 1000) % 2 == 0;
            return (on, on, false);
        }
    }
    if let Some(t) = st.rx_ms {
        if t < RX_FLASH_MS {
            return (false, true, false);
        }
    }
    if let Some(v) = st.vin_mv {
        if v >= st.vin_present_mv {
            return (false, false, true);
        }
    }
    (false, false, false)
}

/// The light, with the colour that was written last.
pub struct Led {
    cur: Rgb,
}

impl View for Led {
    type V = Rgb;

    closed spec fn view(&self) -> Rgb {
        self.cur
    }
}

impl Led {
    /// A light of which nothing was written: every colour but full white is new to it.
    pub fn new() -> (l: Self)
        ensures
            l@ == (true, true, true),
    {
        Led { cur: (true, true, true) }
    }

    /// Decides the colour. It is given back where it differs from the one that was
    /// written last, and has then to be written.
    pub fn update(&mut self, st: &LedInputs, now_ms: u64) -> (write: Option<Rgb>)
        ensures
            final(self)@ == st.color(now_ms),
            write == (if old(self)@ == st.color(now_ms) {
                None
            } else {
                Some(st.color(now_ms))
            }),
    {
        let c: Rgb = led_color(st, now_ms);
        if self.cur.0 == c.0 && self.cur.1 == c.1 && self.cur.2 == c.2 {
            return None;
        }
        self.cur = c;
        Some(c)
    }
}

/// The colours keep their order of urgency whatever else holds: a low battery shows only
/// red, lost reception never blue, and white is never shown, so that the first update
/// always writes.
pub proof fn law_most_urgent_first(st: LedInputs, now_ms: u64)
    ensures
        is_low(st.vbat_mv) ==> !st.color(now_ms).1 && !st.color(now_ms).2,
        st.stale() && !is_low(st.vbat_mv) ==> !st.color(now_ms).2 && st.color(now_ms).0
            == st.color(now_ms).1,
        st.color(now_ms) != (true, true, true),
        st.color(now_ms).2 ==> !is_low(st.vbat_mv) && !st.stale() && !st.fresh()
            && st.supplied(),
{
}

/// What lights and when. A low battery, over 0 and under 3500 mV, blinks red, half a second
/// on and half a second off. Otherwise reception that went stale blinks red and green
/// together, a second each. Otherwise green alone lights for 600 ms after a frame; otherwise
/// blue alone while there is supply; otherwise nothing.
pub proof fn law_light_by_cause(st: LedInputs, now_ms: u64)
    ensures
        ({
            let (r, g, b) = st.color(now_ms);
            let low = st.vbat_mv matches Some(v) && v != 0 && v < 3500;
            let stale = st.age_secs matches Some(a) && a >= st.stale_secs;
            let fresh = st.rx_ms matches Some(t) && t < 600;
            let supplied = st.vin_mv matches Some(v) && v >= st.vin_present_mv;
            &&& low ==> (r <==> now_ms as int % 1000 < 500)
            &&& !low && stale ==> (r <==> now_ms as int % 2000 < 1000)
            &&& r ==> low || stale
            &&& g <==> !low && (stale && r || !stale && fresh)
            &&& b <==> !low && !stale && !fresh && supplied
        }),
{
    let n = now_ms as int;
    assert(n / 500 % 2 == 0 <==> n % 1000 < 500) by {
        assert(n == 500 * (n / 500) + n % 500);
        assert(n / 500 == 2 * (n / 1000) + n % 1000 / 500);
    }
    assert(n / 1000 % 2 == 0 <==> n % 2000 < 1000) by {
        assert(n / 1000 == 2 * (n / 2000) + n % 2000 / 1000);
    }
}

/// A battery that was not read, or read as 0, does not count as low; any other counts
/// exactly under 3500 mV.
pub proof fn law_low_is_under_3500(vbat_mv: Option<u16>)
    ensures
        vbat_mv is None ==> !is_low(vbat_mv),
        vbat_mv matches Some(v) ==> (is_low(vbat_mv) <==> 1 <= v <= 3499),
{
}

} // verus!
