//! The expander that drives the power and reset pins of the other parts.

use vstd::prelude::*;

verus! {

/// Pins of the expander.
#[derive(Debug, Clone, Copy, PartialEq, Eq, Structural)]
pub enum Pin {
    /// Connects the charger to the bus.
    ChargerGate,
    /// Powers the microphone.
    MicPower,
    /// Powers the panel.
    PanelPower,
    /// Powers the memory card.
    CardPower,
    /// Resets the touch screen while low.
    TouchReset,
    /// Powers the touch screen.
    TouchPower,
}

/// Something to do with the pins.
#[derive(Debug, Clone, Copy, PartialEq, Eq, Structural)]
pub enum PinStep {
    /// Sets a pin and reads it back.
    SetVerified(Pin, bool),
    /// Waits so many milliseconds.
    WaitMs(u64),
}

/// Something to do when the device starts.
#[derive(Debug, Clone, Copy, PartialEq, Eq, Structural)]
pub enum StartStep {
    /// Waits so many milliseconds.
    WaitMs(u64),
    /// Keeps the device alive on its battery.
    HoldPower,
    /// Keeps the power button harmless.
    ConfigureButton,
    /// Looks whether the power chip is there.
    ProbePowerChip,
    /// Looks for the expander.
    FindExpander,
}

/// Time that the supplies take to settle, in milliseconds.
pub const POWER_SETTLE_MS: u64 = 500;

/// What is done when the device starts. Nothing is sent before the supplies have settled.
pub open spec fn start_steps() -> Seq<StartStep> {
    seq![
        StartStep::WaitMs(POWER_SETTLE_MS),
        StartStep::HoldPower,
        StartStep::ConfigureButton,
        StartStep::ProbePowerChip,
        StartStep::FindExpander,
    ]
}

/// What is done with the pins once the expander was found: the charger off the bus, the
/// microphone off, panel and card on, and the touch screen started anew.
pub open spec fn pin_steps(found: bool) -> Seq<PinStep> {
    if found {
        seq![
            PinStep::SetVerified(Pin::ChargerGate, false),
            PinStep::SetVerified(Pin::MicPower, false),
            PinStep::SetVerified(Pin::PanelPower, true),
            PinStep::SetVerified(Pin::CardPower, true),
            PinStep::SetVerified(Pin::TouchReset, false),
            PinStep::SetVerified(Pin::TouchPower, false),
            PinStep::WaitMs(30),
            PinStep::SetVerified(Pin::TouchPower, true),
            PinStep::WaitMs(20),
            PinStep::SetVerified(Pin::TouchReset, true),
            PinStep::WaitMs(100),
        ]
    } else {
        Seq::empty()
    }
}

/// What is done when the device starts.
pub fn bring_up() -> (v: Vec<StartStep>)
    ensures
        v@ == start_steps(),
{
    let mut v: Vec<StartStep> = Vec::new();
    v.push(StartStep::WaitMs(POWER_SETTLE_MS));
    v.push(StartStep::HoldPower);
    v.push(StartStep::ConfigureButton);
    v.push(StartStep::ProbePowerChip);
    v.push(StartStep::FindExpander);
    assert(v@ =~= start_steps());
    v
}

/// What is done with the pins, once it is known whether the expander is there.
pub fn bring_up_pins(found: bool) -> (v: Vec<PinStep>)
    ensures
        v@ == pin_steps(found),
{
    let mut v: Vec<PinStep> = Vec::new();
    if found {
        v.push(PinStep::SetVerified(Pin::ChargerGate, false));
        v.push(PinStep::SetVerified(Pin::MicPower, false));
        v.push(PinStep::SetVerified(Pin::PanelPower, true));
        v.push(PinStep::SetVerified(Pin::CardPower, true));
        v.push(PinStep::SetVerified(Pin::TouchReset, false));
        v.push(PinStep::SetVerified(Pin::TouchPower, false));
        v.push(PinStep::WaitMs(30));
        v.push(PinStep::SetVerified(Pin::TouchPower, true));
        v.push(PinStep::WaitMs(20));
        v.push(PinStep::SetVerified(Pin::TouchReset, true));
        v.push(PinStep::WaitMs(100));
    }
    assert(v@ =~= pin_steps(found));
    v
}

/// Level of a pin after steps, if they set it.
pub open spec fn level_after(steps: Seq<PinStep>, pin: Pin) -> Option<bool>
    decreases steps.len(),
{
    if steps.len() == 0 {
        None
    } else {
        match steps.last() {
            PinStep::SetVerified(p, level) => if p == pin {
                Some(level)
            } else {
                level_after(steps.drop_last(), pin)
            },
            PinStep::WaitMs(_) => level_after(steps.drop_last(), pin),
        }
    }
}

/// After the start the charger is off the bus and the microphone off; panel, card and
/// touch screen have power, and the touch screen is out of reset.
pub proof fn law_pins_after_start()
    ensures
        ({
            let v = pin_steps(true);
            &&& level_after(v, Pin::ChargerGate) == Some(false)
            &&& level_after(v, Pin::MicPower) == Some(false)
            &&& level_after(v, Pin::PanelPower) == Some(true)
            &&& level_after(v, Pin::CardPower) == Some(true)
            &&& level_after(v, Pin::TouchPower) == Some(true)
            &&& level_after(v, Pin::TouchReset) == Some(true)
        }),
{
    reveal_with_fuel(level_after, 12);
}

/// Registers of the expander for a pin, for pins 1 to 8 and 9 to 16.
pub open spec fn bank(pin: u8, low: u8) -> u8 {
    if pin <= 8 {
        low
    } else {
        (low + 1) as u8
    }
}

/// Place of a pin in its registers.
pub open spec fn place(pin: u8) -> u8 {
    if pin <= 8 {
        (pin - 1) as u8
    } else {
        (pin - 9) as u8
    }
}

/// Register and place at which a pin's level is read.
pub fn in_bit(pin: u8) -> (r: (u8, u8))
    requires
        1 <= pin <= 16,
    ensures
        r == (bank(pin, 0x07), place(pin)),
        r.1 < 8,
{
    if pin <= 8 {
        (0x07, pin - 1)
    } else {
        (0x08, pin - 9)
    }
}

/// The level of a pin in the value of its register, if that could be read.
pub open spec fn level_of(value: Option<u8>, at: u8) -> Option<bool> {
    match value {
        Some(v) => Some((v >> at) & 1 == 1),
        None => None,
    }
}

/// The level of a pin, for its place and its register; unknown where that could not be
/// read.
pub fn level(value: Option<u8>, at: u8) -> (high: Option<bool>)
    requires
        at < 8,
    ensures
        high == (match value {
            Some(v) => Some((v >> at) & 1 == 1),
            None => None,
        }),
        high == level_of(value, at),
{
    match value {
        Some(v) => Some((v >> at) & 1 == 1),
        None => None,
    }
}

/// A write to the expander, or a pause.
#[derive(Debug, Clone, Copy, PartialEq, Eq, Structural)]
pub enum Kick {
    /// Writes a value to a register.
    Write(u8, u8),
    /// Waits so many milliseconds.
    WaitMs(u64),
}

/// A byte with one bit set or cleared.
pub open spec fn with_bit(v: u8, at: u8, on: bool) -> u8 {
    if on {
        v | (1u8 << at)
    } else {
        v & !(1u8 << at)
    }
}

/// What wakes a pin that does not follow: made an input with a pull-up for a moment, and
/// then an output again, with the pull-up as it was. Nothing where the pin's mode and
/// pull-up could not be read.
pub open spec fn kick_steps(pin: u8, mode: Option<u8>, pull_up: Option<u8>) -> Seq<Kick> {
    match (mode, pull_up) {
        (Some(m), Some(pu)) => seq![
            Kick::Write(bank(pin, 0x09), with_bit(pu, place(pin), true)),
            Kick::Write(bank(pin, 0x03), with_bit(m, place(pin), false)),
            Kick::WaitMs(5),
            Kick::Write(bank(pin, 0x09), pu),
            Kick::Write(bank(pin, 0x03), with_bit(m, place(pin), true)),
            Kick::WaitMs(2),
        ],
        _ => Seq::empty(),
    }
}

/// Registers of a pin's mode and of its pull-up.
pub fn kick_registers(pin: u8) -> (r: (u8, u8))
    requires
        1 <= pin <= 16,
    ensures
        r == (bank(pin, 0x03), bank(pin, 0x09)),
{
    if pin <= 8 {
        (0x03, 0x09)
    } else {
        (0x04, 0x0A)
    }
}

/// What wakes a pin that does not follow.
pub fn kick_pin(pin: u8, mode: Option<u8>, pull_up: Option<u8>) -> (v: Vec<Kick>)
    requires
        1 <= pin <= 16,
    ensures
        v@ == kick_steps(pin, mode, pull_up),
{
    let mut v: Vec<Kick> = Vec::new();
    if let (Some(m), Some(pu)) = (mode, pull_up) {
        let (m_reg, pu_reg): (u8, u8) = kick_registers(pin);
        let (_, at): (u8, u8) = in_bit(pin);
        let bit: u8 = 1u8 << at;
        v.push(Kick::Write(pu_reg, pu | bit));
        v.push(Kick::Write(m_reg, m & !bit));
        v.push(Kick::WaitMs(5));
        v.push(Kick::Write(pu_reg, pu));
        v.push(Kick::Write(m_reg, m | bit));
        v.push(Kick::WaitMs(2));
    }
    assert(v@ =~= kick_steps(pin, mode, pull_up));
    v
}

/// How often a pin is set before it is given up.
pub const OUTPUT_TRIES: u8 = 3;

/// What is known of a pin after it was set and read back.
#[derive(Debug, Clone, Copy, PartialEq, Eq, Structural)]
pub enum Verdict {
    /// It follows.
    Follows,
    /// To be kicked, then set again.
    KickAndRetry,
    /// To be kicked, and given up.
    KickAndGiveUp,
}

/// What try number `tries` (from 0) to set a pin to `want` says, for the level read back,
/// if it could be. Only a level that was read shows that the pin follows.
pub open spec fn verdict(tries: u8, want: bool, read_back: Option<bool>) -> Verdict {
    if read_back == Some(want) {
        Verdict::Follows
    } else if tries + 1 < OUTPUT_TRIES {
        Verdict::KickAndRetry
    } else {
        Verdict::KickAndGiveUp
    }
}

/// What try number `tries` (from 0) to set a pin to `want` says, for the level read back,
/// if it could be.
pub fn set_output_verified(tries: u8, want: bool, read_back: Option<bool>) -> (v: Verdict)
    ensures
        v == verdict(tries, want, read_back),
{
    let follows: bool = match read_back {
        Some(high) => high == want,
        None => false,
    };
    if follows {
        Verdict::Follows
    } else if tries < OUTPUT_TRIES - 1 {
        Verdict::KickAndRetry
    } else {
        Verdict::KickAndGiveUp
    }
}

/// How often a pin's registers are written before that is given up.
pub const WRITE_TRIES: u8 = 5;

/// Whether a register is written again after `tries` writes before this one.
pub open spec fn written_again(tries: u8, ok: bool) -> bool {
    !ok && tries + 1 < WRITE_TRIES
}

/// Whether try number `tries` (from 0) to write a pin's registers, which went well or not,
/// is to be followed by another one.
pub fn write_again(tries: u8, ok: bool) -> (again: bool)
    ensures
        again == (!ok && tries + 1 < WRITE_TRIES),
        again == written_again(tries, ok),
{
    !ok && tries < WRITE_TRIES - 1
}

/// Addresses at which the expander may be.
pub const ADDRESSES: [u8; 2] = [0x4F, 0x6F];

/// Something to do on the bus while looking for the expander.
#[derive(Debug, Clone, Copy, PartialEq, Eq, Structural)]
pub enum BusStep {
    /// Sets the bus to 100 kHz.
    Slow,
    /// Sets the bus to 400 kHz.
    Fast,
    /// Wakes the expander up.
    Wake,
    /// Waits so many milliseconds.
    WaitMs(u64),
}

/// A place in the search: which address, and which try there.
#[derive(Debug, Clone, Copy, PartialEq, Eq, Structural)]
pub struct Search {
    pub address: usize,
    pub attempt: u8,
}

/// What is done before the expander is asked: at first on the slow bus, then once more
/// after a pause, then on the fast bus.
pub open spec fn before_asking(attempt: u8) -> Seq<BusStep> {
    (if attempt == 0 {
        seq![BusStep::Slow]
    } else if attempt == 1 {
        seq![BusStep::WaitMs(800)]
    } else {
        seq![BusStep::Fast]
    }) + seq![BusStep::Wake, BusStep::WaitMs(10)]
}

/// What is done after the expander was asked: the fast bus is made slow again.
pub open spec fn after_asking(attempt: u8) -> Seq<BusStep> {
    if attempt >= 2 {
        seq![BusStep::Slow]
    } else {
        Seq::empty()
    }
}

/// How the search goes on.
#[derive(Debug, Clone, Copy, PartialEq, Eq, Structural)]
pub enum SearchNext {
    /// Ask here next.
    Ask(Search),
    /// The expander is at this address.
    Found(u8),
    /// It is at none.
    Absent,
}

impl Search {
    /// Within the addresses and the tries.
    pub open spec fn valid(self) -> bool {
        self.address < 2 && self.attempt < 3
    }

    /// How the search goes on after the expander answered or not.
    pub open spec fn following(self, answered: bool) -> SearchNext {
        if answered {
            SearchNext::Found(ADDRESSES[self.address as int])
        } else if self.attempt < 2 {
            SearchNext::Ask(Search { attempt: (self.attempt + 1) as u8, ..self })
        } else if self.address < 1 {
            SearchNext::Ask(Search { address: 1, attempt: 0 })
        } else {
            SearchNext::Absent
        }
    }

    /// The first place.
    pub fn start() -> (s: Self)
        ensures
            s == (Search { address: 0, attempt: 0 }),
    {
        Search { address: 0, attempt: 0 }
    }

    /// Address that is asked.
    pub fn address(&self) -> (a: u8)
        requires
            self.valid(),
        ensures
            a == ADDRESSES[self.address as int],
    {
        ADDRESSES[self.address]
    }

    /// What is done before the expander is asked.
    pub fn before(&self) -> (v: Vec<BusStep>)
        ensures
            v@ == before_asking(self.attempt),
    {
        let mut v: Vec<BusStep> = Vec::new();
        if self.attempt == 0 {
            v.push(BusStep::Slow);
        } else if self.attempt == 1 {
            v.push(BusStep::WaitMs(800));
        } else {
            v.push(BusStep::Fast);
        }
        v.push(BusStep::Wake);
        v.push(BusStep::WaitMs(10));
        assert(v@ =~= before_asking(self.attempt));
        v
    }

    /// What is done after the expander was asked.
    pub fn after(&self) -> (v: Vec<BusStep>)
        ensures
            v@ == after_asking(self.attempt),
    {
        let mut v: Vec<BusStep> = Vec::new();
        if self.attempt >= 2 {
            v.push(BusStep::Slow);
        }
        assert(v@ =~= after_asking(self.attempt));
        v
    }

    /// How the search goes on.
    pub fn next(&self, answered: bool) -> (n: SearchNext)
        requires
            self.valid(),
        ensures
            n == self.following(answered),
            n matches SearchNext::Ask(s) ==> s.valid(),
    {
        if answered {
            SearchNext::Found(ADDRESSES[self.address])
        } else if self.attempt < 2 {
            SearchNext::Ask(Search { address: self.address, attempt: self.attempt + 1 })
        } else if self.address < 1 {
            SearchNext::Ask(Search { address: 1, attempt: 0 })
        } else {
            SearchNext::Absent
        }
    }
}

/// The result of a search, for whether the expander would answer at each of the six
/// tries.
pub open spec fn search_result(s: Search, answers: Seq<bool>) -> SearchNext
    decreases 6 - (3 * s.address + s.attempt),
{
    if !s.valid() {
        SearchNext::Absent
    } else {
        match s.following(answers[3 * s.address + s.attempt]) {
            SearchNext::Ask(t) => search_result(t, answers),
            end => end,
        }
    }
}

/// The search finds the expander wherever it answers at one of three tries, at the first
/// address before the second.
pub proof fn law_search_finds(answers: Seq<bool>)
    requires
        answers.len() == 6,
    ensures
        search_result(Search { address: 0, attempt: 0 }, answers) == (if answers[0] || answers[1]
            || answers[2] {
            SearchNext::Found(0x4F)
        } else if answers[3] || answers[4] || answers[5] {
            SearchNext::Found(0x6F)
        } else {
            SearchNext::Absent
        }),
{
    reveal_with_fuel(search_result, 7);
}

/// The search leaves the bus slow: where a try makes it fast, it is made slow again right
/// after the expander was asked.
pub proof fn law_bus_is_left_slow(attempt: u8)
    ensures
        before_asking(attempt).contains(BusStep::Fast) ==> after_asking(attempt) == seq![
            BusStep::Slow,
        ],
{
}

/// Whether setting a pin ends well, from try number `tries` on, for the levels that each
/// try would read back, if it could.
pub open spec fn output_result(tries: u8, want: bool, levels: Seq<Option<bool>>) -> bool
    decreases OUTPUT_TRIES - tries,
{
    match verdict(tries, want, levels[tries as int]) {
        Verdict::Follows => true,
        Verdict::KickAndRetry => output_result((tries + 1) as u8, want, levels),
        Verdict::KickAndGiveUp => false,
    }
}

/// Setting a pin ends well exactly where one of the three tries reads the level back.
pub proof fn law_output_is_verified(want: bool, levels: Seq<Option<bool>>)
    requires
        levels.len() == OUTPUT_TRIES,
    ensures
        output_result(0, want, levels) == (levels[0] == Some(want) || levels[1] == Some(want)
            || levels[2] == Some(want)),
{
    reveal_with_fuel(output_result, 4);
}

/// The sixteen pins stand in two registers in a row, eight in each, in their order.
pub proof fn law_pins_in_their_order(pin: u8, low: u8)
    requires
        1 <= pin <= 16,
        low < 255,
    ensures
        place(pin) < 8,
        8 * (bank(pin, low) - low) + place(pin) == pin - 1,
{
}

/// The lowest bit is at place 0, each place is one bit further up, and nothing is known of
/// a register that could not be read.
pub proof fn law_levels_by_place(v: u8, at: u8)
    requires
        at < 7,
    ensures
        level_of(None, at) is None,
        level_of(Some(v), 0) == Some(v % 2 == 1),
        level_of(Some(v), (at + 1) as u8) == level_of(Some(v / 2), at),
{
    assert(((v >> 0u8) & 1 == 1) == (v % 2 == 1)) by (bit_vector);
    let up = (at + 1) as u8;
    assert((v >> up) & 1 == ((v / 2) >> at) & 1) by (bit_vector)
        requires
            at < 7,
            up == at + 1,
    ;
}

/// Setting or clearing a bit changes that pin's level and no other.
pub proof fn law_one_bit_is_changed(v: u8, at: u8, other: u8, on: bool)
    requires
        at < 8,
        other < 8,
    ensures
        level_of(Some(with_bit(v, at, on)), at) == Some(on),
        other != at ==> level_of(Some(with_bit(v, at, on)), other) == level_of(Some(v), other),
{
    assert(((v | (1u8 << at)) >> at) & 1 == 1) by (bit_vector)
        requires
            at < 8,
    ;
    assert(((v & !(1u8 << at)) >> at) & 1 == 0) by (bit_vector)
        requires
            at < 8,
    ;
    assert(at != other ==> ((v | (1u8 << at)) >> other) & 1 == (v >> other) & 1 && ((v & !(1u8
        << at)) >> other) & 1 == (v >> other) & 1) by (bit_vector)
        requires
            at < 8,
            other < 8,
    ;
}

/// A pin that does not follow is pulled up as an input for 5 ms and made an output again:
/// nothing is written where its registers could not be read, only those two registers are
/// written, no bit but the pin's own is changed in either, and in the end the pull-up is as
/// it was and the pin is an output.
pub proof fn law_kick_touches_one_pin(pin: u8, mode: Option<u8>, pull_up: Option<u8>, other: u8)
    requires
        1 <= pin <= 16,
        other < 8,
    ensures
        mode is None || pull_up is None ==> kick_steps(pin, mode, pull_up).len() == 0,
        mode matches Some(m) ==> (pull_up matches Some(pu) ==> {
            let v = kick_steps(pin, mode, pull_up);
            let up = if pin <= 8 {
                0x09u8
            } else {
                0x0A
            };
            let out = if pin <= 8 {
                0x03u8
            } else {
                0x04
            };
            let at = place(pin);
            &&& v.len() == 6
            &&& v[0] matches Kick::Write(r, x) && r == up && level_of(Some(x), at) == Some(true)
                && (other != at ==> level_of(Some(x), other) == level_of(Some(pu), other))
            &&& v[1] matches Kick::Write(r, x) && r == out && level_of(Some(x), at) == Some(false)
                && (other != at ==> level_of(Some(x), other) == level_of(Some(m), other))
            &&& v[2] == Kick::WaitMs(5)
            &&& v[3] == Kick::Write(up, pu)
            &&& v[4] matches Kick::Write(r, x) && r == out && level_of(Some(x), at) == Some(true)
                && (other != at ==> level_of(Some(x), other) == level_of(Some(m), other))
            &&& v[5] == Kick::WaitMs(2)
        }),
{
    let at = place(pin);
    if let Some(m) = mode {
        law_one_bit_is_changed(m, at, other, true);
        law_one_bit_is_changed(m, at, other, false);
    }
    if let Some(pu) = pull_up {
        law_one_bit_is_changed(pu, at, other, true);
    }
}

/// A write is repeated only while it fails, and five times in all at most.
pub proof fn law_writes_are_repeated(tries: u8, ok: bool)
    ensures
        ok ==> !written_again(tries, ok),
        !ok ==> (written_again(tries, ok) <==> tries < 4),
{
}

/// A pin follows exactly if it was read and is at the level wanted; otherwise it is kicked,
/// and tried again until it was tried three times.
pub proof fn law_pin_is_tried_three_times(tries: u8, want: bool, read_back: Option<bool>)
    ensures
        verdict(tries, want, read_back) == Verdict::Follows <==> (read_back is Some
            && read_back->Some_0 == want),
        verdict(tries, want, read_back) == Verdict::KickAndRetry <==> !(read_back is Some
            && read_back->Some_0 == want) && tries < 2,
{
}

/// Each time the expander is asked, the bus is woken and 10 ms waited just before. At an
/// address the first time is on a slow bus, the second after 800 ms more on the same bus,
/// and from the third on on a fast one, which is slowed down again afterwards.
pub proof fn law_bus_before_asking(attempt: u8)
    ensures
        ({
            let v = before_asking(attempt);
            &&& v.len() == 3
            &&& v[1] == BusStep::Wake && v[2] == BusStep::WaitMs(10)
            &&& v[0] == BusStep::Slow <==> attempt == 0
            &&& v[0] == BusStep::WaitMs(800) <==> attempt == 1
            &&& v[0] == BusStep::Fast <==> attempt > 1
            &&& after_asking(attempt).len() > 0 <==> v[0] == BusStep::Fast
            &&& after_asking(attempt).len() > 0 ==> after_asking(attempt).last() == BusStep::Slow
        }),
{
}

} // verus!
