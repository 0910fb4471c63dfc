//! The e-paper panel: which steps an update takes, and what the panel then shows.
//!
//! The panel is driven with one of two kinds of waveforms. In either case a partial update
//! leaves a bias behind, so that after [`PARTIALS_BEFORE_FULL`] of them a full update is
//! due; every update ends in deep sleep, and nothing is sent while the panel is busy.

use vstd::prelude::*;

use crate::page;
use crate::page::{BYTES_PER_ROW, PLANE_BYTES};

verus! {

/// Kind of waveforms.
#[derive(Debug, Clone, Copy, PartialEq, Eq, Structural)]
pub enum Drive {
    /// Those built into the panel.
    Otp,
    /// Tables and voltages that are sent before each update.
    M5gfx,
}

/// The kind of waveforms in use.
pub const DRIVE: Drive = Drive::Otp;

/// Length of the reset pulse in milliseconds.
pub const RST_MS: u64 = 10;

/// How long the panel may take to become busy, in milliseconds.
pub const BUSY_RISE_MS: u64 = 100;

/// Number of partial updates after which a full one is due.
pub const PARTIALS_BEFORE_FULL: u8 = 18;

/// Waveform table for full updates: 105 bytes of waveforms, then five voltages, of which
/// the first is for the rows, the next three for the columns and the last common.
pub const LUT_FAST: [u8; 110] = [
    0x55, 0x55, 0x55, 0x55, 0x55, 0x5A, 0xAA, 0xAA, 0x00, 0x00,
    0xAA, 0x95, 0x55, 0x55, 0x55, 0x5A, 0x82, 0xAC, 0x00, 0x00,
    0xAA, 0xA5, 0x55, 0x55, 0x55, 0x5A, 0xAC, 0x00, 0x00, 0x00,
    0xAA, 0xAA, 0xAA, 0xAA, 0x55, 0x55, 0x55, 0x50, 0x00, 0x00,
    0x00, 0x00, 0x00, 0x00, 0x00, 0x00, 0x00, 0x00, 0x00, 0x00,
    0x01, 0x01, 0x01, 0x01, 0x00, 0x01, 0x01, 0x01, 0x01, 0x00,
    0x01, 0x01, 0x01, 0x01, 0x00, 0x01, 0x01, 0x01, 0x01, 0x00,
    0x02, 0x02, 0x02, 0x02, 0x00, 0x02, 0x02, 0x02, 0x02, 0x00,
    0x02, 0x02, 0x02, 0x02, 0x00, 0x02, 0x02, 0x02, 0x02, 0x00,
    0x00, 0x00, 0x00, 0x00, 0x00, 0x00, 0x00, 0x00, 0x00, 0x00,
    0x8F, 0x8F, 0x8F, 0x8F, 0x8F, 0x17, 0x41, 0xA8, 0x32, 0x30,
];

/// Waveform table for differential updates, laid out like [`LUT_FAST`].
pub const LUT_FASTEST: [u8; 110] = [
    0x00, 0x00, 0x00, 0x00, 0x00, 0x00, 0x00, 0x00, 0x00, 0x00,
    0x6A, 0xA0, 0x00, 0x00, 0x00, 0x00, 0x00, 0x00, 0x00, 0x00,
    0x95, 0x50, 0x00, 0x00, 0x00, 0x00, 0x00, 0x00, 0x00, 0x00,
    0x00, 0x00, 0x00, 0x00, 0x00, 0x00, 0x00, 0x00, 0x00, 0x00,
    0x00, 0x00, 0x00, 0x00, 0x00, 0x00, 0x00, 0x00, 0x00, 0x00,
    0x02, 0x02, 0x02, 0x02, 0x00, 0x01, 0x01, 0x00, 0x00, 0x00,
    0x00, 0x00, 0x00, 0x00, 0x00, 0x00, 0x00, 0x00, 0x00, 0x00,
    0x00, 0x00, 0x00, 0x00, 0x00, 0x00, 0x00, 0x00, 0x00, 0x00,
    0x00, 0x00, 0x00, 0x00, 0x00, 0x00, 0x00, 0x00, 0x00, 0x00,
    0x00, 0x00, 0x00, 0x00, 0x00, 0x00, 0x00, 0x00, 0x00, 0x00,
    0x8F, 0x8F, 0x8F, 0x8F, 0x8F, 0x17, 0x46, 0xA8, 0x32, 0x30,
];

/// Which table is sent.
#[derive(Debug, Clone, Copy, PartialEq, Eq, Structural)]
pub enum Lut {
    Fast,
    Fastest,
}

/// The bytes of a table.
pub open spec fn lut_bytes(lut: Lut) -> Seq<u8> {
    match lut {
        Lut::Fast => LUT_FAST@,
        Lut::Fastest => LUT_FASTEST@,
    }
}

/// The two memories of the panel's controller.
#[derive(Debug, Clone, Copy, PartialEq, Eq, Structural)]
pub enum Ram {
    Bw,
    Red,
}

/// What is written into a memory.
#[derive(Debug, Clone, Copy, PartialEq, Eq, Structural)]
pub enum Pixels {
    /// One for white, zero for black.
    Paper,
    /// Zero for white, one for black.
    Ink,
    /// One for what is white on the glass, zero for what is black.
    OldPaper,
    /// The black-and-white plane.
    PlaneBw,
    /// The red plane.
    PlaneRed,
    /// The black-and-white plane, each row from its end.
    GrayBw,
    /// The red plane, each row from its end.
    GrayRed,
}

/// Updates that can be activated.
#[derive(Debug, Clone, Copy, PartialEq, Eq, Structural)]
pub enum Update {
    /// Inverted picture before a full update, built-in waveforms.
    OtpMonoSync,
    /// Full update, built-in waveforms.
    OtpMono,
    /// Partial update, built-in waveforms.
    OtpPartial,
    /// Update in four grays, built-in waveforms.
    OtpGray,
    /// Power on and show, with the table that was sent.
    Table,
    /// Analog part and clock off.
    PowerOff,
}

/// The byte that selects an update.
pub open spec fn update_code(u: Update) -> u8 {
    match u {
        Update::OtpMonoSync => 0xF8,
        Update::OtpMono => 0x14,
        Update::OtpPartial => 0xFF,
        Update::OtpGray => 0xD7,
        Update::Table => 0xCC,
        Update::PowerOff => 0x03,
    }
}

impl Update {
    /// The byte that selects the update.
    pub fn code(self) -> (c: u8)
        ensures
            c == update_code(self),
    {
        match self {
            Update::OtpMonoSync => 0xF8,
            Update::OtpMono => 0x14,
            Update::OtpPartial => 0xFF,
            Update::OtpGray => 0xD7,
            Update::Table => 0xCC,
            Update::PowerOff => 0x03,
        }
    }
}

/// One step of what is done with the panel.
#[derive(Debug, Clone, Copy, PartialEq, Eq, Structural)]
pub enum Step {
    /// Sets the reset pin.
    ResetPin(bool),
    /// Sets the reset pin and reads it back.
    ResetPinVerified(bool),
    /// Sets the pin that powers the panel and reads it back.
    PowerPinVerified(bool),
    /// Waits so many milliseconds.
    WaitMs(u64),
    /// Waits until the panel is not busy.
    WaitBusyLow,
    /// Waits until the panel is not busy, if it is.
    WaitReady,
    /// Waits until the panel was busy and is not any more.
    WaitBusyCycle,
    /// Resets the controller.
    SwReset,
    /// Sets the controller up for black and white.
    InitMono,
    /// Sets the controller up for four grays.
    InitGray,
    /// Sets the addresses for black and white.
    MonoAddressing,
    /// Clears a memory.
    ClearRam(Ram),
    /// Writes a memory.
    WriteRam(Ram, Pixels),
    /// Sends a table.
    SendLut(Lut),
    /// Border for full updates.
    BorderFull,
    /// Border for partial updates.
    BorderPartial,
    /// Normal use of the memories.
    ControlNormal,
    /// Selects an update.
    Select(Update),
    /// Starts the selected update.
    Activate,
    /// Sends the controller into deep sleep.
    DeepSleep,
}

/// Number of the command that clears a memory.
pub open spec fn clear_code(ram: Ram) -> u8 {
    match ram {
        Ram::Bw => 0x46,
        Ram::Red => 0x47,
    }
}

/// Command and parameter that clear a memory.
pub fn clear_command(ram: Ram) -> (c: (u8, u8))
    ensures
        c == (clear_code(ram), 0xF7u8),
{
    match ram {
        Ram::Bw => (0x46, 0xF7),
        Ram::Red => (0x47, 0xF7),
    }
}

/// The four commands that send a table, with their parameters: waveforms, voltage of the
/// rows, voltages of the columns, common voltage.
pub open spec fn table_commands(lut: Lut) -> Seq<(u8, Seq<u8>)> {
    let b = lut_bytes(lut);
    seq![
        (0x32u8, b.take(105)),
        (0x03u8, b.subrange(105, 106)),
        (0x04u8, b.subrange(106, 109)),
        (0x2Cu8, b.subrange(109, 110)),
    ]
}

/// A piece of a table.
fn piece(lut: Lut, from: usize, to: usize) -> (v: Vec<u8>)
    requires
        from <= to <= 110,
    ensures
        v@ == lut_bytes(lut).subrange(from as int, to as int),
{
    let table: [u8; 110] = match lut {
        Lut::Fast => LUT_FAST,
        Lut::Fastest => LUT_FASTEST,
    };
    let mut v: Vec<u8> = Vec::new();
    let mut i: usize = from;
    while i < to
        invariant
            from <= i <= to <= 110,
            v@ == table@.subrange(from as int, i as int),
        decreases to - i,
    {
        v.push(table[i]);
        assert(table@.subrange(from as int, i + 1) =~= table@.subrange(from as int, i as int).push(
            table@[i as int],
        ));
        i += 1;
    }
    v
}

/// The commands that send a table.
pub fn lut_commands(lut: Lut) -> (v: Vec<(u8, Vec<u8>)>)
    ensures
        v@.len() == table_commands(lut).len(),
        forall|i: int|
            0 <= i < v@.len() ==> #[trigger] v@[i].0 == table_commands(lut)[i].0 && v@[i].1@
                == table_commands(lut)[i].1,
{
    let mut v: Vec<(u8, Vec<u8>)> = Vec::new();
    v.push((0x32, piece(lut, 0, 105)));
    v.push((0x03, piece(lut, 105, 106)));
    v.push((0x04, piece(lut, 106, 109)));
    v.push((0x2C, piece(lut, 109, 110)));
    assert(lut_bytes(lut).subrange(0, 105) =~= lut_bytes(lut).take(105));
    v
}

/// The reset pulse.
pub open spec fn reset_steps() -> Seq<Step> {
    seq![
        Step::ResetPin(false),
        Step::WaitMs(RST_MS),
        Step::ResetPin(true),
        Step::WaitMs(RST_MS),
        Step::WaitBusyLow,
    ]
}

/// Waking the panel up for tables.
pub open spec fn wake_steps() -> Seq<Step> {
    reset_steps() + seq![
        Step::SwReset,
        Step::WaitMs(RST_MS),
        Step::WaitBusyLow,
        Step::InitMono,
        Step::WaitBusyLow,
        Step::ClearRam(Ram::Bw),
        Step::WaitBusyLow,
        Step::ClearRam(Ram::Red),
        Step::WaitBusyLow,
    ]
}

/// Showing the memories with a table, then power off and deep sleep.
pub open spec fn table_steps(bw: Pixels, red: Pixels, lut: Lut) -> Seq<Step> {
    wake_steps() + seq![
        Step::WriteRam(Ram::Bw, bw),
        Step::WriteRam(Ram::Red, red),
        Step::SendLut(lut),
        Step::ControlNormal,
        Step::Select(Update::Table),
        Step::Activate,
        Step::WaitBusyCycle,
        Step::Select(Update::PowerOff),
        Step::Activate,
        Step::WaitBusyLow,
        Step::DeepSleep,
    ]
}

/// Full update in black and white with the built-in waveforms.
pub open spec fn otp_full_steps() -> Seq<Step> {
    reset_steps() + seq![
        Step::WaitReady,
        Step::SwReset,
        Step::WaitMs(RST_MS),
        Step::WaitBusyLow,
        Step::InitMono,
        Step::Select(Update::OtpMonoSync),
        Step::WriteRam(Ram::Bw, Pixels::Ink),
        Step::Activate,
        Step::WaitBusyCycle,
        Step::WriteRam(Ram::Red, Pixels::Paper),
        Step::WriteRam(Ram::Bw, Pixels::Paper),
        Step::BorderFull,
        Step::Select(Update::OtpMono),
        Step::Activate,
        Step::WaitBusyCycle,
        Step::DeepSleep,
    ]
}

/// Partial update with the built-in waveforms.
pub open spec fn otp_partial_steps() -> Seq<Step> {
    reset_steps() + seq![
        Step::MonoAddressing,
        Step::BorderPartial,
        Step::WriteRam(Ram::Bw, Pixels::Paper),
        Step::ControlNormal,
        Step::Select(Update::OtpPartial),
        Step::Activate,
        Step::WaitBusyCycle,
        Step::WriteRam(Ram::Red, Pixels::Paper),
        Step::DeepSleep,
    ]
}

/// Update in four grays with the built-in waveforms.
pub open spec fn otp_gray_steps() -> Seq<Step> {
    reset_steps() + seq![
        Step::WaitReady,
        Step::SwReset,
        Step::WaitMs(RST_MS),
        Step::WaitBusyLow,
        Step::InitGray,
        Step::WriteRam(Ram::Bw, Pixels::GrayBw),
        Step::WriteRam(Ram::Red, Pixels::GrayRed),
        Step::Select(Update::OtpGray),
        Step::Activate,
        Step::WaitBusyCycle,
        Step::DeepSleep,
    ]
}

/// What is known of the panel.
pub struct Panel {
    mono_ready: bool,
    partials: u8,
    displayed: [u8; PLANE_BYTES],
    displayed_valid: bool,
    last_busy_rose: Option<bool>,
}

/// What is known of the panel, apart from how it is stored.
pub struct PanelState {
    /// The controller's memories hold the picture on the glass (built-in waveforms).
    pub mono_ready: bool,
    /// Partial updates since the last full one.
    pub partials: int,
    /// The black points on the glass, where they are known (tables).
    pub displayed: Option<Seq<u8>>,
    /// Whether the panel became busy at the last update; unknown before the first.
    pub last_busy_rose: Option<bool>,
}

impl View for Panel {
    type V = PanelState;

    closed spec fn view(&self) -> PanelState {
        PanelState {
            mono_ready: self.mono_ready,
            partials: self.partials as int,
            displayed: if self.displayed_valid {
                Some(self.displayed@)
            } else {
                None
            },
            last_busy_rose: self.last_busy_rose,
        }
    }
}

impl PanelState {
    /// Whether the next update in black and white is a full one: where there is nothing
    /// to differ from, or as many partial ones were made as may be.
    pub open spec fn full_due(self, drive: Drive) -> bool {
        self.partials >= PARTIALS_BEFORE_FULL || (match drive {
            Drive::Otp => !self.mono_ready,
            Drive::M5gfx => self.displayed is None,
        })
    }

    /// The steps of an update in black and white.
    pub open spec fn mono_steps(self, drive: Drive) -> Seq<Step> {
        match (drive, self.full_due(drive)) {
            (Drive::Otp, true) => otp_full_steps(),
            (Drive::Otp, false) => otp_partial_steps(),
            (Drive::M5gfx, true) => table_steps(Pixels::Ink, Pixels::Ink, Lut::Fast),
            (Drive::M5gfx, false) => table_steps(Pixels::Paper, Pixels::OldPaper, Lut::Fastest),
        }
    }

    /// The panel after an update in black and white that showed `bw` and `red`.
    pub open spec fn after_mono(self, drive: Drive, bw: Seq<u8>, red: Seq<u8>) -> Self {
        PanelState {
            mono_ready: self.mono_ready || drive == Drive::Otp,
            partials: if self.full_due(drive) {
                0
            } else {
                self.partials + 1
            },
            displayed: if drive == Drive::M5gfx {
                Some(Seq::new(PLANE_BYTES as nat, |i: int| bw[i] | red[i]))
            } else {
                self.displayed
            },
            last_busy_rose: self.last_busy_rose,
        }
    }

    /// The panel after an update in four grays.
    pub open spec fn after_gray(self) -> Self {
        PanelState {
            mono_ready: false,
            partials: 0,
            displayed: None,
            last_busy_rose: self.last_busy_rose,
        }
    }
}

/// The steps of an update in four grays, which is always a full one.
pub open spec fn gray_steps(drive: Drive) -> Seq<Step> {
    match drive {
        Drive::Otp => otp_gray_steps(),
        Drive::M5gfx => table_steps(Pixels::PlaneBw, Pixels::PlaneRed, Lut::Fast),
    }
}

/// Adds the reset pulse.
fn push_reset(v: &mut Vec<Step>)
    ensures
        final(v)@ == old(v)@ + reset_steps(),
{
    v.push(Step::ResetPin(false));
    v.push(Step::WaitMs(RST_MS));
    v.push(Step::ResetPin(true));
    v.push(Step::WaitMs(RST_MS));
    v.push(Step::WaitBusyLow);
    assert(v@ =~= old(v)@ + reset_steps());
}

/// The steps of an update with a table.
fn table_plan(bw: Pixels, red: Pixels, lut: Lut) -> (v: Vec<Step>)
    ensures
        v@ == table_steps(bw, red, lut),
{
    let mut v: Vec<Step> = Vec::new();
    push_reset(&mut v);
    v.push(Step::SwReset);
    v.push(Step::WaitMs(RST_MS));
    v.push(Step::WaitBusyLow);
    v.push(Step::InitMono);
    v.push(Step::WaitBusyLow);
    v.push(Step::ClearRam(Ram::Bw));
    v.push(Step::WaitBusyLow);
    v.push(Step::ClearRam(Ram::Red));
    v.push(Step::WaitBusyLow);
    assert(v@ =~= wake_steps());
    v.push(Step::WriteRam(Ram::Bw, bw));
    v.push(Step::WriteRam(Ram::Red, red));
    v.push(Step::SendLut(lut));
    v.push(Step::ControlNormal);
    v.push(Step::Select(Update::Table));
    v.push(Step::Activate);
    v.push(Step::WaitBusyCycle);
    v.push(Step::Select(Update::PowerOff));
    v.push(Step::Activate);
    v.push(Step::WaitBusyLow);
    v.push(Step::DeepSleep);
    assert(v@ =~= table_steps(bw, red, lut));
    v
}

/// The steps of a full update with the built-in waveforms.
fn otp_full_plan() -> (v: Vec<Step>)
    ensures
        v@ == otp_full_steps(),
{
    let mut v: Vec<Step> = Vec::new();
    push_reset(&mut v);
    v.push(Step::WaitReady);
    v.push(Step::SwReset);
    v.push(Step::WaitMs(RST_MS));
    v.push(Step::WaitBusyLow);
    v.push(Step::InitMono);
    v.push(Step::Select(Update::OtpMonoSync));
    v.push(Step::WriteRam(Ram::Bw, Pixels::Ink));
    v.push(Step::Activate);
    v.push(Step::WaitBusyCycle);
    v.push(Step::WriteRam(Ram::Red, Pixels::Paper));
    v.push(Step::WriteRam(Ram::Bw, Pixels::Paper));
    v.push(Step::BorderFull);
    v.push(Step::Select(Update::OtpMono));
    v.push(Step::Activate);
    v.push(Step::WaitBusyCycle);
    v.push(Step::DeepSleep);
    assert(v@ =~= otp_full_steps());
    v
}

/// The steps of a partial update with the built-in waveforms.
fn otp_partial_plan() -> (v: Vec<Step>)
    ensures
        v@ == otp_partial_steps(),
{
    let mut v: Vec<Step> = Vec::new();
    push_reset(&mut v);
    v.push(Step::MonoAddressing);
    v.push(Step::BorderPartial);
    v.push(Step::WriteRam(Ram::Bw, Pixels::Paper));
    v.push(Step::ControlNormal);
    v.push(Step::Select(Update::OtpPartial));
    v.push(Step::Activate);
    v.push(Step::WaitBusyCycle);
    v.push(Step::WriteRam(Ram::Red, Pixels::Paper));
    v.push(Step::DeepSleep);
    assert(v@ =~= otp_partial_steps());
    v
}

/// The steps of an update in four grays with the built-in waveforms.
fn otp_gray_plan() -> (v: Vec<Step>)
    ensures
        v@ == otp_gray_steps(),
{
    let mut v: Vec<Step> = Vec::new();
    push_reset(&mut v);
    v.push(Step::WaitReady);
    v.push(Step::SwReset);
    v.push(Step::WaitMs(RST_MS));
    v.push(Step::WaitBusyLow);
    v.push(Step::InitGray);
    v.push(Step::WriteRam(Ram::Bw, Pixels::GrayBw));
    v.push(Step::WriteRam(Ram::Red, Pixels::GrayRed));
    v.push(Step::Select(Update::OtpGray));
    v.push(Step::Activate);
    v.push(Step::WaitBusyCycle);
    v.push(Step::DeepSleep);
    assert(v@ =~= otp_gray_steps());
    v
}

impl Panel {
    #[verifier::type_invariant]
    spec fn within_budget(self) -> bool {
        self.partials <= PARTIALS_BEFORE_FULL
    }

    /// A panel of which nothing is known.
    pub fn new() -> (p: Self)
        ensures
            p@ == (PanelState {
                mono_ready: false,
                partials: 0,
                displayed: None,
                last_busy_rose: None,
            }),
    {
        Panel {
            mono_ready: false,
            partials: 0,
            displayed: [0; PLANE_BYTES],
            displayed_valid: false,
            last_busy_rose: None,
        }
    }

    /// Whether the panel became busy at the last update.
    pub fn last_busy_rose(&self) -> (r: Option<bool>)
        ensures
            r == self@.last_busy_rose,
    {
        self.last_busy_rose
    }

    /// Takes down whether the panel became busy.
    pub fn note_busy(&mut self, rose: bool)
        ensures
            final(self)@ == (PanelState { last_busy_rose: Some(rose), ..old(self)@ }),
    {
        proof {
            use_type_invariant(&*self);
        }
        self.last_busy_rose = Some(rose);
    }

    /// Whether the next update in black and white is a full one.
    fn full_due(&self, drive: Drive) -> (yes: bool)
        ensures
            yes == self@.full_due(drive),
    {
        self.partials >= PARTIALS_BEFORE_FULL || (match drive {
            Drive::Otp => !self.mono_ready,
            Drive::M5gfx => !self.displayed_valid,
        })
    }

    /// The steps that show a picture in black and white: all of it where that is due,
    /// else what is different.
    pub fn paint_mono_fast(&self, drive: Drive) -> (v: Vec<Step>)
        ensures
            v@ == self@.mono_steps(drive),
    {
        let full: bool = self.full_due(drive);
        match drive {
            Drive::Otp => {
                if full {
                    otp_full_plan()
                } else {
                    otp_partial_plan()
                }
            },
            Drive::M5gfx => {
                if full {
                    table_plan(Pixels::Ink, Pixels::Ink, Lut::Fast)
                } else {
                    table_plan(Pixels::Paper, Pixels::OldPaper, Lut::Fastest)
                }
            },
        }
    }

    /// The steps that show a picture in four grays.
    pub fn paint_gray(&self, drive: Drive) -> (v: Vec<Step>)
        ensures
            v@ == gray_steps(drive),
    {
        match drive {
            Drive::Otp => otp_gray_plan(),
            Drive::M5gfx => table_plan(Pixels::PlaneBw, Pixels::PlaneRed, Lut::Fast),
        }
    }

    /// Takes down that a picture in black and white was shown.
    pub fn mono_painted(&mut self, drive: Drive, bw: &[u8], red: &[u8])
        requires
            bw@.len() == PLANE_BYTES,
            red@.len() == PLANE_BYTES,
        ensures
            final(self)@ == old(self)@.after_mono(drive, bw@, red@),
    {
        proof {
            use_type_invariant(&*self);
        }
        let full: bool = self.full_due(drive);
        let mut displayed: [u8; PLANE_BYTES] = self.displayed;
        let mut displayed_valid: bool = self.displayed_valid;
        let mut mono_ready: bool = self.mono_ready;
        if drive == Drive::M5gfx {
            let mut i: usize = 0;
            while i < PLANE_BYTES
                invariant
                    i <= PLANE_BYTES,
                    bw@.len() == PLANE_BYTES,
                    red@.len() == PLANE_BYTES,
                    forall|k: int| 0 <= k < i ==> displayed@[k] == bw@[k] | red@[k],
                decreases PLANE_BYTES - i,
            {
                displayed[i] = bw[i] | red[i];
                i += 1;
            }
            displayed_valid = true;
            assert(displayed@ =~= Seq::new(PLANE_BYTES as nat, |i: int| bw@[i] | red@[i]));
        } else {
            mono_ready = true;
        }
        let partials: u8 = if full {
            0
        } else {
            self.partials + 1
        };
        *self =
        Panel {
            mono_ready,
            partials,
            displayed,
            displayed_valid,
            last_busy_rose: self.last_busy_rose,
        };
    }

    /// Takes down that a picture in four grays was shown.
    pub fn gray_painted(&mut self)
        ensures
            final(self)@ == old(self)@.after_gray(),
    {
        *self =
        Panel {
            mono_ready: false,
            partials: 0,
            displayed: self.displayed,
            displayed_valid: false,
            last_busy_rose: self.last_busy_rose,
        };
    }
}

/// Whether a plane has a point set; none has one off the page.
pub open spec fn plane_has(plane: Seq<u8>, at: (u16, u16)) -> bool {
    let p = (at.0 as int, at.1 as int);
    page::on_page(p) && page::plane_bit(plane, p)
}

/// The bit that is written for a point.
pub open spec fn pixel_bit(
    pixels: Pixels,
    bw: Seq<u8>,
    red: Seq<u8>,
    old: Seq<u8>,
    at: (u16, u16),
) -> bool {
    match pixels {
        Pixels::Paper => !(plane_has(bw, at) || plane_has(red, at)),
        Pixels::Ink => plane_has(bw, at) || plane_has(red, at),
        Pixels::OldPaper => !plane_has(old, at),
        Pixels::PlaneBw | Pixels::GrayBw => plane_has(bw, at),
        Pixels::PlaneRed | Pixels::GrayRed => plane_has(red, at),
    }
}

/// The point of the page that stands at place `x` of a row of the controller's memory.
pub open spec fn row_point(pixels: Pixels, coords: Seq<(u16, u16)>, x: int) -> (u16, u16) {
    match pixels {
        Pixels::GrayBw | Pixels::GrayRed => coords[coords.len() - 1 - x],
        _ => coords[x],
    }
}

/// Whether a plane has a point set.
fn official_bit(plane: &[u8], x: u16, y: u16) -> (yes: bool)
    requires
        plane@.len() == PLANE_BYTES,
    ensures
        yes == plane_has(plane@, (x, y)),
{
    if x >= 480 || y >= 800 {
        return false;
    }
    let i: usize = y as usize * BYTES_PER_ROW + x as usize / 8;
    let mask: u8 = 0x80u8 >> ((x % 8) as u8);
    plane[i] & mask != 0
}

impl Panel {
    /// The bit that is written for a point.
    fn pixel(&self, pixels: Pixels, bw: &[u8], red: &[u8], at: (u16, u16)) -> (yes: bool)
        requires
            bw@.len() == PLANE_BYTES,
            red@.len() == PLANE_BYTES,
            pixels == Pixels::OldPaper ==> self@.displayed is Some,
        ensures
            yes == pixel_bit(pixels, bw@, red@, self@.displayed->Some_0, at),
    {
        let (x, y): (u16, u16) = at;
        match pixels {
            Pixels::Paper => !(official_bit(bw, x, y) || official_bit(red, x, y)),
            Pixels::Ink => official_bit(bw, x, y) || official_bit(red, x, y),
            Pixels::OldPaper => !official_bit(&self.displayed, x, y),
            Pixels::PlaneBw | Pixels::GrayBw => official_bit(bw, x, y),
            Pixels::PlaneRed | Pixels::GrayRed => official_bit(red, x, y),
        }
    }

    /// One row of a memory, eight points to a byte, the first in the highest bit.
    /// `coords` gives for each place of the row the point of the page that it shows.
    pub fn ram_row(
        &self,
        pixels: Pixels,
        bw: &[u8],
        red: &[u8],
        coords: &[(u16, u16)],
    ) -> (row: Vec<u8>)
        requires
            bw@.len() == PLANE_BYTES,
            red@.len() == PLANE_BYTES,
            coords@.len() % 8 == 0,
            pixels == Pixels::OldPaper ==> self@.displayed is Some,
        ensures
            row@.len() == coords@.len() / 8,
            forall|x: int|
                #![trigger row_point(pixels, coords@, x)]
                0 <= x < coords@.len() ==> (row@[x / 8] & (0x80u8 >> ((x % 8) as u8)) != 0)
                    == pixel_bit(
                    pixels,
                    bw@,
                    red@,
                    self@.displayed->Some_0,
                    row_point(pixels, coords@, x),
                ),
    {
        let ghost old = self@.displayed->Some_0;
        let n: usize = coords.len();
        let mut row: Vec<u8> = Vec::new();
        while row.len() < n / 8
            invariant
                bw@.len() == PLANE_BYTES,
                red@.len() == PLANE_BYTES,
                n == coords@.len(),
                n % 8 == 0,
                pixels == Pixels::OldPaper ==> self@.displayed is Some,
                old == self@.displayed->Some_0,
                row@.len() <= n / 8,
                forall|x: int|
                    #![trigger row_point(pixels, coords@, x)]
                    0 <= x < 8 * row@.len() ==> (row@[x / 8] & (0x80u8 >> ((x % 8) as u8)) != 0)
                        == pixel_bit(pixels, bw@, red@, old, row_point(pixels, coords@, x)),
            decreases n / 8 - row@.len(),
        {
            let start: usize = 8 * row.len();
            let mut v: u8 = 0;
            let mut bit: u8 = 0;
            assert forall|b: u8| #![trigger 0x80u8 >> b] b < 8 implies v & (0x80u8 >> b) == 0 by {
                page::lemma_bits(0, 0, b);
            }
            while bit < 8
                invariant
                    bw@.len() == PLANE_BYTES,
                    red@.len() == PLANE_BYTES,
                    n == coords@.len(),
                    pixels == Pixels::OldPaper ==> self@.displayed is Some,
                    old == self@.displayed->Some_0,
                    bit <= 8,
                    start + 8 <= n,
                    forall|b: u8|
                        #![trigger 0x80u8 >> b]
                        b < 8 ==> (v & (0x80u8 >> b) != 0) == (b < bit && pixel_bit(
                            pixels,
                            bw@,
                            red@,
                            old,
                            row_point(pixels, coords@, start + b),
                        )),
                decreases 8 - bit,
            {
                let x: usize = start + bit as usize;
                let at: (u16, u16) = match pixels {
                    Pixels::GrayBw | Pixels::GrayRed => coords[n - 1 - x],
                    _ => coords[x],
                };
                let ghost before = v;
                let on: bool = self.pixel(pixels, bw, red, at);
                if on {
                    v = v | (0x80u8 >> bit);
                }
                proof {
                    assert forall|b: u8| #![trigger 0x80u8 >> b] b < 8 implies (v & (0x80u8 >> b)
                        != 0) == (b < bit + 1 && pixel_bit(
                        pixels,
                        bw@,
                        red@,
                        old,
                        row_point(pixels, coords@, start + b),
                    )) by {
                        page::lemma_bits(before, bit, b);
                    }
                }
                bit += 1;
            }
            let ghost prev = row@;
            row.push(v);
            proof {
                assert forall|x: int|
                    #![trigger row_point(pixels, coords@, x)]
                    0 <= x < 8 * row@.len() implies (row@[x / 8] & (0x80u8 >> ((x % 8) as u8)) != 0)
                    == pixel_bit(pixels, bw@, red@, old, row_point(pixels, coords@, x)) by {
                    if x >= start {
                        assert(x / 8 == prev.len());
                        let b = (x % 8) as u8;
                        assert((v & (0x80u8 >> b) != 0) == pixel_bit(
                            pixels,
                            bw@,
                            red@,
                            old,
                            row_point(pixels, coords@, start + b),
                        ));
                        assert(start + b == x);
                    } else {
                        assert(row@[x / 8] == prev[x / 8]);
                    }
                }
            }
        }
        row
    }
}

/// Taking the power away from the panel and giving it back.
pub open spec fn power_cycle_steps() -> Seq<Step> {
    seq![
        Step::ResetPinVerified(false),
        Step::PowerPinVerified(false),
        Step::WaitMs(300),
        Step::PowerPinVerified(true),
    ]
}

/// Starting the controller once the panel has power.
pub open spec fn start_steps() -> Seq<Step> {
    seq![
        Step::WaitMs(500),
        Step::ResetPin(false),
        Step::WaitMs(RST_MS),
        Step::ResetPinVerified(true),
        Step::WaitMs(1),
        Step::WaitMs(RST_MS),
        Step::WaitBusyLow,
        Step::SwReset,
        Step::WaitMs(1),
        Step::WaitMs(RST_MS),
        Step::WaitBusyLow,
        Step::InitMono,
        Step::WaitBusyLow,
        Step::ClearRam(Ram::Bw),
        Step::WaitBusyCycle,
        Step::ClearRam(Ram::Red),
        Step::WaitBusyLow,
    ]
}

/// The steps that take the power away and give it back.
pub fn power_cycle() -> (v: Vec<Step>)
    ensures
        v@ == power_cycle_steps(),
{
    let mut v: Vec<Step> = Vec::new();
    v.push(Step::ResetPinVerified(false));
    v.push(Step::PowerPinVerified(false));
    v.push(Step::WaitMs(300));
    v.push(Step::PowerPinVerified(true));
    assert(v@ =~= power_cycle_steps());
    v
}

/// The steps that start the controller, and the panel as it then is; nothing where the
/// pin that powers the panel did not follow.
pub fn begin(powered: bool) -> (r: Option<(Vec<Step>, Panel)>)
    ensures
        powered == (r is Some),
        r matches Some((v, p)) ==> v@ == start_steps() && p@ == (PanelState {
            mono_ready: false,
            partials: 0,
            displayed: None,
            last_busy_rose: None,
        }),
{
    if !powered {
        return None;
    }
    let mut v: Vec<Step> = Vec::new();
    v.push(Step::WaitMs(500));
    v.push(Step::ResetPin(false));
    v.push(Step::WaitMs(RST_MS));
    v.push(Step::ResetPinVerified(true));
    v.push(Step::WaitMs(1));
    v.push(Step::WaitMs(RST_MS));
    v.push(Step::WaitBusyLow);
    v.push(Step::SwReset);
    v.push(Step::WaitMs(1));
    v.push(Step::WaitMs(RST_MS));
    v.push(Step::WaitBusyLow);
    v.push(Step::InitMono);
    v.push(Step::WaitBusyLow);
    v.push(Step::ClearRam(Ram::Bw));
    v.push(Step::WaitBusyCycle);
    v.push(Step::ClearRam(Ram::Red));
    v.push(Step::WaitBusyLow);
    assert(v@ =~= start_steps());
    Some((v, Panel::new()))
}

/// What to do next while waiting for the panel.
#[derive(Debug, Clone, Copy, PartialEq, Eq, Structural)]
pub enum Wait {
    /// Look again in a millisecond.
    Again,
    /// The panel is ready, or was given up.
    Done,
}

/// Whether to look again, while waiting for the panel to be busy or not to be.
pub open spec fn look_again(now_ms: u64, until_ms: u64, busy: bool, wanted: bool) -> bool {
    busy != wanted && now_ms < until_ms
}

/// Waiting until the panel is not busy, up to a time in milliseconds.
pub fn wait_busy_low(now_ms: u64, until_ms: u64, busy: bool) -> (w: Wait)
    ensures
        w == (if busy && now_ms < until_ms {
            Wait::Again
        } else {
            Wait::Done
        }),
        w == Wait::Again <==> look_again(now_ms, until_ms, busy, false),
{
    if busy && now_ms < until_ms {
        Wait::Again
    } else {
        Wait::Done
    }
}

/// Waiting until the panel becomes busy, up to a time in milliseconds. The second part
/// says whether it did.
pub fn wait_busy_rise(now_ms: u64, until_ms: u64, busy: bool) -> (w: (Wait, bool))
    ensures
        w.0 == (if !busy && now_ms < until_ms {
            Wait::Again
        } else {
            Wait::Done
        }),
        w.1 == busy,
        w.0 == Wait::Again <==> look_again(now_ms, until_ms, busy, true),
{
    if !busy && now_ms < until_ms {
        (Wait::Again, false)
    } else {
        (Wait::Done, busy)
    }
}

/// A step that waits for the panel.
pub open spec fn waits(s: Step) -> bool {
    s == Step::WaitBusyLow || s == Step::WaitBusyCycle
}

/// A step that makes the panel busy.
pub open spec fn makes_busy(s: Step) -> bool {
    match s {
        Step::Activate | Step::SwReset | Step::ClearRam(_) => true,
        Step::ResetPin(high) | Step::ResetPinVerified(high) => high,
        _ => false,
    }
}

/// From step `i` on there are only pauses until a step waits for the panel.
pub open spec fn wait_comes(v: Seq<Step>, i: int) -> bool
    decreases v.len() - i,
{
    0 <= i < v.len() && (waits(v[i]) || v[i] is WaitMs && wait_comes(v, i + 1))
}

/// After every step that makes the panel busy, the panel is waited for before anything else
/// is done.
pub open spec fn waited_for(v: Seq<Step>) -> bool {
    forall|i: int| 0 <= i < v.len() && makes_busy(#[trigger] v[i]) ==> wait_comes(v, i + 1)
}

/// Nothing is sent to the panel while it is busy with an update, a reset or clearing a
/// memory, neither when it is started nor when it is updated.
pub proof fn law_updates_are_waited_for(state: PanelState, drive: Drive)
    ensures
        waited_for(start_steps()),
        waited_for(state.mono_steps(drive)),
        waited_for(gray_steps(drive)),
{
    reveal_with_fuel(wait_comes, 4);
}

/// Every update ends in deep sleep; with tables, the analog part is off before it.
pub proof fn law_updates_end_asleep(state: PanelState, drive: Drive)
    ensures
        state.mono_steps(drive).last() == Step::DeepSleep,
        gray_steps(drive).last() == Step::DeepSleep,
        drive == Drive::M5gfx ==> {
            let off = seq![
                Step::Select(Update::PowerOff),
                Step::Activate,
                Step::WaitBusyLow,
                Step::DeepSleep,
            ];
            &&& off.is_suffix_of(state.mono_steps(drive))
            &&& off.is_suffix_of(gray_steps(drive))
        },
{
}

/// Only the two tables are ever sent, and a full update never uses the differential one.
#[verifier::rlimit(40)]
pub proof fn law_tables_are_the_known_ones(state: PanelState, drive: Drive, lut: Lut)
    ensures
        state.mono_steps(drive).contains(Step::SendLut(lut)) ==> drive == Drive::M5gfx && (lut
            == Lut::Fastest) == !state.full_due(drive),
        gray_steps(drive).contains(Step::SendLut(lut)) ==> drive == Drive::M5gfx && lut
            == Lut::Fast,
        table_commands(lut)[0].1 + table_commands(lut)[1].1 + table_commands(lut)[2].1
            + table_commands(lut)[3].1 == lut_bytes(lut),
{
    assert(table_commands(lut)[0].1 + table_commands(lut)[1].1 + table_commands(lut)[2].1
        + table_commands(lut)[3].1 =~= lut_bytes(lut));
}

/// The panel after a number of updates in black and white.
pub open spec fn after_updates(
    state: PanelState,
    drive: Drive,
    pictures: Seq<(Seq<u8>, Seq<u8>)>,
) -> PanelState
    decreases pictures.len(),
{
    if pictures.len() == 0 {
        state
    } else {
        let p = pictures.last();
        after_updates(state, drive, pictures.drop_last()).after_mono(drive, p.0, p.1)
    }
}

/// Of any 19 updates in black and white in a row at least one is a full one.
pub proof fn law_full_update_comes(
    state: PanelState,
    drive: Drive,
    pictures: Seq<(Seq<u8>, Seq<u8>)>,
)
    requires
        0 <= state.partials <= PARTIALS_BEFORE_FULL,
        pictures.len() > PARTIALS_BEFORE_FULL,
    ensures
        exists|k: int|
            0 <= k < pictures.len() && #[trigger] after_updates(
                state,
                drive,
                pictures.take(k),
            ).full_due(drive),
{
    if forall|k: int|
        0 <= k < pictures.len() ==> !(#[trigger] after_updates(
            state,
            drive,
            pictures.take(k),
        )).full_due(drive) {
        lemma_partials_grow(state, drive, pictures, PARTIALS_BEFORE_FULL as int);
        assert(after_updates(
            state,
            drive,
            pictures.take(PARTIALS_BEFORE_FULL as int),
        ).full_due(drive));
        assert(false);
    }
}

proof fn lemma_partials_grow(
    state: PanelState,
    drive: Drive,
    pictures: Seq<(Seq<u8>, Seq<u8>)>,
    n: int,
)
    requires
        0 <= state.partials,
        0 <= n <= pictures.len(),
        forall|k: int|
            0 <= k < pictures.len() ==> !(#[trigger] after_updates(
                state,
                drive,
                pictures.take(k),
            )).full_due(drive),
    ensures
        after_updates(state, drive, pictures.take(n)).partials == state.partials + n,
    decreases n,
{
    if n > 0 {
        lemma_partials_grow(state, drive, pictures, n - 1);
        assert(pictures.take(n).drop_last() =~= pictures.take(n - 1));
        assert(!after_updates(state, drive, pictures.take(n - 1)).full_due(drive));
    }
}

/// After four grays the next picture in black and white is shown by a full update, and a
/// full update starts the count of partial ones again.
pub proof fn law_full_updates(state: PanelState, drive: Drive, bw: Seq<u8>, red: Seq<u8>)
    ensures
        state.after_gray().full_due(drive),
        state.full_due(drive) ==> state.after_mono(drive, bw, red).partials == 0
            && !state.after_mono(drive, bw, red).full_due(drive),
{
}

/// What a partial update with tables takes for the picture shown is the one of the update
/// before it, point for point, whatever is drawn since.
pub proof fn law_old_paper_is_what_was_shown(
    state: PanelState,
    bw: Seq<u8>,
    red: Seq<u8>,
    new_bw: Seq<u8>,
    new_red: Seq<u8>,
    at: (u16, u16),
)
    requires
        bw.len() == PLANE_BYTES,
        red.len() == PLANE_BYTES,
    ensures
        ({
            let after = state.after_mono(Drive::M5gfx, bw, red);
            &&& after.displayed is Some
            &&& pixel_bit(Pixels::OldPaper, new_bw, new_red, after.displayed->Some_0, at)
                == pixel_bit(Pixels::Paper, bw, red, new_bw, at)
        }),
{
    let after = state.after_mono(Drive::M5gfx, bw, red);
    let old = after.displayed->Some_0;
    let p = (at.0 as int, at.1 as int);
    if page::on_page(p) {
        let i = BYTES_PER_ROW * p.1 + p.0 / 8;
        assert(0 <= i < PLANE_BYTES);
        assert(old[i] == bw[i] | red[i]);
        let a = bw[i];
        let b = red[i];
        let m = 0x80u8 >> ((p.0 % 8) as u8);
        assert(((a | b) & m != 0) == (a & m != 0 || b & m != 0)) by (bit_vector);
    }
}

/// Ink is what either plane has set, paper the rest of the page, and nothing off the page is
/// inked. The shades of gray are the planes themselves.
pub proof fn law_ink_and_paper(bw: Seq<u8>, red: Seq<u8>, old: Seq<u8>, at: (u16, u16))
    ensures
        pixel_bit(Pixels::Paper, bw, red, old, at) != pixel_bit(Pixels::Ink, bw, red, old, at),
        pixel_bit(Pixels::Ink, bw, red, old, at) <==> pixel_bit(Pixels::PlaneBw, bw, red, old, at)
            || pixel_bit(Pixels::PlaneRed, bw, red, old, at),
        pixel_bit(Pixels::GrayBw, bw, red, old, at) == pixel_bit(Pixels::PlaneBw, bw, red, old, at),
        pixel_bit(Pixels::GrayRed, bw, red, old, at) == pixel_bit(
            Pixels::PlaneRed,
            bw,
            red,
            old,
            at,
        ),
        at.0 >= 480 || at.1 >= 800 ==> !pixel_bit(Pixels::PlaneBw, bw, red, old, at) && !pixel_bit(
            Pixels::PlaneRed,
            bw,
            red,
            old,
            at,
        ),
        at.0 < 480 && at.1 < 800 ==> {
            let p = (at.0 as int, at.1 as int);
            &&& pixel_bit(Pixels::PlaneBw, bw, red, old, at) <==> page::plane_points(bw).contains(p)
            &&& pixel_bit(Pixels::PlaneRed, bw, red, old, at) <==> page::plane_points(red).contains(
                p,
            )
        },
{
}

/// Rows in gray run the other way than all others, and each point of a row is written once.
pub proof fn law_gray_rows_run_backwards(coords: Seq<(u16, u16)>, x: int)
    requires
        0 <= x < coords.len(),
    ensures
        row_point(Pixels::GrayBw, coords, x) == row_point(
            Pixels::Paper,
            coords,
            coords.len() - 1 - x,
        ),
        row_point(Pixels::GrayRed, coords, x) == row_point(Pixels::GrayBw, coords, x),
        row_point(Pixels::Paper, coords, x) == coords[x],
        row_point(Pixels::Ink, coords, x) == coords[x],
        row_point(Pixels::OldPaper, coords, x) == coords[x],
        row_point(Pixels::PlaneBw, coords, x) == coords[x],
        row_point(Pixels::PlaneRed, coords, x) == coords[x],
{
}

/// A full update is due after eighteen partial ones; and before them exactly while the panel
/// is not known to show a picture in black and white, which each drive remembers in its own
/// way. An update in black and white is remembered, and one in gray makes it forget.
pub proof fn law_when_full(state: PanelState, bw: Seq<u8>, red: Seq<u8>)
    ensures
        state.partials >= 18 ==> state.full_due(Drive::Otp) && state.full_due(Drive::M5gfx),
        state.partials < 18 ==> (state.full_due(Drive::Otp) <==> !state.mono_ready) && (
        state.full_due(Drive::M5gfx) <==> state.displayed is None),
        state.after_mono(Drive::Otp, bw, red).mono_ready,
        state.after_mono(Drive::M5gfx, bw, red).displayed is Some,
        state.after_mono(Drive::Otp, bw, red).displayed == state.displayed,
        state.after_mono(Drive::M5gfx, bw, red).mono_ready == state.mono_ready,
        !state.full_due(Drive::Otp) ==> state.after_mono(Drive::Otp, bw, red).partials
            == state.partials + 1,
        !state.full_due(Drive::M5gfx) ==> state.after_mono(Drive::M5gfx, bw, red).partials
            == state.partials + 1,
        !state.after_gray().mono_ready && state.after_gray().displayed is None
            && state.after_gray().partials == 0,
{
}

/// Waiting ends when the panel is as it is waited for, or when the time is up.
pub proof fn law_waiting_ends(now_ms: u64, until_ms: u64, busy: bool, wanted: bool)
    ensures
        busy == wanted ==> !look_again(now_ms, until_ms, busy, wanted),
        now_ms >= until_ms ==> !look_again(now_ms, until_ms, busy, wanted),
        busy != wanted && now_ms < until_ms ==> look_again(now_ms, until_ms, busy, wanted),
{
}

/// What a memory of the controller holds after steps: what was written to it last.
pub open spec fn held(steps: Seq<Step>, ram: Ram) -> Option<Pixels>
    decreases steps.len(),
{
    if steps.len() == 0 {
        None
    } else {
        match steps.last() {
            Step::WriteRam(r, pixels) => if r == ram {
                Some(pixels)
            } else {
                held(steps.drop_last(), ram)
            },
            _ => held(steps.drop_last(), ram),
        }
    }
}

/// With the panel's own waveforms, both memories hold the picture shown after every update
/// in black and white, so that the next partial one tells what has changed. With tables, a
/// partial update has the new picture in one memory and the old one in the other, and a full
/// one the new picture in both. In gray each memory has its own plane.
#[verifier::rlimit(40)]
pub proof fn law_memories_after_updates(state: PanelState)
    ensures
        held(state.mono_steps(Drive::Otp), Ram::Bw) == Some(Pixels::Paper),
        held(state.mono_steps(Drive::Otp), Ram::Red) == Some(Pixels::Paper),
        !state.full_due(Drive::M5gfx) ==> held(state.mono_steps(Drive::M5gfx), Ram::Bw) == Some(
            Pixels::Paper,
        ) && held(state.mono_steps(Drive::M5gfx), Ram::Red) == Some(Pixels::OldPaper),
        state.full_due(Drive::M5gfx) ==> held(state.mono_steps(Drive::M5gfx), Ram::Bw) == Some(
            Pixels::Ink,
        ) && held(state.mono_steps(Drive::M5gfx), Ram::Red) == Some(Pixels::Ink),
        held(gray_steps(Drive::Otp), Ram::Bw) == Some(Pixels::GrayBw),
        held(gray_steps(Drive::Otp), Ram::Red) == Some(Pixels::GrayRed),
        held(gray_steps(Drive::M5gfx), Ram::Bw) == Some(Pixels::PlaneBw),
        held(gray_steps(Drive::M5gfx), Ram::Red) == Some(Pixels::PlaneRed),
{
    reveal_with_fuel(held, 12);
}

} // verus!
