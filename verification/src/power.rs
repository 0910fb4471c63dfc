//! The power chip: what keeps the device alive, the power button harmless, and the
//! settings and the front light as the user left them.

use vstd::prelude::*;

use crate::ui::BRIGHTNESS_TOP;

verus! {

/// Registers of the power chip.
#[derive(Debug, Clone, Copy, PartialEq, Eq, Structural)]
pub enum Reg {
    /// What is powered.
    PwrCfg,
    /// What stays powered.
    HoldCfg,
    /// Sleep of the bus.
    I2cCfg,
    /// Watchdog.
    WdtCnt,
    /// First button register.
    BtnCfg1,
    /// Second button register.
    BtnCfg2,
    /// Button events that are not reported.
    IrqMask3,
    /// Button events that were reported.
    IrqStatus3,
}

/// Address of a register of the power chip that this crate fixes: all but those of what is
/// powered and of what stays powered, which the chip's driver knows.
pub fn literal_address(r: Reg) -> (a: Option<u8>)
    ensures
        a == (match r {
            Reg::PwrCfg => None,
            Reg::HoldCfg => None,
            Reg::I2cCfg => Some(0x09u8),
            Reg::WdtCnt => Some(0x0Au8),
            Reg::BtnCfg1 => Some(0x49u8),
            Reg::BtnCfg2 => Some(0x4Au8),
            Reg::IrqMask3 => Some(0x45u8),
            Reg::IrqStatus3 => Some(0x42u8),
        }),
{
    match r {
        Reg::PwrCfg => None,
        Reg::HoldCfg => None,
        Reg::I2cCfg => Some(0x09),
        Reg::WdtCnt => Some(0x0A),
        Reg::BtnCfg1 => Some(0x49),
        Reg::BtnCfg2 => Some(0x4A),
        Reg::IrqMask3 => Some(0x45),
        Reg::IrqStatus3 => Some(0x42),
    }
}

/// Supply of 5 V from the battery, in [`Reg::PwrCfg`].
pub const DCDC_EN: u8 = 0x02;

/// Supply of 3.3 V from the battery, in [`Reg::PwrCfg`].
pub const LDO_EN: u8 = 0x04;

/// Supply of 5 V to the outside, in [`Reg::PwrCfg`].
pub const BOOST_EN: u8 = 0x08;

/// The 3.3 V supply is kept, in [`Reg::HoldCfg`].
pub const HOLD_LDO: u8 = 0x20;

/// A change of one register of the power chip.
#[derive(Debug, Clone, Copy, PartialEq, Eq, Structural)]
pub enum Change {
    /// Write a value.
    Write(Reg, u8),
    /// Read the register, clear the bits of the first mask and set those of the second.
    Update(Reg, u8, u8),
}

/// A change, and whether the whole is a failure where it fails.
#[derive(Debug, Clone, Copy, PartialEq, Eq, Structural)]
pub struct Task {
    pub change: Change,
    pub needed: bool,
}

/// A register value with some bits cleared and then some set.
pub open spec fn updated(v: u8, clear: u8, set: u8) -> u8 {
    (v & !clear) | set
}

/// What keeps the device alive on its battery: no sleep of the bus, no watchdog, and the
/// battery's supplies on and kept.
pub open spec fn hold_tasks() -> Seq<Task> {
    seq![
        Task { change: Change::Write(Reg::I2cCfg, 0), needed: true },
        Task { change: Change::Write(Reg::WdtCnt, 0), needed: true },
        Task { change: Change::Update(Reg::PwrCfg, 0, LDO_EN | DCDC_EN), needed: true },
        Task { change: Change::Update(Reg::HoldCfg, 0, HOLD_LDO), needed: true },
    ]
}

/// What keeps the power button harmless: no reset on a click, four seconds for a long
/// press, the download mode not locked, no power off on a double click, and no events.
pub open spec fn button_tasks() -> Seq<Task> {
    seq![
        Task { change: Change::Update(Reg::BtnCfg1, 0x99, 0x19), needed: true },
        Task { change: Change::Update(Reg::BtnCfg2, 0, 0x01), needed: true },
        Task { change: Change::Write(Reg::IrqMask3, 0x07), needed: false },
        Task { change: Change::Write(Reg::IrqStatus3, 0), needed: false },
    ]
}

/// The tasks that keep the device alive on its battery.
pub fn hold_power() -> (v: Vec<Task>)
    ensures
        v@ == hold_tasks(),
{
    let mut v: Vec<Task> = Vec::new();
    v.push(Task { change: Change::Write(Reg::I2cCfg, 0), needed: true });
    v.push(Task { change: Change::Write(Reg::WdtCnt, 0), needed: true });
    v.push(Task { change: Change::Update(Reg::PwrCfg, 0, LDO_EN | DCDC_EN), needed: true });
    v.push(Task { change: Change::Update(Reg::HoldCfg, 0, HOLD_LDO), needed: true });
    assert(v@ =~= hold_tasks());
    v
}

/// The tasks that keep the power button harmless.
pub fn configure_power_button() -> (v: Vec<Task>)
    ensures
        v@ == button_tasks(),
{
    let mut v: Vec<Task> = Vec::new();
    v.push(Task { change: Change::Update(Reg::BtnCfg1, 0x99, 0x19), needed: true });
    v.push(Task { change: Change::Update(Reg::BtnCfg2, 0, 0x01), needed: true });
    v.push(Task { change: Change::Write(Reg::IrqMask3, 0x07), needed: false });
    v.push(Task { change: Change::Write(Reg::IrqStatus3, 0), needed: false });
    assert(v@ =~= button_tasks());
    v
}

/// What the tasks do to registers: the supplies are on and kept, the external 5 V supply
/// is left as it is; single and double clicks are off, a long press takes four seconds,
/// the download mode is open; all other bits stay as they are.
pub proof fn law_register_values(v: u8)
    by (bit_vector)
    ensures
        updated(v, 0, LDO_EN | DCDC_EN) & (LDO_EN | DCDC_EN) == LDO_EN | DCDC_EN,
        updated(v, 0, LDO_EN | DCDC_EN) & BOOST_EN == v & BOOST_EN,
        updated(v, 0, LDO_EN | DCDC_EN) & 0xF9 == v & 0xF9,
        updated(v, 0, HOLD_LDO) & HOLD_LDO == HOLD_LDO,
        updated(v, 0, HOLD_LDO) & 0xDF == v & 0xDF,
        updated(v, 0x99, 0x19) & 0x01 == 0x01,
        updated(v, 0x99, 0x19) & 0x18 == 0x18,
        updated(v, 0x99, 0x19) & 0x80 == 0,
        updated(v, 0x99, 0x19) & 0x66 == v & 0x66,
        updated(v, 0, 0x01) & 0x01 == 0x01,
        updated(v, 0, 0x01) & 0xFE == v & 0xFE,
{
}

/// Something to do with the power chip.
#[derive(Debug, Clone, Copy, PartialEq, Eq, Structural)]
pub enum Action {
    /// Read a register.
    Read(Reg),
    /// Write a register.
    Write(Reg, u8),
    /// Nothing more; says whether all that was needed went well.
    Done(bool),
}

/// How the last thing to do went.
#[derive(Debug, Clone, Copy, PartialEq, Eq, Structural)]
pub enum Reply {
    /// What was read, if it could be.
    Value(Option<u8>),
    /// Whether it could be written.
    Written(bool),
}

/// Where the work on a list of tasks stands: at task `at`, with all that was needed so
/// far gone well or not.
#[derive(Debug, Clone, Copy, PartialEq, Eq, Structural)]
pub struct Progress {
    pub at: usize,
    pub ok: bool,
}

/// What a task starts with; after the last one, that the work is done.
pub open spec fn first_action(tasks: Seq<Task>, p: Progress) -> Action {
    if p.at < tasks.len() {
        match tasks[p.at as int].change {
            Change::Write(reg, v) => Action::Write(reg, v),
            Change::Update(reg, _, _) => Action::Read(reg),
        }
    } else {
        Action::Done(p.ok)
    }
}

/// Where the work stands once the task at hand went well or not.
pub open spec fn task_over(tasks: Seq<Task>, p: Progress, ok: bool) -> Progress {
    Progress { at: (p.at + 1) as usize, ok: p.ok && (ok || !tasks[p.at as int].needed) }
}

/// How the work goes on after a reply. A register that could not be read is not
/// written.
pub open spec fn go_on(tasks: Seq<Task>, p: Progress, reply: Reply) -> (Progress, Action) {
    match (tasks[p.at as int].change, reply) {
        (Change::Update(reg, clear, set), Reply::Value(Some(v))) => (
            p,
            Action::Write(reg, updated(v, clear, set)),
        ),
        (_, Reply::Written(ok)) => {
            let q = task_over(tasks, p, ok);
            (q, first_action(tasks, q))
        },
        _ => {
            let q = task_over(tasks, p, false);
            (q, first_action(tasks, q))
        },
    }
}

/// What a task starts with.
fn first(tasks: &[Task], p: Progress) -> (a: Action)
    ensures
        a == first_action(tasks@, p),
{
    if p.at < tasks.len() {
        match tasks[p.at].change {
            Change::Write(reg, v) => Action::Write(reg, v),
            Change::Update(reg, _, _) => Action::Read(reg),
        }
    } else {
        Action::Done(p.ok)
    }
}

/// Starts the work on a list of tasks.
pub fn start_tasks(tasks: &[Task]) -> (r: (Progress, Action))
    ensures
        r.0 == (Progress { at: 0, ok: true }),
        r.1 == first_action(tasks@, r.0),
{
    let p = Progress { at: 0, ok: true };
    let a = first(tasks, p);
    (p, a)
}

/// Goes on with the work after a reply.
pub fn next_task(tasks: &[Task], p: Progress, reply: Reply) -> (r: (Progress, Action))
    requires
        p.at < tasks@.len(),
    ensures
        r == go_on(tasks@, p, reply),
{
    let task: Task = tasks[p.at];
    let ok: bool = match (task.change, reply) {
        (Change::Update(reg, clear, set), Reply::Value(Some(v))) => {
            return (p, Action::Write(reg, (v & !clear) | set));
        },
        (_, Reply::Written(ok)) => ok,
        _ => false,
    };
    let q = Progress { at: p.at + 1, ok: p.ok && (ok || !task.needed) };
    let a = first(tasks, q);
    (q, a)
}

/// A power chip: its registers, and those that can be read and written at all.
pub struct Chip {
    pub value: Map<Reg, u8>,
    pub readable: Set<Reg>,
    pub writable: Set<Reg>,
}

impl Chip {
    /// Whether a change can be made.
    pub open spec fn can(self, c: Change) -> bool {
        match c {
            Change::Write(reg, _) => self.writable.contains(reg),
            Change::Update(reg, _, _) => self.readable.contains(reg) && self.writable.contains(
                reg,
            ),
        }
    }

    /// With a change made, if it can be.
    pub open spec fn changed(self, c: Change) -> Self {
        if self.can(c) {
            match c {
                Change::Write(reg, v) => Chip { value: self.value.insert(reg, v), ..self },
                Change::Update(reg, clear, set) => Chip {
                    value: self.value.insert(reg, updated(self.value[reg], clear, set)),
                    ..self
                },
            }
        } else {
            self
        }
    }

    /// With the changes of the tasks from number `at` on made, as far as they can be.
    pub open spec fn after_tasks(self, tasks: Seq<Task>, at: int) -> Self
        decreases tasks.len() - at,
    {
        if 0 <= at < tasks.len() {
            self.changed(tasks[at].change).after_tasks(tasks, at + 1)
        } else {
            self
        }
    }

    /// Whether all that is needed from task number `at` on can be done.
    pub open spec fn can_all(self, tasks: Seq<Task>, at: int) -> bool {
        forall|i: int|
            at <= i < tasks.len() && (#[trigger] tasks[i]).needed ==> self.can(tasks[i].change)
    }

    /// The chip and the result after working on tasks, from an action on, with at most
    /// `n` actions.
    pub open spec fn worked(self, tasks: Seq<Task>, p: Progress, a: Action, n: nat) -> (
        Chip,
        bool,
    )
        decreases n,
    {
        if n == 0 {
            (self, false)
        } else {
            match a {
                Action::Done(ok) => (self, ok),
                Action::Read(reg) => {
                    let v = if self.readable.contains(reg) {
                        Some(self.value[reg])
                    } else {
                        None
                    };
                    let (q, b) = go_on(tasks, p, Reply::Value(v));
                    self.worked(tasks, q, b, (n - 1) as nat)
                },
                Action::Write(reg, v) => {
                    let ok = self.writable.contains(reg);
                    let (q, b) = go_on(tasks, p, Reply::Written(ok));
                    let chip = if ok {
                        Chip { value: self.value.insert(reg, v), ..self }
                    } else {
                        self
                    };
                    chip.worked(tasks, q, b, (n - 1) as nat)
                },
            }
        }
    }
}

proof fn lemma_worked(chip: Chip, tasks: Seq<Task>, p: Progress, n: nat)
    requires
        tasks.len() <= usize::MAX,
        p.at <= tasks.len(),
        n >= 2 * (tasks.len() - p.at) + 1,
    ensures
        chip.worked(tasks, p, first_action(tasks, p), n) == (
            chip.after_tasks(tasks, p.at as int),
            p.ok && chip.can_all(tasks, p.at as int),
        ),
    decreases tasks.len() - p.at,
{
    if p.at < tasks.len() {
        let t = tasks[p.at as int];
        let ok = chip.can(t.change);
        let q = task_over(tasks, p, ok);
        let after = chip.changed(t.change);
        match t.change {
            Change::Write(reg, v) => {
                lemma_worked(after, tasks, q, (n - 1) as nat);
            },
            Change::Update(reg, clear, set) => {
                if chip.readable.contains(reg) {
                    let w = updated(chip.value[reg], clear, set);
                    assert(chip.worked(tasks, p, Action::Read(reg), n) == chip.worked(
                        tasks,
                        p,
                        Action::Write(reg, w),
                        (n - 1) as nat,
                    ));
                    lemma_worked(after, tasks, q, (n - 2) as nat);
                } else {
                    lemma_worked(after, tasks, q, (n - 1) as nat);
                }
            },
        }
        assert(after.readable == chip.readable && after.writable == chip.writable);
        assert(chip.can_all(tasks, p.at as int) == ((ok || !t.needed) && after.can_all(
            tasks,
            p.at + 1,
        ))) by {
            assert forall|c: Change| after.can(c) == chip.can(c) by {}
        }
    }
}

/// On every chip the work on a list of tasks comes to an end. It has then made every
/// change that can be made, in order, and no other: a register that cannot be read is not
/// written. The work is reported as done well exactly where all that was needed could be
/// done.
pub proof fn law_tasks_are_done(chip: Chip, tasks: Seq<Task>)
    requires
        tasks.len() <= usize::MAX,
    ensures
        ({
            let p = Progress { at: 0, ok: true };
            chip.worked(tasks, p, first_action(tasks, p), 2 * tasks.len() + 1) == (
                chip.after_tasks(tasks, 0),
                chip.can_all(tasks, 0),
            )
        }),
{
    lemma_worked(chip, tasks, Progress { at: 0, ok: true }, 2 * tasks.len() + 1);
}

/// Settings that outlive a power cycle: the magic byte, the brightness step and whether
/// the light goes off by itself, at [`SETTINGS_ADDR`] and the two places after it.
pub const SETTINGS_ADDR: u8 = 0xA0;

/// What marks settings as such.
pub const SETTINGS_MAGIC: u8 = 0x5A;

/// A brightness step within its bounds.
pub open spec fn clamped(step: u8) -> u8 {
    if step > BRIGHTNESS_TOP {
        BRIGHTNESS_TOP
    } else {
        step
    }
}

/// What is written for settings: place and value, in order.
pub open spec fn settings_writes(step: u8, auto_off: bool) -> Seq<(u8, u8)> {
    seq![
        (0xA0u8, SETTINGS_MAGIC),
        (0xA1u8, clamped(step)),
        (
            0xA2u8,
            if auto_off {
                1u8
            } else {
                0
            },
        ),
    ]
}

/// What is read of settings: nothing where a byte could not be read or the mark is not
/// there.
pub open spec fn settings_read(
    magic: Option<u8>,
    step: Option<u8>,
    auto_off: Option<u8>,
) -> Option<(u8, bool)> {
    match (magic, step, auto_off) {
        (Some(m), Some(s), Some(a)) => if m == SETTINGS_MAGIC {
            Some((clamped(s), a != 0))
        } else {
            None
        },
        _ => None,
    }
}

/// What is written for settings.
pub fn save_ui_settings(step: u8, auto_off: bool) -> (w: [(u8, u8); 3])
    ensures
        w@ == settings_writes(step, auto_off),
{
    let s: u8 = if step > BRIGHTNESS_TOP {
        BRIGHTNESS_TOP
    } else {
        step
    };
    let a: u8 = if auto_off {
        1
    } else {
        0
    };
    let w: [(u8, u8); 3] = [(SETTINGS_ADDR, SETTINGS_MAGIC), (0xA1, s), (0xA2, a)];
    assert(w@ =~= settings_writes(step, auto_off));
    w
}

/// The settings that three bytes hold.
pub fn load_ui_settings(magic: Option<u8>, step: Option<u8>, auto_off: Option<u8>) -> (r: Option<
    (u8, bool),
>)
    ensures
        r == settings_read(magic, step, auto_off),
{
    match (magic, step, auto_off) {
        (Some(m), Some(s), Some(a)) => {
            if m != SETTINGS_MAGIC {
                return None;
            }
            Some(
                (
                    if s > BRIGHTNESS_TOP {
                        BRIGHTNESS_TOP
                    } else {
                        s
                    },
                    a != 0,
                ),
            )
        },
        _ => None,
    }
}

/// Settings that were saved are read back as they were, with the brightness within its
/// bounds.
pub proof fn law_settings_come_back(step: u8, auto_off: bool)
    ensures
        ({
            let w = settings_writes(step, auto_off);
            settings_read(Some(w[0].1), Some(w[1].1), Some(w[2].1)) == Some(
                (clamped(step), auto_off),
            )
        }),
{
}

/// The duty of the front light in its two registers; 0 where it is not enabled.
pub open spec fn duty_read(lo: u8, hc: u8, enable: u8) -> int {
    if hc & enable == 0 {
        0
    } else {
        (hc as int % 16) * 256 + lo
    }
}

/// How bright the front light is, for the two bytes of its setting: 0 where it is off,
/// else twelve bits. `enable` is the bit that switches it on.
pub fn frontlight_duty(lo: u8, hc: u8, enable: u8) -> (duty: u16)
    ensures
        duty == (if hc & enable == 0 {
            0
        } else {
            (hc as int % 16) * 256 + lo
        }),
        duty == duty_read(lo, hc, enable),
{
    if hc & enable == 0 {
        return 0;
    }
    (hc % 16) as u16 * 256 + lo as u16
}

/// Whether the front light is enabled for a duty, and the duty.
pub open spec fn light_setting(duty: u16) -> (bool, u16) {
    (duty != 0, duty)
}

/// What is done for a brightness: whether the light is switched on first, and the
/// brightness that is set.
pub fn set_frontlight(duty: u16) -> (r: (bool, u16))
    ensures
        r == (duty != 0, duty),
        r == light_setting(duty),
{
    (duty != 0, duty)
}

/// An update sets the bits to set, clears the bits to clear that are not set too, and leaves
/// all others as they are.
pub proof fn law_update_keeps_other_bits(v: u8, clear: u8, set: u8)
    by (bit_vector)
    ensures
        updated(v, clear, set) & set == set,
        updated(v, clear, set) & (clear & !set) == 0,
        updated(v, clear, set) & !(clear | set) == v & !(clear | set),
{
}

/// The settings are written to three registers in a row from 0xA0 on, and are taken from
/// there only with all three read and the mark in the first. A step over 4 counts as 4, and
/// any value but 0 as on.
pub proof fn law_settings_in_their_registers(
    step: u8,
    auto_off: bool,
    magic: Option<u8>,
    read_step: Option<u8>,
    read_off: Option<u8>,
)
    ensures
        ({
            let w = settings_writes(step, auto_off);
            &&& w.len() == 3
            &&& w[0].0 == 0xA0 && w[1].0 == 0xA1 && w[2].0 == 0xA2
            &&& w[0].1 == 0x5A
            &&& w[1].1 <= 4 && (step <= 4 ==> w[1].1 == step) && (step > 4 ==> w[1].1 == 4)
            &&& w[2].1 != 0 <==> auto_off
        }),
        settings_read(magic, read_step, read_off) is Some <==> magic == Some(0x5Au8)
            && read_step is Some && read_off is Some,
        settings_read(magic, read_step, read_off) matches Some(r) ==> {
            &&& r.0 <= 4
            &&& read_step->Some_0 <= 4 ==> r.0 == read_step->Some_0
            &&& read_step->Some_0 > 4 ==> r.0 == 4
            &&& r.1 <==> read_off->Some_0 != 0
        },
{
}

/// The front light's duty has its low byte in the first register and its high digit in the
/// low digit of the second, and is 0 while none of the enabling bits is set.
pub proof fn law_duty_in_two_registers(lo: u8, hc: u8, enable: u8)
    ensures
        hc & enable == 0 ==> duty_read(lo, hc, enable) == 0,
        hc & enable != 0 ==> duty_read(lo, hc, enable) % 256 == lo && duty_read(lo, hc, enable)
            / 256 == hc as int % 16,
        0 <= duty_read(lo, hc, enable) < 4096,
{
}

/// On a chip whose registers can be read and written, holding the power leaves the bus
/// without sleep, the watchdog off, the battery's supplies on and kept, whatever the
/// registers held before; the external supply and the power button stay as they were.
pub proof fn law_power_is_held(chip: Chip)
    requires
        chip.can_all(hold_tasks(), 0),
    ensures
        ({
            let after = chip.after_tasks(hold_tasks(), 0);
            &&& after.value[Reg::I2cCfg] == 0
            &&& after.value[Reg::WdtCnt] == 0
            &&& after.value[Reg::PwrCfg] & 0x06 == 0x06
            &&& after.value[Reg::PwrCfg] & 0x08 == chip.value[Reg::PwrCfg] & 0x08
            &&& after.value[Reg::HoldCfg] & 0x20 == 0x20
            &&& after.value[Reg::BtnCfg1] == chip.value[Reg::BtnCfg1]
            &&& after.value[Reg::BtnCfg2] == chip.value[Reg::BtnCfg2]
        }),
{
    let v = hold_tasks();
    assert(v[0].needed && v[1].needed && v[2].needed && v[3].needed);
    reveal_with_fuel(Chip::after_tasks, 6);
    let a = chip.value[Reg::PwrCfg];
    let b = chip.value[Reg::HoldCfg];
    assert(((a & !0u8) | (0x04u8 | 0x02u8)) & 0x06 == 0x06 && ((a & !0u8) | (0x04u8 | 0x02u8))
        & 0x08 == a & 0x08 && ((b & !0u8) | 0x20u8) & 0x20 == 0x20) by (bit_vector);
}

/// On a chip whose registers can be read and written, the power button ends with its clicks
/// off, four seconds for a long press and the download mode open, and without events; the
/// other bits of its registers stay as they were.
pub proof fn law_button_is_harmless(chip: Chip)
    requires
        forall|r: Reg| #[trigger] chip.readable.contains(r) && chip.writable.contains(r),
    ensures
        ({
            let after = chip.after_tasks(button_tasks(), 0);
            &&& after.value[Reg::BtnCfg1] & 0x99 == 0x19
            &&& after.value[Reg::BtnCfg1] & 0x66 == chip.value[Reg::BtnCfg1] & 0x66
            &&& after.value[Reg::BtnCfg2] & 0x01 == 0x01
            &&& after.value[Reg::BtnCfg2] & 0xFE == chip.value[Reg::BtnCfg2] & 0xFE
            &&& after.value[Reg::IrqMask3] == 0x07
            &&& after.value[Reg::IrqStatus3] == 0
        }),
{
    let v = button_tasks();
    reveal_with_fuel(Chip::after_tasks, 6);
    assert(chip.readable.contains(Reg::BtnCfg1) && chip.readable.contains(Reg::BtnCfg2)
        && chip.readable.contains(Reg::IrqMask3) && chip.readable.contains(Reg::IrqStatus3));
    let a = chip.value[Reg::BtnCfg1];
    let b = chip.value[Reg::BtnCfg2];
    assert(((a & !0x99u8) | 0x19u8) & 0x99 == 0x19 && ((a & !0x99u8) | 0x19u8) & 0x66 == a & 0x66
        && ((b & !0u8) | 0x01u8) & 0x01 == 0x01 && ((b & !0u8) | 0x01u8) & 0xFE == b & 0xFE)
        by (bit_vector);
}

/// The front light is enabled for every duty but 0, and gets just that duty.
pub proof fn law_light_is_enabled(duty: u16)
    ensures
        light_setting(duty).1 == duty,
        light_setting(duty).0 <==> duty > 0,
{
}

} // verus!
