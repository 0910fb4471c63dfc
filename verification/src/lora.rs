//! The radio, which only receives: what is sent to it, and what becomes of what it
//! reports.

use vstd::prelude::*;

use crate::radio;

verus! {

/// Most bytes of a packet that are read.
pub const RX_BUF_LEN: usize = 32;

/// A packet received.
#[derive(Debug, Clone, Copy)]
pub struct RxPacket {
    /// The first [`RX_BUF_LEN`] bytes of it, then zeros.
    pub buf: [u8; RX_BUF_LEN],
    /// How many bytes of `buf` are of the packet.
    pub len: usize,
    /// Signal strength in dBm.
    pub rssi: i16,
    /// Signal-to-noise ratio in dB.
    pub snr: i8,
}

/// One step of what is done to the radio.
#[derive(Debug, Clone, Copy, PartialEq, Eq, Structural)]
pub enum RadioStep {
    /// Standby on the internal oscillator.
    Standby,
    /// Use the linear regulator.
    RegulatorLdo,
    /// Let the radio power its oscillator.
    TcxoOn,
    /// Calibrate for the 902 to 928 MHz band.
    CalibrateImage,
    /// Let the radio switch the antenna.
    RfSwitch,
    /// LoRa packets.
    PacketTypeLora,
    /// Frequency in hertz.
    Frequency(u32),
    /// Spreading factor, bandwidth in hertz, coding rate 4 over this.
    Modulation(u8, u32, u8),
    /// Preamble length and greatest payload length.
    PacketParams(u16, u8),
    /// Sync word, as the radio takes it.
    SyncWord(u16),
    /// Forget what was reported.
    ClearIrq,
    /// Report packets and checksum errors.
    IrqParams,
    /// Where packets are stored, sent ones and received ones.
    BaseAddress(u8, u8),
    /// Receive, with a limit in ticks; `0xFF_FF_FF` is for ever.
    Receive(u32),
}

/// A sync word as the radio takes it: each half followed by a 4.
pub open spec fn sync_code(word: u8) -> u16 {
    ((word as int / 16) * 0x1000 + 0x400 + (word as int % 16) * 0x10 + 4) as u16
}

/// A sync word as the radio takes it.
pub fn encode_sync_word(word: u8) -> (code: u16)
    ensures
        code == sync_code(word),
{
    (word / 16) as u16 * 0x1000 + 0x400 + (word % 16) as u16 * 0x10 + 4
}

/// The steps that make the radio ready for the next packet.
pub open spec fn arm_steps(set_irq: bool) -> Seq<RadioStep> {
    seq![RadioStep::Standby, RadioStep::ClearIrq] + (if set_irq {
        seq![RadioStep::IrqParams]
    } else {
        Seq::empty()
    }) + seq![RadioStep::BaseAddress(0, 0), RadioStep::Receive(0xFF_FF_FF)]
}

/// The steps that set the radio up and start reception.
pub open spec fn start_steps() -> Seq<RadioStep> {
    seq![
        RadioStep::Standby,
        RadioStep::RegulatorLdo,
        RadioStep::TcxoOn,
        RadioStep::CalibrateImage,
        RadioStep::RfSwitch,
        RadioStep::PacketTypeLora,
        RadioStep::Frequency(radio::TX_FREQ_HZ),
        RadioStep::Modulation(radio::SF, radio::BW_HZ, radio::CR),
        RadioStep::PacketParams(8, 255),
        RadioStep::SyncWord(sync_code(radio::SYNC_WORD)),
    ] + arm_steps(true)
}

/// Adds the steps that make the radio ready for the next packet.
fn push_arm(v: &mut Vec<RadioStep>, set_irq: bool)
    ensures
        final(v)@ == old(v)@ + arm_steps(set_irq),
{
    v.push(RadioStep::Standby);
    v.push(RadioStep::ClearIrq);
    if set_irq {
        v.push(RadioStep::IrqParams);
    }
    v.push(RadioStep::BaseAddress(0, 0));
    v.push(RadioStep::Receive(0xFF_FF_FF));
    assert(v@ =~= old(v)@ + arm_steps(set_irq));
}

/// The steps that make the radio ready for the next packet.
pub fn arm_rx(set_irq: bool) -> (v: Vec<RadioStep>)
    ensures
        v@ == arm_steps(set_irq),
{
    let mut v: Vec<RadioStep> = Vec::new();
    push_arm(&mut v, set_irq);
    assert(v@ =~= arm_steps(set_irq));
    v
}

/// The steps that set the radio up and start reception.
pub fn start_rx() -> (v: Vec<RadioStep>)
    ensures
        v@ == start_steps(),
{
    let mut v: Vec<RadioStep> = Vec::new();
    v.push(RadioStep::Standby);
    v.push(RadioStep::RegulatorLdo);
    v.push(RadioStep::TcxoOn);
    v.push(RadioStep::CalibrateImage);
    v.push(RadioStep::RfSwitch);
    v.push(RadioStep::PacketTypeLora);
    v.push(RadioStep::Frequency(radio::TX_FREQ_HZ));
    v.push(RadioStep::Modulation(radio::SF, radio::BW_HZ, radio::CR));
    v.push(RadioStep::PacketParams(8, 255));
    v.push(RadioStep::SyncWord(encode_sync_word(radio::SYNC_WORD)));
    push_arm(&mut v, true);
    assert(v@ =~= start_steps());
    v
}

/// Whether the radio is in standby after steps, where it was or was not before.
pub open spec fn in_standby(steps: Seq<RadioStep>, before: bool) -> bool
    decreases steps.len(),
{
    if steps.len() == 0 {
        before
    } else {
        match steps.last() {
            RadioStep::Standby => true,
            RadioStep::Receive(_) => false,
            _ => in_standby(steps.drop_last(), before),
        }
    }
}

/// Where packets are stored is only ever set in standby, where the radio heeds it; after
/// that the radio receives, and goes on for ever.
pub proof fn law_armed_from_standby(set_irq: bool, before: bool)
    ensures
        ({
            let v = arm_steps(set_irq);
            let n = v.len() as int;
            &&& v[n - 2] == RadioStep::BaseAddress(0, 0)
            &&& in_standby(v.take(n - 2), before)
            &&& v[n - 1] == RadioStep::Receive(0xFF_FF_FF)
            &&& !in_standby(v, before)
        }),
{
    let v = arm_steps(set_irq);
    let n = v.len() as int;
    let u = v.take(n - 2);
    assert(u.drop_last() =~= v.take(n - 3));
    assert(v.take(1).last() == RadioStep::Standby);
    if set_irq {
        assert(u.drop_last().drop_last() =~= v.take(1));
        reveal_with_fuel(in_standby, 4);
    } else {
        assert(u.drop_last() =~= v.take(1));
        reveal_with_fuel(in_standby, 3);
    }
}

/// One step of powering the radio up.
#[derive(Debug, Clone, Copy, PartialEq, Eq, Structural)]
pub enum PowerStep {
    /// Sets the reset pin.
    Reset(bool),
    /// Sets the antenna switch.
    AntennaSwitch(bool),
    /// Sets the radio's supply.
    Rail(bool),
    /// Waits so many milliseconds.
    WaitMs(u64),
}

/// The steps that power the radio up: held in reset until its supply has settled.
pub open spec fn power_steps() -> Seq<PowerStep> {
    seq![
        PowerStep::Reset(false),
        PowerStep::AntennaSwitch(true),
        PowerStep::Rail(true),
        PowerStep::WaitMs(15),
        PowerStep::Reset(true),
        PowerStep::WaitMs(20),
    ]
}

/// The steps that power the radio up.
pub fn power_up() -> (v: Vec<PowerStep>)
    ensures
        v@ == power_steps(),
{
    let mut v: Vec<PowerStep> = Vec::new();
    v.push(PowerStep::Reset(false));
    v.push(PowerStep::AntennaSwitch(true));
    v.push(PowerStep::Rail(true));
    v.push(PowerStep::WaitMs(15));
    v.push(PowerStep::Reset(true));
    v.push(PowerStep::WaitMs(20));
    assert(v@ =~= power_steps());
    v
}

/// How often the radio is asked whether it is there.
pub const PROBE_TRIES: u8 = 3;

/// What is known of the radio after it was asked.
#[derive(Debug, Clone, Copy, PartialEq, Eq, Structural)]
pub enum Probe {
    /// It is there.
    Found,
    /// To be asked again in 20 milliseconds.
    Again,
    /// It is not there.
    Absent,
}

/// What the answer to try number `tries` (from 0) says: whether the radio is in standby,
/// or that it did not answer.
pub open spec fn probe_verdict(tries: u8, standby: Option<bool>) -> Probe {
    if standby == Some(true) {
        Probe::Found
    } else if tries + 1 < PROBE_TRIES {
        Probe::Again
    } else {
        Probe::Absent
    }
}

/// Whether the radio is found, from try number `tries` on, for the answers that each try
/// would get.
pub open spec fn probe_result(tries: u8, answers: Seq<Option<bool>>) -> bool
    decreases PROBE_TRIES - tries,
{
    match probe_verdict(tries, answers[tries as int]) {
        Probe::Found => true,
        Probe::Again => probe_result((tries + 1) as u8, answers),
        Probe::Absent => false,
    }
}

/// The radio is found exactly where it is in standby at one of the three tries.
pub proof fn law_probe_finds(answers: Seq<Option<bool>>)
    requires
        answers.len() == PROBE_TRIES,
    ensures
        probe_result(0, answers) == (answers[0] == Some(true) || answers[1] == Some(true)
            || answers[2] == Some(true)),
{
    reveal_with_fuel(probe_result, 4);
}

/// What the answer to try number `tries` (from 0) says.
pub fn probe(tries: u8, standby: Option<bool>) -> (p: Probe)
    ensures
        p == probe_verdict(tries, standby),
{
    match standby {
        Some(true) => Probe::Found,
        _ => if tries < PROBE_TRIES - 1 {
            Probe::Again
        } else {
            Probe::Absent
        },
    }
}

/// What is to be done about what the radio reports.
#[derive(Debug, Clone, Copy, PartialEq, Eq, Structural)]
pub enum Poll {
    /// Nothing.
    Nothing,
    /// A broken packet: make ready for the next one.
    Rearm,
    /// A packet: read it, then make ready for the next one.
    Read,
}

/// What to do for the interrupts that are set: nothing where they could not be read or
/// nothing was received, and receiving anew after a wrong checksum.
pub open spec fn poll_of(irq: Option<u16>, crc_err: u16, rx_done: u16) -> Poll {
    match irq {
        None => Poll::Nothing,
        Some(bits) => if bits & crc_err != 0 {
            Poll::Rearm
        } else if bits & rx_done == 0 {
            Poll::Nothing
        } else {
            Poll::Read
        },
    }
}

/// What is to be done about the radio's report, where it could be read. `crc_err` and
/// `rx_done` are the bits for a broken packet and for a packet.
pub fn poll(irq: Option<u16>, crc_err: u16, rx_done: u16) -> (p: Poll)
    ensures
        p == (match irq {
            None => Poll::Nothing,
            Some(bits) => if bits & crc_err != 0 {
                Poll::Rearm
            } else if bits & rx_done == 0 {
                Poll::Nothing
            } else {
                Poll::Read
            },
        }),
        p == poll_of(irq, crc_err, rx_done),
{
    match irq {
        None => Poll::Nothing,
        Some(bits) => if bits & crc_err != 0 {
            Poll::Rearm
        } else if bits & rx_done == 0 {
            Poll::Nothing
        } else {
            Poll::Read
        },
    }
}

/// Where to read a packet from and how many bytes of it, for the length and the start that
/// the radio tells: as many as there is room for, and none where it tells nothing.
pub open spec fn request_of(status: Option<(u8, u8)>) -> (u8, usize) {
    match status {
        Some((len, start)) => (
            start,
            if len < RX_BUF_LEN {
                len as usize
            } else {
                RX_BUF_LEN
            },
        ),
        None => (0u8, 0usize),
    }
}

/// Where in the radio's memory to read, and how many bytes, for what the radio says of
/// the packet's length and place; nothing where it says nothing.
pub fn read_request(status: Option<(u8, u8)>) -> (r: (u8, usize))
    ensures
        r == (match status {
            Some((len, start)) => (
                start,
                if len < RX_BUF_LEN {
                    len as usize
                } else {
                    RX_BUF_LEN
                },
            ),
            None => (0u8, 0usize),
        }),
        r.1 <= RX_BUF_LEN,
        r == request_of(status),
{
    match status {
        Some((len, start)) => (
            start,
            if (len as usize) < RX_BUF_LEN {
                len as usize
            } else {
                RX_BUF_LEN
            },
        ),
        None => (0, 0),
    }
}

/// Strength and noise ratio of a packet; -100 dBm and 0 dB where they could not be read.
pub open spec fn signal_of(signal: Option<(i16, i8)>) -> (i16, i8) {
    match signal {
        Some(s) => s,
        None => (-100i16, 0i8),
    }
}

/// The radio's interrupts, strength and status as they are reported; values that cannot be
/// where they could not be read.
pub open spec fn report_of(irq: Option<u16>, rssi: Option<i16>, raw: Option<u8>) -> (
    u16,
    i16,
    u8,
) {
    (
        match irq {
            Some(v) => v,
            None => 0xFFFF,
        },
        match rssi {
            Some(v) => v,
            None => -127i16,
        },
        match raw {
            Some(v) => v,
            None => 0xFF,
        },
    )
}

impl RxPacket {
    /// A packet of the bytes read and of the radio's signal strength and signal-to-noise
    /// ratio; without these, -100 dBm and 0 dB.
    pub fn new(bytes: &[u8], signal: Option<(i16, i8)>) -> (p: Self)
        requires
            bytes@.len() <= RX_BUF_LEN,
        ensures
            p.len == bytes@.len(),
            p.buf@.take(p.len as int) == bytes@,
            forall|k: int| bytes@.len() <= k < RX_BUF_LEN ==> p.buf@[k] == 0,
            (p.rssi, p.snr) == (match signal {
                Some(s) => s,
                None => (-100i16, 0i8),
            }),
            (p.rssi, p.snr) == signal_of(signal),
    {
        let mut buf: [u8; RX_BUF_LEN] = [0; RX_BUF_LEN];
        let mut i: usize = 0;
        while i < bytes.len()
            invariant
                i <= bytes@.len() <= RX_BUF_LEN,
                buf@.take(i as int) =~= bytes@.take(i as int),
                forall|k: int| i <= k < RX_BUF_LEN ==> buf@[k] == 0,
            decreases bytes@.len() - i,
        {
            let ghost prev = buf@.take(i as int);
            buf[i] = bytes[i];
            assert(buf@.take(i + 1) =~= prev.push(bytes@[i as int]));
            assert(bytes@.take(i + 1) =~= bytes@.take(i as int).push(bytes@[i as int]));
            i += 1;
        }
        assert(bytes@.take(i as int) =~= bytes@);
        let (rssi, snr): (i16, i8) = match signal {
            Some(s) => s,
            None => (-100, 0),
        };
        RxPacket { buf, len: bytes.len(), rssi, snr }
    }

    /// The bytes of the packet.
    pub fn payload(&self) -> (b: &[u8])
        requires
            self.len <= RX_BUF_LEN,
        ensures
            b@ == self.buf@.take(self.len as int),
    {
        let b: &[u8] = &self.buf[0..self.len];
        assert(b@ =~= self.buf@.take(self.len as int));
        b
    }
}

/// What is shown of the radio: what it reports, the signal strength now, its status; with
/// a value of its own for each that could not be read.
pub fn debug_status(irq: Option<u16>, rssi: Option<i16>, raw: Option<u8>) -> (s: (u16, i16, u8))
    ensures
        s.0 == (match irq {
            Some(v) => v,
            None => 0xFFFF,
        }),
        s.1 == (match rssi {
            Some(v) => v as int,
            None => -127,
        }),
        s.2 == (match raw {
            Some(v) => v,
            None => 0xFF,
        }),
        s == report_of(irq, rssi, raw),
{
    (
        match irq {
            Some(v) => v,
            None => 0xFFFF,
        },
        match rssi {
            Some(v) => v,
            None => -127,
        },
        match raw {
            Some(v) => v,
            None => 0xFF,
        },
    )
}

/// The code of a sync word is its two hexadecimal digits, each with a 4 behind it.
pub proof fn law_sync_code_digits(word: u8)
    ensures
        ({
            let c = sync_code(word) as int;
            &&& c / 0x1000 == word as int / 16
            &&& c / 0x100 % 16 == 4
            &&& c / 0x10 % 16 == word as int % 16
            &&& c % 16 == 4
        }),
{
    let h = word as int / 16;
    let l = word as int % 16;
    let c = h * 0x1000 + 0x400 + l * 0x10 + 4;
    assert(c == sync_code(word));
    assert(c / 0x10 == h * 0x100 + 0x40 + l);
    assert(c / 0x100 == h * 0x10 + 4);
    assert(c / 0x1000 == h);
}

/// A wrong checksum always starts reception anew, and a packet is read exactly if one is
/// there whose checksum is right.
pub proof fn law_poll_reads_good_packets(bits: u16, crc_err: u16, rx_done: u16)
    ensures
        poll_of(None, crc_err, rx_done) == Poll::Nothing,
        poll_of(Some(bits), crc_err, rx_done) == Poll::Rearm <==> bits & crc_err != 0,
        poll_of(Some(bits), crc_err, rx_done) == Poll::Read <==> bits & rx_done != 0 && bits
            & crc_err == 0,
{
}

/// Of a packet its own bytes are read, from where it starts, and never more than 32.
pub proof fn law_request_fits(len: u8, start: u8)
    ensures
        request_of(Some((len, start))).0 == start,
        request_of(Some((len, start))).1 <= len,
        request_of(Some((len, start))).1 <= 32,
        request_of(Some((len, start))).1 == len || request_of(Some((len, start))).1 == 32,
        request_of(None).1 == 0,
{
}

/// The radio is found exactly by an answer from standby; without one it is asked again
/// until it was asked three times.
pub proof fn law_probe_asks_three_times(tries: u8, standby: Option<bool>)
    ensures
        probe_verdict(tries, standby) == Probe::Found <==> standby == Some(true),
        probe_verdict(tries, standby) == Probe::Again <==> standby != Some(true) && tries < 2,
        probe_verdict(tries, standby) == Probe::Absent <==> standby != Some(true) && tries >= 2,
{
}

/// What was read is reported as it was read, each value in its own place, whether or not the
/// others were.
pub proof fn law_readings_are_reported(
    irq: Option<u16>,
    rssi: Option<i16>,
    raw: Option<u8>,
    signal: Option<(i16, i8)>,
)
    ensures
        irq matches Some(v) ==> report_of(irq, rssi, raw).0 == v,
        irq is None ==> report_of(irq, rssi, raw).0 == 0xFFFF,
        rssi matches Some(v) ==> report_of(irq, rssi, raw).1 == v,
        rssi is None ==> report_of(irq, rssi, raw).1 == -127,
        raw matches Some(v) ==> report_of(irq, rssi, raw).2 == v,
        raw is None ==> report_of(irq, rssi, raw).2 == 0xFF,
        signal matches Some(s) ==> signal_of(signal).0 == s.0 && signal_of(signal).1 == s.1,
        signal is None ==> signal_of(signal).0 == -100 && signal_of(signal).1 == 0,
{
}

} // verus!
