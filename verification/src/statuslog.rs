//! Lines of the two log files: one for each frame received, one for each sample of the
//! device's health.

use vstd::prelude::*;

use crate::frame::NostosFrame;
use crate::text;
use crate::text::{LineBuf, LINE_CAP};

verus! {

/// One sample of the device's health. `None` stands for what could not be read, and is
/// written as `--`.
pub struct Sample<'a> {
    /// Seconds since the start.
    pub uptime_s: u64,
    /// Estimated Unix time, 0 where nothing was received.
    pub est_unix: u64,
    /// Battery voltage in millivolts.
    pub vbat_mv: Option<u16>,
    /// Supply voltage in millivolts.
    pub vin_mv: Option<u16>,
    /// Power source register.
    pub pwr_src: Option<u8>,
    /// Power configuration register.
    pub pwr_cfg: Option<u8>,
    /// Signal strength in dBm and status of the radio.
    pub radio: Option<(i16, u8)>,
    /// Seconds since the last frame.
    pub last_rx_age_s: Option<u64>,
    /// Number of frames received.
    pub rx_count: u32,
    /// Step of the front light that is in effect.
    pub frontlight: u8,
    /// Why the device was reset.
    pub reset_reason: u8,
    /// Why the sample was taken.
    pub event: &'a str,
}

/// Charge of the battery in percent: linear from 3.30 V to 4.20 V.
pub open spec fn charge(mv: u16) -> int {
    if mv <= 3300 {
        0
    } else if mv >= 4200 {
        100
    } else {
        (mv - 3300) * 100 / 900
    }
}

/// Charge of the battery in percent.
pub fn batt_pct(mv: u16) -> (pct: u32)
    ensures
        pct == charge(mv),
{
    let above: u32 = if mv > 3300 {
        (mv - 3300) as u32
    } else {
        0
    };
    let pct: u32 = above * 100 / 900;
    if pct > 100 {
        100
    } else {
        pct
    }
}

/// The charge never falls while the voltage rises, and stays within 0 and 100.
pub proof fn law_charge_is_monotone(low: u16, high: u16)
    requires
        low <= high,
    ensures
        0 <= charge(low) <= charge(high) <= 100,
{
}

/// What is written for a value that could not be read.
pub open spec fn unread() -> Seq<u8> {
    seq![0x2du8, 0x2du8]
}

/// A comma.
pub open spec fn comma() -> Seq<u8> {
    seq![0x2cu8]
}

/// A number, or `--`.
pub open spec fn number_or_unread(v: Option<u64>) -> Seq<u8> {
    match v {
        Some(n) => text::decimal(n as int),
        None => unread(),
    }
}

/// A register in hexadecimal, or `--`.
pub open spec fn hex_or_unread(v: Option<u8>) -> Seq<u8> {
    match v {
        Some(b) => text::hex(b),
        None => unread(),
    }
}

/// A voltage as a number.
pub open spec fn widened(v: Option<u16>) -> Option<u64> {
    match v {
        Some(n) => Some(n as u64),
        None => None,
    }
}

/// The charge that belongs to a voltage; a voltage of 0 stands for one that was not read.
pub open spec fn charge_of(v: Option<u16>) -> Option<u64> {
    match v {
        Some(mv) => if mv > 0 {
            Some(charge(mv) as u64)
        } else {
            None
        },
        None => None,
    }
}

/// The radio's signal strength and status.
pub open spec fn radio_columns(v: Option<(i16, u8)>) -> Seq<u8> {
    match v {
        Some((rssi, raw)) => text::signed(rssi as int) + comma() + text::hex(raw),
        None => unread() + comma() + unread(),
    }
}

impl<'a> Sample<'a> {
    /// The line of a sample: uptime, estimated time, battery and supply voltage, charge,
    /// power source and configuration, signal strength and radio status, age of the last
    /// frame, frames received, front light, reset reason and event, with commas between
    /// them and a line feed at the end.
    pub open spec fn line(self) -> Seq<u8> {
        text::decimal(self.uptime_s as int) + comma() + text::decimal(self.est_unix as int)
            + comma() + number_or_unread(widened(self.vbat_mv)) + comma() + number_or_unread(
            widened(self.vin_mv),
        ) + comma() + number_or_unread(charge_of(self.vbat_mv)) + comma() + hex_or_unread(
            self.pwr_src,
        ) + comma() + hex_or_unread(self.pwr_cfg) + comma() + radio_columns(self.radio) + comma()
            + number_or_unread(self.last_rx_age_s) + comma() + text::decimal(self.rx_count as int)
            + comma() + text::decimal(self.frontlight as int) + comma() + text::hex(
            self.reset_reason,
        ) + comma() + text::utf8(self.event@) + seq![0x0au8]
    }
}

/// What adding `line` to `before` leaves: all of it where it fits, a part of it where it
/// does not.
pub open spec fn added(before: Seq<u8>, line: Seq<u8>, after: Seq<u8>, ok: bool) -> bool {
    &&& ok == (before.len() + line.len() <= LINE_CAP)
    &&& ok ==> after == before + line
    &&& !ok ==> exists|k: int|
        0 <= k < line.len() && after == before + #[trigger] line.take(k)
}

/// Adds one more part of a line, unless an earlier one did not fit.
fn put(
    out: &mut LineBuf,
    ok: bool,
    b: &[u8],
    Ghost(before): Ghost<Seq<u8>>,
    Ghost(part): Ghost<Seq<u8>>,
) -> (still: bool)
    requires
        before.len() <= LINE_CAP,
        added(before, part, old(out)@, ok),
    ensures
        added(before, part + b@, final(out)@, still),
        still ==> ok,
{
    let ghost line = part + b@;
    if !ok {
        proof {
            let k = choose|k: int|
                0 <= k < part.len() && out@ == before + #[trigger] part.take(k);
            assert(line.take(k) =~= part.take(k));
        }
        return false;
    }
    let still: bool = out.write_bytes(b);
    proof {
        assert(before + part + b@ =~= before + line);
        if !still {
            assert(line.take(part.len() as int) =~= part);
        }
    }
    still
}

/// Adds a comma.
fn put_comma(
    out: &mut LineBuf,
    ok: bool,
    Ghost(before): Ghost<Seq<u8>>,
    Ghost(part): Ghost<Seq<u8>>,
) -> (still: bool)
    requires
        before.len() <= LINE_CAP,
        added(before, part, old(out)@, ok),
    ensures
        added(before, part + comma(), final(out)@, still),
{
    let c: [u8; 1] = [0x2c];
    assert(c@ =~= comma());
    put(out, ok, &c, Ghost(before), Ghost(part))
}

/// Adds a number or `--`.
fn put_number(
    out: &mut LineBuf,
    ok: bool,
    v: Option<u64>,
    Ghost(before): Ghost<Seq<u8>>,
    Ghost(part): Ghost<Seq<u8>>,
) -> (still: bool)
    requires
        before.len() <= LINE_CAP,
        added(before, part, old(out)@, ok),
    ensures
        added(before, part + number_or_unread(v), final(out)@, still),
{
    match v {
        Some(n) => {
            let d: Vec<u8> = text::decimal_bytes(n);
            put(out, ok, d.as_slice(), Ghost(before), Ghost(part))
        },
        None => {
            let u: [u8; 2] = [0x2d, 0x2d];
            assert(u@ =~= unread());
            put(out, ok, &u, Ghost(before), Ghost(part))
        },
    }
}

/// Adds a register or `--`.
fn put_hex(
    out: &mut LineBuf,
    ok: bool,
    v: Option<u8>,
    Ghost(before): Ghost<Seq<u8>>,
    Ghost(part): Ghost<Seq<u8>>,
) -> (still: bool)
    requires
        before.len() <= LINE_CAP,
        added(before, part, old(out)@, ok),
    ensures
        added(before, part + hex_or_unread(v), final(out)@, still),
{
    match v {
        Some(b) => {
            let h: [u8; 4] = text::hex_bytes(b);
            put(out, ok, &h, Ghost(before), Ghost(part))
        },
        None => {
            let u: [u8; 2] = [0x2d, 0x2d];
            assert(u@ =~= unread());
            put(out, ok, &u, Ghost(before), Ghost(part))
        },
    }
}

/// Adds the radio's columns.
fn put_radio(
    out: &mut LineBuf,
    ok: bool,
    v: Option<(i16, u8)>,
    Ghost(before): Ghost<Seq<u8>>,
    Ghost(part): Ghost<Seq<u8>>,
) -> (still: bool)
    requires
        before.len() <= LINE_CAP,
        added(before, part, old(out)@, ok),
    ensures
        added(before, part + radio_columns(v), final(out)@, still),
{
    match v {
        Some((rssi, raw)) => {
            let ghost a = text::signed(rssi as int);
            let ok: bool = put_signed(out, ok, rssi as i32, Ghost(before), Ghost(part));
            let ok: bool = put_comma(out, ok, Ghost(before), Ghost(part + a));
            let ok: bool = put_hex(out, ok, Some(raw), Ghost(before), Ghost(part + a + comma()));
            assert(part + a + comma() + text::hex(raw) =~= part + radio_columns(v));
            ok
        },
        None => {
            let ok: bool = put_hex(out, ok, None, Ghost(before), Ghost(part));
            let ok: bool = put_comma(out, ok, Ghost(before), Ghost(part + unread()));
            let ok: bool = put_hex(
                out,
                ok,
                None,
                Ghost(before),
                Ghost(part + unread() + comma()),
            );
            assert(part + unread() + comma() + unread() =~= part + radio_columns(v));
            ok
        },
    }
}

/// Adds a signed number.
fn put_signed(
    out: &mut LineBuf,
    ok: bool,
    v: i32,
    Ghost(before): Ghost<Seq<u8>>,
    Ghost(part): Ghost<Seq<u8>>,
) -> (still: bool)
    requires
        before.len() <= LINE_CAP,
        added(before, part, old(out)@, ok),
    ensures
        added(before, part + text::signed(v as int), final(out)@, still),
{
    let d: Vec<u8> = text::signed_bytes(v);
    put(out, ok, d.as_slice(), Ghost(before), Ghost(part))
}

/// A voltage as a number.
fn widen(v: Option<u16>) -> (w: Option<u64>)
    ensures
        w == widened(v),
{
    match v {
        Some(n) => Some(n as u64),
        None => None,
    }
}

impl<'a> Sample<'a> {
    /// Writes the line of the sample to `out`. Where it does not fit, the result is
    /// `false` and only a part of it is in `out`.
    pub fn write_csv(&self, out: &mut LineBuf) -> (ok: bool)
        ensures
            added(old(out)@, self.line(), final(out)@, ok),
    {
        let pct: Option<u64> = match self.vbat_mv {
            Some(mv) => if mv > 0 {
                Some(batt_pct(mv) as u64)
            } else {
                None
            },
            None => None,
        };
        let end: [u8; 1] = [0x0a];
        let ghost b = out@;
        let ghost l = Seq::<u8>::empty();
        assert(b + l =~= b);
        let ok: bool = out.len() <= LINE_CAP;
        let ok: bool = put_number(out, ok, Some(self.uptime_s), Ghost(b), Ghost(l));
        assert(l + number_or_unread(Some(self.uptime_s)) =~= number_or_unread(Some(self.uptime_s)));
        let ghost l = number_or_unread(Some(self.uptime_s));
        let ok: bool = put_comma(out, ok, Ghost(b), Ghost(l));
        let ghost l = l + comma();
        let ok: bool = put_number(out, ok, Some(self.est_unix), Ghost(b), Ghost(l));
        let ghost l = l + number_or_unread(Some(self.est_unix));
        let ok: bool = put_comma(out, ok, Ghost(b), Ghost(l));
        let ghost l = l + comma();
        let ok: bool = put_number(out, ok, widen(self.vbat_mv), Ghost(b), Ghost(l));
        let ghost l = l + number_or_unread(widened(self.vbat_mv));
        let ok: bool = put_comma(out, ok, Ghost(b), Ghost(l));
        let ghost l = l + comma();
        let ok: bool = put_number(out, ok, widen(self.vin_mv), Ghost(b), Ghost(l));
        let ghost l = l + number_or_unread(widened(self.vin_mv));
        let ok: bool = put_comma(out, ok, Ghost(b), Ghost(l));
        let ghost l = l + comma();
        let ok: bool = put_number(out, ok, pct, Ghost(b), Ghost(l));
        let ghost l = l + number_or_unread(charge_of(self.vbat_mv));
        let ok: bool = put_comma(out, ok, Ghost(b), Ghost(l));
        let ghost l = l + comma();
        let ok: bool = put_hex(out, ok, self.pwr_src, Ghost(b), Ghost(l));
        let ghost l = l + hex_or_unread(self.pwr_src);
        let ok: bool = put_comma(out, ok, Ghost(b), Ghost(l));
        let ghost l = l + comma();
        let ok: bool = put_hex(out, ok, self.pwr_cfg, Ghost(b), Ghost(l));
        let ghost l = l + hex_or_unread(self.pwr_cfg);
        let ok: bool = put_comma(out, ok, Ghost(b), Ghost(l));
        let ghost l = l + comma();
        let ok: bool = put_radio(out, ok, self.radio, Ghost(b), Ghost(l));
        let ghost l = l + radio_columns(self.radio);
        let ok: bool = put_comma(out, ok, Ghost(b), Ghost(l));
        let ghost l = l + comma();
        let ok: bool = put_number(out, ok, self.last_rx_age_s, Ghost(b), Ghost(l));
        let ghost l = l + number_or_unread(self.last_rx_age_s);
        let ok: bool = put_comma(out, ok, Ghost(b), Ghost(l));
        let ghost l = l + comma();
        let ok: bool = put_number(out, ok, Some(self.rx_count as u64), Ghost(b), Ghost(l));
        let ghost l = l + number_or_unread(Some(self.rx_count as u64));
        let ok: bool = put_comma(out, ok, Ghost(b), Ghost(l));
        let ghost l = l + comma();
        let ok: bool = put_number(out, ok, Some(self.frontlight as u64), Ghost(b), Ghost(l));
        let ghost l = l + number_or_unread(Some(self.frontlight as u64));
        let ok: bool = put_comma(out, ok, Ghost(b), Ghost(l));
        let ghost l = l + comma();
        let ok: bool = put_hex(out, ok, Some(self.reset_reason), Ghost(b), Ghost(l));
        let ghost l = l + hex_or_unread(Some(self.reset_reason));
        let ok: bool = put_comma(out, ok, Ghost(b), Ghost(l));
        let ghost l = l + comma();
        let ok: bool = put(out, ok, self.event.as_bytes(), Ghost(b), Ghost(l));
        let ghost l = l + text::utf8(self.event@);
        assert(end@ =~= seq![0x0au8]);
        let ok: bool = put(out, ok, &end, Ghost(b), Ghost(l));
        let ghost l = l + seq![0x0au8];
        ok
    }
}

/// The line of a frame: time, number, whether it has a fix, whether it announces the
/// start, latitude, longitude, signal strength and signal-to-noise ratio.
pub open spec fn rx_line(f: NostosFrame, home: bool, rssi: i16, snr: i8) -> Seq<u8> {
    text::decimal(f.time_unix as int) + comma() + text::decimal(f.seq as int) + comma()
        + text::decimal(
        if f.fix_valid() {
            1int
        } else {
            0
        },
    ) + comma() + text::decimal(
        if home {
            1int
        } else {
            0
        },
    ) + comma() + text::signed(f.lat_e7 as int) + comma() + text::signed(f.lon_e7 as int) + comma()
        + text::signed(rssi as int) + comma() + text::signed(snr as int) + seq![0x0au8]
}

/// Writes the line of a frame.
pub fn write_rx(f: &NostosFrame, home: bool, rssi: i16, snr: i8) -> (out: LineBuf)
    ensures
        out@ == rx_line(*f, home, rssi, snr),
{
    let mut out = LineBuf::new();
    let fix: bool = f.has_fix();
    let end: [u8; 1] = [0x0a];
    let ghost b = Seq::<u8>::empty();
    let ghost l = Seq::<u8>::empty();
    assert(b + l =~= b);
    let ok: bool = true;
    let ok: bool = put_number(&mut out, ok, Some(f.time_unix as u64), Ghost(b), Ghost(l));
    let ghost time = number_or_unread(Some(f.time_unix as u64));
    assert(l + time =~= time);
    let ghost l = time;
    let ok: bool = put_comma(&mut out, ok, Ghost(b), Ghost(l));
    let ghost l = l + comma();
    let ok: bool = put_number(&mut out, ok, Some(f.seq as u64), Ghost(b), Ghost(l));
    let ghost l = l + number_or_unread(Some(f.seq as u64));
    let ok: bool = put_comma(&mut out, ok, Ghost(b), Ghost(l));
    let ghost l = l + comma();
    let ok: bool = put_number(&mut out, ok, Some(if fix { 1 } else { 0 }), Ghost(b), Ghost(l));
    let ghost l = l + number_or_unread(Some(if fix { 1u64 } else { 0 }));
    let ok: bool = put_comma(&mut out, ok, Ghost(b), Ghost(l));
    let ghost l = l + comma();
    let ok: bool = put_number(&mut out, ok, Some(if home { 1 } else { 0 }), Ghost(b), Ghost(l));
    let ghost l = l + number_or_unread(Some(if home { 1u64 } else { 0 }));
    let ok: bool = put_comma(&mut out, ok, Ghost(b), Ghost(l));
    let ghost l = l + comma();
    let ok: bool = put_signed(&mut out, ok, f.lat_e7, Ghost(b), Ghost(l));
    let ghost l = l + text::signed(f.lat_e7 as int);
    let ok: bool = put_comma(&mut out, ok, Ghost(b), Ghost(l));
    let ghost l = l + comma();
    let ok: bool = put_signed(&mut out, ok, f.lon_e7, Ghost(b), Ghost(l));
    let ghost l = l + text::signed(f.lon_e7 as int);
    let ok: bool = put_comma(&mut out, ok, Ghost(b), Ghost(l));
    let ghost l = l + comma();
    let ok: bool = put_signed(&mut out, ok, rssi as i32, Ghost(b), Ghost(l));
    let ghost l = l + text::signed(rssi as int);
    let ok: bool = put_comma(&mut out, ok, Ghost(b), Ghost(l));
    let ghost l = l + comma();
    let ok: bool = put_signed(&mut out, ok, snr as i32, Ghost(b), Ghost(l));
    let ghost l = l + text::signed(snr as int);
    assert(end@ =~= seq![0x0au8]);
    let ok: bool = put(&mut out, ok, &end, Ghost(b), Ghost(l));
    let ghost l = l + seq![0x0au8];
    proof {
        lemma_rx_line_len(*f, home, rssi, snr);
        assert(l == rx_line(*f, home, rssi, snr));
        assert(b + l =~= l);
    }
    out
}

/// The line of a frame always fits.
proof fn lemma_rx_line_len(f: NostosFrame, home: bool, rssi: i16, snr: i8)
    ensures
        rx_line(f, home, rssi, snr).len() <= 80,
{
    text::lemma_decimal_len(f.time_unix as int, 10);
    text::lemma_decimal_len(f.seq as int, 3);
    text::lemma_decimal_len(0, 1);
    text::lemma_decimal_len(1, 1);
    lemma_signed_len(f.lat_e7 as int);
    lemma_signed_len(f.lon_e7 as int);
    lemma_signed_len(rssi as int);
    lemma_signed_len(snr as int);
}

proof fn lemma_signed_len(v: int)
    requires
        -10000000000 < v < 10000000000,
    ensures
        text::signed(v).len() <= 11,
{
    text::lemma_decimal_len(
        if v < 0 {
            -v
        } else {
            v
        },
        10,
    );
}

/// Every line of a sample with an event of up to 38 bytes fits into an empty buffer.
pub proof fn law_status_line_fits(s: Sample<'_>)
    requires
        text::utf8(s.event@).len() <= 38,
    ensures
        s.line().len() <= LINE_CAP,
{
    text::lemma_decimal_len(s.uptime_s as int, 20);
    text::lemma_decimal_len(s.est_unix as int, 20);
    lemma_number_len(widened(s.vbat_mv), 5);
    lemma_number_len(widened(s.vin_mv), 5);
    lemma_number_len(charge_of(s.vbat_mv), 3);
    lemma_number_len(s.last_rx_age_s, 20);
    if let Some((rssi, _)) = s.radio {
        text::lemma_decimal_len(
            if rssi < 0 {
                -rssi
            } else {
                rssi as int
            },
            5,
        );
    }
    text::lemma_decimal_len(s.rx_count as int, 10);
    text::lemma_decimal_len(s.frontlight as int, 3);
}

proof fn lemma_number_len(v: Option<u64>, w: nat)
    requires
        w == 3 || w == 5 || w == 20,
        v matches Some(n) ==> (w == 3 ==> n < 1000) && (w == 5 ==> n < 100000),
    ensures
        number_or_unread(v).len() <= w,
{
    if let Some(n) = v {
        text::lemma_decimal_len(n as int, w);
    }
}

/// Whether a column holds the number `v`, or `--` where there is none.
pub open spec fn tells(column: Seq<u8>, v: Option<int>) -> bool {
    match v {
        Some(n) => text::is_signed_number(column) && text::signed_read(column) == n,
        None => column == seq![0x2du8, 0x2du8],
    }
}

/// Whether a column holds a byte in hexadecimal, or `--` where there is none.
pub open spec fn tells_byte(column: Seq<u8>, v: Option<u8>) -> bool {
    match v {
        Some(b) => {
            &&& column.len() == 4
            &&& column[0] == 0x30 && column[1] == 0x78
            &&& 0 <= text::hex_digit_read(column[2]) && 0 <= text::hex_digit_read(column[3])
            &&& 16 * text::hex_digit_read(column[2]) + text::hex_digit_read(column[3]) == b
        },
        None => column == seq![0x2du8, 0x2du8],
    }
}

/// A number in decimal tells itself, and no comma stands in it.
proof fn lemma_decimal_tells(n: int)
    requires
        0 <= n,
    ensures
        tells(text::decimal(n), Some(n)),
        !text::decimal(n).contains(0x2c),
{
    text::law_decimal_reads_back(n);
    assert(0x30 <= text::decimal(n)[0] <= 0x39);
}

/// A signed number tells itself, and no comma stands in it.
proof fn lemma_signed_tells(v: int)
    ensures
        tells(text::signed(v), Some(v)),
        !text::signed(v).contains(0x2c),
{
    text::law_signed_reads_back(v);
    let s = text::signed(v);
    if v < 0 {
        assert forall|i: int| 0 <= i < s.len() implies s[i] != 0x2c by {
            if i > 0 {
                assert(s.skip(1)[i - 1] == s[i]);
            }
        }
    }
}

proof fn lemma_number_tells(v: Option<u64>)
    ensures
        v matches Some(n) ==> tells(number_or_unread(v), Some(n as int)),
        v is None ==> tells(number_or_unread(v), None),
        !number_or_unread(v).contains(0x2c),
{
    if let Some(n) = v {
        lemma_decimal_tells(n as int);
    }
}

proof fn lemma_hex_tells(v: Option<u8>)
    ensures
        tells_byte(hex_or_unread(v), v),
        !hex_or_unread(v).contains(0x2c),
{
    if let Some(b) = v {
        text::law_hex_reads_back(b);
    }
}

/// Eight parts with commas between them are the columns.
proof fn lemma_eight_columns(
    d0: Seq<u8>,
    d1: Seq<u8>,
    d2: Seq<u8>,
    d3: Seq<u8>,
    d4: Seq<u8>,
    d5: Seq<u8>,
    d6: Seq<u8>,
    d7: Seq<u8>,
)
    requires
        !d0.contains(0x2c),
        !d1.contains(0x2c),
        !d2.contains(0x2c),
        !d3.contains(0x2c),
        !d4.contains(0x2c),
        !d5.contains(0x2c),
        !d6.contains(0x2c),
        !d7.contains(0x2c),
    ensures
        text::parts(
            d0 + comma() + d1 + comma() + d2 + comma() + d3 + comma() + d4 + comma() + d5
                + comma() + d6 + comma() + d7,
            0x2c,
        ) == seq![d0, d1, d2, d3, d4, d5, d6, d7],
{
    let l0 = d0;
    let l1 = l0 + comma() + d1;
    let l2 = l1 + comma() + d2;
    let l3 = l2 + comma() + d3;
    let l4 = l3 + comma() + d4;
    let l5 = l4 + comma() + d5;
    let l6 = l5 + comma() + d6;
    text::lemma_parts(Seq::empty(), d0, 0x2c);
    text::lemma_parts(l0, d1, 0x2c);
    text::lemma_parts(l1, d2, 0x2c);
    text::lemma_parts(l2, d3, 0x2c);
    text::lemma_parts(l3, d4, 0x2c);
    text::lemma_parts(l4, d5, 0x2c);
    text::lemma_parts(l5, d6, 0x2c);
    text::lemma_parts(l6, d7, 0x2c);
}

/// Fourteen parts with commas between them are the columns.
proof fn lemma_fourteen_columns(
    d0: Seq<u8>,
    d1: Seq<u8>,
    d2: Seq<u8>,
    d3: Seq<u8>,
    d4: Seq<u8>,
    d5: Seq<u8>,
    d6: Seq<u8>,
    d7: Seq<u8>,
    d8: Seq<u8>,
    d9: Seq<u8>,
    d10: Seq<u8>,
    d11: Seq<u8>,
    d12: Seq<u8>,
    d13: Seq<u8>,
)
    requires
        !d0.contains(0x2c),
        !d1.contains(0x2c),
        !d2.contains(0x2c),
        !d3.contains(0x2c),
        !d4.contains(0x2c),
        !d5.contains(0x2c),
        !d6.contains(0x2c),
        !d7.contains(0x2c),
        !d8.contains(0x2c),
        !d9.contains(0x2c),
        !d10.contains(0x2c),
        !d11.contains(0x2c),
        !d12.contains(0x2c),
        !d13.contains(0x2c),
    ensures
        text::parts(
            d0 + comma() + d1 + comma() + d2 + comma() + d3 + comma() + d4 + comma() + d5
                + comma() + d6 + comma() + d7 + comma() + d8 + comma() + d9 + comma() + d10
                + comma() + d11 + comma() + d12 + comma() + d13,
            0x2c,
        ) == seq![d0, d1, d2, d3, d4, d5, d6, d7, d8, d9, d10, d11, d12, d13],
{
    let l0 = d0;
    let l1 = l0 + comma() + d1;
    let l2 = l1 + comma() + d2;
    let l3 = l2 + comma() + d3;
    let l4 = l3 + comma() + d4;
    let l5 = l4 + comma() + d5;
    let l6 = l5 + comma() + d6;
    let l7 = l6 + comma() + d7;
    let l8 = l7 + comma() + d8;
    let l9 = l8 + comma() + d9;
    let l10 = l9 + comma() + d10;
    let l11 = l10 + comma() + d11;
    let l12 = l11 + comma() + d12;
    text::lemma_parts(Seq::empty(), d0, 0x2c);
    text::lemma_parts(l0, d1, 0x2c);
    text::lemma_parts(l1, d2, 0x2c);
    text::lemma_parts(l2, d3, 0x2c);
    text::lemma_parts(l3, d4, 0x2c);
    text::lemma_parts(l4, d5, 0x2c);
    text::lemma_parts(l5, d6, 0x2c);
    text::lemma_parts(l6, d7, 0x2c);
    text::lemma_parts(l7, d8, 0x2c);
    text::lemma_parts(l8, d9, 0x2c);
    text::lemma_parts(l9, d10, 0x2c);
    text::lemma_parts(l10, d11, 0x2c);
    text::lemma_parts(l11, d12, 0x2c);
    text::lemma_parts(l12, d13, 0x2c);
}

/// The line of a frame ends in a line feed, and split at its commas it gives back
/// the eight values: time, number, 1 where the flag of a fix is set, 1 where the frame
/// announces the start, latitude, longitude, signal strength and signal-to-noise ratio,
/// each whatever the others are.
pub proof fn law_rx_line_reads_back(f: NostosFrame, home: bool, rssi: i16, snr: i8)
    ensures
        ({
            let line = rx_line(f, home, rssi, snr);
            let c = text::parts(line.drop_last(), 0x2c);
            &&& line.len() > 0 && line.last() == 0x0a
            &&& c.len() == 8
            &&& tells(c[0], Some(f.time_unix as int))
            &&& tells(c[1], Some(f.seq as int))
            &&& tells(
                c[2],
                Some(
                    if f.flags % 2 == 1 {
                        1int
                    } else {
                        0
                    },
                ),
            )
            &&& tells(
                c[3],
                Some(
                    if home {
                        1int
                    } else {
                        0
                    },
                ),
            )
            &&& tells(c[4], Some(f.lat_e7 as int))
            &&& tells(c[5], Some(f.lon_e7 as int))
            &&& tells(c[6], Some(rssi as int))
            &&& tells(c[7], Some(snr as int))
        }),
{
    let flags = f.flags;
    assert((flags & 1 != 0) == (flags % 2 == 1)) by (bit_vector);
    let fix: int = if f.fix_valid() {
        1
    } else {
        0
    };
    let start: int = if home {
        1
    } else {
        0
    };
    lemma_decimal_tells(f.time_unix as int);
    lemma_decimal_tells(f.seq as int);
    lemma_decimal_tells(fix);
    lemma_decimal_tells(start);
    lemma_signed_tells(f.lat_e7 as int);
    lemma_signed_tells(f.lon_e7 as int);
    lemma_signed_tells(rssi as int);
    lemma_signed_tells(snr as int);
    assert(rx_line(f, home, rssi, snr).drop_last() =~= text::decimal(f.time_unix as int) + comma()
        + text::decimal(f.seq as int) + comma() + text::decimal(fix) + comma() + text::decimal(
        start,
    ) + comma() + text::signed(f.lat_e7 as int) + comma() + text::signed(f.lon_e7 as int) + comma()
        + text::signed(rssi as int) + comma() + text::signed(snr as int));
    lemma_eight_columns(
        text::decimal(f.time_unix as int),
        text::decimal(f.seq as int),
        text::decimal(fix),
        text::decimal(start),
        text::signed(f.lat_e7 as int),
        text::signed(f.lon_e7 as int),
        text::signed(rssi as int),
        text::signed(snr as int),
    );
}

/// Two frames share a line only if they agree in every value of it.
pub proof fn law_rx_lines_differ(
    f: NostosFrame,
    home: bool,
    rssi: i16,
    snr: i8,
    g: NostosFrame,
    g_home: bool,
    g_rssi: i16,
    g_snr: i8,
)
    requires
        rx_line(f, home, rssi, snr) == rx_line(g, g_home, g_rssi, g_snr),
    ensures
        f.time_unix == g.time_unix,
        f.seq == g.seq,
        f.flags % 2 == g.flags % 2,
        f.lat_e7 == g.lat_e7,
        f.lon_e7 == g.lon_e7,
        home == g_home,
        rssi == g_rssi,
        snr == g_snr,
{
    law_rx_line_reads_back(f, home, rssi, snr);
    law_rx_line_reads_back(g, g_home, g_rssi, g_snr);
}

/// The charge in percent is the part of the 900 mV from 3300 mV on that the battery has,
/// rounded down: 9 mV for each percent, nothing below and never more than 100.
pub proof fn law_charge_is_linear(mv: u16)
    ensures
        mv <= 3300 ==> charge(mv) == 0,
        mv >= 4200 ==> charge(mv) == 100,
        3300 <= mv <= 4200 ==> 9 * charge(mv) <= mv - 3300 < 9 * (charge(mv) + 1),
{
}

/// The radio's signal strength, or `--`.
spec fn strength_column(v: Option<(i16, u8)>) -> Seq<u8> {
    match v {
        Some(r) => text::signed(r.0 as int),
        None => unread(),
    }
}

/// The radio's status, or `--`.
spec fn state_column(v: Option<(i16, u8)>) -> Seq<u8> {
    match v {
        Some(r) => text::hex(r.1),
        None => unread(),
    }
}

proof fn lemma_radio_columns(l: Seq<u8>, v: Option<(i16, u8)>)
    ensures
        l + comma() + radio_columns(v) == l + comma() + strength_column(v) + comma()
            + state_column(v),
        !strength_column(v).contains(0x2c),
        !state_column(v).contains(0x2c),
{
    assert(l + comma() + radio_columns(v) =~= l + comma() + strength_column(v) + comma()
        + state_column(v));
    if let Some(r) = v {
        lemma_signed_tells(r.0 as int);
        lemma_hex_tells(Some(r.1));
    }
}

proof fn lemma_status_columns(s: Sample<'_>)
    requires
        !text::utf8(s.event@).contains(0x2c),
    ensures
        s.line().len() > 0 && s.line().last() == 0x0a,
        ({
            let c = text::parts(s.line().drop_last(), 0x2c);
            &&& c.len() == 14
            &&& c[0] == text::decimal(s.uptime_s as int)
            &&& c[1] == text::decimal(s.est_unix as int)
            &&& c[2] == number_or_unread(widened(s.vbat_mv))
            &&& c[3] == number_or_unread(widened(s.vin_mv))
            &&& c[4] == number_or_unread(charge_of(s.vbat_mv))
            &&& c[5] == hex_or_unread(s.pwr_src)
            &&& c[6] == hex_or_unread(s.pwr_cfg)
            &&& c[7] == strength_column(s.radio)
            &&& c[8] == state_column(s.radio)
            &&& c[9] == number_or_unread(s.last_rx_age_s)
            &&& c[10] == text::decimal(s.rx_count as int)
            &&& c[11] == text::decimal(s.frontlight as int)
            &&& c[12] == text::hex(s.reset_reason)
            &&& c[13] == text::utf8(s.event@)
        }),
{
    let d0 = text::decimal(s.uptime_s as int);
    let d1 = text::decimal(s.est_unix as int);
    let d2 = number_or_unread(widened(s.vbat_mv));
    let d3 = number_or_unread(widened(s.vin_mv));
    let d4 = number_or_unread(charge_of(s.vbat_mv));
    let d5 = hex_or_unread(s.pwr_src);
    let d6 = hex_or_unread(s.pwr_cfg);
    let d7 = strength_column(s.radio);
    let d8 = state_column(s.radio);
    let d9 = number_or_unread(s.last_rx_age_s);
    let d10 = text::decimal(s.rx_count as int);
    let d11 = text::decimal(s.frontlight as int);
    let d12 = text::hex(s.reset_reason);
    let d13 = text::utf8(s.event@);
    lemma_decimal_tells(s.uptime_s as int);
    lemma_decimal_tells(s.est_unix as int);
    lemma_number_tells(widened(s.vbat_mv));
    lemma_number_tells(widened(s.vin_mv));
    lemma_number_tells(charge_of(s.vbat_mv));
    lemma_hex_tells(s.pwr_src);
    lemma_hex_tells(s.pwr_cfg);
    lemma_number_tells(s.last_rx_age_s);
    lemma_decimal_tells(s.rx_count as int);
    lemma_decimal_tells(s.frontlight as int);
    lemma_hex_tells(Some(s.reset_reason));
    lemma_radio_columns(
        d0 + comma() + d1 + comma() + d2 + comma() + d3 + comma() + d4 + comma() + d5 + comma()
            + d6,
        s.radio,
    );
    lemma_fourteen_columns(d0, d1, d2, d3, d4, d5, d6, d7, d8, d9, d10, d11, d12, d13);
    lemma_ended(
        s.line(),
        d0 + comma() + d1 + comma() + d2 + comma() + d3 + comma() + d4 + comma() + d5 + comma()
            + d6 + comma() + d7 + comma() + d8 + comma() + d9 + comma() + d10 + comma() + d11
            + comma() + d12 + comma() + d13,
    );
}

proof fn lemma_ended(line: Seq<u8>, l: Seq<u8>)
    requires
        line == l + seq![0x0au8],
    ensures
        line.len() > 0 && line.last() == 0x0a,
        line.drop_last() == l,
{
    assert(line.drop_last() =~= l);
}

/// The line of a sample ends in a line feed, and split at its commas it gives back what was
/// measured in fourteen columns, `--` standing for what could not be read. The charge is
/// unread where the battery's voltage is, or is 0.
pub proof fn law_status_line_reads_back(s: Sample<'_>)
    requires
        !text::utf8(s.event@).contains(0x2c),
    ensures
        ({
            let c = text::parts(s.line().drop_last(), 0x2c);
            &&& s.line().len() > 0 && s.line().last() == 0x0a
            &&& c.len() == 14
            &&& tells(c[0], Some(s.uptime_s as int))
            &&& tells(c[1], Some(s.est_unix as int))
            &&& s.vbat_mv matches Some(mv) ==> tells(c[2], Some(mv as int))
            &&& s.vbat_mv is None ==> tells(c[2], None)
            &&& s.vin_mv matches Some(mv) ==> tells(c[3], Some(mv as int))
            &&& s.vin_mv is None ==> tells(c[3], None)
            &&& s.vbat_mv matches Some(mv) ==> mv > 0 ==> tells(c[4], Some(charge(mv)))
            &&& (s.vbat_mv is None || s.vbat_mv == Some(0u16)) ==> tells(c[4], None)
            &&& tells_byte(c[5], s.pwr_src)
            &&& tells_byte(c[6], s.pwr_cfg)
            &&& s.radio matches Some(r) ==> tells(c[7], Some(r.0 as int)) && tells_byte(
                c[8],
                Some(r.1),
            )
            &&& s.radio is None ==> tells(c[7], None) && tells_byte(c[8], None)
            &&& s.last_rx_age_s matches Some(a) ==> tells(c[9], Some(a as int))
            &&& s.last_rx_age_s is None ==> tells(c[9], None)
            &&& tells(c[10], Some(s.rx_count as int))
            &&& tells(c[11], Some(s.frontlight as int))
            &&& tells_byte(c[12], Some(s.reset_reason))
            &&& c[13] == text::utf8(s.event@)
        }),
{
    lemma_status_columns(s);
    lemma_decimal_tells(s.uptime_s as int);
    lemma_decimal_tells(s.est_unix as int);
    lemma_number_tells(widened(s.vbat_mv));
    lemma_number_tells(widened(s.vin_mv));
    lemma_number_tells(charge_of(s.vbat_mv));
    lemma_hex_tells(s.pwr_src);
    lemma_hex_tells(s.pwr_cfg);
    if let Some(r) = s.radio {
        lemma_signed_tells(r.0 as int);
        lemma_hex_tells(Some(r.1));
    }
    lemma_number_tells(s.last_rx_age_s);
    lemma_decimal_tells(s.rx_count as int);
    lemma_decimal_tells(s.frontlight as int);
    lemma_hex_tells(Some(s.reset_reason));
}

/// A line is added whole exactly if it fits into what is left of 160 bytes; otherwise what
/// was there stays, and only a beginning of the line follows it.
pub proof fn law_lines_are_added_whole(
    before: Seq<u8>,
    line: Seq<u8>,
    after: Seq<u8>,
    ok: bool,
)
    requires
        added(before, line, after, ok),
    ensures
        ok <==> before.len() + line.len() <= 160,
        ok ==> after == before + line,
        before.is_prefix_of(after),
        !ok ==> after.len() < before.len() + line.len() && after.is_prefix_of(before + line),
{
    if ok {
        assert(before =~= after.subrange(0, before.len() as int));
    } else {
        let k = choose|k: int| 0 <= k < line.len() && after == before + #[trigger] line.take(k);
        assert(before =~= after.subrange(0, before.len() as int));
        assert(after =~= (before + line).subrange(0, after.len() as int));
    }
}

} // verus!
