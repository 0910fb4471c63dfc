//! What the lines around the map tell someone who reads them: the numbers in them, read as
//! decimals, are the values they were made from, as near as their digits allow.

use vstd::prelude::*;

use crate::draw;
use crate::draw::Status;
use crate::statuslog;
use crate::text;

verus! {

/// The words of a line: its parts between blanks.
pub open spec fn words(s: Seq<u8>) -> Seq<Seq<u8>> {
    text::parts(s, 0x20)
}

/// A middle dot.
pub open spec fn middle_dot() -> Seq<u8> {
    seq![0xc2u8, 0xb7u8]
}

/// Whether a word is two numbers with `sep` between them.
pub open spec fn is_pair(s: Seq<u8>, sep: u8) -> bool {
    let p = text::parts(s, sep);
    p.len() == 2 && text::is_number(p[0]) && text::is_number(p[1])
}

/// The number before the separator.
pub open spec fn first_read(s: Seq<u8>, sep: u8) -> int {
    text::number_read(text::parts(s, sep)[0])
}

/// The number after the separator.
pub open spec fn second_read(s: Seq<u8>, sep: u8) -> int {
    text::number_read(text::parts(s, sep)[1])
}

/// How many digits the number after the separator has.
pub open spec fn second_digits(s: Seq<u8>, sep: u8) -> nat {
    text::parts(s, sep)[1].len()
}

/// Characters below 128 are their own bytes.
proof fn lemma_ascii(s: Seq<char>)
    requires
        vstd::utf8::is_ascii_chars(s),
    ensures
        text::utf8(s).len() == s.len(),
        forall|i: int| 0 <= i < s.len() ==> #[trigger] text::utf8(s)[i] == s[i] as u8,
{
    vstd::utf8::is_ascii_chars_encode_utf8(s);
}

/// The middle dot between blanks.
proof fn lemma_dot()
    ensures
        draw::dot() == seq![0x20u8] + middle_dot() + seq![0x20u8],
{
    reveal_strlit(" · ");
    let s = " · "@;
    assert(s.len() == 3 && s[0] == ' ' && s[1] == '·' && s[2] == ' ');
    reveal_with_fuel(vstd::utf8::encode_utf8, 4);
    assert(s.drop_first().len() == 2 && s.drop_first()[0] == '·');
    assert(s.drop_first().drop_first().len() == 1 && s.drop_first().drop_first()[0] == ' ');
    lemma_scalars();
    assert(draw::dot() =~= seq![0x20u8] + middle_dot() + seq![0x20u8]);
}

/// The sign of degrees.
proof fn lemma_degree()
    ensures
        text::utf8("°"@) == seq![0xc2u8, 0xb0u8],
{
    reveal_strlit("°");
    let s = "°"@;
    assert(s.len() == 1 && s[0] == '°');
    reveal_with_fuel(vstd::utf8::encode_utf8, 2);
    lemma_scalars();
    assert(text::utf8(s) =~= seq![0xc2u8, 0xb0u8]);
}

proof fn lemma_scalars()
    ensures
        vstd::utf8::encode_scalar(' ' as u32) == seq![0x20u8],
        vstd::utf8::encode_scalar('·' as u32) == seq![0xc2u8, 0xb7u8],
        vstd::utf8::encode_scalar('°' as u32) == seq![0xc2u8, 0xb0u8],
{
    assert((0x20u32 & 0x7f) as u8 == 0x20) by (bit_vector);
    assert((0xc0u8 | ((0xb7u32 >> 6) & 0x1f) as u8) == 0xc2 && (0x80u8 | (0xb7u32 & 0x3f) as u8)
        == 0xb7) by (bit_vector);
    assert((0xc0u8 | ((0xb0u32 >> 6) & 0x1f) as u8) == 0xc2 && (0x80u8 | (0xb0u32 & 0x3f) as u8)
        == 0xb0) by (bit_vector);
}

/// Two numbers with a separator between them are read back.
proof fn lemma_pair(a: Seq<u8>, sep: u8, b: Seq<u8>)
    requires
        text::is_number(a),
        text::is_number(b),
        sep < 0x30 || sep > 0x39,
    ensures
        is_pair(a + seq![sep] + b, sep),
        first_read(a + seq![sep] + b, sep) == text::number_read(a),
        second_read(a + seq![sep] + b, sep) == text::number_read(b),
        second_digits(a + seq![sep] + b, sep) == b.len(),
{
    text::lemma_number_is_digits(a, sep);
    text::lemma_number_is_digits(b, sep);
    text::lemma_parts(Seq::empty(), a, sep);
    text::lemma_parts(a, b, sep);
}

/// A pair of numbers has nothing in it but digits and its separator.
proof fn lemma_pair_is_word(a: Seq<u8>, sep: u8, b: Seq<u8>, other: u8)
    requires
        text::is_number(a),
        text::is_number(b),
        other < 0x30 || other > 0x39,
        other != sep,
    ensures
        !(a + seq![sep] + b).contains(other),
{
}

/// One more word after a blank.
proof fn lemma_word(l: Seq<u8>, w: Seq<u8>)
    requires
        !w.contains(0x20),
    ensures
        words(l + seq![0x20u8] + w) == words(l).push(w),
        words(w) == seq![w],
{
    text::lemma_parts(l, w, 0x20);
}

/// A time span reads as minutes and seconds up to an hour, exactly, and from there on as
/// hours and minutes, to the minute; what follows the colon has two digits and is under 60.
pub proof fn law_age_reads_back(age: u64)
    ensures
        ({
            let s = draw::age_text(age);
            let a = first_read(s, 0x3a);
            let b = second_read(s, 0x3a);
            &&& is_pair(s, 0x3a)
            &&& second_digits(s, 0x3a) == 2
            &&& 0 <= b < 60
            &&& age < 3600 ==> 60 * a + b == age
            &&& age >= 3600 ==> 3600 * a + 60 * b <= age < 3600 * a + 60 * b + 60
            &&& !s.contains(0x20)
        }),
{
    reveal_strlit(":");
    lemma_ascii(":"@);
    assert(text::utf8(":"@) =~= seq![0x3au8]);
    let a = if age < 3600 {
        age as int / 60
    } else {
        age as int / 3600
    };
    let b = if age < 3600 {
        age as int % 60
    } else {
        age as int % 3600 / 60
    };
    text::law_decimal_reads_back(a);
    text::law_padded_reads_back(b, 2);
    text::lemma_decimal_len(b, 2);
    lemma_pair(text::decimal(a), 0x3a, text::padded(b, 2));
    lemma_pair_is_word(text::decimal(a), 0x3a, text::padded(b, 2), 0x20);
}

/// Two spans of time that differ by a minute or more never read alike, and under an hour no
/// two differ at all without reading differently.
pub proof fn law_ages_read_apart(a: u64, b: u64)
    requires
        a >= b + 60 || b < a < 3600,
        a < 3600 <==> b < 3600,
    ensures
        draw::age_text(a) != draw::age_text(b),
{
    law_age_reads_back(a);
    law_age_reads_back(b);
}

/// The time of day in Japan that is shown: that of the newest frame, nine hours ahead of
/// Greenwich, and what passed since. Hours and minutes have two digits each and are the
/// time to the minute. Where no frame came, or it did not know the time, none is shown.
/// Behind a middle dot stands the charge in percent, or that it was not read.
pub proof fn law_clock_reads_back(st: Status)
    ensures
        ({
            let w = words(draw::clock_text(st));
            let h = first_read(w[0], 0x3a);
            let m = second_read(w[0], 0x3a);
            &&& w.len() == 3
            &&& w[1] == middle_dot()
            &&& (st.last is None || st.last->Some_0.time_unix == 0) ==> w[0] == text::utf8(
                "--:--"@,
            )
            &&& st.last matches Some(rx) ==> rx.time_unix != 0 ==> {
                let since: int = match st.age_secs {
                    Some(a) => a as int,
                    None => 0,
                };
                let of_day = (rx.time_unix + since + 32_400) % 86_400;
                &&& is_pair(w[0], 0x3a)
                &&& w[0].len() == 5 && second_digits(w[0], 0x3a) == 2
                &&& 0 <= h < 24 && 0 <= m < 60
                &&& 3600 * h + 60 * m <= of_day < 3600 * h + 60 * m + 60
            }
            &&& (st.vbat_mv is None || st.vbat_mv == Some(0u16)) ==> w[2] == text::utf8("--%"@)
            &&& st.vbat_mv matches Some(mv) ==> mv > 0 ==> {
                &&& w[2].len() > 0 && w[2].last() == 0x25
                &&& text::is_number(w[2].drop_last())
                &&& text::number_read(w[2].drop_last()) == statuslog::charge(mv)
            }
        }),
{
    reveal_strlit(":");
    reveal_strlit("--:--");
    reveal_strlit("--");
    reveal_strlit("--%");
    reveal_strlit("%");
    lemma_ascii(":"@);
    lemma_ascii("--:--"@);
    lemma_ascii("--"@);
    lemma_ascii("--%"@);
    lemma_ascii("%"@);
    lemma_dot();
    let since: int = match st.age_secs {
        Some(a) => a as int,
        None => 0,
    };
    let now = st.last->Some_0.time_unix + since + 9 * 3600;
    let h = now % 86_400 / 3600;
    let m = now % 3600 / 60;
    let known = st.last is Some && st.last->Some_0.time_unix != 0;
    let read = st.vbat_mv is Some && st.vbat_mv->Some_0 > 0;
    let a = if known {
        text::padded(h, 2) + seq![0x3au8] + text::padded(m, 2)
    } else {
        text::utf8("--:--"@)
    };
    let c = if read {
        text::decimal(statuslog::charge(st.vbat_mv->Some_0)) + seq![0x25u8]
    } else {
        text::utf8("--%"@)
    };
    assert(text::utf8(":"@) =~= seq![0x3au8]);
    assert(text::utf8("%"@) =~= seq![0x25u8]);
    assert(text::utf8("--%"@) =~= text::utf8("--"@) + seq![0x25u8]);
    if known {
        text::law_padded_reads_back(h, 2);
        text::law_padded_reads_back(m, 2);
        text::lemma_decimal_len(h, 2);
        text::lemma_decimal_len(m, 2);
        lemma_pair(text::padded(h, 2), 0x3a, text::padded(m, 2));
        lemma_pair_is_word(text::padded(h, 2), 0x3a, text::padded(m, 2), 0x20);
        lemma_time_of_day(now);
    }
    if read {
        text::law_decimal_reads_back(statuslog::charge(st.vbat_mv->Some_0));
        assert(c.drop_last() =~= text::decimal(statuslog::charge(st.vbat_mv->Some_0)));
    }
    assert(!a.contains(0x20));
    assert(!c.contains(0x20));
    assert(!middle_dot().contains(0x20));
    assert(draw::clock_text(st) =~= a + seq![0x20u8] + middle_dot() + seq![0x20u8] + c);
    lemma_word(Seq::empty(), a);
    lemma_word(a, middle_dot());
    lemma_word(a + seq![0x20u8] + middle_dot(), c);
}

proof fn lemma_time_of_day(now: int)
    requires
        0 <= now,
    ensures
        ({
            let h = now % 86_400 / 3600;
            let m = now % 3600 / 60;
            &&& 0 <= h < 24 && 0 <= m < 60
            &&& 3600 * h + 60 * m <= now % 86_400 < 3600 * h + 60 * m + 60
        }),
{
    let d = now % 86_400;
    assert(now == 86_400 * (now / 86_400) + d);
    assert(now % 3600 == d % 3600) by {
        assert(now == 3600 * (24 * (now / 86_400) + d / 3600) + d % 3600);
    }
}

/// How long ago the newest frame came is told as a time span between two words; where none
/// came, that it did not.
pub proof fn law_ago_reads_back(st: Status)
    ensures
        st.age_secs is None ==> draw::ago_text(st) == text::utf8("RX ---"@),
        st.age_secs matches Some(age) ==> {
            let w = words(draw::ago_text(st));
            &&& w.len() == 3
            &&& w[0] == text::utf8("RX"@)
            &&& w[1] == draw::age_text(age)
            &&& w[2] == text::utf8("AGO"@)
        },
{
    if let Some(age) = st.age_secs {
        reveal_strlit("RX ");
        reveal_strlit("RX");
        reveal_strlit(" AGO");
        reveal_strlit("AGO");
        lemma_ascii("RX "@);
        lemma_ascii("RX"@);
        lemma_ascii(" AGO"@);
        lemma_ascii("AGO"@);
        law_age_reads_back(age);
        let a = text::utf8("RX"@);
        let b = draw::age_text(age);
        let c = text::utf8("AGO"@);
        assert(draw::ago_text(st) =~= a + seq![0x20u8] + b + seq![0x20u8] + c);
        lemma_word(Seq::empty(), a);
        lemma_word(a, b);
        lemma_word(a + seq![0x20u8] + b, c);
    }
}

/// The length of a square of the grid, eighty points, reads exactly in metres under a
/// kilometre, and from there on in kilometres to the hundred metres.
pub proof fn law_scale_reads_back(m_per_px: u32)
    ensures
        ({
            let w = words(draw::scale_text(m_per_px));
            let m = 80 * m_per_px;
            let a = first_read(w[0], 0x2e);
            let b = second_read(w[0], 0x2e);
            &&& w.len() == 2
            &&& m < 1000 ==> w[1] == text::utf8("m"@) && text::is_number(w[0])
                && text::number_read(w[0]) == m
            &&& m >= 1000 ==> {
                &&& w[1] == text::utf8("km"@)
                &&& is_pair(w[0], 0x2e)
                &&& second_digits(w[0], 0x2e) == 1
                &&& 1000 * a + 100 * b <= m < 1000 * a + 100 * b + 100
            }
        }),
{
    reveal_strlit(".");
    reveal_strlit(" km");
    reveal_strlit("km");
    reveal_strlit(" m");
    reveal_strlit("m");
    lemma_ascii("."@);
    lemma_ascii(" km"@);
    lemma_ascii("km"@);
    lemma_ascii(" m"@);
    lemma_ascii("m"@);
    assert(text::utf8("."@) =~= seq![0x2eu8]);
    let m = m_per_px * draw::GRID_PX;
    let a = m / 1000;
    let b = m % 1000 / 100;
    let n = if m >= 1000 {
        text::decimal(a) + seq![0x2eu8] + text::decimal(b)
    } else {
        text::decimal(m)
    };
    let u = if m >= 1000 {
        text::utf8("km"@)
    } else {
        text::utf8("m"@)
    };
    if m >= 1000 {
        text::law_decimal_reads_back(a);
        text::law_decimal_reads_back(b);
        lemma_pair(text::decimal(a), 0x2e, text::decimal(b));
        lemma_pair_is_word(text::decimal(a), 0x2e, text::decimal(b), 0x20);
        assert(draw::scale_text(m_per_px) =~= n + seq![0x20u8] + u);
    } else {
        text::law_decimal_reads_back(m);
        text::lemma_number_is_digits(n, 0x20);
        assert(draw::scale_text(m_per_px) =~= n + seq![0x20u8] + u);
    }
    lemma_word(Seq::empty(), n);
    lemma_word(n, u);
}

/// Whether a word tells a coordinate: the letter of its hemisphere, and degrees with five
/// digits after the point that are its size with the rest dropped.
pub open spec fn tells_coordinate(w: Seq<u8>, e7: i32, pos: u8, neg: u8) -> bool {
    let n = w.skip(1);
    let size = if e7 < 0 {
        -e7
    } else {
        e7 as int
    };
    let told = 10_000_000 * first_read(n, 0x2e) + 100 * second_read(n, 0x2e);
    &&& w.len() > 0
    &&& w[0] == if e7 < 0 {
        neg
    } else {
        pos
    }
    &&& is_pair(n, 0x2e)
    &&& second_digits(n, 0x2e) == 5
    &&& told <= size < told + 100
}

proof fn lemma_coordinate(e7: i32, pos: Seq<char>, neg: Seq<char>)
    requires
        pos.len() == 1 && neg.len() == 1,
        vstd::utf8::is_ascii_chars(pos),
        vstd::utf8::is_ascii_chars(neg),
        pos[0] != ' ' && neg[0] != ' ',
    ensures
        tells_coordinate(draw::coord_text(e7, pos, neg), e7, pos[0] as u8, neg[0] as u8),
        !draw::coord_text(e7, pos, neg).contains(0x20),
{
    reveal_strlit(".");
    lemma_ascii("."@);
    lemma_ascii(pos);
    lemma_ascii(neg);
    assert(text::utf8("."@) =~= seq![0x2eu8]);
    let size = if e7 < 0 {
        -e7
    } else {
        e7 as int
    };
    let a = size / 10_000_000;
    let b = size % 10_000_000 / 100;
    let n = text::decimal(a) + seq![0x2eu8] + text::padded(b, 5);
    let c = if e7 < 0 {
        neg
    } else {
        pos
    };
    text::law_decimal_reads_back(a);
    text::law_padded_reads_back(b, 5);
    text::lemma_decimal_len(b, 5);
    lemma_pair(text::decimal(a), 0x2e, text::padded(b, 5));
    lemma_pair_is_word(text::decimal(a), 0x2e, text::padded(b, 5), 0x20);
    let w = draw::coord_text(e7, pos, neg);
    assert(w =~= text::utf8(c) + n);
    assert(w.skip(1) =~= n);
    assert(w[0] == c[0] as u8);
    assert(!w.contains(0x20)) by {
        if w.contains(0x20) {
            let i = choose|i: int| 0 <= i < w.len() && w[i] == 0x20;
            if i > 0 {
                assert(n[i - 1] == 0x20);
            }
        }
    }
}

/// Where the beacon is reads as its latitude, north or south, and then its longitude, east
/// or west, each to the fifth digit after the point; before the first frame neither is
/// shown.
pub proof fn law_place_reads_back(st: Status)
    ensures
        st.last is None ==> draw::place_text(st) == text::utf8("C6L  ---------  ----------"@),
        st.last matches Some(rx) ==> {
            let w = words(draw::place_text(st));
            &&& w.len() == 5
            &&& w[0] == text::utf8("C6L"@)
            &&& w[1].len() == 0 && w[3].len() == 0
            &&& tells_coordinate(w[2], rx.lat_e7, 0x4e, 0x53)
            &&& tells_coordinate(w[4], rx.lon_e7, 0x45, 0x57)
        },
{
    if let Some(rx) = st.last {
        reveal_strlit("C6L  ");
        reveal_strlit("C6L");
        reveal_strlit("  ");
        reveal_strlit("N");
        reveal_strlit("S");
        reveal_strlit("E");
        reveal_strlit("W");
        lemma_ascii("C6L  "@);
        lemma_ascii("C6L"@);
        lemma_ascii("  "@);
        lemma_coordinate(rx.lat_e7, "N"@, "S"@);
        lemma_coordinate(rx.lon_e7, "E"@, "W"@);
        let none = Seq::<u8>::empty();
        let a = text::utf8("C6L"@);
        let lat = draw::coord_text(rx.lat_e7, "N"@, "S"@);
        let lon = draw::coord_text(rx.lon_e7, "E"@, "W"@);
        let b = seq![0x20u8];
        assert(text::utf8("C6L  "@) =~= a + b + none + b);
        assert(text::utf8("  "@) =~= b + none + b);
        assert(draw::place_text(st) =~= a + b + none + b + lat + b + none + b + lon);
        lemma_word(none, a);
        lemma_word(a, none);
        lemma_word(a + b + none, lat);
        lemma_word(a + b + none + b + lat, none);
        lemma_word(a + b + none + b + lat + b + none, lon);
    }
}

/// Whether a word tells a bearing: whole degrees with the rest dropped, the sign of degrees
/// and the name of the nearest of the eight directions.
pub open spec fn tells_bearing(w: Seq<u8>, half_deg: int) -> bool {
    let p = text::parts(w, 0xc2);
    &&& p.len() == 2
    &&& text::is_number(p[0])
    &&& 2 * text::number_read(p[0]) <= half_deg < 2 * text::number_read(p[0]) + 2
    &&& p[1] == seq![0xb0u8] + text::utf8(draw::COMPASS[draw::sector(half_deg)]@)
}

/// Opposite directions have opposite letters, and a direction has a letter of each of the
/// four main ones that it is at most 45 degrees away from.
pub proof fn law_compass_names(k: int)
    requires
        0 <= k < 8,
    ensures
        draw::COMPASS[k]@.contains('N') <==> k == 7 || k == 0 || k == 1,
        draw::COMPASS[k]@.contains('E') <==> 1 <= k <= 3,
        draw::COMPASS[k]@.contains('S') <==> 3 <= k <= 5,
        draw::COMPASS[k]@.contains('W') <==> 5 <= k <= 7,
        1 <= draw::COMPASS[k]@.len() <= 2,
        draw::COMPASS[k]@.len() == 2 <==> k % 2 == 1,
        k % 2 == 1 ==> (draw::COMPASS[k]@[0] == 'N' || draw::COMPASS[k]@[0] == 'S'),
{
    reveal_strlit("N");
    reveal_strlit("NE");
    reveal_strlit("E");
    reveal_strlit("SE");
    reveal_strlit("S");
    reveal_strlit("SW");
    reveal_strlit("W");
    reveal_strlit("NW");
    let s = draw::COMPASS[k]@;
    if k == 0 {
        assert(s == "N"@ && s[0] == 'N');
    } else if k == 1 {
        assert(s == "NE"@ && s[0] == 'N' && s[1] == 'E');
    } else if k == 2 {
        assert(s == "E"@ && s[0] == 'E');
    } else if k == 3 {
        assert(s == "SE"@ && s[0] == 'S' && s[1] == 'E');
    } else if k == 4 {
        assert(s == "S"@ && s[0] == 'S');
    } else if k == 5 {
        assert(s == "SW"@ && s[0] == 'S' && s[1] == 'W');
    } else if k == 6 {
        assert(s == "W"@ && s[0] == 'W');
    } else {
        assert(s == "NW"@ && s[0] == 'N' && s[1] == 'W');
    }
}

/// A direction is written in letters, none of which is a blank or the start of a sign of
/// degrees.
proof fn lemma_compass_bytes(k: int)
    requires
        0 <= k < 8,
    ensures
        !text::utf8(draw::COMPASS[k]@).contains(0x20),
        !text::utf8(draw::COMPASS[k]@).contains(0xc2),
{
    reveal_strlit("N");
    reveal_strlit("NE");
    reveal_strlit("E");
    reveal_strlit("SE");
    reveal_strlit("S");
    reveal_strlit("SW");
    reveal_strlit("W");
    reveal_strlit("NW");
    lemma_ascii("N"@);
    lemma_ascii("NE"@);
    lemma_ascii("E"@);
    lemma_ascii("SE"@);
    lemma_ascii("S"@);
    lemma_ascii("SW"@);
    lemma_ascii("W"@);
    lemma_ascii("NW"@);
    let s = draw::COMPASS[k]@;
    assert(s == "N"@ || s == "NE"@ || s == "E"@ || s == "SE"@ || s == "S"@ || s == "SW"@ || s
        == "W"@ || s == "NW"@);
}

proof fn lemma_bearing(half_deg: int)
    requires
        0 <= half_deg,
    ensures
        ({
            let w = text::decimal(half_deg / 2) + text::utf8("°"@) + text::utf8(
                draw::COMPASS[draw::sector(half_deg)]@,
            );
            tells_bearing(w, half_deg) && !w.contains(0x20)
        }),
{
    let n = text::decimal(half_deg / 2);
    let name = text::utf8(draw::COMPASS[draw::sector(half_deg)]@);
    let tail = seq![0xb0u8] + name;
    let w = n + text::utf8("°"@) + name;
    lemma_degree();
    lemma_compass_bytes(draw::sector(half_deg));
    text::law_decimal_reads_back(half_deg / 2);
    text::lemma_number_is_digits(n, 0xc2);
    text::lemma_number_is_digits(n, 0x20);
    assert(!tail.contains(0xc2)) by {
        if tail.contains(0xc2) {
            let i = choose|i: int| 0 <= i < tail.len() && tail[i] == 0xc2;
            assert(name[i - 1] == 0xc2);
        }
    }
    assert(w =~= n + seq![0xc2u8] + tail);
    text::lemma_parts(Seq::empty(), n, 0xc2);
    text::lemma_parts(n, tail, 0xc2);
    assert(!w.contains(0x20)) by {
        if w.contains(0x20) {
            let i = choose|i: int| 0 <= i < w.len() && w[i] == 0x20;
            if i < n.len() {
                assert(n[i] == 0x20);
            } else if i >= n.len() + 2 {
                assert(name[i - n.len() - 2] == 0x20);
            }
        }
    }
}

/// The distance of the way home, in its unit.
proof fn lemma_distance(d: int)
    requires
        0 <= d,
    ensures
        ({
            let n = if d >= 1000 {
                text::decimal(d / 1000) + text::utf8("."@) + text::padded(d % 1000 / 10, 2)
            } else {
                text::decimal(d)
            };
            let a = first_read(n, 0x2e);
            let b = second_read(n, 0x2e);
            &&& !n.contains(0x20)
            &&& d < 1000 ==> text::is_number(n) && text::number_read(n) == d
            &&& d >= 1000 ==> {
                &&& is_pair(n, 0x2e)
                &&& second_digits(n, 0x2e) == 2
                &&& 1000 * a + 10 * b <= d < 1000 * a + 10 * b + 10
            }
        }),
{
    if d >= 1000 {
        reveal_strlit(".");
        lemma_ascii("."@);
        assert(text::utf8("."@) =~= seq![0x2eu8]);
        let a = d / 1000;
        let b = d % 1000 / 10;
        text::law_decimal_reads_back(a);
        text::law_padded_reads_back(b, 2);
        text::lemma_decimal_len(b, 2);
        lemma_pair(text::decimal(a), 0x2e, text::padded(b, 2));
        lemma_pair_is_word(text::decimal(a), 0x2e, text::padded(b, 2), 0x20);
    } else {
        text::law_decimal_reads_back(d);
        text::lemma_number_is_digits(text::decimal(d), 0x20);
    }
}

/// The way home reads as a distance and a bearing. Under 1000 m the distance is told in
/// metres, exactly. From 1000 m on it is told in kilometres: the number before the point,
/// read as a decimal, times 1000, and the two digits after it times 10, are the distance to
/// within less than 10 m. Where the start or the way to it is not known, the line says so.
pub proof fn law_home_reads_back(st: Status)
    ensures
        st.home is None || st.homing is None ==> draw::home_text(st) == text::utf8(
            "HOME not received"@,
        ),
        st.home is Some ==> (st.homing matches Some(h) ==> {
            let w = words(draw::home_text(st));
            let a = first_read(w[1], 0x2e);
            let b = second_read(w[1], 0x2e);
            &&& w.len() == 5
            &&& w[0] == text::utf8("HOME"@)
            &&& w[3] == middle_dot()
            &&& h.distance_m < 1000 ==> {
                &&& w[2] == text::utf8("m"@)
                &&& text::is_number(w[1])
                &&& text::number_read(w[1]) == h.distance_m
            }
            &&& h.distance_m >= 1000 ==> {
                &&& w[2] == text::utf8("km"@)
                &&& is_pair(w[1], 0x2e)
                &&& second_digits(w[1], 0x2e) == 2
                &&& 1000 * a + 10 * b <= h.distance_m < 1000 * a + 10 * b + 10
            }
            &&& tells_bearing(w[4], h.half_deg as int)
        }),
{
    if st.home is Some && st.homing is Some {
        let h = st.homing->Some_0;
        let d = h.distance_m as int;
        reveal_strlit("HOME ");
        reveal_strlit("HOME");
        reveal_strlit(" km");
        reveal_strlit("km");
        reveal_strlit(" m");
        reveal_strlit("m");
        lemma_ascii("HOME "@);
        lemma_ascii("HOME"@);
        lemma_ascii(" km"@);
        lemma_ascii("km"@);
        lemma_ascii(" m"@);
        lemma_ascii("m"@);
        lemma_dot();
        lemma_distance(d);
        lemma_bearing(h.half_deg as int);
        let b = seq![0x20u8];
        let name = text::utf8("HOME"@);
        let n = if d >= 1000 {
            text::decimal(d / 1000) + text::utf8("."@) + text::padded(d % 1000 / 10, 2)
        } else {
            text::decimal(d)
        };
        let u = if d >= 1000 {
            text::utf8("km"@)
        } else {
            text::utf8("m"@)
        };
        let w = text::decimal(h.half_deg as int / 2) + text::utf8("°"@) + text::utf8(
            draw::COMPASS[draw::sector(h.half_deg as int)]@,
        );
        assert(text::utf8("HOME "@) =~= name + b);
        assert(text::utf8(" km"@) =~= b + text::utf8("km"@));
        assert(text::utf8(" m"@) =~= b + text::utf8("m"@));
        lemma_home_joined(st, name, n, u, w);
        lemma_word(Seq::empty(), name);
        lemma_word(name, n);
        lemma_word(name + b + n, u);
        lemma_word(name + b + n + b + u, middle_dot());
        lemma_word(name + b + n + b + u + b + middle_dot(), w);
    }
}

proof fn lemma_home_joined(st: Status, name: Seq<u8>, n: Seq<u8>, u: Seq<u8>, w: Seq<u8>)
    requires
        st.home is Some && st.homing is Some,
        text::utf8("HOME "@) == name + seq![0x20u8],
        draw::dot() == seq![0x20u8] + middle_dot() + seq![0x20u8],
        ({
            let h = st.homing->Some_0;
            let d = h.distance_m as int;
            &&& w == text::decimal(h.half_deg as int / 2) + text::utf8("°"@) + text::utf8(
                draw::COMPASS[draw::sector(h.half_deg as int)]@,
            )
            &&& d >= 1000 ==> n == text::decimal(d / 1000) + text::utf8("."@) + text::padded(
                d % 1000 / 10,
                2,
            ) && text::utf8(" km"@) == seq![0x20u8] + u
            &&& d < 1000 ==> n == text::decimal(d) && text::utf8(" m"@) == seq![0x20u8] + u
        }),
    ensures
        draw::home_text(st) == name + seq![0x20u8] + n + seq![0x20u8] + u + seq![0x20u8]
            + middle_dot() + seq![0x20u8] + w,
{
    assert(draw::home_text(st) =~= name + seq![0x20u8] + n + seq![0x20u8] + u + seq![0x20u8]
        + middle_dot() + seq![0x20u8] + w);
}

/// Two distances home that are 10 m or more apart never share a text, and two that differ at
/// all do not where one of them is under 1000 m.
pub proof fn law_distances_read_apart(st: Status, other: Status)
    requires
        st.home is Some && st.homing is Some,
        other.home is Some && other.homing is Some,
        ({
            let a = st.homing->Some_0.distance_m;
            let b = other.homing->Some_0.distance_m;
            a >= b + 10 || b < a && b < 1000
        }),
    ensures
        draw::home_text(st) != draw::home_text(other),
{
    law_home_reads_back(st);
    law_home_reads_back(other);
    reveal_strlit("km");
    reveal_strlit("m");
    lemma_ascii("km"@);
    lemma_ascii("m"@);
}

/// A word after a middle dot and a name.
proof fn lemma_named(l: Seq<u8>, lit: Seq<u8>, name: Seq<u8>, q: Seq<u8>)
    requires
        lit == name + seq![0x20u8],
        !name.contains(0x20),
        !q.contains(0x20),
    ensures
        words(l + draw::dot() + lit + q) == words(l).push(middle_dot()).push(name).push(q),
{
    let b = seq![0x20u8];
    lemma_dot();
    assert(!middle_dot().contains(0x20));
    assert(l + draw::dot() + lit + q =~= l + b + middle_dot() + b + name + b + q);
    lemma_word(l, middle_dot());
    lemma_word(l + b + middle_dot(), name);
    lemma_word(l + b + middle_dot() + b + name, q);
}

/// The line of the newest frame reads as its number, whether it had a fix, how many
/// positions there are, how long ago it came, and its strength and noise ratio; each number
/// behind its own name or before its own unit. Before the first frame it says that there is
/// none.
pub proof fn law_frame_line_reads_back(st: Status, positions: int)
    requires
        0 <= positions,
    ensures
        st.last is None ==> draw::frame_text(st, positions) == text::utf8("SEQ ---"@)
            + draw::dot() + text::utf8("N 0"@) + draw::dot() + text::utf8("LAST ---"@),
        st.last matches Some(rx) ==> {
            let w = words(draw::frame_text(st, positions));
            &&& w.len() == 16
            &&& w[0] == text::utf8("SEQ"@) && statuslog::tells(w[1], Some(rx.seq as int))
            &&& w[3] == text::utf8("FIX"@) && statuslog::tells(
                w[4],
                Some(
                    if rx.fix {
                        1int
                    } else {
                        0
                    },
                ),
            )
            &&& w[6] == text::utf8("N"@) && statuslog::tells(w[7], Some(positions))
            &&& w[9] == text::utf8("LAST"@)
            &&& st.age_secs matches Some(a) ==> w[10] == draw::age_text(a)
            &&& st.age_secs is None ==> w[10] == text::utf8("---"@)
            &&& statuslog::tells(w[12], Some(rx.rssi as int)) && w[13] == text::utf8("dBm"@)
            &&& statuslog::tells(w[14], Some(rx.snr as int)) && w[15] == text::utf8("dB"@)
            &&& w[2] == middle_dot() && w[5] == middle_dot() && w[8] == middle_dot() && w[11]
                == middle_dot()
        },
{
    if let Some(rx) = st.last {
        let fix: int = if rx.fix {
            1
        } else {
            0
        };
        let age = match st.age_secs {
            Some(a) => draw::age_text(a),
            None => text::utf8("---"@),
        };
        lemma_plain_number(rx.seq as int);
        lemma_plain_number(fix);
        lemma_plain_number(positions);
        lemma_plain_signed(rx.rssi as int);
        lemma_plain_signed(rx.snr as int);
        lemma_frame_names();
        if let Some(a) = st.age_secs {
            law_age_reads_back(a);
        }
        let b = seq![0x20u8];
        let seq_name = text::utf8("SEQ"@);
        let dot = draw::dot();
        let md = middle_dot();
        let l1 = text::utf8("SEQ "@) + text::decimal(rx.seq as int);
        let l2 = l1 + dot + text::utf8("FIX "@) + text::decimal(fix);
        let l3 = l2 + dot + text::utf8("N "@) + text::decimal(positions);
        let l4 = l3 + dot + text::utf8("LAST "@) + age;
        let r = text::signed(rx.rssi as int);
        let s = text::signed(rx.snr as int);
        let dbm = text::utf8("dBm"@);
        let db = text::utf8("dB"@);
        assert(l1 =~= seq_name + b + text::decimal(rx.seq as int));
        lemma_word(Seq::empty(), seq_name);
        lemma_word(seq_name, text::decimal(rx.seq as int));
        lemma_named(l1, text::utf8("FIX "@), text::utf8("FIX"@), text::decimal(fix));
        lemma_named(l2, text::utf8("N "@), text::utf8("N"@), text::decimal(positions));
        lemma_named(l3, text::utf8("LAST "@), text::utf8("LAST"@), age);
        lemma_strengths(l4, r, s);
        assert(draw::frame_text(st, positions) == l4 + dot + r + text::utf8(" dBm "@) + s
            + text::utf8(" dB"@));
        let w = words(draw::frame_text(st, positions));
        assert(words(l1) == seq![seq_name, text::decimal(rx.seq as int)]);
        assert(words(l4).len() == 11);
        assert(w == words(l4).push(md).push(r).push(dbm).push(s).push(db));
    }
}

proof fn lemma_plain_number(n: int)
    requires
        0 <= n,
    ensures
        statuslog::tells(text::decimal(n), Some(n)),
        !text::decimal(n).contains(0x20),
{
    text::law_decimal_reads_back(n);
    assert(0x30 <= text::decimal(n)[0] <= 0x39);
    text::lemma_number_is_digits(text::decimal(n), 0x20);
}

proof fn lemma_plain_signed(v: int)
    ensures
        statuslog::tells(text::signed(v), Some(v)),
        !text::signed(v).contains(0x20),
{
    text::law_signed_reads_back(v);
    let s = text::signed(v);
    assert(!s.contains(0x20)) by {
        if s.contains(0x20) {
            let i = choose|i: int| 0 <= i < s.len() && s[i] == 0x20;
            if v < 0 {
                assert(i > 0);
                assert(s.skip(1)[i - 1] == 0x20);
            }
        }
    }
}

proof fn lemma_strengths(l: Seq<u8>, r: Seq<u8>, s: Seq<u8>)
    requires
        !r.contains(0x20),
        !s.contains(0x20),
    ensures
        words(l + draw::dot() + r + text::utf8(" dBm "@) + s + text::utf8(" dB"@)) == words(l).push(
            middle_dot(),
        ).push(r).push(text::utf8("dBm"@)).push(s).push(text::utf8("dB"@)),
{
    reveal_strlit(" dBm ");
    reveal_strlit("dBm");
    reveal_strlit(" dB");
    reveal_strlit("dB");
    lemma_ascii(" dBm "@);
    lemma_ascii("dBm"@);
    lemma_ascii(" dB"@);
    lemma_ascii("dB"@);
    lemma_dot();
    let b = seq![0x20u8];
    let md = middle_dot();
    let dbm = text::utf8("dBm"@);
    let db = text::utf8("dB"@);
    assert(text::utf8(" dBm "@) =~= b + dbm + b);
    assert(text::utf8(" dB"@) =~= b + db);
    assert(l + draw::dot() + r + text::utf8(" dBm "@) + s + text::utf8(" dB"@) =~= l + b + md + b
        + r + b + dbm + b + s + b + db);
    lemma_word(l, md);
    lemma_word(l + b + md, r);
    lemma_word(l + b + md + b + r, dbm);
    lemma_word(l + b + md + b + r + b + dbm, s);
    lemma_word(l + b + md + b + r + b + dbm + b + s, db);
}

proof fn lemma_frame_names()
    ensures
        text::utf8("SEQ "@) == text::utf8("SEQ"@) + seq![0x20u8],
        text::utf8("FIX "@) == text::utf8("FIX"@) + seq![0x20u8],
        text::utf8("N "@) == text::utf8("N"@) + seq![0x20u8],
        text::utf8("LAST "@) == text::utf8("LAST"@) + seq![0x20u8],
        !text::utf8("SEQ"@).contains(0x20),
        !text::utf8("FIX"@).contains(0x20),
        !text::utf8("N"@).contains(0x20),
        !text::utf8("LAST"@).contains(0x20),
        !text::utf8("---"@).contains(0x20),
{
    reveal_strlit("SEQ ");
    reveal_strlit("SEQ");
    reveal_strlit("FIX ");
    reveal_strlit("FIX");
    reveal_strlit("N ");
    reveal_strlit("N");
    reveal_strlit("LAST ");
    reveal_strlit("LAST");
    reveal_strlit("---");
    lemma_ascii("SEQ "@);
    lemma_ascii("SEQ"@);
    lemma_ascii("FIX "@);
    lemma_ascii("FIX"@);
    lemma_ascii("N "@);
    lemma_ascii("N"@);
    lemma_ascii("LAST "@);
    lemma_ascii("LAST"@);
    lemma_ascii("---"@);
    assert(text::utf8("SEQ "@) =~= text::utf8("SEQ"@) + seq![0x20u8]);
    assert(text::utf8("FIX "@) =~= text::utf8("FIX"@) + seq![0x20u8]);
    assert(text::utf8("N "@) =~= text::utf8("N"@) + seq![0x20u8]);
    assert(text::utf8("LAST "@) =~= text::utf8("LAST"@) + seq![0x20u8]);
}

} // verus!
