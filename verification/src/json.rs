use vstd::prelude::*;

use crate::reading::{Reading, SensorKind};

verus! {

// ---------------------------------------------------------------------------
// The wire format, as specification: a JSON array of objects with the keys
// `sensor`, `timestamp`, `temperature` and `humidity`, oldest reading first.
// Temperature and humidity are printed from tenths, always with exactly one
// fractional digit, so the bytes are a function of the plain integer fields.
// ---------------------------------------------------------------------------

pub open spec fn is_digit(b: u8) -> bool {
    48 <= b <= 57
}

/// The decimal digits of `n`, most significant first, no leading zeros.
pub open spec fn dec_digits(n: nat) -> Seq<u8>
    decreases n,
{
    if n < 10 {
        seq![(48 + n) as u8]
    } else {
        dec_digits(n / 10).push((48 + n % 10) as u8)
    }
}

/// A signed quantity in tenths, rendered as an optional minus sign, the
/// integer part, a dot and exactly one fractional digit.
pub open spec fn tenths_bytes(t: int) -> Seq<u8> {
    if t < 0 {
        seq![45u8] + dec_digits(((-t) / 10) as nat).push(46u8).push((48 + (-t) % 10) as u8)
    } else {
        dec_digits((t / 10) as nat).push(46u8).push((48 + t % 10) as u8)
    }
}

pub open spec fn sensor_label(k: SensorKind) -> Seq<u8> {
    match k {
        SensorKind::Dht11 => seq![100u8, 104, 116, 49, 49],
        SensorKind::Dht22 => seq![100u8, 104, 116, 50, 50],
        SensorKind::Dummy => seq![100u8, 117, 109, 109, 121],
    }
}

pub open spec fn lit_sensor_key() -> Seq<u8> {
    seq![123u8, 34, 115, 101, 110, 115, 111, 114, 34, 58, 34]
}

pub open spec fn lit_timestamp_key() -> Seq<u8> {
    seq![34u8, 44, 34, 116, 105, 109, 101, 115, 116, 97, 109, 112, 34, 58]
}

pub open spec fn lit_temperature_key() -> Seq<u8> {
    seq![
        44u8,
        34,
        116,
        101,
        109,
        112,
        101,
        114,
        97,
        116,
        117,
        114,
        101,
        34,
        58,
    ]
}

pub open spec fn lit_humidity_key() -> Seq<u8> {
    seq![44u8, 34, 104, 117, 109, 105, 100, 105, 116, 121, 34, 58]
}

/// One reading as a JSON object.
pub open spec fn json_reading(r: Reading) -> Seq<u8> {
    lit_sensor_key() + sensor_label(r.sensor) + lit_timestamp_key() + dec_digits(
        r.timestamp as nat,
    ) + lit_temperature_key() + tenths_bytes(r.temperature_deci as int) + lit_humidity_key()
        + tenths_bytes(r.humidity_deci as int) + seq![125u8]
}

/// The comma-separated objects after the first one.
pub open spec fn json_more_readings(rs: Seq<Reading>) -> Seq<u8>
    decreases rs.len(),
{
    if rs.len() == 0 {
        Seq::empty()
    } else {
        seq![44u8] + json_reading(rs.first()) + json_more_readings(rs.drop_first())
    }
}

/// A whole snapshot as a JSON array, oldest reading first.
pub open spec fn json_array(rs: Seq<Reading>) -> Seq<u8> {
    if rs.len() == 0 {
        seq![91u8, 93]
    } else {
        seq![91u8] + json_reading(rs.first()) + json_more_readings(rs.drop_first()) + seq![93u8]
    }
}

// ---------------------------------------------------------------------------
// The serializer.
// ---------------------------------------------------------------------------

/// Appending one more reading extends the comma-separated run at its tail.
proof fn lemma_json_more_push(rs: Seq<Reading>, r: Reading)
    ensures
        json_more_readings(rs.push(r)) == json_more_readings(rs) + seq![44u8] + json_reading(r),
    decreases rs.len(),
{
    if rs.len() == 0 {
        assert(rs.push(r).drop_first() =~= Seq::<Reading>::empty());
        assert(rs.push(r).first() == r);
        assert(json_more_readings(Seq::<Reading>::empty()) =~= Seq::<u8>::empty());
        assert(json_more_readings(rs.push(r)) =~= json_more_readings(rs) + seq![44u8]
            + json_reading(r));
    } else {
        assert(rs.push(r).drop_first() =~= rs.drop_first().push(r));
        lemma_json_more_push(rs.drop_first(), r);
        assert(json_more_readings(rs.push(r)) =~= json_more_readings(rs) + seq![44u8]
            + json_reading(r));
    }
}

pub(crate) fn push_dec(out: &mut Vec<u8>, n: u64)
    ensures
        final(out)@ == old(out)@ + dec_digits(n as nat),
    decreases n,
{
    if n >= 10 {
        push_dec(out, n / 10);
    }
    out.push(48 + (n % 10) as u8);
    proof {
        assert(final(out)@ =~= old(out)@ + dec_digits(n as nat));
    }
}

fn push_tenths(out: &mut Vec<u8>, t: i32)
    ensures
        final(out)@ == old(out)@ + tenths_bytes(t as int),
{
    let mag: u64 = if t < 0 {
        out.push(45);
        (-(t as i64)) as u64
    } else {
        t as u64
    };
    push_dec(out, mag / 10);
    out.push(46);
    out.push(48 + (mag % 10) as u8);
    proof {
        assert(final(out)@ =~= old(out)@ + tenths_bytes(t as int));
    }
}

fn push_label(out: &mut Vec<u8>, k: SensorKind)
    ensures
        final(out)@ == old(out)@ + sensor_label(k),
{
    match k {
        SensorKind::Dht11 => {
            out.push(100);
            out.push(104);
            out.push(116);
            out.push(49);
            out.push(49);
        },
        SensorKind::Dht22 => {
            out.push(100);
            out.push(104);
            out.push(116);
            out.push(50);
            out.push(50);
        },
        SensorKind::Dummy => {
            out.push(100);
            out.push(117);
            out.push(109);
            out.push(109);
            out.push(121);
        },
    }
    proof {
        assert(final(out)@ =~= old(out)@ + sensor_label(k));
    }
}

fn push_lit_sensor_key(out: &mut Vec<u8>)
    ensures
        final(out)@ == old(out)@ + lit_sensor_key(),
{
    out.push(123);
    out.push(34);
    out.push(115);
    out.push(101);
    out.push(110);
    out.push(115);
    out.push(111);
    out.push(114);
    out.push(34);
    out.push(58);
    out.push(34);
    proof {
        assert(final(out)@ =~= old(out)@ + lit_sensor_key());
    }
}

fn push_lit_timestamp_key(out: &mut Vec<u8>)
    ensures
        final(out)@ == old(out)@ + lit_timestamp_key(),
{
    out.push(34);
    out.push(44);
    out.push(34);
    out.push(116);
    out.push(105);
    out.push(109);
    out.push(101);
    out.push(115);
    out.push(116);
    out.push(97);
    out.push(109);
    out.push(112);
    out.push(34);
    out.push(58);
    proof {
        assert(final(out)@ =~= old(out)@ + lit_timestamp_key());
    }
}

fn push_lit_temperature_key(out: &mut Vec<u8>)
    ensures
        final(out)@ == old(out)@ + lit_temperature_key(),
{
    out.push(44);
    out.push(34);
    out.push(116);
    out.push(101);
    out.push(109);
    out.push(112);
    out.push(101);
    out.push(114);
    out.push(97);
    out.push(116);
    out.push(117);
    out.push(114);
    out.push(101);
    out.push(34);
    out.push(58);
    proof {
        assert(final(out)@ =~= old(out)@ + lit_temperature_key());
    }
}

fn push_lit_humidity_key(out: &mut Vec<u8>)
    ensures
        final(out)@ == old(out)@ + lit_humidity_key(),
{
    out.push(44);
    out.push(34);
    out.push(104);
    out.push(117);
    out.push(109);
    out.push(105);
    out.push(100);
    out.push(105);
    out.push(116);
    out.push(121);
    out.push(34);
    out.push(58);
    proof {
        assert(final(out)@ =~= old(out)@ + lit_humidity_key());
    }
}

fn push_reading(out: &mut Vec<u8>, r: &Reading)
    ensures
        final(out)@ == old(out)@ + json_reading(*r),
{
    push_lit_sensor_key(out);
    push_label(out, r.sensor);
    push_lit_timestamp_key(out);
    push_dec(out, r.timestamp);
    push_lit_temperature_key(out);
    push_tenths(out, r.temperature_deci);
    push_lit_humidity_key(out);
    push_tenths(out, r.humidity_deci);
    out.push(125);
    proof {
        assert(final(out)@ =~= old(out)@ + json_reading(*r));
    }
}

/// Renders a snapshot as the JSON array the wire format calls for.
pub fn render_json(rs: &Vec<Reading>) -> (out: Vec<u8>)
    ensures
        out@ == json_array(rs@),
{
    let mut out: Vec<u8> = Vec::new();
    out.push(91);
    let mut i: usize = 0;
    while i < rs.len()
        invariant
            0 <= i <= rs@.len(),
            i == 0 ==> out@ == seq![91u8],
            i > 0 ==> out@ == seq![91u8] + json_reading(rs@.first()) + json_more_readings(
                rs@.take(i as int).drop_first(),
            ),
        decreases rs.len() - i,
    {
        if i > 0 {
            out.push(44);
        }
        push_reading(&mut out, &rs[i]);
        proof {
            if i == 0 {
                assert(rs@.take(1).drop_first() =~= Seq::<Reading>::empty());
                assert(out@ =~= seq![91u8] + json_reading(rs@.first()) + json_more_readings(
                    rs@.take(1).drop_first(),
                ));
            } else {
                let prev = rs@.take(i as int).drop_first();
                assert(rs@.take(i as int + 1).drop_first() =~= prev.push(rs@[i as int]));
                lemma_json_more_push(prev, rs@[i as int]);
                assert(out@ =~= seq![91u8] + json_reading(rs@.first()) + json_more_readings(
                    rs@.take(i as int + 1).drop_first(),
                ));
            }
        }
        i += 1;
    }
    out.push(93);
    proof {
        if rs@.len() == 0 {
            assert(out@ =~= json_array(rs@));
        } else {
            assert(rs@.take(rs@.len() as int) =~= rs@);
            assert(out@ =~= json_array(rs@));
        }
    }
    out
}

// ---------------------------------------------------------------------------
// The parser: a recursive-descent reading of the same format, from the
// front of a byte sequence. Each function yields the parsed value and the
// unconsumed remainder, or nothing when the bytes do not fit the format.
// ---------------------------------------------------------------------------

/// The remainder of `s` after the literal `lit`, if `s` starts with it.
pub open spec fn expect(s: Seq<u8>, lit: Seq<u8>) -> Option<Seq<u8>> {
    if lit.len() <= s.len() && s.take(lit.len() as int) == lit {
        Option::Some(s.skip(lit.len() as int))
    } else {
        Option::None
    }
}

/// How many leading bytes of `s` are decimal digits.
pub open spec fn digit_count(s: Seq<u8>) -> int
    decreases s.len(),
{
    if s.len() > 0 && is_digit(s.first()) {
        1 + digit_count(s.drop_first())
    } else {
        0
    }
}

/// The number a run of decimal digits denotes, most significant first.
pub open spec fn dec_value(ds: Seq<u8>) -> int
    decreases ds.len(),
{
    if ds.len() == 0 {
        0
    } else {
        dec_value(ds.drop_last()) * 10 + (ds.last() - 48)
    }
}

/// Reads a run of decimal digits as an unsigned number; nothing when there
/// is no digit or the value does not fit in a timestamp.
pub open spec fn parse_number(s: Seq<u8>) -> Option<(int, Seq<u8>)> {
    let k = digit_count(s);
    if k == 0 {
        Option::None
    } else if dec_value(s.take(k)) > u64::MAX as int {
        Option::None
    } else {
        Option::Some((dec_value(s.take(k)), s.skip(k)))
    }
}

/// Reads an unsigned quantity in tenths: integer part, a dot, one digit.
pub open spec fn parse_tenths_mag(s: Seq<u8>, neg: bool) -> Option<(int, Seq<u8>)> {
    match parse_number(s) {
        Option::None => Option::None,
        Option::Some((ip, rest)) => {
            if rest.len() >= 2 && rest[0] == 46 && is_digit(rest[1]) {
                let v = ip * 10 + (rest[1] - 48);
                let t = if neg {
                    -v
                } else {
                    v
                };
                if i32::MIN as int <= t <= i32::MAX as int {
                    Option::Some((t, rest.skip(2)))
                } else {
                    Option::None
                }
            } else {
                Option::None
            }
        },
    }
}

/// Reads a signed quantity in tenths, as `tenths_bytes` writes it.
pub open spec fn parse_tenths(s: Seq<u8>) -> Option<(int, Seq<u8>)> {
    if s.len() > 0 && s.first() == 45 {
        parse_tenths_mag(s.drop_first(), true)
    } else {
        parse_tenths_mag(s, false)
    }
}

/// Reads one of the three sensor labels.
pub open spec fn parse_sensor(s: Seq<u8>) -> Option<(SensorKind, Seq<u8>)> {
    match expect(s, sensor_label(SensorKind::Dht11)) {
        Option::Some(rest) => Option::Some((SensorKind::Dht11, rest)),
        Option::None => match expect(s, sensor_label(SensorKind::Dht22)) {
            Option::Some(rest) => Option::Some((SensorKind::Dht22, rest)),
            Option::None => match expect(s, sensor_label(SensorKind::Dummy)) {
                Option::Some(rest) => Option::Some((SensorKind::Dummy, rest)),
                Option::None => Option::None,
            },
        },
    }
}

/// Reads one reading object, key order and spelling fixed.
pub open spec fn parse_reading(s: Seq<u8>) -> Option<(Reading, Seq<u8>)> {
    match expect(s, lit_sensor_key()) {
        Option::None => Option::None,
        Option::Some(s1) => match parse_sensor(s1) {
            Option::None => Option::None,
            Option::Some((kind, s2)) => match expect(s2, lit_timestamp_key()) {
                Option::None => Option::None,
                Option::Some(s3) => match parse_number(s3) {
                    Option::None => Option::None,
                    Option::Some((ts, s4)) => match expect(s4, lit_temperature_key()) {
                        Option::None => Option::None,
                        Option::Some(s5) => match parse_tenths(s5) {
                            Option::None => Option::None,
                            Option::Some((t, s6)) => match expect(s6, lit_humidity_key()) {
                                Option::None => Option::None,
                                Option::Some(s7) => match parse_tenths(s7) {
                                    Option::None => Option::None,
                                    Option::Some((h, s8)) => match expect(s8, seq![125u8]) {
                                        Option::None => Option::None,
                                        Option::Some(s9) => Option::Some(
                                            (
                                                Reading {
                                                    sensor: kind,
                                                    timestamp: ts as u64,
                                                    temperature_deci: t as i32,
                                                    humidity_deci: h as i32,
                                                },
                                                s9,
                                            ),
                                        ),
                                    },
                                },
                            },
                        },
                    },
                },
            },
        },
    }
}

/// Reads the remaining comma-led readings of an array.
pub open spec fn parse_more(s: Seq<u8>) -> Option<(Seq<Reading>, Seq<u8>)>
    decreases s.len(),
{
    if s.len() > 0 && s.first() == 44 {
        match parse_reading(s.drop_first()) {
            Option::None => Option::None,
            Option::Some((r, rest)) => {
                if rest.len() < s.len() {
                    match parse_more(rest) {
                        Option::None => Option::None,
                        Option::Some((rs, tail)) => Option::Some((seq![r] + rs, tail)),
                    }
                } else {
                    // a reading always consumes at least one byte, so this
                    // branch cannot be reached; it bounds the recursion
                    Option::None
                }
            },
        }
    } else {
        Option::Some((Seq::empty(), s))
    }
}

/// Reads a whole array of readings.
pub open spec fn parse_array(s: Seq<u8>) -> Option<(Seq<Reading>, Seq<u8>)> {
    match expect(s, seq![91u8]) {
        Option::None => Option::None,
        Option::Some(s1) => {
            if s1.len() > 0 && s1.first() == 93 {
                Option::Some((Seq::empty(), s1.drop_first()))
            } else {
                match parse_reading(s1) {
                    Option::None => Option::None,
                    Option::Some((r, s2)) => match parse_more(s2) {
                        Option::None => Option::None,
                        Option::Some((rs, s3)) => match expect(s3, seq![93u8]) {
                            Option::None => Option::None,
                            Option::Some(s4) => Option::Some((seq![r] + rs, s4)),
                        },
                    },
                }
            }
        },
    }
}

/// Reads a snapshot: a whole array with nothing after it.
pub open spec fn parse_snapshot_spec(s: Seq<u8>) -> Option<Seq<Reading>> {
    match parse_array(s) {
        Option::None => Option::None,
        Option::Some((rs, rest)) => if rest.len() == 0 {
            Option::Some(rs)
        } else {
            Option::None
        },
    }
}

// ---------------------------------------------------------------------------
// The round trip: what the serializer writes, the parser reads back.
// ---------------------------------------------------------------------------

proof fn lemma_expect_prefix(lit: Seq<u8>, rest: Seq<u8>)
    ensures
        expect(lit + rest, lit) == Option::Some(rest),
{
    assert((lit + rest).take(lit.len() as int) =~= lit);
    assert((lit + rest).skip(lit.len() as int) =~= rest);
}

proof fn lemma_dec_digits_are_digits(n: nat)
    ensures
        dec_digits(n).len() >= 1,
        forall|i: int| 0 <= i < dec_digits(n).len() ==> is_digit(#[trigger] dec_digits(n)[i]),
    decreases n,
{
    if n >= 10 {
        lemma_dec_digits_are_digits(n / 10);
    }
}

/// A run of digits followed by a non-digit (or the end) is counted exactly.
proof fn lemma_digit_count_of_run(ds: Seq<u8>, rest: Seq<u8>)
    requires
        forall|i: int| 0 <= i < ds.len() ==> is_digit(#[trigger] ds[i]),
        rest.len() == 0 || !is_digit(rest.first()),
    ensures
        digit_count(ds + rest) == ds.len(),
    decreases ds.len(),
{
    if ds.len() == 0 {
        assert(ds + rest =~= rest);
    } else {
        assert((ds + rest).first() == ds.first());
        assert((ds + rest).drop_first() =~= ds.drop_first() + rest);
        lemma_digit_count_of_run(ds.drop_first(), rest);
    }
}

proof fn lemma_dec_value_of_digits(n: nat)
    ensures
        dec_value(dec_digits(n)) == n,
    decreases n,
{
    if n < 10 {
        assert(dec_digits(n).drop_last() =~= Seq::<u8>::empty());
        assert(dec_value(Seq::<u8>::empty()) == 0);
    } else {
        lemma_dec_value_of_digits(n / 10);
        assert(dec_digits(n).drop_last() =~= dec_digits(n / 10));
    }
}

/// Parsing a written number gives the number back and stops at the boundary.
proof fn lemma_parse_number_inverse(n: u64, rest: Seq<u8>)
    requires
        rest.len() == 0 || !is_digit(rest.first()),
    ensures
        parse_number(dec_digits(n as nat) + rest) == Option::Some((n as int, rest)),
{
    let ds = dec_digits(n as nat);
    lemma_dec_digits_are_digits(n as nat);
    lemma_digit_count_of_run(ds, rest);
    lemma_dec_value_of_digits(n as nat);
    assert((ds + rest).take(ds.len() as int) =~= ds);
    assert((ds + rest).skip(ds.len() as int) =~= rest);
}

/// Parsing a written tenths quantity gives the value back.
proof fn lemma_parse_tenths_inverse(t: i32, rest: Seq<u8>)
    ensures
        parse_tenths(tenths_bytes(t as int) + rest) == Option::Some((t as int, rest)),
{
    let s = tenths_bytes(t as int) + rest;
    let m: int = if t < 0 {
        -(t as int)
    } else {
        t as int
    };
    let mag: u64 = (m / 10) as u64;
    let frac: u8 = (48 + m % 10) as u8;
    let ds = dec_digits(mag as nat);
    let tail = seq![46u8, frac] + rest;
    lemma_dec_digits_are_digits(mag as nat);
    lemma_parse_number_inverse(mag, tail);
    if t < 0 {
        assert(s.first() == 45);
        assert(s.drop_first() =~= ds + tail);
        assert(tail.skip(2) =~= rest);
    } else {
        assert(s.first() == ds.first());
        assert(is_digit(ds.first()));
        assert(s.first() != 45);
        assert(s =~= ds + tail);
        assert(tail.skip(2) =~= rest);
    }
}

/// Parsing a written sensor label gives the sensor back.
proof fn lemma_parse_sensor_inverse(k: SensorKind, rest: Seq<u8>)
    ensures
        parse_sensor(sensor_label(k) + rest) == Option::Some((k, rest)),
{
    let s = sensor_label(k) + rest;
    lemma_expect_prefix(sensor_label(k), rest);
    match k {
        SensorKind::Dht11 => {
        },
        SensorKind::Dht22 => {
            assert(s[3] == 50) by {
                assert(sensor_label(SensorKind::Dht22)[3] == 50);
            }
            assert(expect(s, sensor_label(SensorKind::Dht11)) is None);
        },
        SensorKind::Dummy => {
            assert(s[1] == 117) by {
                assert(sensor_label(SensorKind::Dummy)[1] == 117);
            }
            assert(expect(s, sensor_label(SensorKind::Dht11)) is None);
            assert(expect(s, sensor_label(SensorKind::Dht22)) is None);
        },
    }
}

/// Parsing a written reading object gives the reading back.
proof fn lemma_seq_assoc(a: Seq<u8>, b: Seq<u8>, c: Seq<u8>)
    ensures
        (a + b) + c == a + (b + c),
{
    assert((a + b) + c =~= a + (b + c));
}

#[verifier::rlimit(100)]
#[verifier::spinoff_prover]
proof fn lemma_parse_reading_inverse(r: Reading, rest: Seq<u8>)
    ensures
        parse_reading(json_reading(r) + rest) == Option::Some((r, rest)),
{
    let s = json_reading(r) + rest;
    let t8 = seq![125u8] + rest;
    let t7 = tenths_bytes(r.humidity_deci as int) + t8;
    let t6 = lit_humidity_key() + t7;
    let t5 = tenths_bytes(r.temperature_deci as int) + t6;
    let t4 = lit_temperature_key() + t5;
    let t3 = dec_digits(r.timestamp as nat) + t4;
    let t2 = lit_timestamp_key() + t3;
    let t1 = sensor_label(r.sensor) + t2;
    let p1 = lit_sensor_key();
    let p2 = p1 + sensor_label(r.sensor);
    let p3 = p2 + lit_timestamp_key();
    let p4 = p3 + dec_digits(r.timestamp as nat);
    let p5 = p4 + lit_temperature_key();
    let p6 = p5 + tenths_bytes(r.temperature_deci as int);
    let p7 = p6 + lit_humidity_key();
    let p8 = p7 + tenths_bytes(r.humidity_deci as int);
    assert(json_reading(r) == p8 + seq![125u8]);
    lemma_seq_assoc(p8, seq![125u8], rest);
    lemma_seq_assoc(p7, tenths_bytes(r.humidity_deci as int), t8);
    lemma_seq_assoc(p6, lit_humidity_key(), t7);
    lemma_seq_assoc(p5, tenths_bytes(r.temperature_deci as int), t6);
    lemma_seq_assoc(p4, lit_temperature_key(), t5);
    lemma_seq_assoc(p3, dec_digits(r.timestamp as nat), t4);
    lemma_seq_assoc(p2, lit_timestamp_key(), t3);
    lemma_seq_assoc(p1, sensor_label(r.sensor), t2);
    assert(s == p1 + t1);
    lemma_expect_prefix(lit_sensor_key(), t1);
    lemma_parse_sensor_inverse(r.sensor, t2);
    lemma_expect_prefix(lit_timestamp_key(), t3);
    assert(t4.first() == 44);
    lemma_parse_number_inverse(r.timestamp, t4);
    lemma_expect_prefix(lit_temperature_key(), t5);
    lemma_parse_tenths_inverse(r.temperature_deci, t6);
    lemma_expect_prefix(lit_humidity_key(), t7);
    lemma_parse_tenths_inverse(r.humidity_deci, t8);
    lemma_expect_prefix(seq![125u8], rest);
    assert(parse_reading(s) == Option::Some((r, rest)));
}

/// Parsing the written tail of an array gives the same readings back.
#[verifier::rlimit(100)]
#[verifier::spinoff_prover]
proof fn lemma_parse_more_inverse(rs: Seq<Reading>, rest: Seq<u8>)
    requires
        rest.len() == 0 || rest.first() != 44,
    ensures
        parse_more(json_more_readings(rs) + rest) == Option::Some((rs, rest)),
    decreases rs.len(),
{
    let s = json_more_readings(rs) + rest;
    if rs.len() == 0 {
        assert(s =~= rest);
        assert(rs =~= Seq::<Reading>::empty());
    } else {
        let tail = json_more_readings(rs.drop_first()) + rest;
        assert(s.first() == 44);
        assert(s.drop_first() =~= json_reading(rs.first()) + tail);
        lemma_parse_reading_inverse(rs.first(), tail);
        assert(tail.len() < s.len());
        lemma_parse_more_inverse(rs.drop_first(), rest);
        assert(seq![rs.first()] + rs.drop_first() =~= rs);
    }
}

/// Parsing a written array gives the same readings back, with the bytes
/// after the closing bracket untouched.
#[verifier::rlimit(100)]
#[verifier::spinoff_prover]
proof fn lemma_parse_array_inverse(rs: Seq<Reading>, rest: Seq<u8>)
    ensures
        parse_array(json_array(rs) + rest) == Option::Some((rs, rest)),
{
    let s = json_array(rs) + rest;
    if rs.len() == 0 {
        assert(s =~= seq![91u8] + (seq![93u8] + rest));
        lemma_expect_prefix(seq![91u8], seq![93u8] + rest);
        assert((seq![93u8] + rest).drop_first() =~= rest);
        assert(rs =~= Seq::<Reading>::empty());
    } else {
        let close = seq![93u8] + rest;
        let more = json_more_readings(rs.drop_first()) + close;
        let body = json_reading(rs.first()) + more;
        let p1 = seq![91u8];
        let p2 = p1 + json_reading(rs.first());
        let p3 = p2 + json_more_readings(rs.drop_first());
        assert(json_array(rs) == p3 + seq![93u8]);
        lemma_seq_assoc(p3, seq![93u8], rest);
        lemma_seq_assoc(p2, json_more_readings(rs.drop_first()), close);
        lemma_seq_assoc(p1, json_reading(rs.first()), more);
        assert(s == p1 + body);
        lemma_expect_prefix(seq![91u8], body);
        assert(body.first() == 123) by {
            assert(json_reading(rs.first())[0] == 123);
        }
        lemma_parse_reading_inverse(rs.first(), more);
        lemma_parse_more_inverse(rs.drop_first(), close);
        lemma_expect_prefix(seq![93u8], rest);
        assert(seq![rs.first()] + rs.drop_first() =~= rs);
    }
}

/// Round-trip law: rendering a snapshot and parsing the bytes back yields
/// exactly the same readings, in the same order.
pub proof fn lemma_json_round_trip(rs: Seq<Reading>)
    ensures
        parse_snapshot_spec(json_array(rs)) == Option::Some(rs),
{
    lemma_parse_array_inverse(rs, Seq::empty());
    assert(json_array(rs) + Seq::<u8>::empty() =~= json_array(rs));
}



// ---------------------------------------------------------------------------
// The executable parser, proved to agree with the parsing specification.
// ---------------------------------------------------------------------------

proof fn lemma_dec_value_nonneg(ds: Seq<u8>)
    requires
        forall|i: int| 0 <= i < ds.len() ==> is_digit(#[trigger] ds[i]),
    ensures
        dec_value(ds) >= 0,
    decreases ds.len(),
{
    if ds.len() > 0 {
        assert(forall|i: int|
            0 <= i < ds.drop_last().len() ==> is_digit(#[trigger] ds.drop_last()[i]));
        lemma_dec_value_nonneg(ds.drop_last());
    }
}

/// A longer prefix of a digit run never denotes a smaller number.
proof fn lemma_dec_value_prefix_le(ds: Seq<u8>, a: int, b: int)
    requires
        forall|i: int| 0 <= i < ds.len() ==> is_digit(#[trigger] ds[i]),
        0 <= a <= b <= ds.len(),
    ensures
        dec_value(ds.take(a)) <= dec_value(ds.take(b)),
    decreases b - a,
{
    if a < b {
        lemma_dec_value_prefix_le(ds, a, b - 1);
        assert(ds.take(b).drop_last() =~= ds.take(b - 1));
        assert(forall|i: int|
            0 <= i < ds.take(b - 1).len() ==> is_digit(#[trigger] ds.take(b - 1)[i]));
        lemma_dec_value_nonneg(ds.take(b - 1));
        assert(is_digit(ds.take(b).last()));
    }
}

fn byte_is_digit(b: u8) -> (r: bool)
    ensures
        r == is_digit(b),
{
    48 <= b && b <= 57
}

fn label_vec(k: SensorKind) -> (v: Vec<u8>)
    ensures
        v@ == sensor_label(k),
{
    let mut v: Vec<u8> = Vec::new();
    push_label(&mut v, k);
    proof {
        assert(v@ =~= sensor_label(k));
    }
    v
}

fn lit_vec_sensor_key() -> (v: Vec<u8>)
    ensures
        v@ == lit_sensor_key(),
{
    let mut v: Vec<u8> = Vec::new();
    push_lit_sensor_key(&mut v);
    proof {
        assert(v@ =~= lit_sensor_key());
    }
    v
}

fn lit_vec_timestamp_key() -> (v: Vec<u8>)
    ensures
        v@ == lit_timestamp_key(),
{
    let mut v: Vec<u8> = Vec::new();
    push_lit_timestamp_key(&mut v);
    proof {
        assert(v@ =~= lit_timestamp_key());
    }
    v
}

fn lit_vec_temperature_key() -> (v: Vec<u8>)
    ensures
        v@ == lit_temperature_key(),
{
    let mut v: Vec<u8> = Vec::new();
    push_lit_temperature_key(&mut v);
    proof {
        assert(v@ =~= lit_temperature_key());
    }
    v
}

fn lit_vec_humidity_key() -> (v: Vec<u8>)
    ensures
        v@ == lit_humidity_key(),
{
    let mut v: Vec<u8> = Vec::new();
    push_lit_humidity_key(&mut v);
    proof {
        assert(v@ =~= lit_humidity_key());
    }
    v
}

/// Matches the literal at `pos`, yielding the position after it.
fn expect_at(s: &Vec<u8>, pos: usize, lit: &Vec<u8>) -> (r: Option<usize>)
    requires
        pos <= s@.len(),
    ensures
        match r {
            Option::Some(p2) => {
                &&& expect(s@.skip(pos as int), lit@) == Option::Some(s@.skip(p2 as int))
                &&& p2 == pos + lit@.len()
                &&& p2 <= s@.len()
            },
            Option::None => expect(s@.skip(pos as int), lit@) is None,
        },
{
    if s.len() - pos < lit.len() {
        return Option::None;
    }
    let n: usize = s.len();
    let m: usize = lit.len();
    let mut i: usize = 0;
    while i < m
        invariant
            0 <= i <= m,
            m == lit@.len(),
            n == s@.len(),
            pos + m <= n,
            forall|j: int| 0 <= j < i ==> s@[pos + j] == lit@[j],
        decreases m - i,
    {
        if s[pos + i] != lit[i] {
            proof {
                assert(s@.skip(pos as int).take(lit@.len() as int)[i as int] == s@[pos + i as int]);
                assert(s@.skip(pos as int).take(lit@.len() as int) != lit@);
            }
            return Option::None;
        }
        i += 1;
    }
    proof {
        assert(s@.skip(pos as int).take(lit@.len() as int) =~= lit@);
        assert(s@.skip(pos as int).skip(lit@.len() as int) =~= s@.skip(
            pos as int + lit@.len() as int,
        ));
    }
    Option::Some(pos + lit.len())
}

/// Reads a digit run at `pos` as a number, as `parse_number` describes.
fn parse_number_at(s: &Vec<u8>, pos: usize) -> (r: Option<(u64, usize)>)
    requires
        pos <= s@.len(),
    ensures
        match r {
            Option::Some(v_p2) => {
                &&& parse_number(s@.skip(pos as int)) == Option::Some(
                    (v_p2.0 as int, s@.skip(v_p2.1 as int)),
                )
                &&& pos < v_p2.1 <= s@.len()
            },
            Option::None => parse_number(s@.skip(pos as int)) is None,
        },
{
    let ghost sp = s@.skip(pos as int);
    let mut end: usize = pos;
    while end < s.len() && byte_is_digit(s[end])
        invariant
            pos <= end <= s@.len(),
            sp == s@.skip(pos as int),
            digit_count(sp) == (end - pos) + digit_count(s@.skip(end as int)),
            forall|j: int| pos <= j < end ==> is_digit(#[trigger] s@[j]),
        decreases s@.len() - end,
    {
        proof {
            assert(s@.skip(end as int).first() == s@[end as int]);
            assert(s@.skip(end as int).drop_first() =~= s@.skip(end as int + 1));
        }
        end += 1;
    }
    proof {
        assert(digit_count(s@.skip(end as int)) == 0);
        assert(digit_count(sp) == end - pos);
        assert(forall|j: int| 0 <= j < end - pos ==> sp[j] == s@[pos + j]);
    }
    if end == pos {
        return Option::None;
    }
    let ghost k = end - pos;
    let mut acc: u64 = 0;
    let mut i: usize = pos;
    while i < end
        invariant
            pos <= i <= end <= s@.len(),
            sp == s@.skip(pos as int),
            k == end - pos,
            digit_count(sp) == end - pos,
            forall|j: int| pos <= j < end ==> is_digit(#[trigger] s@[j]),
            forall|j: int| 0 <= j < end - pos ==> sp[j] == s@[pos + j],
            acc as int == dec_value(sp.take(i - pos)),
        decreases end - i,
    {
        let d: u8 = s[i] - 48;
        proof {
            assert(sp.take(i - pos + 1).drop_last() =~= sp.take(i - pos));
            assert(sp.take(i - pos + 1).last() == s@[i as int]);
        }
        if acc > (u64::MAX - d as u64) / 10 {
            proof {
                assert(dec_value(sp.take(i - pos + 1)) > u64::MAX as int);
                assert(forall|j: int|
                    0 <= j < sp.take(k).len() ==> is_digit(#[trigger] sp.take(k)[j]));
                lemma_dec_value_prefix_le(sp.take(k), i - pos + 1, k);
                assert(sp.take(k).take(i - pos + 1) =~= sp.take(i - pos + 1));
                assert(sp.take(k).take(k) =~= sp.take(k));
                assert(dec_value(sp.take(k)) > u64::MAX as int);
            }
            return Option::None;
        }
        acc = acc * 10 + d as u64;
        i += 1;
    }
    proof {
        assert(sp.skip(k) =~= s@.skip(end as int));
    }
    Option::Some((acc, end))
}

/// Reads a signed tenths quantity at `pos`, as `parse_tenths` describes.
fn parse_tenths_at(s: &Vec<u8>, pos: usize) -> (r: Option<(i32, usize)>)
    requires
        pos <= s@.len(),
    ensures
        match r {
            Option::Some(t_p2) => {
                &&& parse_tenths(s@.skip(pos as int)) == Option::Some(
                    (t_p2.0 as int, s@.skip(t_p2.1 as int)),
                )
                &&& pos < t_p2.1 <= s@.len()
            },
            Option::None => parse_tenths(s@.skip(pos as int)) is None,
        },
{
    let neg: bool = pos < s.len() && s[pos] == 45;
    let mpos: usize = if neg {
        pos + 1
    } else {
        pos
    };
    proof {
        if neg {
            assert(s@.skip(pos as int).first() == 45);
            assert(s@.skip(pos as int).drop_first() =~= s@.skip(mpos as int));
        } else {
            if pos < s@.len() {
                assert(s@.skip(pos as int).first() == s@[pos as int]);
            }
        }
    }
    match parse_number_at(s, mpos) {
        Option::None => Option::None,
        Option::Some((ip, p1)) => {
            let ghost rest = s@.skip(p1 as int);
            if s.len() - p1 >= 2 && s[p1] == 46 && byte_is_digit(s[p1 + 1]) {
                let d: u8 = s[p1 + 1] - 48;
                proof {
                    assert(rest[0] == s@[p1 as int]);
                    assert(rest[1] == s@[p1 as int + 1]);
                    assert(rest.skip(2) =~= s@.skip(p1 as int + 2));
                }
                if neg {
                    if ip > (2147483648u64 - d as u64) / 10 {
                        return Option::None;
                    }
                    let m: u64 = ip * 10 + d as u64;
                    let t: i32 = (-(m as i64)) as i32;
                    Option::Some((t, p1 + 2))
                } else {
                    if ip > (2147483647u64 - d as u64) / 10 {
                        return Option::None;
                    }
                    let m: u64 = ip * 10 + d as u64;
                    Option::Some((m as i32, p1 + 2))
                }
            } else {
                proof {
                    if rest.len() >= 2 {
                        assert(rest[0] == s@[p1 as int]);
                        assert(rest[1] == s@[p1 as int + 1]);
                    }
                }
                Option::None
            }
        },
    }
}

/// Reads one of the three sensor labels at `pos`.
fn parse_sensor_at(s: &Vec<u8>, pos: usize) -> (r: Option<(SensorKind, usize)>)
    requires
        pos <= s@.len(),
    ensures
        match r {
            Option::Some(k_p2) => {
                &&& parse_sensor(s@.skip(pos as int)) == Option::Some(
                    (k_p2.0, s@.skip(k_p2.1 as int)),
                )
                &&& pos <= k_p2.1 <= s@.len()
            },
            Option::None => parse_sensor(s@.skip(pos as int)) is None,
        },
{
    let l11 = label_vec(SensorKind::Dht11);
    match expect_at(s, pos, &l11) {
        Option::Some(p2) => {
            return Option::Some((SensorKind::Dht11, p2));
        },
        Option::None => {
        },
    }
    let l22 = label_vec(SensorKind::Dht22);
    match expect_at(s, pos, &l22) {
        Option::Some(p2) => {
            return Option::Some((SensorKind::Dht22, p2));
        },
        Option::None => {
        },
    }
    let ld = label_vec(SensorKind::Dummy);
    match expect_at(s, pos, &ld) {
        Option::Some(p2) => {
            return Option::Some((SensorKind::Dummy, p2));
        },
        Option::None => {
        },
    }
    Option::None
}

/// Reads one reading object at `pos`, as `parse_reading` describes.
#[verifier::rlimit(100)]
#[verifier::spinoff_prover]
fn parse_reading_at(s: &Vec<u8>, pos: usize) -> (r: Option<(Reading, usize)>)
    requires
        pos <= s@.len(),
    ensures
        match r {
            Option::Some(r_p2) => {
                &&& parse_reading(s@.skip(pos as int)) == Option::Some(
                    (r_p2.0, s@.skip(r_p2.1 as int)),
                )
                &&& pos < r_p2.1 <= s@.len()
            },
            Option::None => parse_reading(s@.skip(pos as int)) is None,
        },
{
    let lk = lit_vec_sensor_key();
    let p1 = match expect_at(s, pos, &lk) {
        Option::None => {
            return Option::None;
        },
        Option::Some(p) => p,
    };
    let (kind, p2) = match parse_sensor_at(s, p1) {
        Option::None => {
            return Option::None;
        },
        Option::Some(kp) => kp,
    };
    let lt = lit_vec_timestamp_key();
    let p3 = match expect_at(s, p2, &lt) {
        Option::None => {
            return Option::None;
        },
        Option::Some(p) => p,
    };
    let (ts, p4) = match parse_number_at(s, p3) {
        Option::None => {
            return Option::None;
        },
        Option::Some(vp) => vp,
    };
    let le = lit_vec_temperature_key();
    let p5 = match expect_at(s, p4, &le) {
        Option::None => {
            return Option::None;
        },
        Option::Some(p) => p,
    };
    let (t, p6) = match parse_tenths_at(s, p5) {
        Option::None => {
            return Option::None;
        },
        Option::Some(tp) => tp,
    };
    let lh = lit_vec_humidity_key();
    let p7 = match expect_at(s, p6, &lh) {
        Option::None => {
            return Option::None;
        },
        Option::Some(p) => p,
    };
    let (h, p8) = match parse_tenths_at(s, p7) {
        Option::None => {
            return Option::None;
        },
        Option::Some(hp) => hp,
    };
    proof {
        let s8 = s@.skip(p8 as int);
        if p8 < s@.len() {
            assert(s8.take(1) =~= seq![s@[p8 as int]]);
            assert(s8.skip(1) =~= s@.skip(p8 as int + 1));
        }
    }
    if p8 < s.len() && s[p8] == 125 {
        proof {
            assert(s@.skip(p8 as int).take(1) =~= seq![125u8]);
        }
        Option::Some((Reading::new(kind, ts, t, h), p8 + 1))
    } else {
        proof {
            let s8 = s@.skip(p8 as int);
            if p8 < s@.len() {
                assert(s8.take(1)[0] == s@[p8 as int]);
                assert(seq![125u8][0] == 125);
                assert(s8.take(1) != seq![125u8]);
            }
        }
        Option::None
    }
}

/// Reads the comma-led readings after the first one, appending them to
/// `acc`, as `parse_more` describes.
fn parse_more_at(s: &Vec<u8>, pos: usize, acc: &mut Vec<Reading>) -> (r: Option<usize>)
    requires
        pos <= s@.len(),
    ensures
        match r {
            Option::Some(p2) => {
                &&& parse_more(s@.skip(pos as int)) matches Option::Some(rs_rest)
                    && final(acc)@ == old(acc)@ + rs_rest.0 && rs_rest.1 == s@.skip(p2 as int)
                &&& pos <= p2 <= s@.len()
            },
            Option::None => parse_more(s@.skip(pos as int)) is None,
        },
    decreases s@.len() - pos,
{
    if pos < s.len() && s[pos] == 44 {
        proof {
            assert(s@.skip(pos as int).first() == 44);
            assert(s@.skip(pos as int).drop_first() =~= s@.skip(pos as int + 1));
        }
        match parse_reading_at(s, pos + 1) {
            Option::None => Option::None,
            Option::Some((r0, p1)) => {
                acc.push(r0);
                proof {
                    assert(s@.skip(p1 as int).len() < s@.skip(pos as int).len());
                }
                match parse_more_at(s, p1, acc) {
                    Option::None => Option::None,
                    Option::Some(p2) => {
                        proof {
                            let rs_rest = parse_more(s@.skip(p1 as int))->Some_0;
                            assert(final(acc)@ =~= old(acc)@ + (seq![r0] + rs_rest.0));
                        }
                        Option::Some(p2)
                    },
                }
            },
        }
    } else {
        proof {
            if pos < s@.len() {
                assert(s@.skip(pos as int).first() == s@[pos as int]);
            }
            assert(final(acc)@ =~= old(acc)@ + Seq::<Reading>::empty());
        }
        Option::Some(pos)
    }
}

/// Reads a whole snapshot back from its rendered bytes; yields the readings
/// exactly when the bytes fit the format, as `parse_snapshot_spec` says.
#[verifier::rlimit(100)]
#[verifier::spinoff_prover]
pub fn parse_snapshot(bytes: &Vec<u8>) -> (r: Option<Vec<Reading>>)
    ensures
        match r {
            Option::Some(v) => parse_snapshot_spec(bytes@) == Option::Some(v@),
            Option::None => parse_snapshot_spec(bytes@) is None,
        },
{
    proof {
        if bytes@.len() > 0 {
            assert(bytes@.skip(0) =~= bytes@);
        }
    }
    if bytes.len() == 0 || bytes[0] != 91 {
        proof {
            if bytes@.len() > 0 {
                assert(bytes@.take(1) =~= seq![bytes@[0]]);
                assert(bytes@.take(1) != seq![91u8]);
            }
        }
        return Option::None;
    }
    proof {
        assert(bytes@.take(1) =~= seq![91u8]);
    }
    let ghost s1 = bytes@.skip(1);
    if bytes.len() >= 2 && bytes[1] == 93 {
        proof {
            assert(s1.first() == 93);
            assert(s1.drop_first() =~= bytes@.skip(2));
        }
        if bytes.len() == 2 {
            let empty_out: Vec<Reading> = Vec::new();
            proof {
                assert(empty_out@ =~= Seq::<Reading>::empty());
            }
            return Option::Some(empty_out);
        } else {
            return Option::None;
        }
    }
    proof {
        if s1.len() > 0 {
            assert(s1.first() == bytes@[1]);
        }
    }
    match parse_reading_at(bytes, 1) {
        Option::None => Option::None,
        Option::Some((r0, p1)) => {
            let mut acc: Vec<Reading> = Vec::new();
            acc.push(r0);
            match parse_more_at(bytes, p1, &mut acc) {
                Option::None => Option::None,
                Option::Some(p2) => {
                    proof {
                        let s3 = bytes@.skip(p2 as int);
                        if p2 < bytes@.len() {
                            assert(s3.take(1) =~= seq![bytes@[p2 as int]]);
                            assert(s3.skip(1) =~= bytes@.skip(p2 as int + 1));
                        }
                        let rs_rest = parse_more(bytes@.skip(p1 as int))->Some_0;
                        assert(acc@ =~= seq![r0] + rs_rest.0);
                    }
                    if p2 < bytes.len() && bytes[p2] == 93 {
                        proof {
                            assert(bytes@.skip(p2 as int).take(1) =~= seq![93u8]);
                        }
                        if p2 + 1 == bytes.len() {
                            Option::Some(acc)
                        } else {
                            Option::None
                        }
                    } else {
                        proof {
                            let s3 = bytes@.skip(p2 as int);
                            if p2 < bytes@.len() {
                                assert(s3.take(1)[0] == bytes@[p2 as int]);
                                assert(seq![93u8][0] == 93);
                                assert(s3.take(1) != seq![93u8]);
                            }
                        }
                        Option::None
                    }
                },
            }
        },
    }
}

} // verus!
