use vstd::prelude::*;
use vstd::utf8::{decode_utf8, encode_utf8, encode_utf8_decode_utf8};

use crate::store::{ts_bytes, StoredReading};
use crate::text::{bytes_lt, decimal, digit, digits_value, lemma_decimal_round_trip, lemma_lex_lt_irreflexive, lemma_lex_lt_transitive, lex_lt, push_all, push_decimal};

verus! {

/// The header line of the CSV export, without its line break.
pub const CSV_HEADER: &'static str = "timestamp,co2_ppm,temperature_c,humidity_percent,pressure_hpa,battery_percent";

/// `|c|` as a natural number.
pub open spec fn magnitude(c: int) -> nat {
    if c < 0 { (-c) as nat } else { c as nat }
}

/// A value given in hundredths, written with two decimals (`-0.05`, `20.00`).
pub open spec fn fixed2(c: int) -> Seq<u8> {
    let m = magnitude(c);
    let sign: Seq<u8> = if c < 0 { seq![45u8] } else { Seq::empty() };
    sign + decimal(m / 100) + seq![46u8, digit(((m % 100) / 10) as int), digit((m % 10) as int)]
}

/// A value given in tenths, written with one decimal (`1018.4`).
pub open spec fn fixed1(p: nat) -> Seq<u8> {
    decimal(p / 10) + seq![46u8, digit((p % 10) as int)]
}

/// The CSV line of one row, line break included: timestamp, CO2 in ppm,
/// temperature in °C to two decimals, humidity, pressure in hPa to one
/// decimal, battery.
pub open spec fn csv_line(r: StoredReading) -> Seq<u8> {
    ts_bytes(r) + seq![44u8] + after_timestamp(r)
}

/// The part of a row's line after the timestamp and its comma.
pub open spec fn after_timestamp(r: StoredReading) -> Seq<u8> {
    decimal(r.co2_ppm as nat) + seq![44u8] + after_co2(r)
}

/// The part of a row's line after the CO2 value and its comma.
pub open spec fn after_co2(r: StoredReading) -> Seq<u8> {
    fixed2(r.temperature_centi_c as int) + seq![44u8] + after_temperature(r)
}

/// The part of a row's line after the temperature and its comma.
pub open spec fn after_temperature(r: StoredReading) -> Seq<u8> {
    decimal(r.humidity_percent as nat) + seq![44u8] + after_humidity(r)
}

/// The part of a row's line after the humidity and its comma.
pub open spec fn after_humidity(r: StoredReading) -> Seq<u8> {
    fixed1(r.pressure_deci_hpa as nat) + seq![44u8] + after_pressure(r)
}

/// The battery value and the line break.
pub open spec fn after_pressure(r: StoredReading) -> Seq<u8> {
    decimal(r.battery_percent as nat) + seq![10u8]
}

/// The lines of `rows`, in order, one after another.
pub open spec fn csv_lines(rows: Seq<StoredReading>) -> Seq<u8>
    decreases rows.len(),
{
    if rows.len() == 0 { Seq::empty() } else { csv_lines(rows.drop_last()) + csv_line(rows.last()) }
}

fn push_fixed2(out: &mut Vec<u8>, c: i32)
    ensures
        final(out)@ == old(out)@ + fixed2(c as int),
{
    let ghost start = out@;
    let m: u64 = if c < 0 {
        out.push(45u8);
        (-(c as i64)) as u64
    } else {
        c as u64
    };
    let ghost with_sign = out@;
    push_decimal(out, m / 100);
    out.push(46u8);
    out.push(((m % 100) / 10) as u8 + 48);
    out.push((m % 10) as u8 + 48);
    proof {
        let sign: Seq<u8> = if c < 0 { seq![45u8] } else { Seq::empty() };
        assert(with_sign =~= start + sign);
        assert(out@ =~= start + fixed2(c as int));
    }
}

fn push_fixed1(out: &mut Vec<u8>, p: u32)
    ensures
        final(out)@ == old(out)@ + fixed1(p as nat),
{
    let ghost start = out@;
    push_decimal(out, (p / 10) as u64);
    out.push(46u8);
    out.push((p % 10) as u8 + 48);
    assert(out@ =~= start + fixed1(p as nat));
}

/// Appends the CSV line of `row` to `out`.
pub fn push_csv_line(out: &mut Vec<u8>, row: &StoredReading)
    ensures
        final(out)@ == old(out)@ + csv_line(*row),
{
    let ghost start = out@;
    push_all(out, row.timestamp.as_str().as_bytes());
    let ghost a = out@;
    out.push(44u8);
    push_decimal(out, row.co2_ppm as u64);
    let ghost b = out@;
    out.push(44u8);
    push_fixed2(out, row.temperature_centi_c);
    let ghost c = out@;
    out.push(44u8);
    push_decimal(out, row.humidity_percent as u64);
    let ghost d = out@;
    out.push(44u8);
    push_fixed1(out, row.pressure_deci_hpa);
    let ghost e = out@;
    out.push(44u8);
    push_decimal(out, row.battery_percent as u64);
    out.push(10u8);
    assert(out@ =~= start + csv_line(*row));
}

/// Reads back a text written with two decimals, in hundredths.
pub open spec fn read_fixed2(s: Seq<u8>) -> int {
    if s.len() > 0 && s[0] == 45 {
        -read_unsigned_fixed2(s.drop_first())
    } else {
        read_unsigned_fixed2(s)
    }
}

/// Reads back an unsigned text with two decimals, in hundredths.
pub open spec fn read_unsigned_fixed2(s: Seq<u8>) -> int {
    digits_value(s.take(s.len() - 3)) * 100 + (s[s.len() - 2] - 48) * 10 + (s[s.len() - 1] - 48)
}

/// Reads back a text written with one decimal, in tenths.
pub open spec fn read_fixed1(s: Seq<u8>) -> int {
    digits_value(s.take(s.len() - 2)) * 10 + (s[s.len() - 1] - 48)
}

/// Every number an export line holds reads back as the value stored: CO2,
/// humidity and battery as whole numbers, temperature in hundredths of a
/// degree from its two decimals, pressure in tenths of a hectopascal from
/// its one decimal. Nothing is lost to rounding.
pub proof fn lemma_export_fields_read_back(r: StoredReading)
    ensures
        digits_value(decimal(r.co2_ppm as nat)) == r.co2_ppm,
        read_fixed2(fixed2(r.temperature_centi_c as int)) == r.temperature_centi_c,
        digits_value(decimal(r.humidity_percent as nat)) == r.humidity_percent,
        read_fixed1(fixed1(r.pressure_deci_hpa as nat)) == r.pressure_deci_hpa,
        digits_value(decimal(r.battery_percent as nat)) == r.battery_percent,
{
    lemma_decimal_round_trip(r.co2_ppm as nat);
    lemma_decimal_round_trip(r.humidity_percent as nat);
    lemma_decimal_round_trip(r.battery_percent as nat);
    let c = r.temperature_centi_c as int;
    let m = magnitude(c);
    lemma_decimal_round_trip(m / 100);
    let body = decimal(m / 100) + seq![46u8, digit(((m % 100) / 10) as int), digit((m % 10) as int)];
    assert(body.take(body.len() - 3) =~= decimal(m / 100));
    assert(body[0] == decimal(m / 100)[0]);
    if c < 0 {
        assert(fixed2(c).drop_first() =~= body);
    } else {
        assert(fixed2(c) =~= body);
    }
    let p = r.pressure_deci_hpa as nat;
    lemma_decimal_round_trip(p / 10);
    let f1 = fixed1(p);
    assert(f1.take(f1.len() - 2) =~= decimal(p / 10));
}

/// `s` holds neither a comma nor a line break.
pub open spec fn free_of_separators(s: Seq<u8>) -> bool {
    forall|i: int| 0 <= i < s.len() ==> #[trigger] s[i] != 44u8 && s[i] != 10u8
}

/// A field followed by a comma comes apart again where neither field part
/// holds a separator.
proof fn lemma_split_at_comma(x: Seq<u8>, y: Seq<u8>, x2: Seq<u8>, y2: Seq<u8>)
    requires
        free_of_separators(x),
        free_of_separators(x2),
        x + seq![44u8] + y == x2 + seq![44u8] + y2,
    ensures
        x == x2,
        y == y2,
{
    let a = x + seq![44u8] + y;
    let b = x2 + seq![44u8] + y2;
    if x.len() < x2.len() {
        assert(a[x.len() as int] == 44u8);
        assert(b[x.len() as int] == x2[x.len() as int]);
    } else if x2.len() < x.len() {
        assert(b[x2.len() as int] == 44u8);
        assert(a[x2.len() as int] == x[x2.len() as int]);
    }
    assert(x =~= a.take(x.len() as int));
    assert(x2 =~= b.take(x.len() as int));
    assert(y =~= a.skip(x.len() as int + 1));
    assert(y2 =~= b.skip(x.len() as int + 1));
}

proof fn lemma_numbers_free_of_separators(r: StoredReading)
    ensures
        free_of_separators(decimal(r.co2_ppm as nat)),
        free_of_separators(fixed2(r.temperature_centi_c as int)),
        free_of_separators(decimal(r.humidity_percent as nat)),
        free_of_separators(fixed1(r.pressure_deci_hpa as nat)),
{
    lemma_decimal_round_trip(r.co2_ppm as nat);
    lemma_decimal_round_trip(r.humidity_percent as nat);
    let m = magnitude(r.temperature_centi_c as int);
    lemma_decimal_round_trip(m / 100);
    lemma_decimal_round_trip((r.pressure_deci_hpa / 10) as nat);
    let f2 = fixed2(r.temperature_centi_c as int);
    let d2 = decimal(m / 100);
    assert forall|i: int| 0 <= i < f2.len() implies #[trigger] f2[i] != 44u8 && f2[i] != 10u8 by {
        if r.temperature_centi_c < 0 {
            if 1 <= i < 1 + d2.len() {
                assert(f2[i] == d2[i - 1]);
            }
        } else if i < d2.len() {
            assert(f2[i] == d2[i]);
        }
    }
    let f1 = fixed1(r.pressure_deci_hpa as nat);
    let d1 = decimal((r.pressure_deci_hpa / 10) as nat);
    assert forall|i: int| 0 <= i < f1.len() implies #[trigger] f1[i] != 44u8 && f1[i] != 10u8 by {
        if i < d1.len() {
            assert(f1[i] == d1[i]);
        }
    }
}

/// An export line can be read back without ambiguity: where the timestamp
/// texts hold neither a comma nor a line break, two rows with the same line
/// agree on every field but the identity, which the export leaves out.
pub proof fn lemma_export_line_determines_row(r1: StoredReading, r2: StoredReading)
    requires
        free_of_separators(ts_bytes(r1)),
        free_of_separators(ts_bytes(r2)),
        csv_line(r1) == csv_line(r2),
    ensures
        r1.timestamp@ == r2.timestamp@,
        r1.co2_ppm == r2.co2_ppm,
        r1.temperature_centi_c == r2.temperature_centi_c,
        r1.humidity_percent == r2.humidity_percent,
        r1.pressure_deci_hpa == r2.pressure_deci_hpa,
        r1.battery_percent == r2.battery_percent,
{
    broadcast use encode_utf8_decode_utf8;

    lemma_numbers_free_of_separators(r1);
    lemma_numbers_free_of_separators(r2);
    lemma_export_fields_read_back(r1);
    lemma_export_fields_read_back(r2);
    lemma_split_at_comma(ts_bytes(r1), after_timestamp(r1), ts_bytes(r2), after_timestamp(r2));
    assert(decode_utf8(ts_bytes(r1)) == r1.timestamp@);
    assert(decode_utf8(ts_bytes(r2)) == r2.timestamp@);
    lemma_split_at_comma(decimal(r1.co2_ppm as nat), after_co2(r1), decimal(r2.co2_ppm as nat), after_co2(r2));
    lemma_split_at_comma(
        fixed2(r1.temperature_centi_c as int),
        after_temperature(r1),
        fixed2(r2.temperature_centi_c as int),
        after_temperature(r2),
    );
    lemma_split_at_comma(
        decimal(r1.humidity_percent as nat),
        after_humidity(r1),
        decimal(r2.humidity_percent as nat),
        after_humidity(r2),
    );
    lemma_split_at_comma(
        fixed1(r1.pressure_deci_hpa as nat),
        after_pressure(r1),
        fixed1(r2.pressure_deci_hpa as nat),
        after_pressure(r2),
    );
    assert(decimal(r1.battery_percent as nat) =~= after_pressure(r1).drop_last());
    assert(decimal(r2.battery_percent as nat) =~= after_pressure(r2).drop_last());
}

/// `order` names every position of `n` rows exactly once.
pub open spec fn is_arrangement(order: Seq<usize>, n: int) -> bool {
    &&& order.len() == n
    &&& order.no_duplicates()
    &&& forall|k: int| 0 <= k < order.len() ==> order[k] < n
}

/// The rows at the positions `order` names, in that order.
pub open spec fn arranged(rows: Seq<StoredReading>, order: Seq<usize>) -> Seq<StoredReading> {
    order.map_values(|k: usize| rows[k as int])
}

/// No row of the arrangement sorts, by timestamp text, before one ahead of it.
pub open spec fn timestamps_ascending(rows: Seq<StoredReading>) -> bool {
    forall|a: int, b: int| 0 <= a < b < rows.len() ==> !lex_lt(ts_bytes(#[trigger] rows[b]), ts_bytes(#[trigger] rows[a]))
}

/// The positions of `rows` ordered by timestamp text, ascending; rows whose
/// timestamps are equal keep their order.
pub fn timestamp_order(rows: &Vec<StoredReading>) -> (order: Vec<usize>)
    ensures
        is_arrangement(order@, rows@.len() as int),
        timestamps_ascending(arranged(rows@, order@)),
{
    let n = rows.len();
    let mut order: Vec<usize> = Vec::new();
    let mut i: usize = 0;
    while i < n
        invariant
            n == rows@.len(),
            i <= n,
            order@.len() == i,
            order@.no_duplicates(),
            forall|k: int| 0 <= k < order@.len() ==> order@[k] < i,
            forall|a: int, b: int| 0 <= a < b < order@.len()
                ==> !lex_lt(ts_bytes(rows@[#[trigger] order@[b] as int]), ts_bytes(rows@[#[trigger] order@[a] as int])),
        decreases n - i,
    {
        let mut pos: usize = 0;
        while pos < order.len() && !bytes_lt(rows[i].timestamp.as_str().as_bytes(), rows[order[pos]].timestamp.as_str().as_bytes())
            invariant
                n == rows@.len(),
                i < n,
                pos <= order@.len(),
                forall|k: int| 0 <= k < order@.len() ==> order@[k] < i,
                forall|k: int| 0 <= k < pos ==> !lex_lt(ts_bytes(rows@[i as int]), ts_bytes(rows@[#[trigger] order@[k] as int])),
            decreases order@.len() - pos,
        {
            pos = pos + 1;
        }
        let ghost old_order = order@;
        order.insert(pos, i);
        proof {
            let new_order = order@;
            assert(new_order == old_order.insert(pos as int, i));
            assert forall|k: int| 0 <= k < new_order.len() implies new_order[k] < i + 1 by {
                if k < pos {
                } else if k > pos {
                    assert(new_order[k] == old_order[k - 1]);
                }
            }
            assert forall|a: int, b: int| 0 <= a < new_order.len() && 0 <= b < new_order.len() && a != b
                implies new_order[a] != new_order[b] by {
                if a != pos && b != pos {
                    let a0 = if a < pos { a } else { a - 1 };
                    let b0 = if b < pos { b } else { b - 1 };
                    assert(new_order[a] == old_order[a0]);
                    assert(new_order[b] == old_order[b0]);
                } else if a == pos {
                    let b0 = if b < pos { b } else { b - 1 };
                    assert(new_order[b] == old_order[b0]);
                } else {
                    let a0 = if a < pos { a } else { a - 1 };
                    assert(new_order[a] == old_order[a0]);
                }
            }
            assert forall|a: int, b: int| 0 <= a < b < new_order.len()
                implies !lex_lt(ts_bytes(rows@[#[trigger] new_order[b] as int]), ts_bytes(rows@[#[trigger] new_order[a] as int])) by {
                let ti = ts_bytes(rows@[i as int]);
                if b < pos {
                    assert(new_order[a] == old_order[a]);
                    assert(new_order[b] == old_order[b]);
                } else if b == pos {
                    assert(new_order[a] == old_order[a]);
                } else if a == pos {
                    assert(new_order[b] == old_order[b - 1]);
                    let tb = ts_bytes(rows@[old_order[b - 1] as int]);
                    let tp = ts_bytes(rows@[old_order[pos as int] as int]);
                    assert(lex_lt(ti, tp));
                    if lex_lt(tb, ti) {
                        lemma_lex_lt_transitive(tb, ti, tp);
                        if b - 1 == pos {
                            lemma_lex_lt_irreflexive(tp);
                        }
                    }
                } else if a < pos {
                    assert(new_order[a] == old_order[a]);
                    assert(new_order[b] == old_order[b - 1]);
                } else {
                    assert(new_order[a] == old_order[a - 1]);
                    assert(new_order[b] == old_order[b - 1]);
                }
            }
        }
        i = i + 1;
    }
    proof {
        let arr = arranged(rows@, order@);
        assert forall|a: int, b: int| 0 <= a < b < arr.len()
            implies !lex_lt(ts_bytes(#[trigger] arr[b]), ts_bytes(#[trigger] arr[a])) by {
            assert(arr[a] == rows@[order@[a] as int]);
            assert(arr[b] == rows@[order@[b] as int]);
        }
    }
    order
}

/// The whole export: the header line, then one line per row.
pub open spec fn csv_document(rows: Seq<StoredReading>) -> Seq<u8> {
    encode_utf8(CSV_HEADER@) + seq![10u8] + csv_lines(rows)
}

/// Writes the header line and then the line of every row, ordered by
/// timestamp text ascending, and returns the number of rows written.
pub fn export_csv(rows: &Vec<StoredReading>, out: &mut Vec<u8>) -> (count: u64)
    ensures
        count == rows@.len(),
        exists|order: Seq<usize>| {
            &&& is_arrangement(order, rows@.len() as int)
            &&& timestamps_ascending(arranged(rows@, order))
            &&& final(out)@ == old(out)@ + csv_document(arranged(rows@, order))
        },
{
    let order = timestamp_order(rows);
    let ghost start = out@;
    let ghost arr = arranged(rows@, order@);
    push_all(out, CSV_HEADER.as_bytes());
    out.push(10u8);
    let ghost head = out@;
    let mut j: usize = 0;
    assert(arr.take(0) =~= Seq::<StoredReading>::empty());
    while j < order.len()
        invariant
            is_arrangement(order@, rows@.len() as int),
            arr == arranged(rows@, order@),
            j <= order@.len(),
            out@ == head + csv_lines(arr.take(j as int)),
        decreases order@.len() - j,
    {
        let row = &rows[order[j]];
        assert(arr.take(j + 1).drop_last() =~= arr.take(j as int));
        assert(arr[j as int] == *row);
        push_csv_line(out, row);
        assert(out@ =~= head + csv_lines(arr.take(j + 1)));
        j = j + 1;
    }
    assert(arr.take(j as int) =~= arr);
    assert(out@ =~= start + csv_document(arr));
    j as u64
}

} // verus!
