use vstd::prelude::*;
use vstd::utf8::encode_utf8;

use crate::csv::{arranged, csv_document, export_csv, is_arrangement, timestamps_ascending};
use crate::clock::{rfc3339_of_millis, rfc3339_text};
use crate::models::Reading;
use crate::text::{bytes_lt, lemma_lex_lt_irreflexive, lemma_lex_lt_transitive, lex_lt};

verus! {

/// One row of the reading log: a reading under the identity the log gave it,
/// with its capture time as RFC 3339 text.
#[derive(Clone, Debug, PartialEq, Eq)]
pub struct StoredReading {
    pub id: i64,
    pub timestamp: String,
    pub co2_ppm: u16,
    pub temperature_centi_c: i32,
    pub humidity_percent: u8,
    pub pressure_deci_hpa: u32,
    pub battery_percent: u8,
}

/// Why the log refused a row.
#[derive(Clone, Copy, Debug, PartialEq, Eq, Structural)]
pub enum StoreError {
    /// The capture time lies outside what an RFC 3339 text can hold.
    TimestampOutOfRange,
    /// The identities are used up.
    IdsExhausted,
    /// A restored row's identity does not follow the last one.
    IdOutOfOrder,
}

/// The bytes by which a row's timestamp sorts.
pub open spec fn ts_bytes(r: StoredReading) -> Seq<u8> {
    encode_utf8(r.timestamp@)
}

/// Identities grow strictly along a sequence of rows and are positive.
pub open spec fn ids_increasing(rows: Seq<StoredReading>) -> bool {
    &&& forall|i: int, j: int| 0 <= i < j < rows.len() ==> rows[i].id < rows[j].id
    &&& forall|i: int| 0 <= i < rows.len() ==> rows[i].id > 0
}

/// The identity the next inserted row gets.
pub open spec fn next_id(rows: Seq<StoredReading>) -> int {
    if rows.len() == 0 { 1 } else { rows.last().id + 1 }
}

/// `row` stores `reading` under identity `id`, with timestamp text `ts`.
pub open spec fn stores(row: StoredReading, reading: Reading, id: int, ts: Seq<char>) -> bool {
    &&& row.id == id
    &&& row.timestamp@ == ts
    &&& row.co2_ppm == reading.co2_ppm
    &&& row.temperature_centi_c == reading.temperature_centi_c
    &&& row.humidity_percent == reading.humidity_percent
    &&& row.pressure_deci_hpa == reading.pressure_deci_hpa
    &&& row.battery_percent == reading.battery_percent
}

/// `r` is the most recent row of `rows`: the one with the greatest identity.
pub open spec fn is_most_recent(rows: Seq<StoredReading>, r: StoredReading) -> bool {
    &&& rows.contains(r)
    &&& forall|i: int| 0 <= i < rows.len() ==> rows[i].id <= r.id
}

/// Sum of the CO2 values of `rows`.
pub open spec fn co2_total(rows: Seq<StoredReading>) -> int
    decreases rows.len(),
{
    if rows.len() == 0 { 0 } else { co2_total(rows.drop_last()) + rows.last().co2_ppm }
}

/// Sum of the temperatures of `rows`, in hundredths of a degree.
pub open spec fn temperature_total(rows: Seq<StoredReading>) -> int
    decreases rows.len(),
{
    if rows.len() == 0 {
        0
    } else {
        temperature_total(rows.drop_last()) + rows.last().temperature_centi_c
    }
}

/// Sum of the humidity values of `rows`.
pub open spec fn humidity_total(rows: Seq<StoredReading>) -> int
    decreases rows.len(),
{
    if rows.len() == 0 { 0 } else { humidity_total(rows.drop_last()) + rows.last().humidity_percent }
}

/// Aggregate figures over a non-empty set of rows. Means are the sums
/// divided by `count`.
#[derive(Clone, Debug, PartialEq, Eq)]
pub struct Stats {
    pub count: u64,
    pub co2_sum: u128,
    pub min_co2: u16,
    pub max_co2: u16,
    pub temperature_centi_sum: i128,
    pub humidity_sum: u128,
    /// The timestamp text that sorts first.
    pub first_reading: String,
    /// The timestamp text that sorts last.
    pub last_reading: String,
}

/// `st` is the aggregate of the non-empty `rows`.
pub open spec fn aggregates(rows: Seq<StoredReading>, st: Stats) -> bool {
    &&& st.count == rows.len()
    &&& st.co2_sum == co2_total(rows)
    &&& st.temperature_centi_sum == temperature_total(rows)
    &&& st.humidity_sum == humidity_total(rows)
    &&& exists|i: int| 0 <= i < rows.len() && rows[i].co2_ppm == st.min_co2
    &&& forall|i: int| 0 <= i < rows.len() ==> st.min_co2 <= rows[i].co2_ppm
    &&& exists|i: int| 0 <= i < rows.len() && rows[i].co2_ppm == st.max_co2
    &&& forall|i: int| 0 <= i < rows.len() ==> rows[i].co2_ppm <= st.max_co2
    &&& exists|i: int| 0 <= i < rows.len() && rows[i].timestamp@ == st.first_reading@
    &&& forall|i: int| 0 <= i < rows.len() ==> !lex_lt(ts_bytes(rows[i]), encode_utf8(st.first_reading@))
    &&& exists|i: int| 0 <= i < rows.len() && rows[i].timestamp@ == st.last_reading@
    &&& forall|i: int| 0 <= i < rows.len() ==> !lex_lt(encode_utf8(st.last_reading@), ts_bytes(rows[i]))
}

/// The append-only log of readings, in insertion order.
pub struct ReadingStore {
    rows: Vec<StoredReading>,
}

impl View for ReadingStore {
    type V = Seq<StoredReading>;

    closed spec fn view(&self) -> Seq<StoredReading> {
        self.rows@
    }
}

impl ReadingStore {
    pub open spec fn wf(&self) -> bool {
        ids_increasing(self@)
    }

    /// An empty log.
    pub fn new() -> (r: ReadingStore)
        ensures
            r.wf(),
            r@.len() == 0,
    {
        ReadingStore { rows: Vec::new() }
    }

    /// The rows, in insertion order.
    pub fn rows(&self) -> (r: &Vec<StoredReading>)
        ensures
            r@ == self@,
    {
        &self.rows
    }

    pub fn len(&self) -> (r: usize)
        ensures
            r == self@.len(),
    {
        self.rows.len()
    }

    fn next_identity(&self) -> (r: Option<i64>)
        requires
            self.wf(),
        ensures
            match r {
                Some(id) => id == next_id(self@),
                None => next_id(self@) > i64::MAX,
            },
    {
        let n = self.rows.len();
        if n == 0 {
            Some(1)
        } else {
            let last = self.rows[n - 1].id;
            if last == i64::MAX {
                None
            } else {
                Some(last + 1)
            }
        }
    }

    /// Appends `reading` under the next identity, with its capture time as
    /// RFC 3339 text, and returns that identity. Nothing is overwritten.
    pub fn insert(&mut self, reading: &Reading) -> (r: Result<i64, StoreError>)
        requires
            old(self).wf(),
        ensures
            final(self).wf(),
            match rfc3339_of_millis(reading.timestamp_ms) {
                None => r == Err::<i64, StoreError>(StoreError::TimestampOutOfRange)
                    && final(self)@ == old(self)@,
                Some(ts) => if next_id(old(self)@) > i64::MAX {
                    r == Err::<i64, StoreError>(StoreError::IdsExhausted) && final(self)@ == old(self)@
                } else {
                    &&& r == Ok::<i64, StoreError>(next_id(old(self)@) as i64)
                    &&& final(self)@.len() == old(self)@.len() + 1
                    &&& final(self)@.drop_last() == old(self)@
                    &&& stores(final(self)@.last(), *reading, next_id(old(self)@), ts)
                },
            },
    {
        let ts = match rfc3339_text(reading.timestamp_ms) {
            Some(t) => t,
            None => return Err(StoreError::TimestampOutOfRange),
        };
        let id = match self.next_identity() {
            Some(id) => id,
            None => return Err(StoreError::IdsExhausted),
        };
        let row = StoredReading {
            id,
            timestamp: ts,
            co2_ppm: reading.co2_ppm,
            temperature_centi_c: reading.temperature_centi_c,
            humidity_percent: reading.humidity_percent,
            pressure_deci_hpa: reading.pressure_deci_hpa,
            battery_percent: reading.battery_percent,
        };
        let ghost before = self.rows@;
        self.rows.push(row);
        assert(self.rows@.drop_last() =~= before);
        Ok(id)
    }

    /// Takes back a row kept elsewhere: accepted when its identity is at
    /// least the next one, refused (and the log left as it was) otherwise.
    pub fn restore(&mut self, row: StoredReading) -> (r: Result<(), StoreError>)
        requires
            old(self).wf(),
        ensures
            final(self).wf(),
            row.id >= next_id(old(self)@) ==> r is Ok && final(self)@ == old(self)@.push(row),
            row.id < next_id(old(self)@) ==> r == Err::<(), StoreError>(StoreError::IdOutOfOrder)
                && final(self)@ == old(self)@,
    {
        let n = self.rows.len();
        if n > 0 && row.id <= self.rows[n - 1].id {
            return Err(StoreError::IdOutOfOrder);
        }
        if row.id <= 0 {
            return Err(StoreError::IdOutOfOrder);
        }
        self.rows.push(row);
        Ok(())
    }

    /// The most recent row by identity, or `None` when the log is empty.
    pub fn most_recent(&self) -> (r: Option<&StoredReading>)
        requires
            self.wf(),
        ensures
            self@.len() == 0 <==> r is None,
            r matches Some(x) ==> is_most_recent(self@, *x),
    {
        let n = self.rows.len();
        if n == 0 {
            None
        } else {
            let r = &self.rows[n - 1];
            assert(self@[n - 1] == *r);
            Some(r)
        }
    }

    /// CO2, humidity and battery of the most recent row.
    pub fn last_reading(&self) -> (r: Option<(u16, u8, u8)>)
        requires
            self.wf(),
        ensures
            self@.len() == 0 <==> r is None,
            r matches Some(t) ==> exists|x: StoredReading| is_most_recent(self@, x)
                && t == (x.co2_ppm, x.humidity_percent, x.battery_percent),
    {
        match self.most_recent() {
            Some(x) => Some((x.co2_ppm, x.humidity_percent, x.battery_percent)),
            None => None,
        }
    }

    /// Count, CO2 sum, minimum and maximum, temperature and humidity sums,
    /// and the first and last timestamp texts in byte order, over all rows;
    /// `None` when the log is empty.
    pub fn stats(&self) -> (r: Option<Stats>)
        ensures
            self@.len() == 0 <==> r is None,
            r matches Some(st) ==> aggregates(self@, st),
    {
        aggregate(&self.rows)
    }

    /// Writes the CSV export of the log to `out` (header, then one line per
    /// row ordered by timestamp text) and returns the number of rows written.
    pub fn export_csv(&self, out: &mut Vec<u8>) -> (count: u64)
        ensures
            count == self@.len(),
            exists|order: Seq<usize>| {
                &&& is_arrangement(order, self@.len() as int)
                &&& timestamps_ascending(arranged(self@, order))
                &&& final(out)@ == old(out)@ + csv_document(arranged(self@, order))
            },
    {
        export_csv(&self.rows, out)
    }

    /// The timestamp text of the most recent row.
    pub fn last_timestamp(&self) -> (r: Option<&String>)
        requires
            self.wf(),
        ensures
            self@.len() == 0 <==> r is None,
            r matches Some(t) ==> exists|x: StoredReading| is_most_recent(self@, x) && *t == x.timestamp,
    {
        match self.most_recent() {
            Some(x) => Some(&x.timestamp),
            None => None,
        }
    }
}

/// The aggregate of `rows`, or `None` when there are none.
pub fn aggregate(rows: &Vec<StoredReading>) -> (r: Option<Stats>)
    ensures
        rows@.len() == 0 <==> r is None,
        r matches Some(st) ==> aggregates(rows@, st),
{
    let n = rows.len();
    if n == 0 {
        return None;
    }
    let mut co2_sum: u128 = 0;
    let mut temperature_centi_sum: i128 = 0;
    let mut humidity_sum: u128 = 0;
    let mut min_co2: u16 = rows[0].co2_ppm;
    let mut max_co2: u16 = rows[0].co2_ppm;
    let mut first: usize = 0;
    let mut last: usize = 0;
    let mut i: usize = 0;
    assert(rows@.take(0) =~= Seq::<StoredReading>::empty());
    while i < n
        invariant
            n == rows@.len(),
            n > 0,
            i <= n,
            first < n,
            last < n,
            co2_sum == co2_total(rows@.take(i as int)),
            co2_sum <= 65535 * i,
            temperature_centi_sum == temperature_total(rows@.take(i as int)),
            -2147483648 * i <= temperature_centi_sum <= 2147483647 * i,
            humidity_sum == humidity_total(rows@.take(i as int)),
            humidity_sum <= 255 * i,
            exists|k: int| 0 <= k < n && rows@[k].co2_ppm == min_co2,
            exists|k: int| 0 <= k < n && rows@[k].co2_ppm == max_co2,
            forall|k: int| 0 <= k < i ==> min_co2 <= #[trigger] rows@[k].co2_ppm <= max_co2,
            forall|k: int| 0 <= k < i ==> !lex_lt(ts_bytes(#[trigger] rows@[k]), ts_bytes(rows@[first as int])),
            forall|k: int| 0 <= k < i ==> !lex_lt(ts_bytes(rows@[last as int]), ts_bytes(#[trigger] rows@[k])),
        decreases n - i,
    {
        let row = &rows[i];
        assert(rows@.take(i + 1).drop_last() =~= rows@.take(i as int));
        co2_sum = co2_sum + row.co2_ppm as u128;
        temperature_centi_sum = temperature_centi_sum + row.temperature_centi_c as i128;
        humidity_sum = humidity_sum + row.humidity_percent as u128;
        if row.co2_ppm < min_co2 {
            min_co2 = row.co2_ppm;
        }
        if row.co2_ppm > max_co2 {
            max_co2 = row.co2_ppm;
        }
        if bytes_lt(row.timestamp.as_str().as_bytes(), rows[first].timestamp.as_str().as_bytes()) {
            proof {
                assert forall|k: int| 0 <= k < i implies !lex_lt(ts_bytes(#[trigger] rows@[k]), ts_bytes(rows@[i as int])) by {
                    if lex_lt(ts_bytes(rows@[k]), ts_bytes(rows@[i as int])) {
                        lemma_lex_lt_transitive(ts_bytes(rows@[k]), ts_bytes(rows@[i as int]), ts_bytes(rows@[first as int]));
                    }
                }
                lemma_lex_lt_irreflexive(ts_bytes(rows@[i as int]));
            }
            first = i;
        }
        if bytes_lt(rows[last].timestamp.as_str().as_bytes(), row.timestamp.as_str().as_bytes()) {
            proof {
                assert forall|k: int| 0 <= k < i implies !lex_lt(ts_bytes(rows@[i as int]), ts_bytes(#[trigger] rows@[k])) by {
                    if lex_lt(ts_bytes(rows@[i as int]), ts_bytes(rows@[k])) {
                        lemma_lex_lt_transitive(ts_bytes(rows@[last as int]), ts_bytes(rows@[i as int]), ts_bytes(rows@[k]));
                    }
                }
                lemma_lex_lt_irreflexive(ts_bytes(rows@[i as int]));
            }
            last = i;
        }
        i = i + 1;
    }
    assert(rows@.take(n as int) =~= rows@);
    Some(Stats {
        count: n as u64,
        co2_sum,
        min_co2,
        max_co2,
        temperature_centi_sum,
        humidity_sum,
        first_reading: rows[first].timestamp.clone(),
        last_reading: rows[last].timestamp.clone(),
    })
}

/// Whatever the timestamps hold, the row just inserted is the most recent.
pub proof fn lemma_most_recent_is_last_inserted(
    before: Seq<StoredReading>,
    after: Seq<StoredReading>,
    row: StoredReading,
)
    requires
        ids_increasing(before),
        row.id == next_id(before),
        after == before.push(row),
    ensures
        ids_increasing(after),
        is_most_recent(after, row),
        forall|x: StoredReading| is_most_recent(after, x) ==> x == row,
{
    assert(after[after.len() - 1] == row);
    assert forall|x: StoredReading| is_most_recent(after, x) implies x == row by {
        let k = choose|k: int| 0 <= k < after.len() && after[k] == x;
        if k < after.len() - 1 {
            assert(after[k].id < row.id);
        }
    }
}

} // verus!
