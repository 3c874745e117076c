use aranet4_logger::csv::{export_csv, timestamp_order, CSV_HEADER};
use aranet4_logger::models::{decode, Reading};
use aranet4_logger::store::{aggregate, ReadingStore, StoreError, StoredReading};

fn reading(ts: i64, co2: u16, temp_centi: i32, humidity: u8, pressure_deci: u32, battery: u8) -> Reading {
    Reading {
        timestamp_ms: ts,
        co2_ppm: co2,
        temperature_centi_c: temp_centi,
        humidity_percent: humidity,
        pressure_deci_hpa: pressure_deci,
        battery_percent: battery,
    }
}

fn row(id: i64, ts: &str, co2: u16) -> StoredReading {
    StoredReading {
        id,
        timestamp: ts.to_string(),
        co2_ppm: co2,
        temperature_centi_c: 2000,
        humidity_percent: 40,
        pressure_deci_hpa: 10130,
        battery_percent: 80,
    }
}

#[test]
fn insert_assigns_identities_and_formats_time() {
    let mut s = ReadingStore::new();
    let r = decode(&[0x64, 0x01, 0x90, 0x01, 0xC8, 0x27, 0x2D, 0x5A], 1_704_067_200_000).unwrap();
    assert_eq!(s.insert(&r), Ok(1));
    assert_eq!(s.insert(&r), Ok(2));
    let last = s.most_recent().unwrap();
    assert_eq!(last.id, 2);
    assert_eq!(last.timestamp, "2024-01-01T00:00:00+00:00");
    assert_eq!(last.co2_ppm, 356);
    assert_eq!(last.pressure_deci_hpa, 10184);
    assert_eq!(s.len(), 2);
}

#[test]
fn most_recent_follows_insertion_not_time() {
    let mut s = ReadingStore::new();
    assert!(s.most_recent().is_none());
    let times = [1_704_067_200_000i64, 1_600_000_000_000, 1_800_000_000_000, 1_500_000_000_000];
    for (k, t) in times.iter().enumerate() {
        s.insert(&reading(*t, 400 + k as u16, 0, 0, 0, 0)).unwrap();
        let last = s.most_recent().unwrap();
        assert_eq!(last.id, k as i64 + 1);
        assert_eq!(last.co2_ppm, 400 + k as u16);
    }
    assert_eq!(s.last_reading(), Some((403, 0, 0)));
    assert_eq!(s.last_timestamp().unwrap().as_str(), "2017-07-14T02:40:00+00:00");
}

#[test]
fn aggregate_of_nothing_is_empty() {
    assert_eq!(aggregate(&Vec::new()), None);
    assert_eq!(ReadingStore::new().stats(), None);
}

#[test]
fn aggregate_of_three_rows() {
    let rows = vec![
        row(1, "2024-01-01T00:02:00+00:00", 400),
        row(2, "2024-01-01T00:00:00+00:00", 300),
        row(3, "2024-01-01T00:01:00+00:00", 500),
    ];
    let st = aggregate(&rows).unwrap();
    assert_eq!(st.count, 3);
    assert_eq!(st.co2_sum, 1200);
    assert_eq!(st.co2_sum as f64 / st.count as f64, 400.0);
    assert_eq!(st.min_co2, 300);
    assert_eq!(st.max_co2, 500);
    assert_eq!(st.temperature_centi_sum, 6000);
    assert_eq!(st.humidity_sum, 120);
    assert_eq!(st.first_reading, "2024-01-01T00:00:00+00:00");
    assert_eq!(st.last_reading, "2024-01-01T00:02:00+00:00");
}

#[test]
fn export_orders_by_timestamp_and_counts() {
    let rows = vec![
        row(1, "2024-01-01T00:02:00+00:00", 400),
        row(2, "2024-01-01T00:00:00+00:00", 300),
        row(3, "2024-01-01T00:01:00+00:00", 500),
    ];
    assert_eq!(timestamp_order(&rows), vec![1, 2, 0]);
    let mut out = Vec::new();
    let n = export_csv(&rows, &mut out);
    assert_eq!(n, 3);
    let text = String::from_utf8(out).unwrap();
    let expected = format!(
        "{}\n{}\n{}\n{}\n",
        CSV_HEADER,
        "2024-01-01T00:00:00+00:00,300,20.00,40,1013.0,80",
        "2024-01-01T00:01:00+00:00,500,20.00,40,1013.0,80",
        "2024-01-01T00:02:00+00:00,400,20.00,40,1013.0,80"
    );
    assert_eq!(text, expected);
}

#[test]
fn export_formats_fixed_decimals() {
    let mut s = ReadingStore::new();
    s.insert(&reading(1_704_067_200_000, 356, 2005, 45, 10184, 90)).unwrap();
    s.insert(&reading(1_704_067_260_000, 0, -5, 0, 7, 0)).unwrap();
    s.insert(&reading(1_704_067_320_000, 65535, -1234, 100, 0, 100)).unwrap();
    let mut out = Vec::new();
    assert_eq!(s.export_csv(&mut out), 3);
    let text = String::from_utf8(out).unwrap();
    let lines: Vec<&str> = text.lines().collect();
    assert_eq!(lines[0], "timestamp,co2_ppm,temperature_c,humidity_percent,pressure_hpa,battery_percent");
    assert_eq!(lines[1], "2024-01-01T00:00:00+00:00,356,20.05,45,1018.4,90");
    assert_eq!(lines[2], "2024-01-01T00:01:00+00:00,0,-0.05,0,0.7,0");
    assert_eq!(lines[3], "2024-01-01T00:02:00+00:00,65535,-12.34,100,0.0,100");
}

#[test]
fn export_of_empty_log_is_header_only() {
    let mut out = Vec::new();
    assert_eq!(ReadingStore::new().export_csv(&mut out), 0);
    assert_eq!(String::from_utf8(out).unwrap(), format!("{}\n", CSV_HEADER));
}

#[test]
fn export_round_trip_keeps_fields() {
    let mut s = ReadingStore::new();
    s.insert(&reading(1_704_067_200_000, 812, 2345, 51, 10099, 77)).unwrap();
    s.insert(&reading(1_704_067_100_000, 420, 1995, 38, 9871, 76)).unwrap();
    let mut out = Vec::new();
    let n = s.export_csv(&mut out);
    let text = String::from_utf8(out).unwrap();
    let back: Vec<Vec<String>> = text.lines().skip(1).map(|l| l.split(',').map(|f| f.to_string()).collect()).collect();
    assert_eq!(back.len() as u64, n);
    assert_eq!(back[0][1].parse::<u16>().unwrap(), 420);
    assert_eq!(back[0][2].parse::<f64>().unwrap(), 19.95);
    assert_eq!(back[0][4].parse::<f64>().unwrap(), 987.1);
    assert_eq!(back[1][1].parse::<u16>().unwrap(), 812);
    assert_eq!(back[1][2].parse::<f64>().unwrap(), 23.45);
    assert_eq!(back[1][3].parse::<u8>().unwrap(), 51);
    assert_eq!(back[1][4].parse::<f64>().unwrap(), 1009.9);
    assert_eq!(back[1][5].parse::<u8>().unwrap(), 77);
}

#[test]
fn restore_keeps_identity_order() {
    let mut s = ReadingStore::new();
    assert_eq!(s.restore(row(5, "a", 1)), Ok(()));
    assert_eq!(s.restore(row(5, "b", 2)), Err(StoreError::IdOutOfOrder));
    assert_eq!(s.restore(row(3, "c", 3)), Err(StoreError::IdOutOfOrder));
    assert_eq!(s.restore(row(9, "d", 4)), Ok(()));
    assert_eq!(s.len(), 2);
    assert_eq!(s.insert(&reading(0, 1, 0, 0, 0, 0)), Ok(10));
    let mut fresh = ReadingStore::new();
    assert_eq!(fresh.restore(row(0, "e", 1)), Err(StoreError::IdOutOfOrder));
}

#[test]
fn insert_errors() {
    let mut s = ReadingStore::new();
    assert_eq!(s.insert(&reading(i64::MAX, 1, 0, 0, 0, 0)), Err(StoreError::TimestampOutOfRange));
    assert_eq!(s.len(), 0);
    s.restore(row(i64::MAX, "z", 1)).unwrap();
    assert_eq!(s.insert(&reading(0, 1, 0, 0, 0, 0)), Err(StoreError::IdsExhausted));
    assert_eq!(s.len(), 1);
}
