use chrono::NaiveDate;
use voltcraft::decoder::PowerFields;
use voltcraft::{
    LocalDate, PowerEvent, Timestamp, VoltcraftData, VoltcraftError, VoltcraftStatistics,
};

const TESTDATA: [u8; 17] = [
    // Header (magic number)
    0xE0, 0xC5, 0xEA, // Base timestamp and one power record
    0x09, 0x0B, 0x0E, 0x12, 0x2B, 0x08, 0xC6, 0x01, 0xBE, 0x57, // End of power data
    0xFF, 0xFF, 0xFF, 0xFF,
];

fn chrono_minutes(y: i32, mo: u32, d: u32, h: u32, mi: u32) -> i64 {
    NaiveDate::from_ymd_opt(y, mo, d)
        .unwrap()
        .and_hms_opt(h, mi, 0)
        .unwrap()
        .and_utc()
        .timestamp()
        / 60
}

fn event(minutes: i64, voltage: u16, current: u16, power_factor: u8) -> PowerEvent {
    let v = voltage as u64;
    let c = current as u64;
    PowerEvent {
        timestamp: Timestamp { minutes },
        voltage,
        current,
        power_factor,
        power: v * c * power_factor as u64,
        apparent_power: v * c * 100,
    }
}

#[test]
fn voltcraft_valid_data() {
    let vd = VoltcraftData::from_raw(TESTDATA.to_vec());
    assert!(vd.is_valid());
}

#[test]
fn voltcraft_timestamp() {
    let vd = VoltcraftData::from_raw(TESTDATA.to_vec());
    let offset_timestamp = 3;
    let ts = vd.decode_timestamp(offset_timestamp).unwrap();
    let expected = Timestamp { minutes: chrono_minutes(2014, 9, 11, 18, 43) };
    assert_eq!(ts, expected);
}

#[test]
fn voltcraft_poweritem() {
    let vd = VoltcraftData::from_raw(TESTDATA.to_vec());
    let offset_poweritem = 8;
    let pw: PowerFields = vd.decode_power(offset_poweritem).unwrap();
    assert_eq!(pw.0 as f64 / 10.0, 224.6);
    assert_eq!(pw.1 as f64 / 1000.0, 0.446);
    assert_eq!(pw.2 as f64 / 100.0, 0.87);
}

#[test]
fn parse_single_record_buffer() {
    let readings = VoltcraftData::from_raw(TESTDATA.to_vec()).parse().unwrap();
    assert_eq!(readings.len(), 1);
    let r = readings[0];
    assert_eq!(r.timestamp.minutes, chrono_minutes(2014, 9, 11, 18, 43));
    assert_eq!(r.voltage, 2246);
    assert_eq!(r.current, 446);
    assert_eq!(r.power_factor, 87);
    assert_eq!(r.power, 2246 * 446 * 87);
    assert_eq!(r.apparent_power, 2246 * 446 * 100);
    let kw = r.power as f64 / 1e9;
    let kva = r.apparent_power as f64 / 1e9;
    assert!((kw - 224.6 * 0.446 * 0.87 / 1000.0).abs() < 1e-9);
    assert!((kva - 224.6 * 0.446 / 1000.0).abs() < 1e-9);
}

#[test]
fn parse_end_marker_only_is_empty() {
    let buf = vec![0xE0, 0xC5, 0xEA, 0x01, 0x01, 0x00, 0x00, 0x00, 0xFF, 0xFF, 0xFF, 0xFF];
    let readings = VoltcraftData::from_raw(buf).parse().unwrap();
    assert!(readings.is_empty());
}

#[test]
fn parse_rejects_wrong_magic() {
    let mut buf = TESTDATA.to_vec();
    buf[1] = 0xC6;
    assert_eq!(VoltcraftData::from_raw(buf).parse().unwrap_err(), VoltcraftError::InvalidFormat);
    assert_eq!(VoltcraftData::from_raw(vec![0xE0, 0xC5]).parse().unwrap_err(), VoltcraftError::InvalidFormat);
    assert_eq!(VoltcraftData::from_raw(vec![]).parse().unwrap_err(), VoltcraftError::InvalidFormat);
    assert!(!VoltcraftData::from_raw(vec![0xE0]).is_valid());
}

#[test]
fn parse_rejects_truncated_buffers() {
    let short_header = vec![0xE0, 0xC5, 0xEA, 0x09, 0x0B];
    assert_eq!(VoltcraftData::from_raw(short_header).parse().unwrap_err(), VoltcraftError::Truncated);
    let no_end = TESTDATA[..13].to_vec();
    assert_eq!(VoltcraftData::from_raw(no_end).parse().unwrap_err(), VoltcraftError::Truncated);
    let partial_record = TESTDATA[..11].to_vec();
    assert_eq!(VoltcraftData::from_raw(partial_record).parse().unwrap_err(), VoltcraftError::Truncated);
    let mut bad_end = TESTDATA.to_vec();
    bad_end[16] = 0xFE;
    assert_eq!(VoltcraftData::from_raw(bad_end).parse().unwrap_err(), VoltcraftError::Truncated);
}

#[test]
fn parse_rejects_impossible_base_time() {
    let mut buf = TESTDATA.to_vec();
    buf[3] = 13;
    assert_eq!(VoltcraftData::from_raw(buf).parse().unwrap_err(), VoltcraftError::InvalidTimestamp);
    let mut feb = TESTDATA.to_vec();
    feb[3] = 2;
    feb[4] = 30;
    assert_eq!(VoltcraftData::from_raw(feb).parse().unwrap_err(), VoltcraftError::InvalidTimestamp);
    let mut hour = TESTDATA.to_vec();
    hour[6] = 24;
    assert_eq!(VoltcraftData::from_raw(hour).parse().unwrap_err(), VoltcraftError::InvalidTimestamp);
}

#[test]
fn parse_steps_one_minute_per_record() {
    // 31 December 2014, 23:58: the third record falls on the next day.
    let buf = vec![
        0xE0, 0xC5, 0xEA, 12, 31, 14, 23, 58, 0x08, 0xC6, 0x01, 0xBE, 0x57, 0x09, 0x00, 0x00,
        0x10, 0x64, 0x00, 0x00, 0x00, 0x00, 0x00, 0xFF, 0xFF, 0xFF, 0xFF,
    ];
    let readings = VoltcraftData::from_raw(buf).parse().unwrap();
    assert_eq!(readings.len(), 3);
    let base = chrono_minutes(2014, 12, 31, 23, 58);
    for (i, r) in readings.iter().enumerate() {
        assert_eq!(r.timestamp.minutes, base + i as i64);
        assert_eq!(r.power, r.voltage as u64 * r.current as u64 * r.power_factor as u64);
        assert_eq!(r.apparent_power, r.voltage as u64 * r.current as u64 * 100);
    }
    assert_eq!(readings[1].voltage, 0x0900);
    assert_eq!(readings[1].current, 0x0010);
    assert_eq!(readings[1].power_factor, 100);
    assert_eq!(readings[2].power, 0);
    assert_eq!(readings[1].timestamp.date(), readings[0].timestamp.date());
    assert_eq!(readings[2].timestamp.date().days, readings[0].timestamp.date().days + 1);
}

#[test]
fn end_marker_check_stays_in_bounds() {
    let vd = VoltcraftData::from_raw(TESTDATA.to_vec());
    assert!(vd.is_endofdata(13));
    assert!(!vd.is_endofdata(12));
    assert!(!vd.is_endofdata(14));
    assert!(!vd.is_endofdata(usize::MAX));
    assert_eq!(vd.decode_power(13).unwrap_err(), VoltcraftError::Truncated);
    assert_eq!(vd.decode_power(usize::MAX).unwrap_err(), VoltcraftError::Truncated);
    assert_eq!(vd.decode_timestamp(14).unwrap_err(), VoltcraftError::Truncated);
}

#[test]
fn civil_time_conversion() {
    let t = Timestamp::from_civil(2014, 9, 11, 18, 43).unwrap();
    assert_eq!(t.minutes, chrono_minutes(2014, 9, 11, 18, 43));
    assert_eq!(t.minutes, 23_507_683);
    assert_eq!(Timestamp::from_civil(1970, 1, 1, 0, 0).unwrap().minutes, 0);
    assert!(Timestamp::from_civil(2015, 2, 29, 0, 0).is_none());
    assert!(Timestamp::from_civil(2016, 2, 29, 0, 0).is_some());
    assert!(Timestamp::from_civil(2015, 1, 1, 0, 60).is_none());
}

#[test]
fn dates_of_timestamps() {
    assert_eq!(Timestamp { minutes: 0 }.date(), LocalDate { days: 0 });
    assert_eq!(Timestamp { minutes: 1439 }.date(), LocalDate { days: 0 });
    assert_eq!(Timestamp { minutes: 1440 }.date(), LocalDate { days: 1 });
    assert_eq!(Timestamp { minutes: -1 }.date(), LocalDate { days: -1 });
    assert_eq!(Timestamp { minutes: -1440 }.date(), LocalDate { days: -1 });
    assert_eq!(Timestamp { minutes: -1441 }.date(), LocalDate { days: -2 });
}

#[test]
fn daily_stats_ascending_distinct_dates() {
    let day = 1440;
    let data = vec![
        event(3 * day + 5, 2300, 1000, 90),
        event(day + 10, 2200, 500, 80),
        event(3 * day + 6, 2400, 2000, 50),
        event(day + 11, 2100, 500, 100),
        event(2 * day - 1, 2250, 100, 10),
    ];
    let stats = VoltcraftStatistics::new(&data);
    let daily = stats.daily_stats();
    assert_eq!(daily.len(), 2);
    assert_eq!(daily[0].date, LocalDate { days: 1 });
    assert_eq!(daily[1].date, LocalDate { days: 3 });
    let first = daily[0].stats;
    assert_eq!(first.count, 3);
    assert_eq!(first.voltage_sum, 2200 + 2100 + 2250);
    assert_eq!(first.min_voltage, data[3]);
    assert_eq!(first.max_voltage, data[4]);
    assert_eq!(first.max_active_power, data[3]);
    let second = daily[1].stats;
    assert_eq!(second.count, 2);
    assert_eq!(second.active_power_sum, (data[0].power + data[2].power) as u128);
    assert_eq!(second.max_apparent_power, data[2]);
    assert_eq!(stats.distinct_days(), vec![LocalDate { days: 1 }, LocalDate { days: 3 }]);
    assert_eq!(stats.filter_power_data(&LocalDate { days: 3 }), vec![data[0], data[2]]);
    assert!(stats.filter_power_data(&LocalDate { days: 2 }).is_empty());
}

#[test]
fn overall_stats_totals_and_extremes() {
    let readings = VoltcraftData::from_raw(vec![
        0xE0, 0xC5, 0xEA, 0x09, 0x0B, 0x0E, 0x12, 0x2B, 0x08, 0xC6, 0x01, 0xBE, 0x57, 0x08, 0xC6,
        0x03, 0x00, 0x32, 0x08, 0x00, 0x03, 0x00, 0x64, 0xFF, 0xFF, 0xFF, 0xFF,
    ])
    .parse()
    .unwrap();
    let stats = VoltcraftStatistics::new(&readings).overall_stats().unwrap();
    let sum: u64 = readings.iter().map(|r| r.power).sum();
    assert_eq!(stats.count, 3);
    assert_eq!(stats.active_power_sum, sum as u128);
    let total_kwh = stats.active_power_sum as f64 / 1e9 / 60.0;
    let float_sum: f64 = readings.iter().map(|r| r.power as f64 / 1e9).sum();
    assert!((total_kwh - float_sum / 60.0).abs() < 1e-9);
    assert_eq!(stats.apparent_power_sum, (2246 * 446 * 100 + 2246 * 768 * 100 + 2048 * 768 * 100) as u128);
    assert_eq!(stats.voltage_sum, 2246 + 2246 + 2048);
    // Equal voltages: the first one is the maximum.
    assert_eq!(stats.max_voltage, readings[0]);
    assert_eq!(stats.min_voltage, readings[2]);
    assert_eq!(stats.max_active_power, readings[2]);
    assert_eq!(stats.max_apparent_power, readings[1]);
}

#[test]
fn stats_ties_pick_first_reading() {
    let data = vec![event(0, 2300, 1000, 50), event(1, 2300, 1000, 50), event(2, 2300, 1000, 50)];
    let stats = VoltcraftStatistics::new(&data).overall_stats().unwrap();
    assert_eq!(stats.max_active_power, data[0]);
    assert_eq!(stats.max_apparent_power, data[0]);
    assert_eq!(stats.min_voltage, data[0]);
    assert_eq!(stats.max_voltage, data[0]);
}

#[test]
fn stats_of_no_readings_fail() {
    let data: Vec<PowerEvent> = Vec::new();
    let stats = VoltcraftStatistics::new(&data);
    assert_eq!(stats.overall_stats().unwrap_err(), VoltcraftError::EmptyInput);
    assert!(stats.daily_stats().is_empty());
    assert!(stats.blackout_stats().is_empty());
}

#[test]
fn blackout_after_three_minute_gap() {
    let data = vec![event(100, 2300, 1000, 90), event(103, 2300, 1000, 90)];
    let blackouts = VoltcraftStatistics::new(&data).blackout_stats();
    assert_eq!(blackouts.len(), 1);
    assert_eq!(blackouts[0].timestamp, Timestamp { minutes: 101 });
    assert_eq!(blackouts[0].duration, 3);
}

#[test]
fn no_blackout_after_one_minute() {
    let data = vec![event(100, 2300, 1000, 90), event(101, 2300, 1000, 90)];
    assert!(VoltcraftStatistics::new(&data).blackout_stats().is_empty());
}

#[test]
fn blackouts_pair_readings_two_by_two() {
    // The gap between the second and third reading lies across two pairs.
    let data = vec![
        event(0, 2300, 1000, 90),
        event(1, 2300, 1000, 90),
        event(50, 2300, 1000, 90),
        event(51, 2300, 1000, 90),
        event(60, 2300, 1000, 90),
        event(70, 2300, 1000, 90),
        event(500, 2300, 1000, 90),
    ];
    let blackouts = VoltcraftStatistics::compute_blackouts(&data);
    assert_eq!(blackouts.len(), 1);
    assert_eq!(blackouts[0].timestamp, Timestamp { minutes: 61 });
    assert_eq!(blackouts[0].duration, 10);
}
