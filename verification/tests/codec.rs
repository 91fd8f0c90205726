use weather_service::encode_records;
use weather_service::parse_records;
use weather_service::WeatherRecord;

fn record(id: u64, description: &str, temperature: &str) -> WeatherRecord {
    WeatherRecord {
        id,
        description: description.as_bytes().to_vec(),
        temperature: temperature.as_bytes().to_vec(),
    }
}

#[test]
fn encodes_empty_sequence() {
    let records: Vec<WeatherRecord> = Vec::new();
    assert_eq!(encode_records(&records), b"[]".to_vec());
}

#[test]
fn parses_empty_sequence() {
    let parsed = parse_records(b"[]").expect("empty list is valid");
    assert!(parsed.is_empty());
}

#[test]
fn encodes_one_record_exactly() {
    let records = vec![record(1, "Clear", "295.2")];
    assert_eq!(
        encode_records(&records),
        b"[{\"id\":1,\"description\":\"Clear\",\"temperature\":295.2}]".to_vec()
    );
}

#[test]
fn parses_one_record_exactly() {
    let parsed = parse_records(b"[{\"id\":42,\"description\":\"Fog\",\"temperature\":-1.5}]")
        .expect("record is valid");
    assert_eq!(parsed.len(), 1);
    assert_eq!(parsed[0].id, 42);
    assert_eq!(parsed[0].description, b"Fog".to_vec());
    assert_eq!(parsed[0].temperature, b"-1.5".to_vec());
}

#[test]
fn round_trips_several_records() {
    let records = vec![
        record(0, "", "0"),
        record(18446744073709551615, "say \"hi\" \\ done", "-300.25"),
        record(7, "light rain", "281.92"),
    ];
    let encoded = encode_records(&records);
    let parsed = parse_records(&encoded).expect("own encoding parses");
    assert_eq!(parsed.len(), records.len());
    for (x, y) in parsed.iter().zip(records.iter()) {
        assert_eq!(x.id, y.id);
        assert_eq!(x.description, y.description);
        assert_eq!(x.temperature, y.temperature);
    }
}

#[test]
fn escapes_quotes_and_backslashes() {
    let records = vec![record(5, "a\"b\\c", "1")];
    assert_eq!(
        encode_records(&records),
        b"[{\"id\":5,\"description\":\"a\\\"b\\\\c\",\"temperature\":1}]".to_vec()
    );
}

#[test]
fn rejects_malformed_bodies() {
    assert!(parse_records(b"").is_none());
    assert!(parse_records(b"[").is_none());
    assert!(parse_records(b"{}").is_none());
    assert!(parse_records(b"[{\"id\":1,\"description\":\"a\",\"temperature\":1}").is_none());
    assert!(parse_records(b"[{\"id\":1,\"description\":\"a\",\"temperature\":1}]x").is_none());
    assert!(parse_records(b"[{\"id\":1,\"description\":\"a\",\"temperature\":1},]").is_none());
    assert!(parse_records(b"[{\"identifier\":1,\"description\":\"a\",\"temperature\":1}]").is_none());
    assert!(parse_records(b"[{\"id\":,\"description\":\"a\",\"temperature\":1}]").is_none());
    assert!(parse_records(b"[{\"id\":1,\"description\":\"a\",\"temperature\":}]").is_none());
    assert!(parse_records(b"[{\"id\":1,\"description\":\"a\",\"temperature\":1..5}]").is_none());
    assert!(parse_records(b"[{\"id\":1,\"description\":\"a\",\"temperature\":--2}]").is_none());
    assert!(parse_records(b"[{\"id\":1,\"description\":\"a\",\"temperature\":.5}]").is_none());
    assert!(parse_records(b"[{\"id\":1,\"description\":\"a\",\"temperature\":2.}]").is_none());
    assert!(parse_records(b"[{\"id\":1,\"description\":\"a\x01b\",\"temperature\":1}]").is_none());
}

#[test]
fn rejects_identifier_overflow() {
    let largest = parse_records(
        b"[{\"id\":18446744073709551615,\"description\":\"x\",\"temperature\":1}]",
    )
    .expect("largest identifier fits");
    assert_eq!(largest[0].id, 18446744073709551615);
    assert!(parse_records(
        b"[{\"id\":18446744073709551616,\"description\":\"x\",\"temperature\":1}]"
    )
    .is_none());
}

#[test]
fn builds_only_valid_records() {
    assert!(WeatherRecord::new(1, b"Clear".to_vec(), b"295.2".to_vec()).is_some());
    assert!(WeatherRecord::new(1, b"Clear".to_vec(), b"-12".to_vec()).is_some());
    assert!(WeatherRecord::new(1, b"Clear".to_vec(), b"".to_vec()).is_none());
    assert!(WeatherRecord::new(1, b"Clear".to_vec(), b"abc".to_vec()).is_none());
    assert!(WeatherRecord::new(1, b"Clear".to_vec(), b"1.".to_vec()).is_none());
    assert!(WeatherRecord::new(1, b"Clear".to_vec(), b".5".to_vec()).is_none());
    assert!(WeatherRecord::new(1, b"Clear".to_vec(), b"-".to_vec()).is_none());
    assert!(WeatherRecord::new(1, b"bad\x00byte".to_vec(), b"1".to_vec()).is_none());
    let built = WeatherRecord::new(9, b"Drizzle".to_vec(), b"12.75".to_vec()).unwrap();
    assert_eq!(built.id, 9);
    assert_eq!(built.description, b"Drizzle".to_vec());
    assert_eq!(built.temperature, b"12.75".to_vec());
}
