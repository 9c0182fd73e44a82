use kv::log::{contains, get, load_map};
use kv::{line_error, read_err, set_record, split_key_value, unset_record, validate_key, write_err, Error};

fn lines(records: &[&str]) -> Vec<String> {
    records.iter().map(|r| r.to_string()).collect()
}

fn as_line(record: String) -> String {
    assert!(record.ends_with('\n'));
    record.trim_end_matches('\n').to_string()
}

#[test]
fn validate_key_test() {
    assert_eq!(Ok(""), validate_key(""));
    assert_eq!(Ok("key"), validate_key("key"));
    assert_eq!(Ok("key with spaces"), validate_key("key with spaces"));
    assert!(validate_key("this,is,a,bad,key").is_err());
    assert!(validate_key("this is\nalso bad").is_err());
}

#[test]
fn separator_test() {
    assert_eq!(Ok(("a", "b")), split_key_value("a,b", 0));
    assert_eq!(Ok(("a", "b,c")), split_key_value("a,b,c", 0));
}

#[test]
fn validator_accepts_the_whole_class() {
    assert!(validate_key("09AZaz :/.").is_ok());
    for bad in [",", "\n", "\t", "-", "_", "é", "a\rb", "x=y"] {
        assert_eq!(validate_key(bad), Err(Error::InvalidKey(bad.to_string())));
    }
}

#[test]
fn split_without_comma_names_the_line() {
    assert_eq!(
        split_key_value("garbage", 7),
        Err(Error::Read("Invalid data as line 7: `garbage`".to_string()))
    );
    assert_eq!(split_key_value(",", 0), Ok(("", "")));
    assert_eq!(split_key_value("k,", 0), Ok(("k", "")));
}

#[test]
fn error_constructors() {
    assert_eq!(line_error(0, "x"), Error::Read("Invalid data as line 0: `x`".to_string()));
    assert_eq!(line_error(1203, ""), Error::Read("Invalid data as line 1203: ``".to_string()));
    assert_eq!(read_err("eof".to_string()), Error::Read("eof".to_string()));
    assert_eq!(write_err("full".to_string()), Error::Write("full".to_string()));
}

#[test]
fn set_record_text() {
    assert_eq!(set_record("k", "\"v\"").unwrap(), "k,\"v\"\n");
    assert_eq!(set_record("", "1").unwrap(), ",1\n");
    assert_eq!(set_record("k", "\"a,b\"").unwrap(), "k,\"a,b\"\n");
}

#[test]
fn unset_record_writes_null() {
    assert_eq!(unset_record("key").unwrap(), "key,null\n");
    assert_eq!(unset_record("a b"), Ok("a b,null\n".to_string()));
}

#[test]
fn invalid_key_is_reported() {
    assert_eq!(set_record("bad,key", "\"x\""), Err(Error::InvalidKey("bad,key".to_string())));
    assert_eq!(unset_record("bad,key"), Err(Error::InvalidKey("bad,key".to_string())));
    let log = lines(&["k,1"]);
    assert_eq!(get(&log, "a\nb"), Err(Error::InvalidKey("a\nb".to_string())));
    assert_eq!(contains(&log, "a,b"), Err(Error::InvalidKey("a,b".to_string())));
}

#[test]
fn set_then_get_round_trip() {
    let log = vec![as_line(set_record("k", "\"v\"").unwrap())];
    assert_eq!(get(&log, "k"), Ok(Some("\"v\"".to_string())));
    assert_eq!(get(&log, "other"), Ok(None));
}

#[test]
fn set_then_get_ignores_other_keys() {
    let mut log = lines(&["k,1", "j,2"]);
    log.push(as_line(set_record("k", "3").unwrap()));
    log.push(as_line(set_record("x", "4").unwrap()));
    log.push(as_line(unset_record("y").unwrap()));
    assert_eq!(get(&log, "k"), Ok(Some("3".to_string())));
}

#[test]
fn overwrite_keeps_last() {
    let log = lines(&["k,\"a\"", "k,\"b\""]);
    assert_eq!(get(&log, "k"), Ok(Some("\"b\"".to_string())));
    assert_eq!(load_map(&log), Ok(vec![("k".to_string(), "\"b\"".to_string())]));
}

#[test]
fn tombstone_removes_key() {
    let mut log = vec![as_line(set_record("k", "\"hello\"").unwrap())];
    assert_eq!(contains(&log, "k"), Ok(true));
    log.push(as_line(unset_record("k").unwrap()));
    assert_eq!(contains(&log, "k"), Ok(false));
    assert_eq!(get(&log, "k"), Ok(None));
    assert_eq!(load_map(&log), Ok(vec![]));
    assert_eq!(log.len(), 2);
}

#[test]
fn value_with_embedded_comma() {
    let record = set_record("k", "\"a,b\"").unwrap();
    assert_eq!(record, "k,\"a,b\"\n");
    let log = vec![as_line(record)];
    assert_eq!(get(&log, "k"), Ok(Some("\"a,b\"".to_string())));
}

#[test]
fn last_write_wins_over_a_series() {
    let base = lines(&["k,1"]);
    let mut log = base.clone();
    for v in ["2", "3"] {
        log.push(as_line(set_record("k", v).unwrap()));
    }
    assert_eq!(get(&log, "k"), Ok(Some("3".to_string())));
    log.push(as_line(unset_record("k").unwrap()));
    assert_eq!(get(&log, "k"), Ok(None));
    log.push(as_line(set_record("k", "4").unwrap()));
    assert_eq!(get(&log, "k"), Ok(Some("4".to_string())));
}

#[test]
fn compatibility_example_folds() {
    let log = lines(&["foo,\"hello\"", "bar,42", "foo,null", "baz,{\"n\":1}"]);
    let mut map = load_map(&log).unwrap();
    map.sort();
    assert_eq!(
        map,
        vec![
            ("bar".to_string(), "42".to_string()),
            ("baz".to_string(), "{\"n\":1}".to_string()),
        ]
    );
    assert_eq!(get(&log, "foo"), Ok(None));
    assert_eq!(get(&log, "baz"), Ok(Some("{\"n\":1}".to_string())));
    assert_eq!(contains(&log, "bar"), Ok(true));
}

#[test]
fn load_map_agrees_with_get() {
    let log = lines(&["a,1", "b,2", "a,null", "c,3", "b,4", "a,5", "c,null"]);
    let map = load_map(&log).unwrap();
    for key in ["a", "b", "c", "d"] {
        let from_map = map.iter().find(|(k, _)| k == key).map(|(_, v)| v.clone());
        assert_eq!(from_map, get(&log, key).unwrap());
    }
    assert_eq!(map.len(), 2);
}

#[test]
fn malformed_line_stops_the_scan() {
    let log = lines(&["garbage"]);
    let err = Error::Read("Invalid data as line 0: `garbage`".to_string());
    assert_eq!(get(&log, "k"), Err(err.clone()));
    assert_eq!(contains(&log, "k"), Err(err.clone()));
    assert_eq!(load_map(&log), Err(err));
    let log = lines(&["a,1", "b,2", "partial", "also bad"]);
    assert_eq!(
        load_map(&log),
        Err(Error::Read("Invalid data as line 2: `partial`".to_string()))
    );
}

#[test]
fn empty_log_and_empty_key() {
    let log: Vec<String> = Vec::new();
    assert_eq!(get(&log, "k"), Ok(None));
    assert_eq!(contains(&log, ""), Ok(false));
    assert_eq!(load_map(&log), Ok(vec![]));
    let log = vec![as_line(set_record("", "7").unwrap())];
    assert_eq!(get(&log, ""), Ok(Some("7".to_string())));
}

#[test]
fn error_messages() {
    assert_eq!(Error::Read("x".to_string()).message(), "Unable to read record: x");
    assert_eq!(Error::Write("y".to_string()).message(), "Unable to write record: y");
    assert_eq!(
        Error::InvalidKey("a,b".to_string()).message(),
        "Key `a,b` contains invalid characters"
    );
}

#[test]
fn many_writes_agree_with_a_reference_map() {
    let mut reference: std::collections::HashMap<String, String> = std::collections::HashMap::new();
    let mut log: Vec<String> = Vec::new();
    let mut seed: u64 = 0x2545_f491_4f6c_dd1d;
    for _ in 0..3000 {
        seed = seed.wrapping_mul(6364136223846793005).wrapping_add(1442695040888963407);
        let key = format!("key{}", (seed >> 33) % 400);
        let value = format!("{}", (seed >> 20) % 256);
        log.push(as_line(set_record(&key, &value).unwrap()));
        reference.insert(key, value);
    }
    let mut map = load_map(&log).unwrap();
    map.sort();
    let mut expected: Vec<(String, String)> = reference.clone().into_iter().collect();
    expected.sort();
    assert_eq!(map, expected);
    for (key, value) in reference.iter().take(50) {
        assert_eq!(get(&log, key), Ok(Some(value.clone())));
    }
}
