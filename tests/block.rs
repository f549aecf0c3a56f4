use log_archive::block::{LogFile, ReadError};
use log_archive::matcher::Needle;

fn block_bytes(rows: &[Vec<&str>]) -> Vec<u8> {
    let mut message = capnp::message::Builder::new_default();
    {
        let mut list = message
            .initn_root::<capnp::list_list::Builder<capnp::text_list::Owned>>(rows.len() as u32);
        for (i, row) in rows.iter().enumerate() {
            let mut cells = list.reborrow().init(i as u32, row.len() as u32);
            for (j, c) in row.iter().enumerate() {
                cells.set(j as u32, *c);
            }
        }
    }
    let mut out = Vec::new();
    capnp::serialize_packed::write_message(&mut out, &message).unwrap();
    out
}

fn log_file(rows: &[Vec<&str>]) -> LogFile {
    LogFile { fname: "block.capnp".to_string(), content: block_bytes(rows) }
}

fn http_block() -> LogFile {
    let mut rows = Vec::new();
    for _ in 0..5 {
        rows.push(vec!["1462290089642521", "web", "stdout", "GET /a HTTP/1.0"]);
    }
    for _ in 0..3 {
        rows.push(vec!["1462290089643815", "web", "stdout", "POST /b HTTP/1.0"]);
    }
    log_file(&rows)
}

#[test]
fn literal_find_counts_get_and_put() {
    let f = http_block();
    assert_eq!(f.find("stdout", "GET"), 5);
    assert_eq!(f.find("stdout", "PUT"), 0);
    assert_eq!(f.find("stdout", "POST"), 3);
    assert_eq!(f.find("stdout", "HTTP/1.0"), 8);
}

#[test]
fn literal_find_is_case_sensitive() {
    let f = http_block();
    assert_eq!(f.find("stdout", "get"), 0);
}

#[test]
fn uniform_block_round_trip_counts_every_entry() {
    let k = 7;
    let rows: Vec<Vec<&str>> = (0..k).map(|_| vec!["10", "fac", "f", "needle value"]).collect();
    let f = log_file(&rows);
    assert_eq!(f.find("f", "needle value"), k as u64);
    assert!(matches!(f.rfind("f", "needle value"), Ok(7)));
}

#[test]
fn missing_field_counts_zero() {
    let f = http_block();
    assert_eq!(f.find("nope", "GET"), 0);
    assert!(matches!(f.rfind("nope", "GET"), Ok(0)));
}

#[test]
fn invalid_regex_is_a_pattern_error() {
    let f = http_block();
    match f.rfind("stdout", "(unclosed") {
        Err(e) => assert_eq!(e.pattern, "(unclosed"),
        Ok(_) => panic!("an invalid regex must not count"),
    }
}

#[test]
fn regex_find_counts_matches() {
    let f = http_block();
    assert!(matches!(f.rfind("stdout", "^GET /a"), Ok(5)));
    assert!(matches!(f.rfind("stdout", "P(OS|U)T"), Ok(3)));
    assert!(matches!(f.rfind("stdout", "^HTTP"), Ok(0)));
}

#[test]
fn garbage_bytes_do_not_decode() {
    let f = LogFile { fname: "junk".to_string(), content: vec![0xff, 0x01, 0x02] };
    assert!(matches!(f.decode(), Err(ReadError::Proto(_))));
    assert!(f.get_stats().is_err());
    assert_eq!(f.find("stdout", "GET"), 0);
    let empty = LogFile { fname: "empty".to_string(), content: vec![] };
    assert!(empty.decode().is_err());
}

#[test]
fn row_without_timestamp_is_malformed() {
    let f = log_file(&[vec!["10", "fac"], vec!["not a number", "fac"]]);
    assert!(matches!(f.decode(), Err(ReadError::Malformed)));
    let g = log_file(&[vec!["10"]]);
    assert!(matches!(g.decode(), Err(ReadError::Malformed)));
}

#[test]
fn decoded_entry_fields() {
    let f = log_file(&[vec!["1462290089642521", "Test Facility", "stdout", "hello", "tag", "x"]]);
    let b = match f.decode() {
        Ok(b) => b,
        Err(_) => panic!("block should decode"),
    };
    assert_eq!(b.entries.len(), 1);
    assert_eq!(b.entries[0].time, 1462290089642521);
    assert_eq!(b.entries[0].facility, "Test Facility");
    assert_eq!(b.entries[0].facets.len(), 2);
    assert_eq!(b.entries[0].facets[1], ("tag".to_string(), "x".to_string()));
}

#[test]
fn key_without_value_leaves_entry_without_facets() {
    let f = log_file(&[vec!["5", "fac", "stdout", "GET", "dangling"]]);
    let b = match f.decode() {
        Ok(b) => b,
        Err(_) => panic!("block should decode"),
    };
    assert_eq!(b.entries[0].facets.len(), 0);
    assert_eq!(f.find("stdout", "GET"), 0);
}

#[test]
fn first_duplicate_facet_wins() {
    let f = log_file(&[vec!["1", "fac", "k", "first", "k", "second"]]);
    assert_eq!(f.find("k", "first"), 1);
    assert_eq!(f.find("k", "second"), 0);
}

#[test]
fn block_stats_describe_the_file() {
    let f = http_block();
    let st = match f.get_stats() {
        Ok(s) => s,
        Err(_) => panic!("block should decode"),
    };
    assert_eq!(st.fname, "block.capnp");
    assert_eq!(st.size_bytes, f.content.len());
    assert_eq!(st.line_count, 8);
}

#[test]
fn reader_options_raise_the_traversal_limit() {
    let f = http_block();
    let ro = f.reader_options();
    assert_eq!(ro.traversal_limit_in_words, Some(20000000));
    assert_eq!(ro.nesting_limit, 64);
}

#[test]
fn gen_find_with_prepared_needle() {
    let f = http_block();
    let n = match Needle::new("/b", false) {
        Ok(n) => n,
        Err(_) => panic!("literal needles always build"),
    };
    assert_eq!(f.gen_find("stdout", &n), 3);
    assert!(n.accepts_value("xx/byy"));
    assert!(!n.accepts_value("/a"));
    assert!(Needle::new("[", true).is_err());
    assert!(Needle::new("[", false).is_ok());
}
