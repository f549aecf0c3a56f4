use std::collections::HashMap;

use log_archive::config::{end_of_symbol, until_eol, Configuration, Event};
use log_archive::processor::ConfigurableFilter;
use log_archive::splunk_server::SplunkServer;

#[test]
fn splunk_server_names_itself() {
    let s = SplunkServer::new("splunk".to_string());
    assert_eq!(s.human_name(), "splunk");
    assert!(s.mandatory_fields().is_empty());
}

#[test]
fn missing_fields_are_listed_in_order() {
    let s = SplunkServer::new("splunk".to_string());
    let mut m = HashMap::new();
    m.insert("port".to_string(), "8088".to_string());
    let r = s.requires_fields(&Some(m.clone()), vec!["cert", "port", "key"]);
    assert_eq!(r, Err(vec!["cert", "key"]));
    m.insert("cert".to_string(), "a.crt".to_string());
    m.insert("key".to_string(), "a.key".to_string());
    assert_eq!(s.requires_fields(&Some(m), vec!["cert", "port", "key"]), Ok(()));
}

#[test]
fn no_settings_lack_every_field() {
    let s = SplunkServer::new("splunk".to_string());
    assert_eq!(s.requires_fields(&None, vec!["a", "b"]), Err(vec!["a", "b"]));
    assert_eq!(s.requires_fields(&None, vec![]), Ok(()));
}

#[test]
fn configuration_and_event_hold_their_values() {
    let c = Configuration { inputs: vec![("splunk".to_string(), None)], outputs: vec![] };
    assert_eq!(c.inputs[0].0, "splunk");
    let e = Event { line: "l".to_string(), source: "stdout".to_string(), tag: "t".to_string(), attrs: None };
    assert_eq!(e.source, "stdout");
}

#[test]
fn symbol_characters() {
    assert!(end_of_symbol('a'));
    assert!(end_of_symbol('\u{1F4A9}'));
    assert!(!end_of_symbol('='));
    assert!(!end_of_symbol('#'));
    assert!(!end_of_symbol('{'));
    assert!(!end_of_symbol('\n'));
}

#[test]
fn until_eol_splits_blanks_and_comments() {
    assert_eq!(until_eol(""), None);
    assert_eq!(until_eol("   x"), Some(("x", "   ")));
    assert_eq!(until_eol("  \n  "), Some(("\n  ", "  ")));
    assert_eq!(until_eol("\t\t"), Some(("", "\t\t")));
    assert_eq!(
        until_eol("   # this is a sample comment\n# with multiline things\n  \t"),
        Some(("\n# with multiline things\n  \t", "   # this is a sample comment"))
    );
    assert_eq!(until_eol(" # \u{1F353} \n }"), Some(("\n }", " # \u{1F353} ")));
    assert_eq!(until_eol("splunk { }"), Some(("splunk { }", "")));
}
