//! Configuration tests: the sectioned file parser and the server
//! options built from it.

use wserver::config_error::ErrorKind as CfgErrorKind;
use wserver::config_file::{remove_quotes, ConfigFile, SectionBuilder};
use wserver::options::{parse_u64, ErrorKind as OptErrorKind, HttpOptions};

#[test]
fn remove_quotes_strips_one_pair() {
    assert_eq!(remove_quotes(b"\"abc\""), b"abc".to_vec());
    assert_eq!(remove_quotes(b"'abc'"), b"abc".to_vec());
    assert_eq!(remove_quotes(b"\"abc'"), b"\"abc'".to_vec());
    assert_eq!(remove_quotes(b"plain"), b"plain".to_vec());
    assert_eq!(remove_quotes(b"\""), b"\"".to_vec());
    assert_eq!(remove_quotes(b"\"\""), b"".to_vec());
}

#[test]
fn section_builder_collects_pairs() {
    let mut b = SectionBuilder::new(b"demo".to_vec());
    b.add_keypair(b"k".to_vec(), b"v1".to_vec());
    b.add_keypair(b"k".to_vec(), b"v2".to_vec());
    let s = b.build();
    assert_eq!(s.name, b"demo".to_vec());
    assert_eq!(s.keys.get(b"k"), Some(&b"v2".to_vec()));
}

#[test]
fn parse_source_reads_sections() {
    let text = b"# a comment\n[global]\naddress: \"127.0.0.1:8080\"\ndir: './www'\n\n[redirects]\n/a -> /b\n";
    let cfg = ConfigFile::parse_source(text).expect("config should parse");
    let sections = cfg.sections();
    assert_eq!(sections.len(), 2);
    assert_eq!(sections[0].name, b"global".to_vec());
    assert_eq!(sections[0].keys.get(b"address"), Some(&b"127.0.0.1:8080".to_vec()));
    assert_eq!(sections[0].keys.get(b"dir"), Some(&b"./www".to_vec()));
    assert_eq!(sections[1].name, b"redirects".to_vec());
    assert_eq!(sections[1].keys.get(b"/a"), Some(&b"/b".to_vec()));
}

#[test]
fn parse_source_keeps_the_last_section() {
    let cfg = ConfigFile::parse_source(b"[one]\n[two]\nx: 1\n").unwrap();
    assert_eq!(cfg.sections().len(), 2);
    assert_eq!(cfg.sections()[1].name, b"two".to_vec());
}

#[test]
fn pair_outside_section_is_refused() {
    let e = ConfigFile::parse_source(b"key: value\n").unwrap_err();
    assert_eq!(e.kind, CfgErrorKind::InvalidKey);
}

#[test]
fn comment_only_and_blank_lines_are_skipped() {
    let cfg = ConfigFile::parse_source(b"\n# only a comment\n\n").unwrap();
    assert_eq!(cfg.sections().len(), 0);
}

#[test]
fn parse_u64_reads_digits_only() {
    assert_eq!(parse_u64(b"0"), Some(0));
    assert_eq!(parse_u64(b"1234"), Some(1234));
    assert_eq!(parse_u64(b"18446744073709551615"), Some(u64::MAX));
    assert_eq!(parse_u64(b"18446744073709551616"), None);
    assert_eq!(parse_u64(b""), None);
    assert_eq!(parse_u64(b"12a"), None);
    assert_eq!(parse_u64(b"-1"), None);
}

#[test]
fn options_defaults() {
    let o = HttpOptions::default();
    assert_eq!(o.directory, b"./src".to_vec());
    assert_eq!(o.index_file, b"index.html".to_vec());
    assert_eq!(o.client_limit, 128);
    assert_eq!(o.keep_alive_secs, 10);
    assert_eq!(o.hosts, vec![b"127.0.0.1:8080".to_vec()]);
}

#[test]
fn options_parse_overrides_defaults() {
    let text = b"[defaults]\ndirectory: \"/srv/www\"\nindex_file: home.html\nclient_limit: 64\nkeep_alive: 7\n[hosts]\n0.0.0.0:80\n[redirects]\n/x -> /y\n[routes]\n/old -> /new\n[forward]\n/api -> 10.0.0.1:9000\n";
    let o = HttpOptions::parse_source(text).expect("options should parse");
    assert_eq!(o.directory, b"/srv/www".to_vec());
    assert_eq!(o.index_file, b"home.html".to_vec());
    assert_eq!(o.client_limit, 64);
    assert_eq!(o.keep_alive_secs, 7);
    // The extra host displaces the default one.
    assert_eq!(o.hosts, vec![b"0.0.0.0:80".to_vec()]);
    assert_eq!(o.redirects.get(b"/x"), Some(&b"/y".to_vec()));
    assert_eq!(o.routes.get(b"/old"), Some(&b"/new".to_vec()));
    assert_eq!(o.forward.get(b"/api"), Some(&b"10.0.0.1:9000".to_vec()));
}

#[test]
fn options_keep_default_host_without_others() {
    let o = HttpOptions::parse_source(b"[defaults]\nkeep_alive: 3\n").unwrap();
    assert_eq!(o.hosts, vec![b"127.0.0.1:8080".to_vec()]);
}

#[test]
fn options_bad_section_header() {
    let e = HttpOptions::parse_source(b"[broken\n").unwrap_err();
    assert_eq!(e.kind, OptErrorKind::BadSection);
}

#[test]
fn options_entry_before_section() {
    let e = HttpOptions::parse_source(b"directory: /x\n").unwrap_err();
    assert_eq!(e.kind, OptErrorKind::MissingSection);
}

#[test]
fn options_unknown_section() {
    let e = HttpOptions::parse_source(b"[nope]\nx: y\n").unwrap_err();
    assert_eq!(e.kind, OptErrorKind::UnknownSection);
}

#[test]
fn options_unknown_default_entry() {
    let e = HttpOptions::parse_source(b"[defaults]\ncolour: red\n").unwrap_err();
    assert_eq!(e.kind, OptErrorKind::UnknownEntry);
}

#[test]
fn options_bad_number() {
    let e = HttpOptions::parse_source(b"[defaults]\nclient_limit: lots\n").unwrap_err();
    assert_eq!(e.kind, OptErrorKind::ParseIntError);
}

#[test]
fn options_entry_without_delimiter() {
    let e = HttpOptions::parse_source(b"[defaults]\nnodelimiter\n").unwrap_err();
    assert_eq!(e.kind, OptErrorKind::IOError);
}
