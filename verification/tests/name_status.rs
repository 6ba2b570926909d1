//! Reading the output of `git diff --name-status -z`.

use agent_mail_guard::name_status::{
    fuzz_parse_name_status_z, parse_name_status_z, NameStatusStream,
};

#[test]
fn parse_name_status_simple() {
    let raw = b"A\0file.py\0M\0other.py\0";
    let paths = parse_name_status_z(raw).expect("parse");
    assert_eq!(paths, vec!["file.py", "other.py"]);
}

#[test]
fn parse_name_status_rename() {
    let raw = b"R100\0old.py\0new.py\0";
    let paths = parse_name_status_z(raw).expect("parse");
    assert_eq!(paths, vec!["old.py", "new.py"]);
}

#[test]
fn parse_name_status_mixed() {
    let raw = b"A\0added.py\0R050\0old.py\0new.py\0D\0deleted.py\0";
    let paths = parse_name_status_z(raw).expect("parse");
    assert_eq!(paths, vec!["added.py", "old.py", "new.py", "deleted.py"]);
}

#[test]
fn parse_name_status_empty() {
    let paths = parse_name_status_z(b"").expect("parse");
    assert_eq!(paths, [] as [std::string::String; 0]);
}

#[test]
fn parse_name_status_incomplete_rename() {
    let raw = b"R100\0old.rs\0";
    let paths = parse_name_status_z(raw).expect("parse");
    assert!(paths.is_empty() || paths == vec!["old.rs"]);
}

#[test]
fn parse_name_status_unknown_status() {
    let raw = b"X\0mystery.rs\0A\0known.rs\0";
    let paths = parse_name_status_z(raw).expect("parse");
    assert!(
        paths.contains(&"known.rs".to_string()),
        "known.rs should be parsed after unknown status"
    );
}

#[test]
fn parse_name_status_trailing_nuls() {
    let raw = b"M\0src/lib.rs\0\0\0";
    let paths = parse_name_status_z(raw).expect("parse");
    assert_eq!(paths, vec!["src/lib.rs"]);
}

#[test]
fn parse_name_status_copy_entry() {
    let raw = b"C100\0original.rs\0copy.rs\0";
    let paths = parse_name_status_z(raw).expect("parse");
    assert_eq!(paths.len(), 2);
    assert!(paths.contains(&"original.rs".to_string()));
    assert!(paths.contains(&"copy.rs".to_string()));
}

#[test]
fn parse_name_status_all_status_types() {
    let raw = b"A\0added.rs\0M\0modified.rs\0D\0deleted.rs\0T\0typechange.rs\0U\0unmerged.rs\0";
    let paths = parse_name_status_z(raw).expect("parse");
    assert_eq!(paths.len(), 5);
}

#[test]
fn bytes_that_are_no_text_are_replaced() {
    let paths = parse_name_status_z(b"A\0a\xffb\0M\0\xc3\xa4.txt\0").expect("parse");
    assert_eq!(paths, vec!["a\u{fffd}b", "\u{e4}.txt"]);
    assert_eq!(fuzz_parse_name_status_z(b"A\0a\xffb\0").expect("parse"), vec!["a\u{fffd}b"]);
}

#[test]
fn name_status_stream_matches_batch_parser_at_every_chunk_boundary() {
    let raw =
        b"A\0src/a.rs\0M\0src/b.rs\0R100\0old.rs\0new.rs\0MA\0m.txt\0C75\0x\0y\0D\0gone.rs";
    let expected = parse_name_status_z(raw).expect("batch parse");
    assert_eq!(expected.len(), 8, "sanity: {expected:?}");

    for chunk in 1..=raw.len() {
        let mut stream = NameStatusStream::default();
        for piece in raw.chunks(chunk) {
            assert!(stream.feed(piece, None));
        }
        assert!(!stream.capped);
        assert_eq!(stream.paths, expected[..expected.len() - 1], "chunk size {chunk}");
        assert_eq!(stream.records, 6, "chunk size {chunk}");
    }
}

#[test]
fn name_status_stream_stops_at_the_record_cap() {
    let raw = b"A\0one\0R100\0two-old\0two-new\0M\0three\0M\0four\0";
    let mut stream = NameStatusStream::default();
    let keep_going = stream.feed(&raw[..], Some(2));
    assert!(!keep_going);
    assert!(stream.capped);
    assert_eq!(stream.records, 2);
    assert_eq!(stream.paths, vec!["one", "two-old", "two-new"]);
    assert!(!stream.feed(b"M\0five\0", Some(2)));
    assert_eq!(stream.paths.len(), 3);
}

#[test]
fn name_status_stream_ignores_empty_status_tokens() {
    let mut stream = NameStatusStream::default();
    assert!(stream.feed(b"\0\0A\0keep\0\0", None));
    assert_eq!(stream.paths, vec!["keep"]);
    assert_eq!(stream.records, 1);
}

#[test]
fn a_stream_of_a_whole_output_finds_its_paths() {
    let raw: &[u8] = b"A\0one\0R100\0old\0new\0\0M\0three\0";
    let mut stream = NameStatusStream::default();
    assert!(stream.feed(raw, None));
    assert_eq!(stream.paths, parse_name_status_z(raw).expect("parse"));
}

#[test]
fn a_cap_of_zero_reads_nothing() {
    let mut stream = NameStatusStream::default();
    assert!(!stream.feed(b"A\0one\0", Some(0)));
    assert!(stream.paths.is_empty());
}

#[test]
fn broken_characters_end_at_the_nul_byte() {
    let outputs: [&[u8]; 7] = [
        b"M\0a\xff.txt\0",
        b"M\0\xe2\x82\0A\0ok\0",
        b"R100\0\xf0\x9f\0\x80new\0",
        b"\xc3\0p\0M\0q\xc3",
        b"C75\0\xed\xa0\x80\0\xc0\xaf\0",
        b"\xff\xfe\0\xf4\x90\x80\x80\0D\0x\0",
        b"M\0\xe2\x82\xac\0",
    ];
    for raw in outputs {
        let text = String::from_utf8_lossy(raw).into_owned();
        let whole = parse_name_status_z(raw).expect("paths");
        assert_eq!(whole, parse_name_status_z(text.as_bytes()).expect("paths"), "{raw:?}");
        if raw.last() == Some(&0) {
            for cut in 0..=raw.len() {
                let mut stream = NameStatusStream::default();
                assert!(stream.feed(&raw[..cut], None));
                assert!(stream.feed(&raw[cut..], None));
                assert_eq!(stream.paths, whole, "{raw:?} cut at {cut}");
            }
        }
    }
}

#[test]
fn feeding_only_adds_and_a_capped_stream_stays_as_it_is() {
    let mut stream = NameStatusStream::default();
    assert!(stream.feed(b"A\0a\0M\0", Some(2)));
    assert_eq!(stream.paths, vec!["a"]);
    assert!(stream.feed(b"\0", Some(2)), "an empty path is dropped");
    assert_eq!(stream.paths, vec!["a"]);
    assert!(!stream.feed(b"D\0d\0", Some(2)));
    assert_eq!((stream.records, stream.capped), (2, true));
    let tail = stream.tail.clone();
    assert!(!stream.feed(b"e\0A\0f\0", None));
    assert_eq!((stream.records, stream.capped), (2, true));
    assert_eq!(stream.paths, vec!["a"]);
    assert_eq!(stream.tail, tail);
}
