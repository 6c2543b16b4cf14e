use tc::count::files;
use tc::count::Context;
use tc::count::Count as CountRecord;
use tc::count::Error;
use tc::count::Source;
use tc::count::SourceData;
use tc::select_strategy;
use tc::Config;
use tc::Strategy;

fn sample_count() -> CountRecord {
    CountRecord {
        context: Context::File {
            path: String::from("sample"),
        },
        bytes: Some(120),
        chars: None,
        words: Some(7),
        lines: Some(3),
    }
}

#[test]
fn config_to_vec_lists_requested_metrics() {
    let all = Config {
        bytes: true,
        chars: true,
        words: true,
        lines: true,
    };
    assert_eq!(vec!["bytes", "chars", "words", "lines"], all.to_vec());
    let some = Config {
        bytes: false,
        chars: true,
        words: false,
        lines: true,
    };
    assert_eq!(vec!["chars", "lines"], some.to_vec());
    let none = Config {
        bytes: false,
        chars: false,
        words: false,
        lines: false,
    };
    assert!(none.to_vec().is_empty());
}

#[test]
fn counts_vec_skips_absent_metrics() {
    assert_eq!(vec![120, 7, 3], sample_count().to_counts_vec());
}

#[test]
fn str_vec_renders_name_and_decimals() {
    let expected = vec![
        String::from("sample"),
        String::from("120"),
        String::from("7"),
        String::from("3"),
    ];
    assert_eq!(expected, sample_count().to_str_vec());
}

#[test]
fn groupname_is_the_path() {
    assert_eq!("sample", sample_count().groupname());
}

#[test]
fn strategy_table_is_exhaustive_and_ordered() {
    // rule 1: a byte-only request on a file bypasses scanning
    assert_eq!(
        Strategy::Metadata,
        select_strategy(true, false, false, false, true)
    );
    // no metadata for a generic stream
    assert_eq!(
        Strategy::Binary,
        select_strategy(true, false, false, false, false)
    );
    // rule 2: chars force the decoding path, whatever else is requested
    assert_eq!(
        Strategy::Utf8,
        select_strategy(true, true, true, true, true)
    );
    assert_eq!(
        Strategy::Utf8,
        select_strategy(false, true, false, false, false)
    );
    // rule 3: lines without words take the fast path
    assert_eq!(
        Strategy::FastLines,
        select_strategy(true, false, false, true, true)
    );
    assert_eq!(
        Strategy::FastLines,
        select_strategy(false, false, false, true, false)
    );
    // rule 4: everything else scans raw bytes
    assert_eq!(
        Strategy::Binary,
        select_strategy(false, false, true, true, true)
    );
    assert_eq!(
        Strategy::Binary,
        select_strategy(false, false, false, false, false)
    );
}

#[test]
fn unreadable_source_reports_io_error() {
    let src = Source {
        path: String::from("missing"),
        data: SourceData::Unreadable,
    };
    let config = Config {
        bytes: true,
        chars: false,
        words: false,
        lines: false,
    };
    assert_eq!(Err(Error::Io), tc::count::file(&src, &config));
}

#[test]
fn one_bad_source_does_not_abort_the_batch() {
    let sources = vec![
        Source {
            path: String::from("first"),
            data: SourceData::Content(b"one two\n".to_vec()),
        },
        Source {
            path: String::from("second"),
            data: SourceData::Unreadable,
        },
        Source {
            path: String::from("third"),
            data: SourceData::Content(vec![0xFF]),
        },
        Source {
            path: String::from("fourth"),
            data: SourceData::Content(b"three\n".to_vec()),
        },
    ];
    let config = Config {
        bytes: true,
        chars: true,
        words: true,
        lines: true,
    };
    let results = files(&sources, &config);
    assert_eq!(4, results.len());
    let first = results[0].as_ref().unwrap();
    assert_eq!(Some(8), first.bytes);
    assert_eq!(Some(2), first.words);
    assert_eq!(Some(1), first.lines);
    assert!(matches!(results[1], Err(Error::Io)));
    assert!(matches!(results[2], Err(Error::NotUtf8EncodedFile)));
    let fourth = results[3].as_ref().unwrap();
    assert_eq!(Some(6), fourth.bytes);
    assert_eq!(Some(1), fourth.words);
    assert_eq!(Some(1), fourth.lines);
}

#[test]
fn invalid_encoding_only_when_chars_requested() {
    let src = Source {
        path: String::from("binary blob"),
        data: SourceData::Content(vec![0xFF, 0xFE]),
    };
    let with_chars = Config {
        bytes: false,
        chars: true,
        words: false,
        lines: false,
    };
    assert_eq!(Err(Error::NotUtf8EncodedFile), tc::count::file(&src, &with_chars));
    let bytes_only = Config {
        bytes: true,
        chars: false,
        words: false,
        lines: false,
    };
    let count = tc::count::file(&src, &bytes_only).unwrap();
    assert_eq!(Some(2), count.bytes);
    assert_eq!(None, count.chars);
}

#[test]
fn absent_flags_leave_counts_absent() {
    let src = Source {
        path: String::from("some text"),
        data: SourceData::Content(b"a b c\n".to_vec()),
    };
    let config = Config {
        bytes: false,
        chars: false,
        words: true,
        lines: false,
    };
    let count = tc::count::file(&src, &config).unwrap();
    assert_eq!(None, count.bytes);
    assert_eq!(None, count.chars);
    assert_eq!(Some(3), count.words);
    assert_eq!(None, count.lines);
}

#[test]
fn decimal_rendering_is_exact() {
    let c = CountRecord {
        context: Context::File {
            path: String::from("edge"),
        },
        bytes: Some(0),
        chars: Some(10),
        words: Some(305),
        lines: Some(usize::MAX),
    };
    let rendered = c.to_str_vec();
    assert_eq!("edge", rendered[0]);
    assert_eq!("0", rendered[1]);
    assert_eq!("10", rendered[2]);
    assert_eq!("305", rendered[3]);
    assert_eq!(usize::MAX.to_string(), rendered[4]);
}
