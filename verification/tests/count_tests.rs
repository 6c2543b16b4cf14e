use tc::count::binary;
use tc::count::hyperscreamingcount;
use tc::count::utf8;
use tc::count::Error;

fn reader_text() -> Vec<u8> {
    let text = "hello\u{1F680}\u{1F680}\u{1F680}\u{1F680}\u{1F680}\u{1F680}\u{1F680}\u{1F680}\u{1F680}\u{1F680}\u{1F680}\u{1F680} hello world 12345\n67890\u{1F680} \u{1F680} \u{1F680} \u{1F680}";
    text.as_bytes().to_vec()
}

#[test]
fn binary_reader_has_correct_counts() {
    let text = reader_text();
    let (bytes, words, lines) = binary(&text, 10);
    assert_eq!(
        96, bytes,
        "expected byte count does not match actual byte count"
    );
    assert_eq!(
        8, words,
        "expected word count does not match actual word count"
    );
    assert_eq!(
        1, lines,
        "expected line count does not match actual line count"
    );
}

#[test]
fn utf8_reader_has_correct_counts() {
    let text = reader_text();
    let (bytes, chars, words, lines) = utf8(&text, 10).unwrap();
    assert_eq!(
        96, bytes,
        "expected byte count does not match actual byte count"
    );
    assert_eq!(
        48, chars,
        "expected char count does not match actual char count"
    );
    assert_eq!(
        8, words,
        "expected word count does not match actual word count"
    );
    assert_eq!(
        1, lines,
        "expected line count does not match actual line count"
    );
}

#[test]
fn hyperscreamingcount_has_correct_counts() {
    let text = reader_text();
    let (bytes, lines) = hyperscreamingcount(&text, 10);
    assert_eq!(
        96, bytes,
        "expected byte count does not match actual byte count"
    );
    assert_eq!(
        1, lines,
        "expected line count does not match actual line count"
    );
}

#[test]
fn word_split_across_chunks() {
    let text: Vec<u8> = b"ab cd".to_vec();
    let (_, words_tiny, _) = binary(&text, 1);
    let (_, words_big, _) = binary(&text, 1024);
    assert_eq!(2, words_tiny);
    assert_eq!(2, words_big);
}

#[test]
fn scalar_split_across_chunks() {
    let text = "\u{1F680}".as_bytes().to_vec();
    assert_eq!(4, text.len());
    for chunk in 1..=text.len() {
        let (bytes, chars, words, lines) = utf8(&text, chunk).unwrap();
        assert_eq!(4, bytes);
        assert_eq!(1, chars);
        assert_eq!(1, words);
        assert_eq!(0, lines);
    }
}

#[test]
fn counts_without_trailing_newline() {
    let text: Vec<u8> = b"hello world 12345\n67890".to_vec();
    let (bytes, words, lines) = binary(&text, 7);
    assert_eq!(23, bytes);
    assert_eq!(4, words);
    assert_eq!(1, lines);
    let (bytes, chars, words, lines) = utf8(&text, 7).unwrap();
    assert_eq!(23, bytes);
    assert_eq!(23, chars);
    assert_eq!(4, words);
    assert_eq!(1, lines);
}

#[test]
fn invalid_bytes_fail_only_when_decoding() {
    let text: Vec<u8> = vec![0xFF, 0xFE];
    assert_eq!(Err(Error::NotUtf8EncodedFile), utf8(&text, 1024));
    let (bytes, _, _) = binary(&text, 1024);
    assert_eq!(2, bytes);
}

#[test]
fn truncated_scalar_at_end_fails() {
    // a valid lead byte whose sequence the stream never completes
    let text: Vec<u8> = vec![b'a', 0xC3];
    assert_eq!(Err(Error::NotUtf8EncodedFile), utf8(&text, 1));
    assert_eq!(Err(Error::NotUtf8EncodedFile), utf8(&text, 1024));
}

#[test]
fn overlong_encoding_fails() {
    // 0xC0 0xAF would be an overlong encoding of '/'
    let text: Vec<u8> = vec![0xC0, 0xAF];
    assert_eq!(Err(Error::NotUtf8EncodedFile), utf8(&text, 1024));
}

#[test]
fn empty_input_counts_zero() {
    let text: Vec<u8> = Vec::new();
    assert_eq!((0, 0, 0), binary(&text, 1024));
    assert_eq!(Ok((0, 0, 0, 0)), utf8(&text, 1024));
    assert_eq!((0, 0), hyperscreamingcount(&text, 1024));
}

#[test]
fn fast_path_matches_binary_lines() {
    let text: Vec<u8> = b"one\ntwo\nthree\n\n".to_vec();
    for chunk in [1usize, 2, 3, 7, 1024] {
        let (bytes_fast, lines_fast) = hyperscreamingcount(&text, chunk);
        let (bytes_raw, _, lines_raw) = binary(&text, chunk);
        assert_eq!(bytes_fast, bytes_raw);
        assert_eq!(lines_fast, lines_raw);
        assert_eq!(4, lines_fast);
    }
}

#[test]
fn binary_counts_independent_of_chunk_size() {
    let text: Vec<u8> = b"lorem ipsum\ndolor sit amet\n\nconsectetur adipiscing elit".to_vec();
    let reference = binary(&text, 1);
    assert_eq!(text.len(), reference.0);
    for chunk in [2usize, 3, 5, 11, 64, 4096] {
        assert_eq!(reference, binary(&text, chunk));
    }
}

#[test]
fn utf8_counts_independent_of_chunk_size() {
    let text = "caf\u{E9} au lait\nth\u{E9} \u{1F680}\n".as_bytes().to_vec();
    let reference = utf8(&text, 1);
    for chunk in [2usize, 3, 5, 11, 64, 4096] {
        assert_eq!(reference, utf8(&text, chunk));
    }
}

#[test]
fn ascii_input_gives_path_parity() {
    let text: Vec<u8> = b" several words\tsplit by  blanks\nand two\nlines\n".to_vec();
    let (b_bytes, b_words, b_lines) = binary(&text, 9);
    let (u_bytes, u_chars, u_words, u_lines) = utf8(&text, 9).unwrap();
    assert_eq!(b_bytes, u_bytes);
    assert_eq!(b_bytes, u_chars);
    assert_eq!(b_words, u_words);
    assert_eq!(b_lines, u_lines);
}
