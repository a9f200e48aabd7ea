use veisku::preamble::{decode_block, extract_block, read_md_preamble, PreambleError, PreambleScanner};

#[test]
fn test_read_md_preamble() {
    assert!(read_md_preamble(&b"no preamble"[..]).unwrap().is_none());

    read_md_preamble(&b"---\nval1: key1\n---\nbody"[..])
        .unwrap()
        .unwrap();
}

#[test]
fn block_text_comes_back_exactly() {
    let text = read_md_preamble(b"---\nval1: key1\n---\nbody").unwrap().unwrap();
    assert_eq!(text, "val1: key1");
    let mut long = b"---\ntitle: x\ntags: [a, b]\n---\n".to_vec();
    long.extend(std::iter::repeat(b'z').take(20000));
    let text = read_md_preamble(&long).unwrap().unwrap();
    assert_eq!(text, "title: x\ntags: [a, b]");
}

#[test]
fn block_with_empty_body() {
    let text = read_md_preamble(b"---\nk: v\n---\n").unwrap().unwrap();
    assert_eq!(text, "k: v");
}

#[test]
fn crlf_and_cr_delimiters() {
    let text = read_md_preamble(b"---\r\nk: v\r\n---\r\nbody").unwrap().unwrap();
    assert_eq!(text, "k: v");
    let text = read_md_preamble(b"---\rk: v\r---\rbody").unwrap().unwrap();
    assert_eq!(text, "k: v");
}

#[test]
fn mixed_line_endings_do_not_close() {
    assert_eq!(read_md_preamble(b"---\nk: v\r\n---\r\nbody").unwrap(), None);
}

#[test]
fn no_block_when_not_opened_or_never_closed() {
    assert_eq!(read_md_preamble(b"").unwrap(), None);
    assert_eq!(read_md_preamble(b"---\n").unwrap(), None);
    assert_eq!(read_md_preamble(b"# title\n---\nk: v\n---\n").unwrap(), None);
    assert_eq!(read_md_preamble(b"---\nk: v\nno closing line\n").unwrap(), None);
}

#[test]
fn invalid_utf8_block_is_an_encoding_error() {
    assert_eq!(
        read_md_preamble(b"---\nk: \xff\xfe\n---\nbody"),
        Err(PreambleError::Encoding)
    );
    assert_eq!(decode_block(Some(vec![0xc3])), Err(PreambleError::Encoding));
    assert_eq!(decode_block(Some("é".as_bytes().to_vec())), Ok(Some("é".to_string())));
}

#[test]
fn block_is_independent_of_chunk_size() {
    let content = b"---\nalpha: 1\nbeta: two\n---\nthe body\n---\nmore\n";
    let expected = b"alpha: 1\nbeta: two".to_vec();
    for chunk in 1..40 {
        assert_eq!(extract_block(content, chunk), Some(expected.clone()), "chunk {}", chunk);
    }
    let crlf = b"---\r\na: b\r\n---\r\nrest";
    for chunk in 1..12 {
        assert_eq!(extract_block(crlf, chunk), Some(b"a: b".to_vec()), "chunk {}", chunk);
    }
}

#[test]
fn scanner_fed_by_hand() {
    let mut sc = PreambleScanner::open(b"---\nk").unwrap();
    assert!(!sc.is_closed_now());
    assert!(!sc.feed(b": v\n-"));
    assert!(!sc.feed(b"-"));
    assert!(sc.feed(b"-\nbody"));
    assert_eq!(sc.into_block(), Some(b"k: v".to_vec()));
    assert!(PreambleScanner::open(b"--- \n").is_none());
    assert!(PreambleScanner::open(b"---").is_none());
}
