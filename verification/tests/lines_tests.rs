use gen_ammo::{filter_lines, get_lines_count, process_lines, Chained, GenericReader, ReadByLine};

#[test]
fn proc_lines() {
    let mut buf: Vec<u8> = Vec::new();
    buf.extend_from_slice(b"line one\n");
    buf.extend_from_slice(b"line two\n");
    buf.extend_from_slice(b"line three\n");
    let res = process_lines(&buf);
    assert_eq!(res[0], b"line one".to_vec());
    assert_eq!(res[1], b"line two".to_vec());
    assert_eq!(res[2], b"line three".to_vec());
}

#[test]
fn proc_lines_gz() {
    let gz: Vec<u8> = vec![
        0x1f, 0x8b, 0x8, 0x8, 0xa3, 0x9b, 0x6e, 0x58, 0x0, 0x3, 0x31, 0x2e, 0x74, 0x78, 0x74,
        0x0, 0xcb, 0xc9, 0xcc, 0x4b, 0x55, 0xc8, 0xcf, 0x4b, 0xe5, 0xca, 0x1, 0x31, 0x4a, 0xca,
        0xf3, 0xa1, 0x8c, 0x8c, 0xa2, 0xd4, 0x54, 0x2e, 0x0, 0x2e, 0x18, 0x8f, 0x57, 0x1d, 0x0,
        0x0, 0x0,
    ];
    let res = process_lines(&gz);
    assert_eq!(res[0], b"line one".to_vec());
    assert_eq!(res[1], b"line two".to_vec());
    assert_eq!(res[2], b"line three".to_vec());
}

#[test]
fn gzip_and_plain_agree() {
    // The same three lines as the gzip stream above, fed as plain text.
    let plain = process_lines(b"line one\nline two\nline three\n");
    let gz: Vec<u8> = vec![
        0x1f, 0x8b, 0x8, 0x8, 0xa3, 0x9b, 0x6e, 0x58, 0x0, 0x3, 0x31, 0x2e, 0x74, 0x78, 0x74,
        0x0, 0xcb, 0xc9, 0xcc, 0x4b, 0x55, 0xc8, 0xcf, 0x4b, 0xe5, 0xca, 0x1, 0x31, 0x4a, 0xca,
        0xf3, 0xa1, 0x8c, 0x8c, 0xa2, 0xd4, 0x54, 0x2e, 0x0, 0x2e, 0x18, 0x8f, 0x57, 0x1d, 0x0,
        0x0, 0x0,
    ];
    let unzipped = process_lines(&gz);
    assert_eq!(plain, unzipped);
}

#[test]
fn trailing_newlines_all_stripped() {
    let res = process_lines(b"abc\n\n\ndef");
    assert_eq!(res.len(), 4);
    assert_eq!(res[0], b"abc".to_vec());
    assert_eq!(res[1], b"".to_vec());
    assert_eq!(res[2], b"".to_vec());
    assert_eq!(res[3], b"def".to_vec());
    for line in &res {
        assert!(!line.contains(&b'\n'));
    }
}

#[test]
fn chained_sources_keep_order() {
    let c = Chained {
        sources: vec![
            GenericReader { data: b"one\ntwo\n".to_vec() },
            GenericReader { data: b"three".to_vec() },
        ],
    };
    let lines = c.lines();
    assert_eq!(lines.len(), 3);
    assert_eq!(lines[0], b"one".to_vec());
    assert_eq!(lines[1], b"two".to_vec());
    assert_eq!(lines[2], b"three".to_vec());
    let through_trait = c.process_lines();
    assert_eq!(through_trait, lines);
}

#[test]
fn filter_aux_requests() {
    let content = b"line one\nline two\nline three\nhttp://you.ru?subrequest=1\nhttp://example.com?subrequest=1\nrep-outgoing=1\nline six";
    let lines = process_lines(content);
    let kept = filter_lines(&lines);
    assert_eq!(kept.len(), 4);
}

#[test]
fn simple_run() {
    let content = b"one\ntwo\nthree";
    let c = Chained { sources: vec![GenericReader { data: content.to_vec() }] };
    let lines = c.lines();
    assert_eq!(lines.len(), 3);
    assert_eq!(get_lines_count(&c), 3);
}
