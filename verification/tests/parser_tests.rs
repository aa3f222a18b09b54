use depstatus::error::Error;
use depstatus::parser::{parse, ParseResult, Parser};

fn pkt(line: &str) -> Vec<u8> {
    let mut out = format!("{:04x}", line.len() + 4).into_bytes();
    out.extend_from_slice(line.as_bytes());
    out
}

fn flush() -> Vec<u8> {
    b"0000".to_vec()
}

const HEAD_OID: &str = "990fa3a054f979b66989c79df21b8c71d8eb946f";

/// A ref advertisement carrying 53 refs, the first of them `HEAD`.
fn payload() -> Vec<u8> {
    let mut body = Vec::new();
    body.extend_from_slice(&pkt("# service=git-upload-pack\n"));
    body.extend_from_slice(&flush());
    body.extend_from_slice(&pkt(&format!(
        "{} HEAD\0multi_ack thin-pack side-band side-band-64k\n",
        HEAD_OID
    )));
    for i in 0..52 {
        let oid = format!("{:040x}", 0x1234u64 + i);
        body.extend_from_slice(&pkt(&format!("{} refs/heads/branch{}\n", oid, i)));
    }
    body.extend_from_slice(&flush());
    body
}

#[test]
fn parse_payload() {
    let refs = parse(&payload()).unwrap();

    assert_eq!(refs.len(), 53);
    assert_eq!(refs[0].name, "HEAD");
    assert_eq!(refs[0].oid.as_ref(), HEAD_OID);
}

/// Drive the incremental decoder over chunks of the given size.
fn parse_chunked(data: &[u8], chunk: usize) -> Result<Vec<depstatus::Ref>, Error> {
    let mut parser = Parser::new();
    let mut buf: Vec<u8> = Vec::new();
    let mut refs = Vec::new();
    let mut pos = 0;
    loop {
        loop {
            match parser.update(&mut buf) {
                ParseResult::Yield(r) => refs.push(r),
                ParseResult::Incomplete => break,
                ParseResult::End => return Ok(refs),
                ParseResult::Error(e) => return Err(e),
            }
        }
        if pos >= data.len() {
            parser.finalize()?;
            return Ok(refs);
        }
        let end = (pos + chunk).min(data.len());
        buf.extend_from_slice(&data[pos..end]);
        pos = end;
    }
}

#[test]
fn chunked_feeding_equals_whole_feeding() {
    let data = payload();
    let whole = parse(&data).unwrap();
    for chunk in [1, 2, 3, 7, 128, data.len()] {
        let chunked = parse_chunked(&data, chunk).unwrap();
        assert_eq!(chunked.len(), whole.len());
        for (a, b) in whole.iter().zip(chunked.iter()) {
            assert_eq!(a.name, b.name);
            assert_eq!(a.oid.as_ref(), b.oid.as_ref());
        }
    }
}

#[test]
fn finalize_fails_before_two_lines() {
    let mut data = pkt("# service=git-upload-pack\n");
    data.extend_from_slice(&flush());
    let mut parser = Parser::new();
    loop {
        match parser.update(&mut data) {
            ParseResult::Incomplete => break,
            ParseResult::Yield(_) | ParseResult::End => panic!("nothing should be yielded"),
            ParseResult::Error(e) => panic!("unexpected error: {:?}", e),
        }
    }
    assert!(matches!(
        parser.finalize(),
        Err(Error::UnexpectedEndOfPayload)
    ));
}

#[test]
fn finalize_fails_on_empty_stream() {
    let mut parser = Parser::new();
    assert!(matches!(
        parser.finalize(),
        Err(Error::UnexpectedEndOfPayload)
    ));
}

#[test]
fn finalize_succeeds_after_empty_list() {
    let mut data = pkt("# service=git-upload-pack\n");
    data.extend_from_slice(&pkt("capabilities-without-nul\n"));
    let mut parser = Parser::new();
    let mut ended = false;
    loop {
        match parser.update(&mut data) {
            ParseResult::End => {
                ended = true;
                break;
            }
            ParseResult::Incomplete => break,
            ParseResult::Yield(_) => panic!("empty list must not yield refs"),
            ParseResult::Error(e) => panic!("unexpected error: {:?}", e),
        }
    }
    assert!(ended);
    assert!(parser.finalize().is_ok());
}

#[test]
fn empty_list_parses_to_no_refs() {
    let mut data = pkt("# service=git-upload-pack\n");
    data.extend_from_slice(&pkt("capabilities-without-nul\n"));
    let refs = parse(&data).unwrap();
    assert_eq!(refs.len(), 0);
}

#[test]
fn length_prefix_0003_is_a_line_length_error() {
    let data = b"0003".to_vec();
    assert!(matches!(parse(&data), Err(Error::InvalidLineLength)));
}

#[test]
fn non_hex_length_prefix_is_an_integer_error() {
    let data = b"zzzz".to_vec();
    match parse(&data) {
        Err(Error::ParseInt(s)) => assert_eq!(s, "zzzz"),
        other => panic!("expected an integer format error, got {:?}", other),
    }
}

#[test]
fn non_utf8_length_prefix_is_a_text_error() {
    let data = vec![0xff, 0xfe, 0xff, 0xff];
    assert!(matches!(parse(&data), Err(Error::Utf8)));
}

#[test]
fn non_utf8_line_is_a_text_error() {
    let mut data = b"0009".to_vec();
    data.extend_from_slice(&[0xff, 0xff, 0xff, 0xff, 0x0a]);
    assert!(matches!(parse(&data), Err(Error::FromUtf8)));
}

#[test]
fn wrong_service_line_is_rejected() {
    let data = pkt("# service=git-receive-pack\n");
    match parse(&data) {
        Err(Error::InvalidLine(s)) => assert_eq!(s, "# service=git-receive-pack"),
        other => panic!("expected an invalid line error, got {:?}", other),
    }
}

#[test]
fn ref_line_without_space_is_rejected() {
    let mut data = pkt("# service=git-upload-pack\n");
    data.extend_from_slice(&pkt(&format!("{} HEAD\0caps\n", HEAD_OID)));
    data.extend_from_slice(&pkt("no-space-in-this-line\n"));
    assert!(matches!(parse(&data), Err(Error::InvalidLine(_))));
}

#[test]
fn separators_inside_the_stream_are_skipped() {
    let mut data = pkt("# service=git-upload-pack\n");
    data.extend_from_slice(&flush());
    data.extend_from_slice(b"0004");
    data.extend_from_slice(&pkt(&format!("{} HEAD\0caps\n", HEAD_OID)));
    data.extend_from_slice(&pkt(&format!("{} refs/heads/main\n", HEAD_OID)));
    data.extend_from_slice(&flush());
    let refs = parse(&data).unwrap();
    assert_eq!(refs.len(), 2);
    assert_eq!(refs[0].name, "HEAD");
    assert_eq!(refs[1].name, "refs/heads/main");
}
