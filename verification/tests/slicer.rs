use haproxy::slicer::{nth_token, SliceError, Slicer};

#[test]
fn slice_to() {
    let mut slicer = Slicer::new(b"first.second");
    let consumed = slicer.slice_to(b'.').unwrap();
    assert_eq!(consumed, b"first");
    assert_eq!(slicer.buffer, b"second");
}

#[test]
fn slice_to_notfound() {
    let mut slicer = Slicer::new(b"first");
    let result = slicer.slice_to(b'.');
    assert_eq!(result.is_err(), true);
}

#[test]
fn slice_to_or_remainder_found() {
    let mut slicer = Slicer::new(b"part\"\n");
    let part = slicer.slice_to_or_remainder(b'"');
    assert_eq!(part, b"part");
    assert_eq!(slicer.buffer, b"\n");
}

#[test]
fn slice_to_or_remainder_notfound() {
    let mut slicer = Slicer::new(b"part");
    let part = slicer.slice_to_or_remainder(b'"');
    assert_eq!(part, b"part");
    assert_eq!(slicer.buffer, b"");
}

#[test]
fn discard() {
    let mut slicer = Slicer::new(b"first.second");
    slicer.discard(b"first.").unwrap();
    assert_eq!(slicer.buffer, b"second");
}

#[test]
fn discard_notfound() {
    let mut slicer = Slicer::new(b"second");
    let result = slicer.discard(b"first");
    assert_eq!(result.is_err(), true);
}

#[test]
fn slice_to_notfound_names_the_delimiter_and_keeps_the_cursor() {
    let mut slicer = Slicer::new(b"first");
    let result = slicer.slice_to(b'.');
    assert!(matches!(result, Err(SliceError::ExpectedToken(b'.'))));
    assert_eq!(slicer.buffer, b"first");
}

#[test]
fn discard_notfound_keeps_the_cursor() {
    let mut slicer = Slicer::new(b"second");
    let result = slicer.discard(b"sex");
    assert!(matches!(result, Err(SliceError::UnexpectedTokens)));
    assert_eq!(slicer.buffer, b"second");
}

#[test]
fn discard_longer_than_the_buffer() {
    let mut slicer = Slicer::new(b"ab");
    assert!(matches!(slicer.discard(b"abc"), Err(SliceError::UnexpectedTokens)));
    assert_eq!(slicer.buffer, b"ab");
}

#[test]
fn discard_nothing_consumes_nothing() {
    let mut slicer = Slicer::new(b"ab");
    slicer.discard(b"").unwrap();
    assert_eq!(slicer.buffer, b"ab");
}

#[test]
fn slice_to_stops_at_the_first_delimiter() {
    let mut slicer = Slicer::new(b"a.b.c");
    assert_eq!(slicer.slice_to(b'.').unwrap(), b"a");
    assert_eq!(slicer.slice_to(b'.').unwrap(), b"b");
    assert!(slicer.slice_to(b'.').is_err());
    assert_eq!(slicer.buffer, b"c");
}

#[test]
fn slice_to_delimiter_first_and_last() {
    let mut slicer = Slicer::new(b".");
    assert_eq!(slicer.slice_to(b'.').unwrap(), b"");
    assert_eq!(slicer.buffer, b"");
    assert!(slicer.slice_to(b'.').is_err());
}

#[test]
fn slices_borrow_from_the_buffer_not_from_the_cursor() {
    let buffer = b"key=value".to_vec();
    let key = {
        let mut slicer = Slicer::new(&buffer);
        slicer.slice_to(b'=').unwrap()
    };
    assert_eq!(key, b"key");
    assert_eq!(key.as_ptr(), buffer.as_ptr());
}

#[test]
fn slice_error_messages() {
    assert_eq!(SliceError::ExpectedToken(b'.').message(), "expected '46'");
    assert_eq!(SliceError::ExpectedToken(0).message(), "expected '0'");
    assert_eq!(SliceError::ExpectedToken(255).message(), "expected '255'");
    assert_eq!(SliceError::UnexpectedTokens.message(), "unexpected tokens");
}

#[test]
fn nth_token_of_pieces() {
    assert_eq!(nth_token(b"a|bc|", b'|', 0).unwrap(), b"a");
    assert_eq!(nth_token(b"a|bc|", b'|', 1).unwrap(), b"bc");
    assert_eq!(nth_token(b"a|bc|", b'|', 2).unwrap(), b"");
    assert!(nth_token(b"a|bc|", b'|', 3).is_none());
    assert_eq!(nth_token(b"", b'|', 0).unwrap(), b"");
    assert!(nth_token(b"", b'|', 1).is_none());
    assert_eq!(nth_token(b"abc", b'|', 0).unwrap(), b"abc");
}

#[test]
fn nth_token_agrees_with_split() {
    let texts: [&[u8]; 6] = [b"", b" ", b"GET / HTTP/1.1", b"  a  ", b"a b", b"abc"];
    for text in texts {
        for n in 0..6 {
            assert_eq!(nth_token(text, b' ', n), text.split(|&c| c == b' ').nth(n));
        }
    }
}
