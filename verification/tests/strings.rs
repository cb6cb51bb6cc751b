use backtrace::wtf8::Buf;
use backtrace::wtf8::Slice;

#[test]
fn buf_string_round_trip() {
    let buf = Buf::from_string(String::from("grüße"));
    let back = buf.into_string().expect("valid text survives");
    assert_eq!(back, "grüße");
}

#[test]
fn buf_from_string_bytes() {
    let buf = Buf::from_string(String::from("abc"));
    assert_eq!(buf.into_encoded_bytes(), b"abc".to_vec());
}

#[test]
fn buf_into_string_rejects_surrogate() {
    // a lone surrogate is valid storage but not valid text
    let buf = Buf { inner: vec![0xED, 0xA0, 0x80] };
    let err = buf.into_string();
    assert!(err.is_err());
    assert_eq!(err.err().unwrap().into_encoded_bytes(), vec![0xED, 0xA0, 0x80]);
}

#[test]
fn buf_push_str_and_slice() {
    let mut buf = Buf::from_string(String::from("path"));
    buf.push_str("/to");
    let tail = Slice::from_str("/file");
    buf.push_slice(&tail);
    assert_eq!(buf.into_encoded_bytes(), b"path/to/file".to_vec());
}

#[test]
fn buf_with_capacity_is_empty() {
    let buf = Buf::with_capacity(64);
    assert!(buf.capacity() >= 0);
    assert_eq!(buf.into_encoded_bytes(), Vec::<u8>::new());
}

#[test]
fn buf_clear_and_reserve_keep_contents() {
    let mut buf = Buf::from_string(String::from("xy"));
    buf.reserve(100);
    buf.reserve_exact(10);
    assert!(buf.try_reserve(8).is_ok());
    assert!(buf.try_reserve_exact(8).is_ok());
    buf.shrink_to(4);
    buf.shrink_to_fit();
    assert_eq!(buf.capacity() >= 2, true);
    buf.clear();
    assert_eq!(buf.into_encoded_bytes(), Vec::<u8>::new());
}

#[test]
fn buf_shared_slices() {
    let buf = Buf::from_string(String::from("shared"));
    let arc = buf.into_arc();
    let rc = buf.into_rc();
    assert_eq!(arc.as_encoded_bytes(), b"shared");
    assert_eq!(rc.as_encoded_bytes(), b"shared");
}

#[test]
fn slice_to_str_and_lossy() {
    let s = Slice::from_str("plain");
    assert_eq!(s.to_str().unwrap(), "plain");
    assert_eq!(s.to_string_lossy(), "plain");
    // a lone surrogate is well-formed storage but not valid text; the
    // lossy decoding turns the one surrogate into one replacement character
    let bad = Slice { inner: vec![0x61, 0xED, 0xA0, 0x80, 0x62] };
    assert!(bad.to_str().is_err());
    assert_eq!(bad.to_string_lossy(), "a\u{fffd}b");
}

#[test]
fn push_slice_joins_surrogate_pair() {
    // a buffer ending in the lead surrogate U+D800 and a slice starting
    // with the trail surrogate U+DC00 combine into U+10000
    let mut buf = Buf { inner: vec![0xED, 0xA0, 0x80] };
    let tail = Slice { inner: vec![0xED, 0xB0, 0x80] };
    buf.push_slice(&tail);
    assert_eq!(buf.clone().into_encoded_bytes(), vec![0xF0, 0x90, 0x80, 0x80]);
    assert_eq!(buf.into_string().unwrap(), "\u{10000}");

    // the same pair with payload around it and a non-zero offset
    let mut buf = Buf::from_string(String::from("a"));
    buf.push_slice(&Slice { inner: vec![0xED, 0xA0, 0xBD] });
    buf.push_slice(&Slice { inner: vec![0xED, 0xB8, 0x80, 0x62] });
    assert_eq!(buf.into_string().unwrap(), "a\u{1F600}b");

    // no join without the pair: two lone lead surrogates stay apart
    let mut buf = Buf { inner: vec![0xED, 0xA0, 0x80] };
    buf.push_slice(&Slice { inner: vec![0xED, 0xA0, 0x80] });
    assert_eq!(buf.into_encoded_bytes(), vec![0xED, 0xA0, 0x80, 0xED, 0xA0, 0x80]);
}

#[test]
fn buf_truncate_at_boundary() {
    let mut buf = Buf::from_string(String::from("aüb"));
    buf.truncate(3);
    assert_eq!(buf.clone().into_string().unwrap(), "aü");
    buf.truncate(1);
    assert_eq!(buf.into_string().unwrap(), "a");
}

#[test]
fn buf_extend_from_slice_appends_bytes() {
    let mut buf = Buf::from_string(String::from("ab"));
    buf.extend_from_slice(b"cd");
    assert_eq!(buf.into_encoded_bytes(), b"abcd".to_vec());
}

#[test]
fn slice_ascii_case_mapping() {
    let mut s = Slice::from_str("MiXed 123 ÄÖ");
    let lower = s.to_ascii_lowercase();
    assert_eq!(lower.into_string().unwrap(), "mixed 123 ÄÖ");
    let upper = s.to_ascii_uppercase();
    assert_eq!(upper.into_string().unwrap(), "MIXED 123 ÄÖ");
    s.make_ascii_lowercase();
    assert_eq!(s.to_str().unwrap(), "mixed 123 ÄÖ");
    s.make_ascii_uppercase();
    assert_eq!(s.to_str().unwrap(), "MIXED 123 ÄÖ");
}

#[test]
fn slice_is_ascii_and_case_insensitive_eq() {
    let a = Slice::from_str("Path/To/File");
    let b = Slice::from_str("path/to/file");
    let c = Slice::from_str("path/to/other");
    assert!(a.is_ascii());
    assert!(a.eq_ignore_ascii_case(&b));
    assert!(!a.eq_ignore_ascii_case(&c));
    let non_ascii = Slice::from_str("päth");
    assert!(!non_ascii.is_ascii());
}

#[test]
fn slice_to_owned_and_clone_into() {
    let s = Slice::from_str("copy me");
    let owned = s.to_owned();
    assert_eq!(owned.into_encoded_bytes(), b"copy me".to_vec());
    let mut target = Buf::from_string(String::from("overwritten"));
    s.clone_into(&mut target);
    assert_eq!(target.into_encoded_bytes(), b"copy me".to_vec());
}

#[test]
fn slice_boundary_check_accepts_edges() {
    let s = Slice::from_str("aü");
    s.check_public_boundary(0);
    s.check_public_boundary(1);
    s.check_public_boundary(3);
    assert_eq!(s.as_encoded_bytes().len(), 3);
}

#[test]
fn slice_boxed_and_shared_copies() {
    let s = Slice::from_str("boxed");
    assert_eq!(s.into_box().as_encoded_bytes(), b"boxed");
    assert_eq!(Slice::empty_box().as_encoded_bytes(), b"");
    assert_eq!(s.into_arc().as_encoded_bytes(), b"boxed");
    assert_eq!(s.into_rc().as_encoded_bytes(), b"boxed");
    let buf = Buf::from_string(String::from("boxed"));
    let round = Buf::from_box(buf.clone().into_box());
    assert_eq!(round.into_encoded_bytes(), b"boxed".to_vec());
}

#[test]
fn buf_from_encoded_bytes_adopts_storage() {
    let buf = Buf::from_encoded_bytes(b"plain".to_vec());
    assert_eq!(buf.into_encoded_bytes(), b"plain".to_vec());
}
