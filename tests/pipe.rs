use secure_js_sandbox::pipe::{StdinPipe, StdoutPipe};

#[test]
fn sink_collects_writes_in_order_and_drains() {
    let mut p = StdoutPipe::new();
    assert_eq!(p.write(b"hello "), 6);
    assert_eq!(p.write(b"world"), 5);
    p.flush();
    assert_eq!(p.read_all(), b"hello world".to_vec());
    assert_eq!(p.read_all(), Vec::<u8>::new());
}

#[test]
fn sink_decodes_utf8_and_is_empty_afterwards() {
    let mut p = StdoutPipe::new();
    p.write("héllo".as_bytes());
    assert_eq!(p.read_all_to_string().unwrap(), "héllo");
    assert_eq!(p.read_all_to_string().unwrap(), "");
}

#[test]
fn sink_rejects_invalid_utf8_and_still_drains() {
    let mut p = StdoutPipe::new();
    p.write(&[0x66, 0xff, 0x6f]);
    assert!(p.read_all_to_string().is_err());
    assert_eq!(p.read_all(), Vec::<u8>::new());
}

#[test]
fn source_reads_up_to_buffer_length() {
    let mut p = StdinPipe::new();
    p.write_str("abcde");
    let mut buf = [0u8; 3];
    assert_eq!(p.read(&mut buf), 3);
    assert_eq!(&buf, b"abc");
    let mut buf = [9u8; 4];
    assert_eq!(p.read(&mut buf), 2);
    assert_eq!(&buf, &[b'd', b'e', 9, 9]);
    assert_eq!(p.read(&mut buf), 0);
}

#[test]
fn source_keeps_successive_lines() {
    let mut p = StdinPipe::new();
    p.write(b"one\n");
    p.write_str("two\n");
    let mut buf = [0u8; 16];
    let n = p.read(&mut buf);
    assert_eq!(&buf[..n], b"one\ntwo\n");
}
