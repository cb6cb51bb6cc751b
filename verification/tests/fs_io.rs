use backtrace::fileio::mkfifo;
use backtrace::fileio::MemFile;

#[test]
fn read_vectored_at() {
    let msg = b"preadv is working!";
    let file = MemFile::new(msg.to_vec());

    let mut iovec = vec![vec![0u8; 4], vec![0u8; 3]];

    let n = file.read_vectored_at(&mut iovec, 4);

    assert!(n == 4 || n == 7);
    assert_eq!(iovec[0], b"dv i");

    if n == 7 {
        assert_eq!(iovec[1], b"s w");
    }
}

#[test]
fn write_vectored_at() {
    let msg = b"pwritev is not working!";
    let mut file = MemFile::new(msg.to_vec());

    let expected = {
        let buf0 = b"    ".to_vec();
        let buf1 = b"great  ".to_vec();

        let iovec = vec![buf0, buf1];

        let n = file.write_vectored_at(&iovec, 11);

        assert!(n == 4 || n == 11);

        if n == 4 {
            b"pwritev is     working!".to_vec()
        } else {
            b"pwritev is     great  !".to_vec()
        }
    };

    let content = file.read();
    assert_eq!(content, expected);
}

#[test]
fn test_mkfifo() {
    let mut fifo = mkfifo();

    let mut wx = &mut fifo;
    wx.write_all(b"hello, world!");

    let mut s = String::new();
    let n = fifo.read_to_string(&mut s);

    assert_eq!(n, Some(13));
    assert_eq!(s, "hello, world!");
}

#[test]
fn read_vectored_past_end() {
    let file = MemFile::new(b"abc".to_vec());
    let mut iovec = vec![vec![0u8; 8]];
    let n = file.read_vectored_at(&mut iovec, 10);
    assert_eq!(n, 0);
    assert_eq!(iovec[0], vec![0u8; 8]);
}

#[test]
fn write_vectored_extends_file() {
    let mut file = MemFile::new(b"ab".to_vec());
    let iovec = vec![b"XY".to_vec()];
    let n = file.write_vectored_at(&iovec, 4);
    assert_eq!(n, 2);
    assert_eq!(file.read(), b"ab\0\0XY".to_vec());
}

#[test]
fn fifo_refuses_invalid_utf8() {
    let mut fifo = mkfifo();
    fifo.write_all(&[0x68, 0xff, 0xfe]);
    let mut s = String::new();
    let n = fifo.read_to_string(&mut s);
    assert_eq!(n, None);
    assert_eq!(s, "");
}
