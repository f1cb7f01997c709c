use std::io::{self, Write, Read};
use std::sync::mpsc;
use std::time::Duration;
use picilisp::io::{IoSender, IoReceiver, IoFailure, make_io, Message, bytes_message, end_message};

fn to_io_error(e: IoFailure) -> io::Error {
    match e {
        IoFailure::NotConnected => io::Error::new(io::ErrorKind::NotConnected, "the other end is gone"),
        IoFailure::TimedOut => io::Error::new(io::ErrorKind::TimedOut, "nothing came in time"),
    }
}

struct Writer(IoSender);

impl Write for Writer {
    fn write(&mut self, buf: &[u8]) -> io::Result<usize> {
        self.0.write(buf).map_err(to_io_error)
    }
    fn flush(&mut self) -> io::Result<()> {
        self.0.flush().map_err(to_io_error)
    }
}

struct Reader(IoReceiver);

impl Read for Reader {
    fn read(&mut self, buf: &mut [u8]) -> io::Result<usize> {
        let bytes = self.0.read(buf.len()).map_err(to_io_error)?;
        buf[0..bytes.len()].copy_from_slice(&bytes);
        Ok(bytes.len())
    }
}

fn pair(s: mpsc::Sender<picilisp::io::Message>, r: mpsc::Receiver<picilisp::io::Message>, timeout: Duration) -> (Writer, Reader) {
    (Writer(IoSender::new(s)), Reader(IoReceiver::new(r, timeout)))
}

#[test]
fn io_write_empty() {
    let (s, r) = mpsc::channel();
    let (mut sender, mut receiver) = pair(s, r, Duration::MAX);

    sender.write("".as_bytes()).unwrap();
    sender.flush().unwrap();

    let mut x = String::new();
    receiver.read_to_string(&mut x).unwrap();
    assert_eq!(x, "");
}

#[test]
fn io_write_short() {
    let (s, r) = mpsc::channel();
    let (mut sender, mut receiver) = pair(s, r, Duration::MAX);

    sender.write_all("abc".as_bytes()).unwrap();
    sender.flush().unwrap();

    let mut x = String::new();
    receiver.read_to_string(&mut x).unwrap();
    assert_eq!(x, "abc");
}

#[test]
fn io_write_long() {
    let (s, r) = mpsc::channel();
    let (mut sender, mut receiver) = pair(s, r, Duration::MAX);

    sender.write_all("aaaaaaaaaaaaaaaaaaaaaaaaaaaaaaaaaaaaaaaaaaaaaaaaaaaaaaaaaaaaaaaaaaaaaaaaaaaaaaaaaaaaaaaaaa".as_bytes()).unwrap();
    sender.flush().unwrap();

    let mut x = String::new();
    receiver.read_to_string(&mut x).unwrap();
    assert_eq!(x, "aaaaaaaaaaaaaaaaaaaaaaaaaaaaaaaaaaaaaaaaaaaaaaaaaaaaaaaaaaaaaaaaaaaaaaaaaaaaaaaaaaaaaaaaaa");
}

#[test]
fn io_write_multiple() {
    let (s, r) = mpsc::channel();
    let (mut sender, mut receiver) = pair(s, r, Duration::MAX);

    sender.write_all("abc".as_bytes()).unwrap();
    sender.write_all("abc".as_bytes()).unwrap();
    sender.write_all("abc".as_bytes()).unwrap();
    sender.flush().unwrap();

    let mut x = String::new();
    receiver.read_to_string(&mut x).unwrap();
    assert_eq!(x, "abcabcabc");
}

#[test]
fn io_write_unicode() {
    let (s, r) = mpsc::channel();
    let (mut sender, mut receiver) = pair(s, r, Duration::MAX);

    sender.write_all("鯨は海の中で住んでいる。".as_bytes()).unwrap();
    sender.flush().unwrap();

    let mut x = String::new();
    receiver.read_to_string(&mut x).unwrap();
    assert_eq!(x, "鯨は海の中で住んでいる。");
}

#[test]
fn io_invalid_unicode() {
    let (s, r) = mpsc::channel();
    let (mut sender, mut receiver) = pair(s, r, Duration::MAX);

    sender.write(&[91, 92, 93, 200, 201, 202, 203]).unwrap();
    sender.flush().unwrap();

    let mut x = String::new();
    assert!(receiver.read_to_string(&mut x).is_err());
}

#[test]
fn io_timeout() {
    let (_s, r) = mpsc::channel::<picilisp::io::Message>();
    let mut receiver = Reader(IoReceiver::new(r, Duration::from_millis(1)));

    let mut x = String::new();
    let err = receiver.read_to_string(&mut x);
    assert_eq!(err.err().unwrap().kind(), io::ErrorKind::TimedOut);
}

#[test]
fn io_make_io_connects_the_ends() {
    let (s, r) = make_io(Duration::MAX);
    let (mut sender, mut receiver) = (Writer(s), Reader(r));
    sender.write_all("hello".as_bytes()).unwrap();
    sender.flush().unwrap();
    let mut x = String::new();
    receiver.read_to_string(&mut x).unwrap();
    assert_eq!(x, "hello");
}

#[test]
fn io_reads_in_small_pieces() {
    let (s, r) = make_io(Duration::MAX);
    let (mut sender, mut receiver) = (s, r);
    sender.write(b"abcdef").unwrap();
    assert_eq!(receiver.read(4).unwrap(), b"abcd".to_vec());
    assert_eq!(receiver.read(4).unwrap(), b"ef".to_vec());
    sender.flush().unwrap();
    assert_eq!(receiver.read(4).unwrap(), Vec::<u8>::new());
}

#[test]
fn absorb_takes_what_came() {
    let (_s, mut r) = make_io(std::time::Duration::from_millis(10));
    let got = r.absorb(Ok(bytes_message(&[1u8, 2, 3, 4, 5])), 2).unwrap();
    assert_eq!(got, vec![1u8, 2]);
    assert_eq!(r.read(10).unwrap(), vec![3u8, 4, 5]);
    assert_eq!(r.absorb(Ok(end_message()), 3).unwrap(), Vec::<u8>::new());
    assert!(r.absorb(Err(IoFailure::TimedOut), 3).err().unwrap() == IoFailure::TimedOut);
    assert!(r.absorb(Err(IoFailure::NotConnected), 3).err().unwrap() == IoFailure::NotConnected);
    match bytes_message(&[9u8]) { Message::Bytes(v) => assert_eq!(v, vec![9u8]), Message::Eof => panic!("not bytes") }
}
