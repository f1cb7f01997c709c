//! Byte streams between threads: a sender that writes messages of bytes, and a receiver that
//! reads them back through a buffer.

use vstd::prelude::*;
use std::sync::mpsc::{Sender, Receiver, RecvTimeoutError};
use std::time::Duration;

verus! {

#[verifier::external_type_specification]
#[verifier::external_body]
#[verifier::reject_recursive_types(T)]
pub struct ExSender<T>(Sender<T>);

#[verifier::external_type_specification]
#[verifier::external_body]
#[verifier::reject_recursive_types(T)]
pub struct ExReceiver<T>(Receiver<T>);

/// What goes through the channel: some bytes, or the end of the stream.
pub enum Message {
    Bytes(Vec<u8>),
    Eof,
}

/// Why reading or writing failed.
#[derive(Debug, PartialEq, Eq, Clone, Copy, Structural)]
pub enum IoFailure {
    /// The other end of the channel is gone.
    NotConnected,
    /// Nothing came before the timeout.
    TimedOut,
}

/// A new channel (std's `mpsc::channel`).
#[verifier::external_body]
pub(crate) fn channel<T>() -> (Sender<T>, Receiver<T>) {
    std::sync::mpsc::channel()
}

/// Sends `message` (std's `Sender::send`): whether it was sent, which depends on whether the
/// receiving end still exists, so nothing is stated of it.
#[verifier::external_body]
pub(crate) fn send<T>(sender: &Sender<T>, message: T) -> (sent: bool) {
    sender.send(message).is_ok()
}

/// Waits for a message on the channel of `io` for at most its timeout (std's
/// `Receiver::recv_timeout` on `io`'s receiver and timeout): the message, `TimedOut` where none
/// came in time, `NotConnected` where the sending end is gone. Which of these comes depends on
/// the other thread, so nothing is stated of it.
#[verifier::external_body]
fn receive_within(io: &IoReceiver) -> (r: Result<Message, IoFailure>) {
    match io.receiver.recv_timeout(io.timeout) {
        Ok(m) => Ok(m),
        Err(RecvTimeoutError::Timeout) => Err(IoFailure::TimedOut),
        Err(RecvTimeoutError::Disconnected) => Err(IoFailure::NotConnected),
    }
}

/// The message that carries the bytes of `buf`.
pub fn bytes_message(buf: &[u8]) -> (m: Message)
    ensures
        m matches Message::Bytes(v) && v@ == buf@,
{
    let mut bytes: Vec<u8> = Vec::new();
    let mut k: usize = 0;
    while k < buf.len()
        invariant
            k <= buf@.len(),
            bytes@ == buf@.take(k as int),
        decreases buf@.len() - k,
    {
        bytes.push(buf[k]);
        k = k + 1;
        assert(bytes@ =~= buf@.take(k as int));
    }
    assert(bytes@ =~= buf@);
    Message::Bytes(bytes)
}

/// The message that ends the stream.
pub fn end_message() -> (m: Message)
    ensures
        m is Eof,
{
    Message::Eof
}

/// What reading at most `len` bytes gives when the buffer is empty and `m` is what came from the
/// channel: the first `len` bytes of a message of bytes (the others wait in the buffer), no bytes
/// at the end of the stream, or the failure.
pub open spec fn absorbs(old: Seq<u8>, m: Result<Message, IoFailure>, len: usize, new: Seq<u8>,
    r: Result<Vec<u8>, IoFailure>) -> bool
{
    match m {
        Ok(Message::Bytes(b)) => {
            let n = if len < b@.len() { len as int } else { b@.len() as int };
            r matches Ok(v) && v@ == b@.take(n) && new == b@.skip(n)
        },
        Ok(Message::Eof) => (r matches Ok(v) && v@.len() == 0) && new == old,
        Err(e) => r == Err::<Vec<u8>, IoFailure>(e) && new == old,
    }
}

/// The writing end: each write sends its bytes as one message, and a flush sends the end of the
/// stream.
pub struct IoSender {
    sender: Sender<Message>,
}

impl IoSender {
    /// The channel this end sends into.
    pub closed spec fn destination(&self) -> Sender<Message> {
        self.sender
    }

    /// The writing end that sends into `sender`.
    pub fn new(sender: Sender<Message>) -> (r: Self)
        ensures
            r.destination() == sender,
    {
        IoSender { sender }
    }

    /// Sends `buf` as one message (`bytes_message`): all of it is written, or the receiving end
    /// is gone.
    pub fn write(&mut self, buf: &[u8]) -> (r: Result<usize, IoFailure>)
        ensures
            final(self).destination() == old(self).destination(),
            r matches Ok(n) ==> n == buf@.len(),
            r matches Err(e) ==> e == IoFailure::NotConnected,
    {
        if send(&self.sender, bytes_message(buf)) {
            Ok(buf.len())
        } else {
            Err(IoFailure::NotConnected)
        }
    }

    /// Sends the end of the stream (`end_message`).
    pub fn flush(&mut self) -> (r: Result<(), IoFailure>)
        ensures
            final(self).destination() == old(self).destination(),
            r matches Err(e) ==> e == IoFailure::NotConnected,
    {
        if send(&self.sender, end_message()) {
            Ok(())
        } else {
            Err(IoFailure::NotConnected)
        }
    }
}

/// The reading end: the bytes of the last message that have not been read yet wait in a buffer.
pub struct IoReceiver {
    receiver: Receiver<Message>,
    buffer: Vec<u8>,
    timeout: Duration,
}

impl IoReceiver {
    /// The channel this end reads from.
    pub closed spec fn source(&self) -> Receiver<Message> {
        self.receiver
    }

    /// How long a read waits for the next message.
    pub closed spec fn patience(&self) -> Duration {
        self.timeout
    }

    /// The reading end that reads from `receiver`, waiting at most `timeout` for a message, with
    /// nothing buffered yet.
    pub fn new(receiver: Receiver<Message>, timeout: Duration) -> (r: Self)
        ensures
            r.buffered().len() == 0,
            r.source() == receiver,
            r.patience() == timeout,
    {
        IoReceiver { receiver, timeout, buffer: Vec::new() }
    }

    /// The bytes that wait to be read.
    pub closed spec fn buffered(&self) -> Seq<u8> {
        self.buffer@
    }

    /// Reads at most `len` bytes: those that wait in the buffer, else those of the next message
    /// that comes from the channel within the timeout (`absorb`). The end of the stream reads as
    /// no bytes.
    pub fn read(&mut self, len: usize) -> (r: Result<Vec<u8>, IoFailure>)
        ensures
            final(self).source() == old(self).source(),
            final(self).patience() == old(self).patience(),
            old(self).buffered().len() > 0 ==> ({
                let n = if len < old(self).buffered().len() { len as int } else { old(self).buffered().len() as int };
                &&& r matches Ok(v)
                &&& r->Ok_0@ == old(self).buffered().take(n)
                &&& final(self).buffered() == old(self).buffered().skip(n)
            }),
            old(self).buffered().len() == 0 ==> exists|m: Result<Message, IoFailure>|
                absorbs(old(self).buffered(), m, len, final(self).buffered(), r),
            r matches Ok(v) ==> v@.len() <= len,
    {
        if self.buffer.len() == 0 {
            let m = receive_within(self);
            let ghost gm = m;
            let r = self.absorb(m, len);
            proof { assert(absorbs(old(self).buffered(), gm, len, self.buffered(), r)); }
            return r;
        }
        Ok(take_front(&mut self.buffer, len))
    }

    /// Reads at most `len` bytes of `m`, what came from the channel while nothing waited in the
    /// buffer: see `absorbs`.
    pub fn absorb(&mut self, m: Result<Message, IoFailure>, len: usize) -> (r: Result<Vec<u8>, IoFailure>)
        requires
            old(self).buffered().len() == 0,
        ensures
            final(self).source() == old(self).source(),
            final(self).patience() == old(self).patience(),
            absorbs(old(self).buffered(), m, len, final(self).buffered(), r),
            r matches Ok(v) ==> v@.len() <= len,
    {
        match m {
            Ok(Message::Bytes(bytes)) => {
                self.buffer = bytes;
                Ok(take_front(&mut self.buffer, len))
            },
            Ok(Message::Eof) => Ok(Vec::new()),
            Err(e) => Err(e),
        }
    }
}

/// Takes at most `len` bytes from the front of `buffer`.
fn take_front(buffer: &mut Vec<u8>, len: usize) -> (r: Vec<u8>)
    ensures
        ({
            let n = if len < old(buffer)@.len() { len as int } else { old(buffer)@.len() as int };
            &&& r@ == old(buffer)@.take(n)
            &&& final(buffer)@ == old(buffer)@.skip(n)
        }),
{
    let n = if len < buffer.len() { len } else { buffer.len() };
    let mut front: Vec<u8> = Vec::new();
    let mut back: Vec<u8> = Vec::new();
    let mut k: usize = 0;
    while k < buffer.len()
        invariant
            n <= buffer@.len(),
            k <= buffer@.len(),
            front@ == buffer@.take(if k < n { k as int } else { n as int }),
            back@ == buffer@.subrange(if k < n { n as int } else { n as int }, if k < n { n as int } else { k as int }),
        decreases buffer@.len() - k,
    {
        if k < n {
            front.push(buffer[k]);
        } else {
            back.push(buffer[k]);
        }
        k = k + 1;
        assert(front@ =~= buffer@.take(if k < n { k as int } else { n as int }));
        assert(back@ =~= buffer@.subrange(n as int, if k < n { n as int } else { k as int }));
    }
    assert(back@ =~= buffer@.skip(n as int));
    *buffer = back;
    front
}

/// A connected pair of a sender and a receiver whose reads wait at most `timeout`.
pub fn make_io(timeout: Duration) -> (r: (IoSender, IoReceiver))
    ensures
        r.1.buffered().len() == 0,
        r.1.patience() == timeout,
{
    let (s, r) = channel();
    (IoSender::new(s), IoReceiver::new(r, timeout))
}

} // verus!
