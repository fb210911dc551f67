//! A connection without its socket: the bytes that have arrived and are
//! not yet decoded, and the bytes of replies that are not yet sent. Whoever
//! owns the socket feeds in what it reads and sends what it takes out.

use crate::resp::decode::decode_message;
use crate::resp::value::Value;
use crate::resp::wire::{parse, wire, ProtocolError};
use bytes::BytesMut;
use vstd::prelude::*;
use vstd::slice::slice_to_vec;

verus! {

/// `bytes::BytesMut`, a growable buffer of bytes, known by what it holds.
#[verifier::external_type_specification]
#[verifier::external_body]
pub struct ExBytesMut(BytesMut);

/// The bytes that a buffer holds, in order.
pub uninterp spec fn buffered(buffer: BytesMut) -> Seq<u8>;

/// `BytesMut::with_capacity`: an empty buffer.
pub assume_specification[ BytesMut::with_capacity ](capacity: usize) -> (buffer: BytesMut)
    requires
        capacity <= isize::MAX,
    ensures
        buffered(buffer) == Seq::<u8>::empty(),
;

/// `BytesMut::extend_from_slice`: the bytes of `extend` are appended. The
/// crate documents a panic where the new capacity overflows `usize`.
pub assume_specification[ BytesMut::extend_from_slice ](buffer: &mut BytesMut, extend: &[u8])
    requires
        buffered(*old(buffer)).len() + extend@.len() <= usize::MAX,
    ensures
        buffered(*final(buffer)) == buffered(*old(buffer)) + extend@,
;

/// `BytesMut::split_to`: the first `at` bytes are returned, the rest stay.
/// It panics where `at` is more than the buffer holds.
pub assume_specification[ BytesMut::split_to ](buffer: &mut BytesMut, at: usize) -> (head:
    BytesMut)
    requires
        at <= buffered(*old(buffer)).len(),
    ensures
        buffered(head) == buffered(*old(buffer)).subrange(0, at as int),
        buffered(*final(buffer)) == buffered(*old(buffer)).skip(at as int),
;

/// `BytesMut::as_ref`: the bytes that the buffer holds, as a slice.
pub assume_specification<'a>[ <BytesMut as AsRef<[u8]>>::as_ref ](buffer: &'a BytesMut) -> (bytes:
    &'a [u8])
    ensures
        bytes@ == buffered(*buffer),
;

/// The two queues of a connection.
pub struct Connection {
    inbox: BytesMut,
    outbox: BytesMut,
}

/// The mathematical content of a [`Connection`].
pub struct ConnectionView {
    /// The bytes that have arrived and are not yet decoded.
    pub incoming: Seq<u8>,
    /// The bytes of replies that are not yet sent.
    pub outgoing: Seq<u8>,
}

impl View for Connection {
    type V = ConnectionView;

    closed spec fn view(&self) -> ConnectionView {
        ConnectionView { incoming: buffered(self.inbox), outgoing: buffered(self.outbox) }
    }
}

/// Appends `bytes` to `buffer` where the lengths together fit `usize`, and
/// says whether it did.
fn append(buffer: &mut BytesMut, bytes: &[u8]) -> (appended: bool)
    ensures
        appended == (buffered(*old(buffer)).len() + bytes@.len() <= usize::MAX),
        buffered(*final(buffer)) == if appended {
            buffered(*old(buffer)) + bytes@
        } else {
            buffered(*old(buffer))
        },
{
    let held: usize = <BytesMut as AsRef<[u8]>>::as_ref(buffer).len();
    if bytes.len() > usize::MAX - held {
        return false;
    }
    buffer.extend_from_slice(bytes);
    true
}

impl Connection {
    /// A connection on which nothing has arrived and nothing waits to be sent.
    pub fn new() -> (connection: Self)
        ensures
            connection@.incoming == Seq::<u8>::empty(),
            connection@.outgoing == Seq::<u8>::empty(),
    {
        Connection { inbox: BytesMut::with_capacity(4096), outbox: BytesMut::with_capacity(4096) }
    }

    /// Takes in bytes that have arrived, after those already held. Returns
    /// `false`, and takes nothing in, where the lengths together pass `usize`.
    pub fn feed(&mut self, bytes: &[u8]) -> (accepted: bool)
        ensures
            accepted == (old(self)@.incoming.len() + bytes@.len() <= usize::MAX),
            final(self)@.incoming == if accepted {
                old(self)@.incoming + bytes@
            } else {
                old(self)@.incoming
            },
            final(self)@.outgoing == old(self)@.outgoing,
    {
        append(&mut self.inbox, bytes)
    }

    /// Decodes the next value from the bytes that have arrived, and lets go
    /// of the bytes it took. While the message is incomplete, or where the
    /// bytes are no message, all bytes stay.
    pub fn read_value(&mut self) -> (r: Result<Option<Value>, ProtocolError>)
        ensures
            match parse(old(self)@.incoming) {
                Ok(Some((v, consumed))) => r matches Ok(Some(value)) && value@ == v
                    && final(self)@.incoming == old(self)@.incoming.skip(consumed as int),
                Ok(None) => r matches Ok(None) && final(self)@.incoming == old(self)@.incoming,
                Err(e) => r matches Err(reason) && reason == e && final(self)@.incoming == old(
                    self,
                )@.incoming,
            },
            final(self)@.outgoing == old(self)@.outgoing,
    {
        match decode_message(self.inbox.as_ref()) {
            Ok(Some((value, consumed))) => {
                let _taken: BytesMut = self.inbox.split_to(consumed);
                Ok(Some(value))
            },
            Ok(None) => Ok(None),
            Err(e) => Err(e),
        }
    }

    /// Queues the wire form of `value` for sending, after what is queued
    /// already. Returns `false`, and queues nothing, where the lengths
    /// together pass `usize`.
    pub fn write_value(&mut self, value: Value) -> (queued: bool)
        ensures
            queued == (old(self)@.outgoing.len() + wire(value@).len() <= usize::MAX),
            final(self)@.outgoing == if queued {
                old(self)@.outgoing + wire(value@)
            } else {
                old(self)@.outgoing
            },
            final(self)@.incoming == old(self)@.incoming,
    {
        let text: String = value.encode();
        append(&mut self.outbox, text.as_str().as_bytes())
    }

    /// Hands out the bytes that wait to be sent, and holds none of them after.
    pub fn take_output(&mut self) -> (bytes: Vec<u8>)
        ensures
            bytes@ == old(self)@.outgoing,
            final(self)@.outgoing == Seq::<u8>::empty(),
            final(self)@.incoming == old(self)@.incoming,
    {
        let bytes: Vec<u8> = slice_to_vec(self.outbox.as_ref());
        let _sent: BytesMut = self.outbox.split_to(bytes.len());
        bytes
    }
}

} // verus!
