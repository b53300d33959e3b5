use vstd::prelude::*;
use crate::protocol::{
    encode_ping, encode_pong, encode_pub, encode_sub, encode_unsub, opt_bytes, ping_frame, pong_frame,
    pub_frame, sub_frame, unsub_frame,
};
use crate::subs::{sub_lines, Subscriptions};
use crate::writer::{
    bytes_result, spec_close, DisconnectWriter, spec_disconnect, spec_flush, spec_replace, spec_write, WriteError, Writer,
    WriterView,
};

verus! {

/// The send side of a session: one [`Writer`] and the spill capacity used
/// whenever the connection is lost. Callers that share it between threads
/// guard it with a lock; every operation here is one critical section.
#[derive(Debug)]
pub struct Outbound {
    writer: Writer,
    reconnect_buffer_size: usize,
}

/// Result of a send that only queues bytes.
pub open spec fn unit_result(e: Option<WriteError>) -> Result<(), WriteError> {
    match e {
        None => Ok(()),
        Some(e) => Err(e),
    }
}

/// Effect of a send that queues `frame` and flushes at once: the new state,
/// and the bytes due on the socket now.
pub open spec fn spec_write_flush(w: WriterView, frame: Seq<u8>) -> (WriterView, Result<Seq<u8>, WriteError>) {
    let (w1, e) = spec_write(w, frame);
    match e {
        Some(e) => (w1, Err(e)),
        None => spec_flush(w1),
    }
}

impl Outbound {
    pub closed spec fn state(&self) -> WriterView {
        self.writer@
    }

    pub closed spec fn buffer_size(&self) -> nat {
        self.reconnect_buffer_size as nat
    }

    pub closed spec fn wf(&self) -> bool {
        self.writer.wf()
    }

    pub fn new(writer: Writer, reconnect_buffer_size: usize) -> (r: Outbound)
        requires
            writer.wf(),
        ensures
            r.wf(),
            r.state() == writer@,
            r.buffer_size() == reconnect_buffer_size,
    {
        Outbound { writer, reconnect_buffer_size }
    }

    /// Queues `frame` as one unit: all of it is accepted or none of it.
    pub fn write_bytes(&mut self, frame: &[u8]) -> (r: Result<(), WriteError>)
        requires
            old(self).wf(),
        ensures
            final(self).wf(),
            final(self).buffer_size() == old(self).buffer_size(),
            final(self).state() == spec_write(old(self).state(), frame@).0,
            r == unit_result(spec_write(old(self).state(), frame@).1),
    {
        match self.writer.write(frame) {
            Ok(_) => Ok(()),
            Err(e) => Err(e),
        }
    }

    /// Queues `frame` and flushes at once.
    fn write_frame_and_flush(&mut self, frame: &[u8]) -> (r: Result<Vec<u8>, WriteError>)
        requires
            old(self).wf(),
        ensures
            final(self).wf(),
            final(self).buffer_size() == old(self).buffer_size(),
            final(self).state() == spec_write_flush(old(self).state(), frame@).0,
            bytes_result(r) == spec_write_flush(old(self).state(), frame@).1,
    {
        match self.writer.write(frame) {
            Ok(_) => self.writer.flush(),
            Err(e) => Err(e),
        }
    }

    /// Bytes that the flusher must now put on the socket.
    pub fn flush(&mut self) -> (r: Result<Vec<u8>, WriteError>)
        requires
            old(self).wf(),
        ensures
            final(self).wf(),
            final(self).buffer_size() == old(self).buffer_size(),
            final(self).state() == spec_flush(old(self).state()).0,
            bytes_result(r) == spec_flush(old(self).state()).1,
    {
        self.writer.flush()
    }

    pub fn flusher_should_wait(&self) -> (r: bool)
        ensures
            r == match self.state() {
                WriterView::Live { pending, .. } => pending.len() == 0,
                WriterView::Disconnected { .. } => true,
                WriterView::Closed => false,
            },
    {
        self.writer.flusher_should_wait()
    }

    pub fn is_disconnected(&self) -> (r: bool)
        ensures
            r == self.state() is Disconnected,
    {
        self.writer.is_disconnected()
    }

    pub fn is_closed(&self) -> (r: bool)
        ensures
            r == self.state() is Closed,
    {
        self.writer.is_closed()
    }

    /// Enters the disconnected state, as after a failed socket operation.
    pub fn transition_to_disconnected(&mut self)
        requires
            old(self).wf(),
        ensures
            final(self).wf(),
            final(self).buffer_size() == old(self).buffer_size(),
            final(self).state() == spec_disconnect(old(self).state(), old(self).buffer_size()),
    {
        self.writer.transition_to_disconnected(self.reconnect_buffer_size);
    }

    /// Closes for good. Returns what must still be flushed to the socket
    /// before it is shut down; a second call does nothing and returns nothing.
    pub fn close(&mut self) -> (r: Vec<u8>)
        requires
            old(self).wf(),
        ensures
            final(self).wf(),
            final(self).buffer_size() == old(self).buffer_size(),
            final(self).state() == spec_close(old(self).state()).0,
            r@ == spec_close(old(self).state()).1,
    {
        let r = match self.writer.flush() {
            Ok(bytes) => bytes,
            Err(_) => Vec::new(),
        };
        self.writer = Writer::Closed;
        r
    }

    /// Installs the live writer of a new connection. When disconnected, the
    /// spill buffer is moved in first, so the bytes returned (to be written
    /// and flushed to the new socket) hold it ahead of anything sent later.
    /// A closed session refuses and stays closed.
    pub fn replace_writer(&mut self, new_writer: Writer) -> (r: Result<Vec<u8>, WriteError>)
        requires
            old(self).wf(),
            new_writer.wf(),
            new_writer.is_live(),
        ensures
            final(self).wf(),
            final(self).buffer_size() == old(self).buffer_size(),
            final(self).state() == spec_replace(old(self).state(), new_writer@).0,
            bytes_result(r) == spec_replace(old(self).state(), new_writer@).1,
    {
        if self.writer.is_closed() {
            return Err(WriteError::Closed);
        }
        let mut new_writer = new_writer;
        if let Writer::Disconnected(d) = &self.writer {
            let spilled = d.buffered();
            let _ = new_writer.write(spilled.as_slice());
        }
        let r = new_writer.flush();
        self.writer = new_writer;
        r
    }

    /// The bytes `replay` could not be handed to a new socket: the session is
    /// disconnected again and keeps them in a fresh spill buffer, ready for
    /// the next connection. A closed session stays closed.
    pub fn replay_failed(&mut self, replay: &[u8]) -> (r: Result<(), WriteError>)
        requires
            old(self).wf(),
        ensures
            final(self).wf(),
            final(self).buffer_size() == old(self).buffer_size(),
            old(self).state() is Closed ==> r == Err::<(), WriteError>(WriteError::Closed)
                && final(self).state() == old(self).state(),
            !(old(self).state() is Closed) && replay@.len() <= old(self).buffer_size() ==> {
                &&& r is Ok
                &&& final(self).state() == (WriterView::Disconnected {
                    spilled: replay@,
                    capacity: old(self).buffer_size(),
                })
            },
            !(old(self).state() is Closed) && replay@.len() > old(self).buffer_size() ==> {
                &&& r == Err::<(), WriteError>(WriteError::BufferFull)
                &&& final(self).state() == (WriterView::Disconnected {
                    spilled: Seq::empty(),
                    capacity: old(self).buffer_size(),
                })
            },
    {
        if self.writer.is_closed() {
            return Err(WriteError::Closed);
        }
        self.writer = Writer::Disconnected(DisconnectWriter::new(self.reconnect_buffer_size));
        assert(Seq::<u8>::empty() + replay@ =~= replay@);
        self.write_bytes(replay)
    }

    /// Queues `PUB <subject> [reply] <len>` with the payload.
    pub fn send_pub_msg(&mut self, subject: &[u8], reply: Option<&[u8]>, payload: &[u8]) -> (r:
        Result<(), WriteError>)
        requires
            old(self).wf(),
        ensures
            final(self).wf(),
            final(self).buffer_size() == old(self).buffer_size(),
            final(self).state() == spec_write(
                old(self).state(),
                pub_frame(subject@, opt_bytes(reply), payload@),
            ).0,
            r == unit_result(
                spec_write(old(self).state(), pub_frame(subject@, opt_bytes(reply), payload@)).1,
            ),
    {
        let frame = encode_pub(subject, reply, payload);
        self.write_bytes(frame.as_slice())
    }

    /// Queues a reply message, which carries no reply subject of its own.
    pub fn send_response(&mut self, subject: &[u8], payload: &[u8]) -> (r: Result<(), WriteError>)
        requires
            old(self).wf(),
        ensures
            final(self).wf(),
            final(self).buffer_size() == old(self).buffer_size(),
            final(self).state() == spec_write(
                old(self).state(),
                pub_frame(subject@, None, payload@),
            ).0,
            r == unit_result(spec_write(old(self).state(), pub_frame(subject@, None, payload@)).1),
    {
        let frame = encode_pub(subject, None, payload);
        self.write_bytes(frame.as_slice())
    }

    /// Queues `SUB <subject> [queue] <sid>`.
    pub fn send_sub_msg(&mut self, subject: &[u8], queue: Option<&[u8]>, sid: usize) -> (r: Result<
        (),
        WriteError,
    >)
        requires
            old(self).wf(),
        ensures
            final(self).wf(),
            final(self).buffer_size() == old(self).buffer_size(),
            final(self).state() == spec_write(
                old(self).state(),
                sub_frame(subject@, opt_bytes(queue), sid as nat),
            ).0,
            r == unit_result(
                spec_write(old(self).state(), sub_frame(subject@, opt_bytes(queue), sid as nat)).1,
            ),
    {
        let frame = encode_sub(subject, queue, sid);
        self.write_bytes(frame.as_slice())
    }

    /// Sends `UNSUB <sid>` and flushes at once.
    pub fn send_unsub(&mut self, sid: usize) -> (r: Result<Vec<u8>, WriteError>)
        requires
            old(self).wf(),
        ensures
            final(self).wf(),
            final(self).buffer_size() == old(self).buffer_size(),
            final(self).state() == spec_write_flush(old(self).state(), unsub_frame(sid as nat)).0,
            bytes_result(r) == spec_write_flush(old(self).state(), unsub_frame(sid as nat)).1,
    {
        let frame = encode_unsub(sid);
        self.write_frame_and_flush(frame.as_slice())
    }

    /// Sends `PING` and flushes at once. Refused without a connection, since
    /// a flush round trip cannot complete then; the state is left as it was.
    pub fn send_ping(&mut self) -> (r: Result<Vec<u8>, WriteError>)
        requires
            old(self).wf(),
        ensures
            final(self).wf(),
            final(self).buffer_size() == old(self).buffer_size(),
            old(self).state() is Disconnected ==> {
                &&& r == Err::<Vec<u8>, WriteError>(WriteError::NotConnected)
                &&& final(self).state() == old(self).state()
            },
            !(old(self).state() is Disconnected) ==> {
                &&& final(self).state() == spec_write_flush(old(self).state(), ping_frame()).0
                &&& bytes_result(r) == spec_write_flush(old(self).state(), ping_frame()).1
            },
    {
        if self.writer.is_disconnected() {
            return Err(WriteError::NotConnected);
        }
        let frame = encode_ping();
        self.write_frame_and_flush(frame.as_slice())
    }

    /// Sends `PONG` and flushes at once. Without a connection there is no
    /// point in keeping a heartbeat answer, so it succeeds with nothing sent.
    pub fn send_pong(&mut self) -> (r: Result<Vec<u8>, WriteError>)
        requires
            old(self).wf(),
        ensures
            final(self).wf(),
            final(self).buffer_size() == old(self).buffer_size(),
            old(self).state() is Disconnected ==> {
                &&& r is Ok
                &&& r->Ok_0@ == Seq::<u8>::empty()
                &&& final(self).state() == old(self).state()
            },
            !(old(self).state() is Disconnected) ==> {
                &&& final(self).state() == spec_write_flush(old(self).state(), pong_frame()).0
                &&& bytes_result(r) == spec_write_flush(old(self).state(), pong_frame()).1
            },
    {
        if self.writer.is_disconnected() {
            return Ok(Vec::new());
        }
        let frame = encode_pong();
        self.write_frame_and_flush(frame.as_slice())
    }

    /// Queues one `SUB` line per registered subscription, in table order, as
    /// one unit.
    pub fn resend_subs(&mut self, subs: &Subscriptions) -> (r: Result<(), WriteError>)
        requires
            old(self).wf(),
        ensures
            final(self).wf(),
            final(self).buffer_size() == old(self).buffer_size(),
            final(self).state() == spec_write(old(self).state(), sub_lines(subs@)).0,
            r == unit_result(spec_write(old(self).state(), sub_lines(subs@)).1),
    {
        let frame = subs.encode_all();
        self.write_bytes(frame.as_slice())
    }
}

} // verus!
