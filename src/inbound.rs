use vstd::prelude::*;
use crate::protocol::crlf;
use crate::subs::{has_sid, Subscriptions};

verus! {

/// Length of the line ending that follows every message payload.
pub const CRLF_LEN: u32 = 2;

/// The header of a `MSG` frame, as the protocol parser hands it over.
#[derive(Debug, Clone)]
pub struct MsgArgs {
    pub subject: Vec<u8>,
    pub sid: usize,
    pub reply: Option<Vec<u8>>,
    pub mlen: u32,
}

/// A message delivered to a subscription.
#[derive(Debug)]
pub struct Message {
    pub subject: Vec<u8>,
    pub reply: Option<Vec<u8>>,
    pub data: Vec<u8>,
}

/// How many bytes to read after a `MSG` header: the payload and its line
/// ending.
pub fn payload_read_len(mlen: u32) -> (r: u64)
    ensures
        r == mlen + 2,
{
    mlen as u64 + CRLF_LEN as u64
}

/// Why the bytes after a `MSG` header do not make a frame.
#[derive(Debug, Clone, Copy, PartialEq, Eq, Structural)]
pub enum FrameError {
    /// The stream ended before the payload and its line ending were read.
    ShortPayload,
    /// The payload is not followed by `\r\n`.
    MissingCrlf,
}

/// Whether `raw` is a payload of `mlen` bytes followed by `\r\n`.
pub open spec fn well_framed(raw: Seq<u8>, mlen: u32) -> bool {
    raw.len() == mlen + 2 && raw.subrange(mlen as int, mlen + 2) == crlf()
}

/// Builds the message of a `MSG` frame from its header and the `mlen + 2`
/// bytes read after it, keeping the payload and discarding the line ending.
/// Returns it with the sid to deliver it to, or nothing when no subscription
/// has that sid, in which case it is dropped. Bytes that do not make a frame
/// are an error, after which the connection is not to be trusted.
pub fn process_msg(subs: &Subscriptions, args: MsgArgs, raw: Vec<u8>) -> (r: Result<
    Option<(usize, Message)>,
    FrameError,
>)
    requires
        subs.wf(),
    ensures
        r is Err <==> !well_framed(raw@, args.mlen),
        r == Err::<Option<(usize, Message)>, FrameError>(FrameError::ShortPayload) <==> raw@.len()
            != args.mlen + 2,
        r matches Ok(m) ==> (m is Some <==> has_sid(subs@, args.sid)),
        r matches Ok(Some(p)) ==> {
            &&& p.0 == args.sid
            &&& p.1.subject@ == args.subject@
            &&& p.1.reply == args.reply
            &&& p.1.data@ == raw@.take(args.mlen as int)
        },
{
    let mlen = args.mlen as usize;
    if raw.len() < mlen || raw.len() - mlen != 2 {
        return Err(FrameError::ShortPayload);
    }
    if raw[mlen] != 13u8 || raw[mlen + 1] != 10u8 {
        proof {
            assert(raw@.subrange(mlen as int, mlen + 2)[0] == raw@[mlen as int]);
        }
        return Err(FrameError::MissingCrlf);
    }
    assert(raw@.subrange(mlen as int, mlen + 2) =~= crlf());
    if !subs.contains(args.sid) {
        return Ok(None);
    }
    let mut data = raw;
    data.truncate(mlen);
    assert(data@ =~= raw@.take(args.mlen as int));
    let sid = args.sid;
    Ok(Some((sid, Message { subject: args.subject, reply: args.reply, data })))
}

} // verus!
