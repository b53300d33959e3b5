use vstd::prelude::*;

verus! {

/// ASCII decimal form of `n`, without leading zeros.
pub open spec fn decimal(n: nat) -> Seq<u8>
    decreases n,
{
    if n < 10 {
        seq![(n + 48) as u8]
    } else {
        decimal(n / 10).push(((n % 10) + 48) as u8)
    }
}

pub open spec fn crlf() -> Seq<u8> {
    seq![13u8, 10u8]
}

pub open spec fn space() -> Seq<u8> {
    seq![32u8]
}

/// `word` followed by a space, when present.
pub open spec fn optional_word(word: Option<Seq<u8>>) -> Seq<u8> {
    match word {
        Some(w) => w + space(),
        None => Seq::empty(),
    }
}

pub open spec fn opt_bytes(o: Option<&[u8]>) -> Option<Seq<u8>> {
    match o {
        Some(b) => Some(b@),
        None => None,
    }
}

/// `PUB <subject> [reply] <len>\r\n<payload>\r\n`
pub open spec fn pub_frame(subject: Seq<u8>, reply: Option<Seq<u8>>, payload: Seq<u8>) -> Seq<u8> {
    seq![80u8, 85u8, 66u8, 32u8] + subject + space() + optional_word(reply) + decimal(
        payload.len(),
    ) + crlf() + payload + crlf()
}

/// `SUB <subject> [queue] <sid>\r\n`
pub open spec fn sub_frame(subject: Seq<u8>, queue: Option<Seq<u8>>, sid: nat) -> Seq<u8> {
    seq![83u8, 85u8, 66u8, 32u8] + subject + space() + optional_word(queue) + decimal(sid)
        + crlf()
}

/// `UNSUB <sid>\r\n`
pub open spec fn unsub_frame(sid: nat) -> Seq<u8> {
    seq![85u8, 78u8, 83u8, 85u8, 66u8, 32u8] + decimal(sid) + crlf()
}

/// `PING\r\n`
pub open spec fn ping_frame() -> Seq<u8> {
    seq![80u8, 73u8, 78u8, 71u8] + crlf()
}

/// `PONG\r\n`
pub open spec fn pong_frame() -> Seq<u8> {
    seq![80u8, 79u8, 78u8, 71u8] + crlf()
}

fn push_bytes(out: &mut Vec<u8>, s: &[u8])
    ensures
        final(out)@ == old(out)@ + s@,
{
    out.extend_from_slice(s);
    assert(final(out)@ =~= old(out)@ + s@);
}

fn push_decimal(out: &mut Vec<u8>, n: usize)
    ensures
        final(out)@ == old(out)@ + decimal(n as nat),
    decreases n,
{
    if n >= 10 {
        push_decimal(out, n / 10);
    }
    out.push((n % 10) as u8 + 48u8);
    assert(final(out)@ =~= old(out)@ + decimal(n as nat));
}

fn push_crlf(out: &mut Vec<u8>)
    ensures
        final(out)@ == old(out)@ + crlf(),
{
    out.push(13u8);
    out.push(10u8);
    assert(final(out)@ =~= old(out)@ + crlf());
}

fn push_optional_word(out: &mut Vec<u8>, word: Option<&[u8]>)
    ensures
        final(out)@ == old(out)@ + optional_word(opt_bytes(word)),
{
    if let Some(w) = word {
        push_bytes(out, w);
        out.push(32u8);
    }
    assert(final(out)@ =~= old(out)@ + optional_word(opt_bytes(word)));
}

/// Frames a message for `subject`, with an optional reply subject.
pub fn encode_pub(subject: &[u8], reply: Option<&[u8]>, payload: &[u8]) -> (r: Vec<u8>)
    ensures
        r@ == pub_frame(subject@, opt_bytes(reply), payload@),
{
    let mut out: Vec<u8> = Vec::new();
    out.push(80u8);
    out.push(85u8);
    out.push(66u8);
    out.push(32u8);
    push_bytes(&mut out, subject);
    out.push(32u8);
    push_optional_word(&mut out, reply);
    push_decimal(&mut out, payload.len());
    push_crlf(&mut out);
    push_bytes(&mut out, payload);
    push_crlf(&mut out);
    assert(out@ =~= pub_frame(subject@, opt_bytes(reply), payload@));
    out
}

/// Frames a subscription to `subject` under `sid`, with an optional queue group.
pub fn encode_sub(subject: &[u8], queue: Option<&[u8]>, sid: usize) -> (r: Vec<u8>)
    ensures
        r@ == sub_frame(subject@, opt_bytes(queue), sid as nat),
{
    let mut out: Vec<u8> = Vec::new();
    out.push(83u8);
    out.push(85u8);
    out.push(66u8);
    out.push(32u8);
    push_bytes(&mut out, subject);
    out.push(32u8);
    push_optional_word(&mut out, queue);
    push_decimal(&mut out, sid);
    push_crlf(&mut out);
    assert(out@ =~= sub_frame(subject@, opt_bytes(queue), sid as nat));
    out
}

/// Frames the removal of subscription `sid`.
pub fn encode_unsub(sid: usize) -> (r: Vec<u8>)
    ensures
        r@ == unsub_frame(sid as nat),
{
    let mut out: Vec<u8> = Vec::new();
    out.push(85u8);
    out.push(78u8);
    out.push(83u8);
    out.push(85u8);
    out.push(66u8);
    out.push(32u8);
    push_decimal(&mut out, sid);
    push_crlf(&mut out);
    assert(out@ =~= unsub_frame(sid as nat));
    out
}

pub fn encode_ping() -> (r: Vec<u8>)
    ensures
        r@ == ping_frame(),
{
    let r = vec![80u8, 73u8, 78u8, 71u8, 13u8, 10u8];
    assert(r@ =~= ping_frame());
    r
}

pub fn encode_pong() -> (r: Vec<u8>)
    ensures
        r@ == pong_frame(),
{
    let r = vec![80u8, 79u8, 78u8, 71u8, 13u8, 10u8];
    assert(r@ =~= pong_frame());
    r
}

} // verus!
