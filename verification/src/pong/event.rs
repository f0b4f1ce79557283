use vstd::prelude::*;
use vstd::utf8::encode_utf8;

verus! {

/// An event as it is written to or read from a topic.
#[derive(Debug)]
pub struct EventWrapper {
    pub topic: String,
    pub key: Option<String>,
    pub event: String,
}

/// The UTF-8 bytes of the payloads of `events`, one after the other.
pub open spec fn payload_bytes(events: Seq<EventWrapper>) -> Seq<u8>
    decreases events.len(),
{
    if events.len() == 0 {
        Seq::empty()
    } else {
        payload_bytes(events.drop_last()) + encode_utf8(events.last().event@)
    }
}

/// The bytes that the file event writer appends for `events`: their payloads, concatenated.
pub fn event_buffer(events: &Vec<EventWrapper>) -> (buf: Vec<u8>)
    ensures
        buf@ == payload_bytes(events@),
        buf@.len() == payload_len(events@),
{
    proof {
        lemma_payload_bytes_len(events@);
    }
    let mut buf: Vec<u8> = Vec::new();
    let mut k: usize = 0;
    while k < events.len()
        invariant
            0 <= k <= events@.len(),
            buf@ == payload_bytes(events@.take(k as int)),
        decreases events@.len() - k,
    {
        let bytes = events[k].event.as_str().as_bytes();
        let ghost before = buf@;
        buf.extend_from_slice(bytes);
        proof {
            assert(events@.take(k + 1).drop_last() == events@.take(k as int));
            assert(buf@ =~= before + encode_utf8(events@[k as int].event@));
        }
        k = k + 1;
    }
    proof {
        assert(events@.take(k as int) == events@);
    }
    buf
}

/// The buffer of no events is empty, the buffer of one event holds exactly its payload's
/// UTF-8 bytes, and the buffer of two lists one after the other is the buffer of the first
/// followed by the buffer of the second: every payload is written, in order, and nothing else.
pub proof fn lemma_payload_bytes_concatenate(a: Seq<EventWrapper>, b: Seq<EventWrapper>, e: EventWrapper)
    ensures
        payload_bytes(Seq::<EventWrapper>::empty()).len() == 0,
        payload_bytes(seq![e]) == encode_utf8(e.event@),
        payload_bytes(a + b) == payload_bytes(a) + payload_bytes(b),
    decreases b.len(),
{
    assert(payload_bytes(Seq::<EventWrapper>::empty()) =~= Seq::<u8>::empty());
    assert(seq![e].drop_last() =~= Seq::<EventWrapper>::empty());
    assert(seq![e].last() == e);
    assert(payload_bytes(seq![e]) =~= encode_utf8(e.event@));
    if b.len() == 0 {
        assert(a + b =~= a);
        assert(payload_bytes(a) + payload_bytes(b) =~= payload_bytes(a));
    } else {
        lemma_payload_bytes_concatenate(a, b.drop_last(), e);
        assert((a + b).drop_last() =~= a + b.drop_last());
        assert((a + b).last() == b.last());
        assert(payload_bytes(a + b) =~= payload_bytes(a) + payload_bytes(b));
    }
}

/// The buffer is as long as all payloads together.
pub proof fn lemma_payload_bytes_len(events: Seq<EventWrapper>)
    ensures
        payload_bytes(events).len() == payload_len(events),
    decreases events.len(),
{
    if events.len() > 0 {
        lemma_payload_bytes_len(events.skip(1));
        lemma_payload_bytes_concatenate(seq![events[0]], events.skip(1), events[0]);
        assert(seq![events[0]] + events.skip(1) =~= events);
    }
}

/// The total UTF-8 length of the payloads, counted from the first event.
pub open spec fn payload_len(events: Seq<EventWrapper>) -> int
    decreases events.len(),
{
    if events.len() == 0 {
        0
    } else {
        encode_utf8(events[0].event@).len() + payload_len(events.skip(1))
    }
}

} // verus!
