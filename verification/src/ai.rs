//! Forwarding a streamed chat reply: each chunk goes out as it arrives, and however the
//! stream ends (a final chunk, an error, or simply running out) exactly one closing
//! `done` payload follows, so the chat is never left waiting.

use vstd::prelude::*;
use crate::text::owned;

verus! {

/// One payload sent to the chat view.
pub struct ChatStreamPayload {
    pub content: String,
    pub done: bool,
}

/// What the stream gave next: a chunk (`Some(Ok((content, done)))`), an error
/// (`Some(Err(()))`), or nothing more (`None`).
pub type StreamItem = Option<Result<(String, bool), ()>>;

pub open spec fn item_view(item: StreamItem) -> Option<Result<(Seq<char>, bool), ()>> {
    match item {
        Some(Ok((c, d))) => Some(Ok((c@, d))),
        Some(Err(())) => Some(Err(())),
        None => None,
    }
}

/// The closing payload.
pub open spec fn closing() -> (Seq<char>, bool) {
    (seq![], true)
}

/// What one item produces: the payloads to send, and how the stream ends if it does
/// (`true` for success).
pub open spec fn step(item: Option<Result<(Seq<char>, bool), ()>>) -> (Seq<(Seq<char>, bool)>, Option<bool>) {
    match item {
        Some(Ok((c, d))) => if d {
            (seq![(c, false), closing()], Some(true))
        } else {
            (seq![(c, false)], None)
        },
        Some(Err(())) => (seq![closing()], Some(false)),
        None => (seq![closing()], Some(true)),
    }
}

/// Everything sent for a stream that yields `items` and then nothing more, and whether
/// it ends in success.
pub open spec fn forwarded(items: Seq<Option<Result<(Seq<char>, bool), ()>>>) -> (Seq<(Seq<char>, bool)>, bool)
    decreases items.len(),
{
    let first = if items.len() == 0 { None } else { items[0] };
    let (sent, end) = step(first);
    match end {
        Some(ok) => (sent, ok),
        None => {
            let (rest, ok) = forwarded(items.drop_first());
            (sent + rest, ok)
        },
    }
}

pub open spec fn payload_views(v: Seq<ChatStreamPayload>) -> Seq<(Seq<char>, bool)> {
    v.map_values(|p: ChatStreamPayload| (p.content@, p.done))
}

/// The payloads for the next stream item, and the result once the stream has ended.
pub fn chat_stream_step(item: StreamItem) -> (r: (Vec<ChatStreamPayload>, Option<Result<(), String>>))
    ensures
        payload_views(r.0@) == step(item_view(item)).0,
        match step(item_view(item)).1 {
            Some(true) => r.1 matches Some(Ok(())),
            Some(false) => r.1 matches Some(Err(e)) && e@ == "Ollama chat stream failed"@,
            None => r.1 is None,
        },
{
    let mut out: Vec<ChatStreamPayload> = Vec::new();
    let end = match item {
        Some(Ok((content, done))) => {
            out.push(ChatStreamPayload { content, done: false });
            if done {
                out.push(ChatStreamPayload { content: String::new(), done: true });
                Some(Ok(()))
            } else {
                None
            }
        },
        Some(Err(())) => {
            out.push(ChatStreamPayload { content: String::new(), done: true });
            Some(Err(owned("Ollama chat stream failed")))
        },
        None => {
            out.push(ChatStreamPayload { content: String::new(), done: true });
            Some(Ok(()))
        },
    };
    proof {
        assert(payload_views(out@) =~= step(item_view(item)).0);
        reveal_strlit("Ollama chat stream failed");
    }
    (out, end)
}

/// How many of `sent` are `done` payloads.
pub open spec fn done_count(sent: Seq<(Seq<char>, bool)>) -> nat
    decreases sent.len(),
{
    if sent.len() == 0 {
        0
    } else {
        done_count(sent.drop_last()) + if sent.last().1 { 1nat } else { 0nat }
    }
}

proof fn lemma_done_count_append(a: Seq<(Seq<char>, bool)>, b: Seq<(Seq<char>, bool)>)
    ensures
        done_count(a + b) == done_count(a) + done_count(b),
    decreases b.len(),
{
    if b.len() > 0 {
        lemma_done_count_append(a, b.drop_last());
        assert((a + b).drop_last() =~= a + b.drop_last());
    } else {
        assert(a + b =~= a);
    }
}

/// Every ending of a chat stream sends exactly one `done` payload, and it is the last
/// one sent, with no content.
pub proof fn law_every_ending_sends_one_done(items: Seq<Option<Result<(Seq<char>, bool), ()>>>)
    ensures
        done_count(forwarded(items).0) == 1,
        forwarded(items).0.len() > 0,
        forwarded(items).0.last() == closing(),
    decreases items.len(),
{
    let first = if items.len() == 0 { None } else { items[0] };
    let (sent, end) = step(first);
    reveal_with_fuel(done_count, 3);
    match end {
        Some(_) => {
            match first {
                Some(Ok((c, d))) => {
                    assert(sent.drop_last() =~= seq![(c, false)]);
                    assert(seq![(c, false)].drop_last() =~= Seq::<(Seq<char>, bool)>::empty());
                },
                _ => {
                    assert(sent.drop_last() =~= Seq::<(Seq<char>, bool)>::empty());
                },
            }
        },
        None => {
            law_every_ending_sends_one_done(items.drop_first());
            let (rest, ok) = forwarded(items.drop_first());
            lemma_done_count_append(sent, rest);
            match first {
                Some(Ok((c, d))) => {
                    assert(sent.drop_last() =~= Seq::<(Seq<char>, bool)>::empty());
                },
                _ => {},
            }
        },
    }
}


/// The items a stream yields: each chunk or error, in order.
pub open spec fn chunk_views(items: Seq<Result<(String, bool), ()>>) -> Seq<Option<Result<(Seq<char>, bool), ()>>> {
    items.map_values(|r: Result<(String, bool), ()>| item_view(Some(r)))
}

/// Forwards a stream that yields `items` and then ends: every payload in order, and the
/// stream's result. Items after the stream has ended are not read.
pub fn forward_chat_stream(items: Vec<Result<(String, bool), ()>>) -> (r: (Vec<ChatStreamPayload>, Result<(), String>))
    ensures
        payload_views(r.0@) == forwarded(chunk_views(items@)).0,
        r.1 is Ok <==> forwarded(chunk_views(items@)).1,
        r.1 matches Err(e) ==> e@ == "Ollama chat stream failed"@,
{
    let ghost all = chunk_views(items@);
    let n = items.len();
    let mut sent: Vec<ChatStreamPayload> = Vec::new();
    assert(all.subrange(0, all.len() as int) =~= all);
    assert(payload_views(sent@) + forwarded(all).0 =~= forwarded(all).0);
    let mut rest = items;
    let mut k: usize = 0;
    loop
        invariant
            k <= all.len(),
            all == chunk_views(items@),
            all.len() == n,
            rest@ == items@.subrange(k as int, items@.len() as int),
            forwarded(all) == (payload_views(sent@) + forwarded(all.subrange(k as int, all.len() as int)).0,
                forwarded(all.subrange(k as int, all.len() as int)).1),
        decreases all.len() - k,
    {
        let item: StreamItem = if rest.len() == 0 {
            None
        } else {
            Some(rest.remove(0))
        };
        let ghost tail = all.subrange(k as int, all.len() as int);
        assert(item_view(item) == (if tail.len() == 0 { None } else { tail[0] }));
        let (mut out, end) = chat_stream_step(item);
        let ghost before = payload_views(sent@);
        let ghost produced = payload_views(out@);
        sent.append(&mut out);
        assert(payload_views(sent@) =~= before + produced);
        match end {
            Some(result) => {
                assert(payload_views(sent@) + seq![] =~= payload_views(sent@));
                proof {
                    assert(forwarded(tail).0 == produced);
                }
                assert(before + produced =~= before + forwarded(tail).0);
                return (sent, result);
            },
            None => {
                proof {
                    assert(tail.len() > 0);
                    assert(tail.drop_first() =~= all.subrange(k + 1, all.len() as int));
                    assert(before + (produced + forwarded(tail.drop_first()).0) =~= (before + produced) + forwarded(tail.drop_first()).0);
                }
                k = k + 1;
            },
        }
    }
}

} // verus!
