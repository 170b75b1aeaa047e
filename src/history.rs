//! Events of a room and the history that the shell displays.
use vstd::prelude::*;
use crate::content::{Content, normalize, normalized, represented};

verus! {

/// A message event as received: when it was sent, by whom, with what.
pub struct MessageEvent {
    /// Milliseconds since the Unix epoch, as stamped by the server.
    pub timestamp: u64,
    pub sender: String,
    pub content: Content,
}

/// An event with its content turned into text, ready for display.
pub struct NormalizedEvent {
    pub timestamp: u64,
    pub sender: String,
    pub body: String,
}

impl View for NormalizedEvent {
    type V = (u64, Seq<char>, Seq<char>);

    open spec fn view(&self) -> (u64, Seq<char>, Seq<char>) {
        (self.timestamp, self.sender@, self.body@)
    }
}

/// Why a request of the session failed.
#[derive(Clone, Copy, Debug, PartialEq, Eq, Structural)]
pub enum ClientError {
    /// The server refused the credentials.
    Auth,
    /// The request did not complete.
    Network,
    /// The room or the history asked for does not exist.
    NotFound,
    /// The server refused the action for this user.
    Permission,
}

/// The displayable form of one event.
pub open spec fn normalized_event(e: MessageEvent) -> (u64, Seq<char>, Seq<char>) {
    (e.timestamp, e.sender@, normalized(e.content))
}

/// The views of a sequence of normalised events.
pub open spec fn events_view(v: Seq<NormalizedEvent>) -> Seq<(u64, Seq<char>, Seq<char>)> {
    v.map_values(|e: NormalizedEvent| e@)
}

/// The history shown for a chunk of events: the represented ones, in the
/// order of the chunk, each normalised.
pub open spec fn history_of(chunk: Seq<MessageEvent>) -> Seq<(u64, Seq<char>, Seq<char>)>
    decreases chunk.len(),
{
    if chunk.len() == 0 {
        Seq::empty()
    } else {
        let rest = history_of(chunk.drop_last());
        if represented(chunk.last().content) {
            rest.push(normalized_event(chunk.last()))
        } else {
            rest
        }
    }
}

/// Normalises one event.
pub fn normalize_event(e: &MessageEvent) -> (r: NormalizedEvent)
    ensures
        r@ == normalized_event(*e),
{
    NormalizedEvent { timestamp: e.timestamp, sender: e.sender.clone(), body: normalize(&e.content) }
}

/// The history of a chunk that the session returned, in the chunk's order:
/// events of unrepresented kinds are left out before normalisation.
pub fn history_from_chunk(chunk: &Vec<MessageEvent>) -> (r: Vec<NormalizedEvent>)
    ensures
        events_view(r@) == history_of(chunk@),
{
    let mut r: Vec<NormalizedEvent> = Vec::new();
    let mut i: usize = 0;
    while i < chunk.len()
        invariant
            i <= chunk@.len(),
            events_view(r@) == history_of(chunk@.subrange(0, i as int)),
        decreases chunk@.len() - i,
    {
        proof {
            assert(chunk@.subrange(0, i + 1).drop_last() =~= chunk@.subrange(0, i as int));
        }
        if chunk[i].content.is_represented() {
            let e = normalize_event(&chunk[i]);
            r.push(e);
            assert(events_view(r@) =~= events_view(r@.drop_last()).push(e@));
        }
        i = i + 1;
    }
    assert(chunk@.subrange(0, chunk@.len() as int) =~= chunk@);
    r
}

/// The history for the outcome of a backward-history request: the chunk's
/// history when the request succeeded, its error unchanged when it failed.
pub fn fetch_history(outcome: Result<Vec<MessageEvent>, ClientError>) -> (r: Result<
    Vec<NormalizedEvent>,
    ClientError,
>)
    ensures
        match outcome {
            Ok(chunk) => r is Ok && events_view(r->Ok_0@) == history_of(chunk@),
            Err(e) => r == Err::<Vec<NormalizedEvent>, ClientError>(e),
        },
{
    match outcome {
        Ok(chunk) => Ok(history_from_chunk(&chunk)),
        Err(e) => Err(e),
    }
}

/// Events of unrepresented kinds never reach the history, and every event
/// that does carries the normalised content of a represented event.
pub proof fn lemma_history_only_represented(chunk: Seq<MessageEvent>)
    ensures
        history_of(chunk).len() <= chunk.len(),
        forall|i: int|
            0 <= i < history_of(chunk).len() ==> exists|j: int|
                0 <= j < chunk.len() && represented(chunk[j].content) && #[trigger] history_of(
                    chunk,
                )[i] == normalized_event(chunk[j]),
        (forall|j: int| 0 <= j < chunk.len() ==> !represented(#[trigger] chunk[j].content))
            ==> history_of(chunk).len() == 0,
    decreases chunk.len(),
{
    if chunk.len() > 0 {
        let pre = chunk.drop_last();
        lemma_history_only_represented(pre);
        let h = history_of(chunk);
        assert forall|i: int| 0 <= i < h.len() implies exists|j: int|
            0 <= j < chunk.len() && represented(chunk[j].content) && #[trigger] h[i]
                == normalized_event(chunk[j]) by {
            if i < history_of(pre).len() {
                let j = choose|j: int|
                    0 <= j < pre.len() && represented(pre[j].content) && history_of(pre)[i]
                        == normalized_event(pre[j]);
                assert(chunk[j] == pre[j]);
            } else {
                assert(h[i] == normalized_event(chunk[chunk.len() - 1]));
            }
        }
        if forall|j: int| 0 <= j < chunk.len() ==> !represented(#[trigger] chunk[j].content) {
            assert forall|j: int| 0 <= j < pre.len() implies !represented(
                #[trigger] pre[j].content,
            ) by {
                assert(chunk[j] == pre[j]);
            }
            assert(!represented(chunk[chunk.len() - 1].content));
        }
    }
}

/// Every represented event of a chunk shows up in its history.
pub proof fn lemma_history_keeps_represented(chunk: Seq<MessageEvent>, j: int)
    requires
        0 <= j < chunk.len(),
        represented(chunk[j].content),
    ensures
        exists|i: int|
            0 <= i < history_of(chunk).len() && #[trigger] history_of(chunk)[i] == normalized_event(
                chunk[j],
            ),
    decreases chunk.len(),
{
    let pre = chunk.drop_last();
    if j < chunk.len() - 1 {
        lemma_history_keeps_represented(pre, j);
        let i = choose|i: int|
            0 <= i < history_of(pre).len() && history_of(pre)[i] == normalized_event(pre[j]);
        assert(history_of(chunk)[i] == normalized_event(chunk[j]));
    } else {
        let h = history_of(chunk);
        assert(h[h.len() - 1] == normalized_event(chunk[j]));
    }
}

} // verus!
