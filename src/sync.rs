//! The sync engine: bootstrapping, then streaming batch after batch, with a
//! cursor that only moves forward on a batch that was fully processed.
use vstd::prelude::*;
use crate::content::{normalize, normalized, represented};
use crate::directory::{RoomDirectory, RoomHandle, apply_upserts, pairs_view};
use crate::history::{ClientError, MessageEvent};

verus! {

/// How the user stands with a room.
#[derive(Clone, Copy, Debug, PartialEq, Eq, Structural)]
pub enum Membership {
    Joined,
    Invited,
    Left,
}

/// A room whose state the server reported, with the display name the
/// session computed for it, if it could.
pub struct RoomUpdate {
    pub handle: RoomHandle,
    pub membership: Membership,
    pub display_name: Option<String>,
}

/// A message event of a batch, with the room it was sent in.
pub struct SyncEvent {
    pub membership: Membership,
    pub room_name: String,
    pub event: MessageEvent,
}

/// What one incremental sync returned besides its new cursor token.
pub struct SyncBatch {
    pub rooms: Vec<RoomUpdate>,
    pub events: Vec<SyncEvent>,
}

/// An event handed to the display: time, room, sender and text.
pub struct EmittedEvent {
    pub timestamp: u64,
    pub room_name: String,
    pub sender: String,
    pub body: String,
}

impl View for EmittedEvent {
    type V = (u64, Seq<char>, Seq<char>, Seq<char>);

    open spec fn view(&self) -> (u64, Seq<char>, Seq<char>, Seq<char>) {
        (self.timestamp, self.room_name@, self.sender@, self.body@)
    }
}

/// Everything processed up to here: the server's token, and how many
/// batches were processed since bootstrap, which orders the cursors.
pub struct SyncCursor {
    pub token: String,
    pub position: u64,
}

impl View for SyncCursor {
    type V = (Seq<char>, int);

    open spec fn view(&self) -> (Seq<char>, int) {
        (self.token@, self.position as int)
    }
}

/// The engine's state.
pub enum SyncState {
    Bootstrapping,
    Streaming { cursor: SyncCursor },
}

/// The request the engine wants made next.
pub enum SyncRequest {
    /// The initial sync, with lazy loading of members and a filter on the
    /// state events of joined rooms.
    Initial,
    /// The next batch after the given token.
    Next { token: String },
}

/// The sync engine.
pub struct SyncEngine {
    pub state: SyncState,
}

/// The directory writes that a list of room updates asks for: each joined
/// room with a display name, in order.
pub open spec fn upserts_of(rooms: Seq<RoomUpdate>) -> Seq<(Seq<char>, RoomHandle)>
    decreases rooms.len(),
{
    if rooms.len() == 0 {
        Seq::empty()
    } else {
        let rest = upserts_of(rooms.drop_last());
        let u = rooms.last();
        if u.membership == Membership::Joined && u.display_name is Some {
            rest.push((u.display_name->0@, u.handle))
        } else {
            rest
        }
    }
}

/// The events of a batch that reach the display: those of joined rooms whose
/// content is represented, in order, normalised.
pub open spec fn emitted_of(events: Seq<SyncEvent>) -> Seq<(u64, Seq<char>, Seq<char>, Seq<char>)>
    decreases events.len(),
{
    if events.len() == 0 {
        Seq::empty()
    } else {
        let rest = emitted_of(events.drop_last());
        let e = events.last();
        if e.membership == Membership::Joined && represented(e.event.content) {
            rest.push(
                (e.event.timestamp, e.room_name@, e.event.sender@, normalized(e.event.content)),
            )
        } else {
            rest
        }
    }
}

/// The views of a sequence of emitted events.
pub open spec fn emitted_view(v: Seq<EmittedEvent>) -> Seq<(u64, Seq<char>, Seq<char>, Seq<char>)> {
    v.map_values(|e: EmittedEvent| e@)
}

/// The cursor after one next-batch request: moved to the response's token
/// and one position on when the request succeeded, unchanged when it failed.
pub open spec fn advance(c: (Seq<char>, int), response: Option<Seq<char>>) -> (Seq<char>, int) {
    match response {
        Some(token) => (token, c.1 + 1),
        None => c,
    }
}

/// The cursor after a sequence of next-batch requests.
pub open spec fn advance_all(c: (Seq<char>, int), responses: Seq<Option<Seq<char>>>) -> (
    Seq<char>,
    int,
)
    decreases responses.len(),
{
    if responses.len() == 0 {
        c
    } else {
        advance(advance_all(c, responses.drop_last()), responses.last())
    }
}

/// How many of a sequence of requests succeeded.
pub open spec fn successes(responses: Seq<Option<Seq<char>>>) -> int
    decreases responses.len(),
{
    if responses.len() == 0 {
        0
    } else {
        successes(responses.drop_last()) + if responses.last() is Some {
            1int
        } else {
            0int
        }
    }
}

/// The directory writes of a list of room updates, as a vector.
fn room_upserts(rooms: &Vec<RoomUpdate>) -> (r: Vec<(String, RoomHandle)>)
    ensures
        pairs_view(r@) == upserts_of(rooms@),
{
    let mut r: Vec<(String, RoomHandle)> = Vec::new();
    let mut i: usize = 0;
    while i < rooms.len()
        invariant
            i <= rooms@.len(),
            pairs_view(r@) == upserts_of(rooms@.subrange(0, i as int)),
        decreases rooms@.len() - i,
    {
        proof {
            assert(rooms@.subrange(0, i + 1).drop_last() =~= rooms@.subrange(0, i as int));
        }
        let u = &rooms[i];
        if u.membership == Membership::Joined {
            match &u.display_name {
                Some(name) => {
                    r.push((name.clone(), u.handle));
                    assert(pairs_view(r@) =~= pairs_view(r@.drop_last()).push(
                        (name@, u.handle),
                    ));
                },
                None => {},
            }
        }
        i = i + 1;
    }
    assert(rooms@.subrange(0, rooms@.len() as int) =~= rooms@);
    r
}

/// The events of a batch that reach the display.
pub fn emit_events(events: &Vec<SyncEvent>) -> (r: Vec<EmittedEvent>)
    ensures
        emitted_view(r@) == emitted_of(events@),
{
    let mut r: Vec<EmittedEvent> = Vec::new();
    let mut i: usize = 0;
    while i < events.len()
        invariant
            i <= events@.len(),
            emitted_view(r@) == emitted_of(events@.subrange(0, i as int)),
        decreases events@.len() - i,
    {
        proof {
            assert(events@.subrange(0, i + 1).drop_last() =~= events@.subrange(0, i as int));
        }
        let e = &events[i];
        if e.membership == Membership::Joined && e.event.content.is_represented() {
            let out = EmittedEvent {
                timestamp: e.event.timestamp,
                room_name: e.room_name.clone(),
                sender: e.event.sender.clone(),
                body: normalize(&e.event.content),
            };
            r.push(out);
            assert(emitted_view(r@) =~= emitted_view(r@.drop_last()).push(out@));
        }
        i = i + 1;
    }
    assert(events@.subrange(0, events@.len() as int) =~= events@);
    r
}

impl SyncEngine {
    /// An engine that has not bootstrapped yet.
    pub fn new() -> (r: SyncEngine)
        ensures
            r.state is Bootstrapping,
    {
        SyncEngine { state: SyncState::Bootstrapping }
    }

    /// The cursor, once streaming.
    pub open spec fn cursor_view(&self) -> Option<(Seq<char>, int)> {
        match self.state {
            SyncState::Bootstrapping => None,
            SyncState::Streaming { cursor } => Some(cursor@),
        }
    }

    /// The request to make next: the initial sync while bootstrapping, then
    /// the next batch after the current cursor.
    pub fn request(&self) -> (r: SyncRequest)
        ensures
            match self.state {
                SyncState::Bootstrapping => r is Initial,
                SyncState::Streaming { cursor } => r is Next && r->Next_token@ == cursor.token@,
            },
    {
        match &self.state {
            SyncState::Bootstrapping => SyncRequest::Initial,
            SyncState::Streaming { cursor } => SyncRequest::Next { token: cursor.token.clone() },
        }
    }

    /// The latest cursor token, once streaming.
    pub fn token(&self) -> (r: Option<String>)
        ensures
            match self.cursor_view() {
                Some(c) => r is Some && r->0@ == c.0,
                None => r is None,
            },
    {
        match &self.state {
            SyncState::Bootstrapping => None,
            SyncState::Streaming { cursor } => Some(cursor.token.clone()),
        }
    }

    /// Takes the outcome of the initial sync. On success every joined room
    /// with a display name is written to the directory and the engine
    /// streams from the returned token. On failure nothing changes and the
    /// error comes back: the caller cannot go on without a bootstrap.
    pub fn bootstrap(
        &mut self,
        dir: &mut RoomDirectory,
        outcome: Result<(Vec<RoomUpdate>, String), ClientError>,
    ) -> (r: Result<(), ClientError>)
        requires
            old(self).state is Bootstrapping,
            old(dir).wf(),
        ensures
            final(dir).wf(),
            match outcome {
                Ok((rooms, token)) => {
                    &&& r is Ok
                    &&& final(dir)@ == apply_upserts(old(dir)@, upserts_of(rooms@))
                    &&& final(self).cursor_view() == Some((token@, 0int))
                },
                Err(e) => {
                    &&& r == Err::<(), ClientError>(e)
                    &&& final(dir)@ == old(dir)@
                    &&& final(self).state is Bootstrapping
                },
            },
    {
        match outcome {
            Ok((rooms, token)) => {
                let ups = room_upserts(&rooms);
                dir.upsert_all(&ups);
                self.state = SyncState::Streaming { cursor: SyncCursor { token, position: 0 } };
                Ok(())
            },
            Err(e) => Err(e),
        }
    }

    /// Takes the outcome of a next-batch request. On success the directory
    /// takes the batch's room updates, the cursor moves to the returned
    /// token one position on, and the events for the display come back. On
    /// failure nothing changes, so that the same batch is asked for again.
    pub fn next_batch(
        &mut self,
        dir: &mut RoomDirectory,
        outcome: Result<(SyncBatch, String), ClientError>,
    ) -> (r: Result<Vec<EmittedEvent>, ClientError>)
        requires
            old(self).state is Streaming,
            old(self).state->Streaming_cursor.position < u64::MAX,
            old(dir).wf(),
        ensures
            final(dir).wf(),
            final(self).state is Streaming,
            match outcome {
                Ok((batch, token)) => {
                    &&& r is Ok
                    &&& emitted_view(r->Ok_0@) == emitted_of(batch.events@)
                    &&& final(dir)@ == apply_upserts(old(dir)@, upserts_of(batch.rooms@))
                    &&& final(self).cursor_view() == Some(
                        advance(old(self).cursor_view()->0, Some(token@)),
                    )
                },
                Err(e) => {
                    &&& r == Err::<Vec<EmittedEvent>, ClientError>(e)
                    &&& final(dir)@ == old(dir)@
                    &&& final(self).cursor_view() == old(self).cursor_view()
                },
            },
    {
        match outcome {
            Ok((batch, token)) => {
                let ups = room_upserts(&batch.rooms);
                dir.upsert_all(&ups);
                let out = emit_events(&batch.events);
                let position = match &self.state {
                    SyncState::Streaming { cursor } => cursor.position,
                    SyncState::Bootstrapping => 0,
                };
                self.state = SyncState::Streaming {
                    cursor: SyncCursor { token, position: position + 1 },
                };
                Ok(out)
            },
            Err(e) => Err(e),
        }
    }
}

/// Across any sequence of next-batch requests the cursor's position grows
/// by exactly the number of requests that succeeded in between: strictly
/// on each success, not at all on a failure.
pub proof fn lemma_cursor_monotone(c: (Seq<char>, int), responses: Seq<Option<Seq<char>>>, i: int, j: int)
    requires
        0 <= i <= j <= responses.len(),
    ensures
        advance_all(c, responses.subrange(0, j)).1 == advance_all(c, responses.subrange(0, i)).1
            + successes(responses.subrange(i, j)),
        successes(responses.subrange(i, j)) >= 0,
        i < responses.len() && responses[i] is None ==> advance_all(c, responses.subrange(0, i + 1))
            == advance_all(c, responses.subrange(0, i)),
    decreases j - i,
{
    if i < responses.len() {
        assert(responses.subrange(0, i + 1).drop_last() =~= responses.subrange(0, i));
    }
    if j > i {
        lemma_cursor_monotone(c, responses, i, j - 1);
        assert(responses.subrange(0, j).drop_last() =~= responses.subrange(0, j - 1));
        assert(responses.subrange(i, j).drop_last() =~= responses.subrange(i, j - 1));
    } else {
        assert(responses.subrange(i, j) =~= Seq::<Option<Seq<char>>>::empty());
    }
}

/// Every event handed to the display comes from a joined room and has
/// represented content: events of other rooms, and events of unrepresented
/// kinds, never reach it.
pub proof fn lemma_emitted_only_joined_represented(events: Seq<SyncEvent>)
    ensures
        emitted_of(events).len() <= events.len(),
        forall|i: int|
            0 <= i < emitted_of(events).len() ==> exists|j: int|
                0 <= j < events.len() && events[j].membership == Membership::Joined && represented(
                    events[j].event.content,
                ) && #[trigger] emitted_of(events)[i] == (
                    events[j].event.timestamp,
                    events[j].room_name@,
                    events[j].event.sender@,
                    normalized(events[j].event.content),
                ),
    decreases events.len(),
{
    if events.len() > 0 {
        let pre = events.drop_last();
        lemma_emitted_only_joined_represented(pre);
        let out = emitted_of(events);
        assert forall|i: int| 0 <= i < out.len() implies exists|j: int|
            0 <= j < events.len() && events[j].membership == Membership::Joined && represented(
                events[j].event.content,
            ) && #[trigger] out[i] == (
                events[j].event.timestamp,
                events[j].room_name@,
                events[j].event.sender@,
                normalized(events[j].event.content),
            ) by {
            if i < emitted_of(pre).len() {
                let j = choose|j: int|
                    0 <= j < pre.len() && pre[j].membership == Membership::Joined && represented(
                        pre[j].event.content,
                    ) && emitted_of(pre)[i] == (
                        pre[j].event.timestamp,
                        pre[j].room_name@,
                        pre[j].event.sender@,
                        normalized(pre[j].event.content),
                    );
                assert(events[j] == pre[j]);
            } else {
                let j = events.len() - 1;
                assert(events[j] == events.last());
            }
        }
    }
}

/// Bootstrapping a second time from the same rooms, with nothing in between,
/// leaves the directory as the first bootstrap made it.
pub proof fn lemma_bootstrap_idempotent(m: Map<Seq<char>, RoomHandle>, rooms: Seq<RoomUpdate>)
    ensures
        apply_upserts(apply_upserts(m, upserts_of(rooms)), upserts_of(rooms)) == apply_upserts(
            m,
            upserts_of(rooms),
        ),
{
    crate::directory::lemma_upserts_idempotent(m, upserts_of(rooms));
}

} // verus!
