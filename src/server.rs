use vstd::prelude::*;

use crate::errors::AppError;
use crate::merge::{changed_edits, merge_solution, merged, positions_unique, solution_map};
use crate::models::{SolutionItem, SolutionItemDto};
use crate::session::{heartbeat_action, timed_out, HeartbeatAction, WsSession};

verus! {

/// A session joins the registry.
#[derive(Debug, Clone, PartialEq)]
pub struct Connect {
    pub session: WsSession,
}

/// A session leaves the registry.
#[derive(Debug, Clone, Copy, PartialEq, Eq, Structural)]
pub struct Disconnect {
    pub id: u128,
}

/// A batch of edits sent by a session.
#[derive(Debug, Clone, PartialEq)]
pub struct Move {
    pub solution_items: Vec<SolutionItemDto>,
    pub sender: WsSession,
}

/// What handling a batch asks of the caller: the solution to store, if
/// anything changed, the changed edits, and the sessions to send them to once
/// the store has succeeded.
#[derive(Debug, Clone, PartialEq)]
pub struct MovePlan {
    pub write: Option<Vec<SolutionItem>>,
    pub changed: Vec<SolutionItemDto>,
    pub recipients: Vec<u128>,
}

/// The registry of live sessions. Every event passes through it one at a
/// time.
#[derive(Debug, Clone, PartialEq)]
pub struct MoveServer {
    sessions: Vec<WsSession>,
}

/// Two sessions work on the same crossword in the same team.
pub open spec fn same_room(s: WsSession, t: WsSession) -> bool {
    s.team@ == t.team@ && s.crossword@ == t.crossword@
}

/// The ids of the sessions, other than the sender's, in the sender's room,
/// in registry order.
pub open spec fn room_peers(sessions: Seq<WsSession>, sender: WsSession) -> Seq<u128>
    decreases sessions.len(),
{
    if sessions.len() == 0 {
        seq![]
    } else if same_room(sessions.last(), sender) && sessions.last().id != sender.id {
        room_peers(sessions.drop_last(), sender).push(sessions.last().id)
    } else {
        room_peers(sessions.drop_last(), sender)
    }
}

/// The sessions without the one of id `id`.
pub open spec fn without_session(sessions: Seq<WsSession>, id: u128) -> Seq<WsSession>
    decreases sessions.len(),
{
    if sessions.len() == 0 {
        seq![]
    } else if sessions.last().id == id {
        without_session(sessions.drop_last(), id)
    } else {
        without_session(sessions.drop_last(), id).push(sessions.last())
    }
}

pub open spec fn ids_unique(sessions: Seq<WsSession>) -> bool {
    forall|i: int, j: int| 0 <= i < j < sessions.len() ==> (#[trigger] sessions[i]).id != (#[trigger] sessions[j]).id
}

/// The stored solution, or none where the store had none.
pub open spec fn stored_items(stored: Option<Vec<SolutionItem>>) -> Seq<SolutionItem> {
    match stored {
        Some(v) => v@,
        None => seq![],
    }
}

pub open spec fn dto_of(item: SolutionItem) -> SolutionItemDto {
    SolutionItemDto { x: item.x, y: item.y, value: item.value }
}

/// What a newly connected client is sent: the stored solution, or an empty
/// one where there is none or it could not be read.
pub open spec fn snapshot_of(stored: Result<Option<Vec<SolutionItem>>, AppError>) -> Seq<SolutionItemDto> {
    match stored {
        Ok(Some(v)) => v@.map_values(|item: SolutionItem| dto_of(item)),
        _ => seq![],
    }
}

proof fn lemma_without_session(sessions: Seq<WsSession>, id: u128)
    ensures
        forall|j: int| 0 <= j < without_session(sessions, id).len() ==> (#[trigger] without_session(sessions, id)[j]).id != id,
        forall|j: int|
            0 <= j < without_session(sessions, id).len() ==> sessions.contains(#[trigger] without_session(sessions, id)[j]),
    decreases sessions.len(),
{
    if sessions.len() > 0 {
        lemma_without_session(sessions.drop_last(), id);
        let w = without_session(sessions.drop_last(), id);
        assert forall|j: int| 0 <= j < w.len() implies sessions.contains(#[trigger] w[j]) by {
            let k = choose|k: int| 0 <= k < sessions.drop_last().len() && sessions.drop_last()[k] == w[j];
            assert(sessions[k] == w[j]);
        }
        assert(sessions[sessions.len() - 1] == sessions.last());
    }
}

proof fn lemma_without_session_unique(sessions: Seq<WsSession>, id: u128)
    requires
        ids_unique(sessions),
    ensures
        ids_unique(without_session(sessions, id)),
    decreases sessions.len(),
{
    if sessions.len() > 0 {
        let rest = sessions.drop_last();
        assert(ids_unique(rest)) by {
            assert forall|i: int, j: int| 0 <= i < j < rest.len() implies (#[trigger] rest[i]).id != (
            #[trigger] rest[j]).id by {
                assert(rest[i] == sessions[i] && rest[j] == sessions[j]);
            }
        }
        lemma_without_session_unique(rest, id);
        lemma_without_session(rest, id);
        let w = without_session(rest, id);
        if sessions.last().id != id {
            assert forall|j: int| 0 <= j < w.len() implies (#[trigger] w[j]).id != sessions.last().id by {
                let k = choose|k: int| 0 <= k < rest.len() && rest[k] == w[j];
                assert(rest[k] == sessions[k]);
            }
        }
    }
}

proof fn lemma_room_peers_contains(sessions: Seq<WsSession>, sender: WsSession, id: u128)
    ensures
        room_peers(sessions, sender).contains(id) <==> exists|j: int|
            0 <= j < sessions.len() && (#[trigger] sessions[j]).id == id && same_room(sessions[j], sender)
                && id != sender.id,
    decreases sessions.len(),
{
    if sessions.len() > 0 {
        let rest = sessions.drop_last();
        lemma_room_peers_contains(rest, sender, id);
        let last = sessions.len() - 1;
        let p = room_peers(rest, sender);
        let qualifies = same_room(sessions.last(), sender) && sessions.last().id != sender.id;
        if room_peers(sessions, sender).contains(id) {
            if p.contains(id) {
                let j = choose|j: int|
                    0 <= j < rest.len() && (#[trigger] rest[j]).id == id && same_room(rest[j], sender)
                        && id != sender.id;
                assert(sessions[j] == rest[j]);
            } else {
                assert(qualifies);
                let k = choose|k: int| 0 <= k < p.push(sessions.last().id).len() && p.push(sessions.last().id)[k] == id;
                assert(k == p.len());
                assert(sessions[last] == sessions.last());
            }
        }
        if exists|j: int|
            0 <= j < sessions.len() && (#[trigger] sessions[j]).id == id && same_room(sessions[j], sender)
                && id != sender.id {
            let j = choose|j: int|
                0 <= j < sessions.len() && (#[trigger] sessions[j]).id == id && same_room(sessions[j], sender)
                    && id != sender.id;
            if j < last {
                assert(rest[j] == sessions[j]);
                assert(p.contains(id));
                let k = choose|k: int| 0 <= k < p.len() && p[k] == id;
                if qualifies {
                    assert(p.push(sessions.last().id)[k] == id);
                }
            } else {
                assert(sessions[j] == sessions.last());
                assert(p.push(sessions.last().id)[p.len() as int] == id);
            }
        }
    }
}

/// A batch reaches a registered session exactly when that session shares the
/// sender's team and crossword and is not the sender's own.
pub proof fn lemma_broadcast_stays_in_room(sessions: Seq<WsSession>, sender: WsSession, i: int)
    requires
        ids_unique(sessions),
        0 <= i < sessions.len(),
    ensures
        room_peers(sessions, sender).contains(sessions[i].id) <==> (same_room(sessions[i], sender)
            && sessions[i].id != sender.id),
{
    lemma_room_peers_contains(sessions, sender, sessions[i].id);
    if room_peers(sessions, sender).contains(sessions[i].id) {
        let j = choose|j: int|
            0 <= j < sessions.len() && (#[trigger] sessions[j]).id == sessions[i].id && same_room(
                sessions[j],
                sender,
            ) && sessions[i].id != sender.id;
        if j < i {
            assert(sessions[j].id != sessions[i].id);
        } else if j > i {
            assert(sessions[i].id != sessions[j].id);
        }
    }
}

/// A session whose client has been silent for longer than the timeout is
/// told to leave; once its disconnect is handled, no later batch reaches it,
/// whoever sends it.
pub proof fn lemma_timed_out_session_unreached(
    sessions: Seq<WsSession>,
    session: WsSession,
    now: u64,
    sender: WsSession,
)
    requires
        timed_out(session.hb, now),
    ensures
        heartbeat_action(session.hb, now) == HeartbeatAction::TimedOut,
        !room_peers(without_session(sessions, session.id), sender).contains(session.id),
{
    let rest = without_session(sessions, session.id);
    lemma_without_session(sessions, session.id);
    lemma_room_peers_contains(rest, sender, session.id);
}

impl View for MoveServer {
    type V = Seq<WsSession>;

    closed spec fn view(&self) -> Seq<WsSession> {
        self.sessions@
    }
}

fn copy_session(s: &WsSession) -> (r: WsSession)
    ensures
        r == *s,
{
    WsSession {
        id: s.id,
        hb: s.hb,
        user: s.user.clone(),
        team: s.team.clone(),
        crossword: s.crossword.clone(),
    }
}

impl MoveServer {
    /// No two registered sessions share an id.
    pub open spec fn wf(&self) -> bool {
        ids_unique(self@)
    }

    pub fn new() -> (r: MoveServer)
        ensures
            r@ == Seq::<WsSession>::empty(),
            r.wf(),
    {
        MoveServer { sessions: Vec::new() }
    }

    /// Takes the session of id `id` out of the registry; a session that is
    /// not there leaves it unchanged.
    fn remove_session(&mut self, id: u128)
        requires
            old(self).wf(),
        ensures
            final(self)@ == without_session(old(self)@, id),
            final(self).wf(),
    {
        let mut kept: Vec<WsSession> = Vec::new();
        let mut i: usize = 0;
        while i < self.sessions.len()
            invariant
                0 <= i <= self.sessions@.len(),
                kept@ == without_session(self.sessions@.take(i as int), id),
            decreases self.sessions@.len() - i,
        {
            assert(self.sessions@.take(i + 1).drop_last() =~= self.sessions@.take(i as int));
            if self.sessions[i].id != id {
                kept.push(copy_session(&self.sessions[i]));
            }
            i = i + 1;
        }
        assert(self.sessions@.take(i as int) =~= self.sessions@);
        proof {
            lemma_without_session_unique(self.sessions@, id);
        }
        self.sessions = kept;
    }

    /// Registers a session, replacing any of the same id, and returns what
    /// the new client is sent first: the team's stored solution for the
    /// crossword, or an empty one where there is none or it could not be read.
    pub fn handle_connect(
        &mut self,
        msg: Connect,
        stored: Result<Option<Vec<SolutionItem>>, AppError>,
    ) -> (r: Vec<SolutionItemDto>)
        requires
            old(self).wf(),
        ensures
            final(self)@ == without_session(old(self)@, msg.session.id).push(msg.session),
            final(self).wf(),
            r@ == snapshot_of(stored),
    {
        self.remove_session(msg.session.id);
        proof {
            lemma_without_session(old(self)@, msg.session.id);
        }
        self.sessions.push(msg.session);
        let mut snapshot: Vec<SolutionItemDto> = Vec::new();
        match stored {
            Ok(Some(items)) => {
                let mut i: usize = 0;
                while i < items.len()
                    invariant
                        0 <= i <= items@.len(),
                        snapshot@ =~= items@.take(i as int).map_values(|item: SolutionItem| dto_of(item)),
                    decreases items@.len() - i,
                {
                    let item = &items[i];
                    snapshot.push(SolutionItemDto { x: item.x, y: item.y, value: item.value.clone() });
                    i = i + 1;
                }
                assert(items@.take(i as int) =~= items@);
            },
            _ => {},
        }
        snapshot
    }

    /// Takes a session out of the registry; idempotent.
    pub fn handle_disconnect(&mut self, msg: Disconnect)
        requires
            old(self).wf(),
        ensures
            final(self)@ == without_session(old(self)@, msg.id),
            final(self).wf(),
    {
        self.remove_session(msg.id);
    }

    /// The sessions a batch from `sender` is sent to: every other session of
    /// the sender's room.
    pub fn broadcast_moves(&self, sender: &WsSession) -> (r: Vec<u128>)
        ensures
            r@ == room_peers(self@, *sender),
    {
        let mut r: Vec<u128> = Vec::new();
        let mut i: usize = 0;
        while i < self.sessions.len()
            invariant
                0 <= i <= self.sessions@.len(),
                r@ == room_peers(self.sessions@.take(i as int), *sender),
            decreases self.sessions@.len() - i,
        {
            assert(self.sessions@.take(i + 1).drop_last() =~= self.sessions@.take(i as int));
            let s = &self.sessions[i];
            if s.team == sender.team && s.crossword == sender.crossword && s.id != sender.id {
                r.push(s.id);
            }
            i = i + 1;
        }
        assert(self.sessions@.take(i as int) =~= self.sessions@);
        r
    }

    /// Handles a batch of edits against the room's stored solution (`None`
    /// where the store has none): merges it, and where anything changed asks
    /// for the merged solution to be stored and the changed edits to be sent
    /// to the sender's peers. A batch that changes nothing asks for neither.
    pub fn handle_move(&self, msg: &Move, stored: Option<Vec<SolutionItem>>) -> (r: MovePlan)
        ensures
            r.changed@ == changed_edits(solution_map(stored_items(stored)), msg.solution_items@),
            r.changed@.len() == 0 ==> r.write is None && r.recipients@.len() == 0,
            r.changed@.len() > 0 ==> {
                &&& r.write is Some
                &&& positions_unique(r.write.unwrap()@)
                &&& solution_map(r.write.unwrap()@) == merged(
                    solution_map(stored_items(stored)),
                    msg.solution_items@,
                    msg.sender.user,
                )
                &&& r.recipients@ == room_peers(self@, msg.sender)
            },
    {
        let current = match stored {
            Some(v) => v,
            None => Vec::new(),
        };
        let (items, changed) = merge_solution(&current, &msg.solution_items, &msg.sender.user);
        if changed.len() == 0 {
            MovePlan { write: None, changed, recipients: Vec::new() }
        } else {
            let recipients = self.broadcast_moves(&msg.sender);
            MovePlan { write: Some(items), changed, recipients }
        }
    }
}

impl MovePlan {
    /// The sessions to send the changed edits to, given whether storing the
    /// merged solution succeeded: none where it failed.
    pub fn deliveries(self, stored: bool) -> (r: Vec<u128>)
        ensures
            r@ == if stored { self.recipients@ } else { Seq::<u128>::empty() },
    {
        if stored {
            self.recipients
        } else {
            Vec::new()
        }
    }
}

} // verus!
