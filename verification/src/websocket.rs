//! The session layer: a registry mapping each user id to its one live
//! session, the upgrade decision, and the decisions the session and room
//! loops take on every frame and tick. The sockets themselves live with
//! the runtime outside the library; it performs what these functions
//! decide.

use vstd::prelude::*;

use crate::commands::{CommandResponse, CommandType, SpotifyFetchT, StateImpact};
use crate::room::{is_user_index, RoomID, RoomUserID};
use crate::room_manager::{has_room_id, is_room_index, RoomManager};

verus! {

/// Seconds between heartbeat pings.
pub const HEARTBEAT_INTERVAL_SECS: u64 = 5;

/// Seconds of heartbeat silence after which a session is dropped: twice
/// the ping interval, so one skipped ping is forgiven.
pub const USER_WS_TIMEOUT_SECS: u64 = 10;

/// One live session: the room it belongs to, the last heartbeat, and
/// whether the client answered the first ping and may receive its
/// initial data.
#[derive(Clone, Copy, Debug, PartialEq, Eq, Structural)]
pub struct SharifyWsInstance {
    pub room_id: RoomID,
    pub hb_secs: u64,
    pub is_ready: bool,
}

/// A registry entry: the session and the user id that owns it.
#[derive(Debug)]
pub struct SessionEntry {
    pub user_id: RoomUserID,
    pub instance: SharifyWsInstance,
}

/// Some entry carries this user id.
pub open spec fn has_session(entries: Seq<SessionEntry>, uid: Seq<char>) -> bool {
    exists|i: int| 0 <= i < entries.len() && (#[trigger] entries[i].user_id@) == uid
}

/// `k` is the position of the entry carrying this user id.
pub open spec fn is_session_index(entries: Seq<SessionEntry>, uid: Seq<char>, k: int) -> bool {
    0 <= k < entries.len() && entries[k].user_id@ == uid
}

/// Some entry carries this user id and belongs to this room.
pub open spec fn session_in_room(entries: Seq<SessionEntry>, uid: Seq<char>, room_id: RoomID) -> bool {
    exists|k: int|
        0 <= k < entries.len() && (#[trigger] entries[k]).user_id@ == uid
            && entries[k].instance.room_id == room_id
}

/// No two entries share a user id.
pub open spec fn sessions_unique(entries: Seq<SessionEntry>) -> bool {
    forall|i: int, j: int|
        0 <= i < j < entries.len() ==> entries[i].user_id@ != entries[j].user_id@
}

/// The session registry: at most one live session per user id.
#[derive(Debug)]
pub struct SharifyWsManager {
    sessions: Vec<SessionEntry>,
}

impl View for SharifyWsManager {
    type V = Seq<SessionEntry>;

    closed spec fn view(&self) -> Seq<SessionEntry> {
        self.sessions@
    }
}

/// Two positions carrying the same user id coincide when the registry is
/// well-formed: every session is keyed by exactly one user id.
pub proof fn lemma_session_unique(entries: Seq<SessionEntry>, uid: Seq<char>, k1: int, k2: int)
    requires
        sessions_unique(entries),
        is_session_index(entries, uid, k1),
        is_session_index(entries, uid, k2),
    ensures
        k1 == k2,
{
}

impl SharifyWsManager {
    /// The registry's invariant: one session per user id.
    pub open spec fn wf(self) -> bool {
        sessions_unique(self@)
    }

    pub fn new() -> (r: Self)
        ensures
            r@ == Seq::<SessionEntry>::empty(),
            r.wf(),
    {
        SharifyWsManager { sessions: Vec::new() }
    }

    /// The session of this user id, if one is live.
    pub fn get(&self, user_id: &RoomUserID) -> (r: Option<&SharifyWsInstance>)
        ensures
            match r {
                Some(inst) => exists|k: int|
                    #[trigger] is_session_index(self@, user_id@, k) && *inst == self@[k].instance,
                None => !has_session(self@, user_id@),
            },
    {
        let mut i: usize = 0;
        while i < self.sessions.len()
            invariant
                i <= self.sessions.len(),
                forall|j: int| 0 <= j < i ==> (#[trigger] self@[j].user_id@) != user_id@,
            decreases self.sessions.len() - i,
        {
            if self.sessions[i].user_id == *user_id {
                proof {
                    assert(is_session_index(self@, user_id@, i as int));
                }
                return Some(&self.sessions[i].instance);
            }
            i = i + 1;
        }
        None
    }

    /// Position of this user id's entry, if any.
    fn index_of(&self, user_id: &RoomUserID) -> (r: Option<usize>)
        ensures
            match r {
                Some(k) => is_session_index(self@, user_id@, k as int) && (forall|j: int|
                    0 <= j < k ==> (#[trigger] self@[j].user_id@) != user_id@),
                None => !has_session(self@, user_id@),
            },
    {
        let mut i: usize = 0;
        while i < self.sessions.len()
            invariant
                i <= self.sessions.len(),
                forall|j: int| 0 <= j < i ==> (#[trigger] self@[j].user_id@) != user_id@,
            decreases self.sessions.len() - i,
        {
            if self.sessions[i].user_id == *user_id {
                return Some(i);
            }
            i = i + 1;
        }
        None
    }

    /// Drops this user id's session; closing a session always removes its
    /// entry. Reports whether one was live.
    pub fn remove(&mut self, user_id: &RoomUserID) -> (had: bool)
        requires
            old(self).wf(),
        ensures
            final(self).wf(),
            !has_session(final(self)@, user_id@),
            had == has_session(old(self)@, user_id@),
            had ==> exists|k: int|
                #[trigger] is_session_index(old(self)@, user_id@, k) && final(self)@ == old(self)@.remove(k),
            !had ==> *final(self) == *old(self),
    {
        let k = match self.index_of(user_id) {
            None => {
                return false;
            },
            Some(k) => k,
        };
        let ghost pre = self@;
        let _ = self.sessions.remove(k);
        proof {
            pre.remove_ensures(k as int);
            assert forall|i: int, j: int| 0 <= i < j < self@.len() implies self@[i].user_id@
                != self@[j].user_id@ by {
                let i0 = if i < k as int {
                    i
                } else {
                    i + 1
                };
                let j0 = if j < k as int {
                    j
                } else {
                    j + 1
                };
                assert(self@[i] == pre[i0]);
                assert(self@[j] == pre[j0]);
            }
            if has_session(self@, user_id@) {
                let x = choose|x: int|
                    0 <= x < self@.len() && (#[trigger] self@[x].user_id@) == user_id@;
                let x0 = if x < k as int {
                    x
                } else {
                    x + 1
                };
                assert(self@[x] == pre[x0]);
                assert(pre[x0].user_id@ != pre[k as int].user_id@);
            }
        }
        true
    }

    /// Opens a session for this user id, replacing any prior one; the
    /// prior session, if any, must be closed by the caller.
    pub fn insert(&mut self, user_id: RoomUserID, instance: SharifyWsInstance) -> (had: bool)
        requires
            old(self).wf(),
        ensures
            final(self).wf(),
            had == has_session(old(self)@, user_id@),
            final(self)@.len() > 0,
            final(self)@.last().user_id@ == user_id@,
            final(self)@.last().instance == instance,
            has_session(final(self)@, user_id@),
            had ==> exists|k: int|
                #[trigger] is_session_index(old(self)@, user_id@, k) && final(self)@ == old(self)@.remove(k).push(final(self)@.last()),
            !had ==> final(self)@ == old(self)@.push(final(self)@.last()),
    {
        let had = self.remove(&user_id);
        let ghost mid = self@;
        self.sessions.push(SessionEntry { user_id, instance });
        proof {
            assert forall|i: int, j: int| 0 <= i < j < self@.len() implies self@[i].user_id@
                != self@[j].user_id@ by {
                if j < self@.len() - 1 {
                    assert(self@[i] == mid[i]);
                    assert(self@[j] == mid[j]);
                } else {
                    assert(self@[i] == mid[i]);
                    assert(!has_session(mid, self@[j].user_id@));
                }
            }
            assert(self@[self@.len() - 1].user_id@ == user_id@);
        }
        had
    }

    /// Refreshes the heartbeat and readiness of this user id's session,
    /// as an answered ping does.
    pub fn pong(&mut self, user_id: &RoomUserID, now: u64)
        requires
            old(self).wf(),
        ensures
            final(self).wf(),
            !has_session(old(self)@, user_id@) ==> *final(self) == *old(self),
            has_session(old(self)@, user_id@) ==> exists|k: int|
                #[trigger] is_session_index(old(self)@, user_id@, k) && final(self)@ == old(self)@.update(
                    k,
                    SessionEntry {
                        user_id: old(self)@[k].user_id,
                        instance: SharifyWsInstance {
                            room_id: old(self)@[k].instance.room_id,
                            hb_secs: now,
                            is_ready: true,
                        },
                    },
                ),
    {
        let k = match self.index_of(user_id) {
            None => {
                return ;
            },
            Some(k) => k,
        };
        let ghost pre = self@;
        let uid = self.sessions[k].user_id.clone();
        let room_id = self.sessions[k].instance.room_id;
        self.sessions.set(
            k,
            SessionEntry {
                user_id: uid,
                instance: SharifyWsInstance { room_id, hb_secs: now, is_ready: true },
            },
        );
        proof {
            assert forall|i: int, j: int| 0 <= i < j < self@.len() implies self@[i].user_id@
                != self@[j].user_id@ by {
                assert(self@[i].user_id@ == pre[i].user_id@);
                assert(self@[j].user_id@ == pre[j].user_id@);
            }
        }
    }

    /// The user ids of every session in this room: the snapshot a
    /// broadcast walks after releasing the registry.
    pub fn ids_in_room(&self, room_id: RoomID) -> (r: Vec<RoomUserID>)
        ensures
            forall|x: int|
                0 <= x < r@.len() ==> session_in_room(self@, (#[trigger] r@[x])@, room_id),
            forall|k: int|
                #![trigger self@[k]]
                0 <= k < self@.len() && self@[k].instance.room_id == room_id ==> exists|x: int|
                    0 <= x < r@.len() && (#[trigger] r@[x])@ == self@[k].user_id@,
    {
        let mut r: Vec<RoomUserID> = Vec::new();
        let mut i: usize = 0;
        while i < self.sessions.len()
            invariant
                i <= self.sessions.len(),
                forall|x: int|
                    0 <= x < r@.len() ==> session_in_room(self@, (#[trigger] r@[x])@, room_id),
                forall|k: int|
                    #![trigger self@[k]]
                    0 <= k < i && self@[k].instance.room_id == room_id ==> exists|x: int|
                        0 <= x < r@.len() && (#[trigger] r@[x])@ == self@[k].user_id@,
            decreases self.sessions.len() - i,
        {
            let ghost before = r@;
            if self.sessions[i].instance.room_id == room_id {
                r.push(self.sessions[i].user_id.clone());
                proof {
                    assert(r@[r@.len() - 1]@ == self@[i as int].user_id@);
                    assert forall|x: int|
                        0 <= x < r@.len() implies session_in_room(
                        self@,
                        (#[trigger] r@[x])@,
                        room_id,
                    ) by {
                        if x < r@.len() - 1 {
                            assert(r@[x] == before[x]);
                            assert(session_in_room(self@, before[x]@, room_id));
                        } else {
                            assert((#[trigger] self@[i as int]).user_id@ == r@[x]@);
                        }
                    }
                    assert forall|k: int|
                        #![trigger self@[k]]
                        0 <= k < i + 1 && self@[k].instance.room_id == room_id implies exists|
                        x: int,
                    | 0 <= x < r@.len() && (#[trigger] r@[x])@ == self@[k].user_id@ by {
                        if k < i as int {
                            let x0 = choose|x0: int|
                                0 <= x0 < before.len() && (#[trigger] before[x0])@
                                    == self@[k].user_id@;
                            assert(r@[x0] == before[x0]);
                            assert((r@[x0])@ == self@[k].user_id@);
                        } else {
                            assert((r@[r@.len() - 1])@ == self@[k].user_id@);
                        }
                    }
                }
            } else {
                proof {
                    assert forall|k: int|
                        #![trigger self@[k]]
                        0 <= k < i + 1 && self@[k].instance.room_id == room_id implies exists|
                        x: int,
                    | 0 <= x < r@.len() && (#[trigger] r@[x])@ == self@[k].user_id@ by {
                        if k < i as int {
                            let x0 = choose|x0: int|
                                0 <= x0 < before.len() && (#[trigger] before[x0])@
                                    == self@[k].user_id@;
                            assert((r@[x0])@ == self@[k].user_id@);
                        }
                    }
                }
            }
            i = i + 1;
        }
        r
    }
}

/// Whether a session whose last heartbeat was at `hb` has timed out at
/// `now`.
pub fn hb_expired(now: u64, hb: u64) -> (b: bool)
    requires
        hb + USER_WS_TIMEOUT_SECS <= u64::MAX,
    ensures
        b == (now > hb + USER_WS_TIMEOUT_SECS),
{
    now > hb + USER_WS_TIMEOUT_SECS
}

/// One inbound frame, as the session loop sees it.
#[derive(Debug)]
pub enum FrameEvent {
    Ping(Vec<u8>),
    Pong,
    Text,
    Close,
    Binary,
}

/// What the session loop does with a frame.
#[derive(Debug)]
pub enum FrameAction {
    /// Answer the ping with its own payload.
    ReplyPong(Vec<u8>),
    /// Refresh the heartbeat and mark the session ready.
    MarkReady,
    /// Text frames are legacy and ignored.
    Ignore,
    /// Tear the session down.
    Stop,
    /// Decode the payload as a command and dispatch it.
    Dispatch,
}

/// The session loop's frame table.
pub fn on_frame(ev: FrameEvent) -> (a: FrameAction)
    ensures
        match ev {
            FrameEvent::Ping(b) => a matches FrameAction::ReplyPong(b2) && b2 == b,
            FrameEvent::Pong => a is MarkReady,
            FrameEvent::Text => a is Ignore,
            FrameEvent::Close => a is Stop,
            FrameEvent::Binary => a is Dispatch,
        },
{
    match ev {
        FrameEvent::Ping(b) => FrameAction::ReplyPong(b),
        FrameEvent::Pong => FrameAction::MarkReady,
        FrameEvent::Text => FrameAction::Ignore,
        FrameEvent::Close => FrameAction::Stop,
        FrameEvent::Binary => FrameAction::Dispatch,
    }
}

/// What the provider-poll loop wakes up to, in biased priority order.
#[derive(Debug)]
pub enum PollEvent {
    /// The reaper cancelled the room.
    Cancelled,
    /// Someone published a new cadence, in milliseconds.
    TickReset(u64),
    /// The sleeper elapsed.
    Elapsed,
}

/// What the poll loop does next.
#[derive(Debug, PartialEq, Eq, Structural)]
pub enum PollStep {
    Stop,
    /// Move the deadline to now plus these milliseconds, without
    /// fetching.
    ResetDeadline(u64),
    /// Fetch playback and queues, fan them out, and sleep again; a failed
    /// fetch closes the room instead.
    FetchAllThenSleep,
}

/// The poll loop's event table.
pub fn poll_step(ev: PollEvent) -> (s: PollStep)
    ensures
        match ev {
            PollEvent::Cancelled => s == PollStep::Stop,
            PollEvent::TickReset(d) => s == PollStep::ResetDeadline(d),
            PollEvent::Elapsed => s == PollStep::FetchAllThenSleep,
        },
{
    match ev {
        PollEvent::Cancelled => PollStep::Stop,
        PollEvent::TickReset(d) => PollStep::ResetDeadline(d),
        PollEvent::Elapsed => PollStep::FetchAllThenSleep,
    }
}

/// What the session loop does after a dispatched command, besides sending
/// the direct reply it already holds.
#[derive(Debug)]
pub struct FramePlan {
    /// A kicked or banned participant to notify and drop.
    pub close_target: Option<RoomUserID>,
    /// The typed close notice for that participant.
    pub target_notice: Option<CommandResponse>,
    /// The actor left; close its own session.
    pub close_self: bool,
    /// The sole room-manager left; close the whole room.
    pub close_room: bool,
    /// Broadcast a fresh room snapshot now.
    pub broadcast_room: bool,
    /// Schedule a provider-state broadcast for these flags, followed by a
    /// room snapshot, after the provider's settling delay.
    pub delayed_fetch: Option<SpotifyFetchT>,
}

/// Decides the follow-up work after a command was dispatched: snapshots
/// are broadcast only for applied commands, evicted participants get a
/// typed notice before their session drops, and the departing sole
/// room-manager takes the room down.
pub fn plan_after_dispatch(
    cmd: &CommandType,
    applied: bool,
    had_payload: bool,
    impact: StateImpact,
    owner_alone: bool,
) -> (p: FramePlan)
    ensures
        p.broadcast_room == (applied && impact is Room),
        p.delayed_fetch == (if applied {
            match impact {
                StateImpact::Both(f) => Some(f),
                _ => None::<SpotifyFetchT>,
            }
        } else {
            None::<SpotifyFetchT>
        }),
        match cmd {
            CommandType::Kick { user_id, reason } => if applied && !had_payload {
                p.close_target matches Some(t) && t@ == user_id@ && (p.target_notice matches Some(
                    CommandResponse::Kick { reason: r2 },
                ) && r2@ == reason@) && !p.close_self && !p.close_room
            } else {
                p.close_target is None && p.target_notice is None && !p.close_self && !p.close_room
            },
            CommandType::Ban { user_id, reason } => if applied && !had_payload {
                p.close_target matches Some(t) && t@ == user_id@ && (p.target_notice matches Some(
                    CommandResponse::Ban { reason: r2 },
                ) && r2@ == reason@) && !p.close_self && !p.close_room
            } else {
                p.close_target is None && p.target_notice is None && !p.close_self && !p.close_room
            },
            CommandType::LeaveRoom => p.close_target is None && p.target_notice is None
                && p.close_self == (applied && !had_payload) && p.close_room == (applied
                && !had_payload && owner_alone),
            _ => p.close_target is None && p.target_notice is None && !p.close_self
                && !p.close_room,
        },
{
    let broadcast_room = applied && matches!(impact, StateImpact::Room);
    let delayed_fetch: Option<SpotifyFetchT> = if applied {
        match impact {
            StateImpact::Both(f) => Some(f),
            _ => None,
        }
    } else {
        None
    };
    let mut plan = FramePlan {
        close_target: None,
        target_notice: None,
        close_self: false,
        close_room: false,
        broadcast_room,
        delayed_fetch,
    };
    if applied && !had_payload {
        match cmd {
            CommandType::Kick { user_id, reason } => {
                plan.close_target = Some(user_id.clone());
                plan.target_notice = Some(CommandResponse::Kick { reason: reason.clone() });
            },
            CommandType::Ban { user_id, reason } => {
                plan.close_target = Some(user_id.clone());
                plan.target_notice = Some(CommandResponse::Ban { reason: reason.clone() });
            },
            CommandType::LeaveRoom => {
                plan.close_self = true;
                plan.close_room = owner_alone;
            },
            _ => {},
        }
    }
    plan
}

/// What a websocket upgrade was granted.
#[derive(Debug)]
pub struct WsAccept {
    /// Display name of the connecting participant.
    pub username: String,
    /// This is the room's first session: start its poll and reaper loops.
    pub start_room_loops: bool,
    /// A prior session of the same user id was evicted and must be
    /// closed.
    pub had_prior_session: bool,
}

/// Why a websocket upgrade was refused.
#[derive(Clone, Copy, Debug, PartialEq, Eq, Structural)]
pub enum WsReject {
    /// The room does not exist: the upgrade answers 400.
    RoomNotFound,
    /// The user id is not a participant: the upgrade answers 401.
    Unauthorized,
}

/// Decides a websocket upgrade: an unknown room or a non-participant is
/// refused; otherwise any prior session of the same user id is evicted,
/// a fresh unready session is registered, the participant is marked
/// connected, and the room's loops are started exactly once.
pub fn ws_accept(
    mgr: &mut RoomManager,
    sessions: &mut SharifyWsManager,
    room_id: RoomID,
    user_id: &RoomUserID,
    now: u64,
) -> (res: Result<WsAccept, WsReject>)
    requires
        old(mgr).wf(),
        old(sessions).wf(),
    ensures
        final(mgr).wf(),
        final(sessions).wf(),
        match res {
            Err(e) => *final(mgr) == *old(mgr) && *final(sessions) == *old(sessions) && match e {
                WsReject::RoomNotFound => !has_room_id(old(mgr)@, room_id),
                WsReject::Unauthorized => exists|k: int|
                    #[trigger] is_room_index(old(mgr)@, room_id, k) && !crate::room::has_user_id(
                        old(mgr)@[k].users@,
                        user_id@,
                    ),
            },
            Ok(acc) => exists|k: int, a: int|
                #![trigger is_room_index(old(mgr)@, room_id, k), old(mgr)@[k].users@[a]]
                is_room_index(old(mgr)@, room_id, k) && is_user_index(
                    old(mgr)@[k].users@,
                    user_id@,
                    a,
                ) && acc.username@ == old(mgr)@[k].users@[a].username@ && acc.start_room_loops == !old(mgr)@[k].metadata.are_threads_initiated && acc.had_prior_session == has_session(
                    old(sessions)@,
                    user_id@,
                ) && final(mgr)@.len() == old(mgr)@.len() && (forall|j: int|
                    0 <= j < old(mgr)@.len() && j != k ==> final(mgr)@[j] == old(mgr)@[j]) && final(mgr)@[k].users@ == old(mgr)@[k].users@.update(
                    a,
                    crate::room::RoomUser {
                        is_connected: true,
                        id: old(mgr)@[k].users@[a].id,
                        username: old(mgr)@[k].users@[a].username,
                        role_id: old(mgr)@[k].users@[a].role_id,
                    },
                ) && final(mgr)@[k].metadata.are_threads_initiated && final(mgr)@[k].metadata.spotify_tokens == old(mgr)@[k].metadata.spotify_tokens && final(mgr)@[k].banned_users@ == old(mgr)@[k].banned_users@ && final(mgr)@[k].role_manager@
                    == old(mgr)@[k].role_manager@ && final(mgr)@[k].tracks_queue@ == old(mgr)@[k].tracks_queue@ && final(mgr)@[k].logs@ == old(mgr)@[k].logs@ && final(mgr)@[k].id == old(mgr)@[k].id && final(mgr)@[k].name@ == old(mgr)@[k].name@ && final(mgr)@[k].max_users == old(mgr)@[k].max_users && has_session(final(sessions)@, user_id@)
                    && final(sessions)@.len() > 0 && final(sessions)@.last().user_id@ == user_id@
                    && final(sessions)@.last().instance == (SharifyWsInstance {
                    room_id,
                    hb_secs: now,
                    is_ready: false,
                }),
        },
{
    let (username, threads, user_idx) = match mgr.get_room(&room_id) {
        None => {
            return Err(WsReject::RoomNotFound);
        },
        Some(room) => {
            match room.user_index(user_id) {
                None => {
                    return Err(WsReject::Unauthorized);
                },
                Some(a) => (
                    room.users[a].username.clone(),
                    room.metadata.are_threads_initiated,
                    a,
                ),
            }
        },
    };
    let ghost pre_mgr = mgr@;
    let ghost pre_sessions = sessions@;
    let ghost k = choose|k: int|
        #[trigger] is_room_index(pre_mgr, room_id, k) && is_user_index(
            pre_mgr[k].users@,
            user_id@,
            user_idx as int,
        );
    let had_prior_session = sessions.insert(
        user_id.clone(),
        SharifyWsInstance { room_id, hb_secs: now, is_ready: false },
    );
    let set_res = mgr.set_ws_user_state(room_id, user_id, true);
    proof {
        if set_res is Err {
            assert(false);
        }
        let (k2, a2) = choose|k2: int, a2: int|
            #![trigger is_room_index(pre_mgr, room_id, k2), pre_mgr[k2].users@[a2]]
            is_room_index(pre_mgr, room_id, k2) && is_user_index(
                pre_mgr[k2].users@,
                user_id@,
                a2,
            ) && mgr@.len() == pre_mgr.len() && (forall|j: int|
                0 <= j < pre_mgr.len() && j != k2 ==> mgr@[j] == pre_mgr[j])
                && crate::room::same_except_users(mgr@[k2], pre_mgr[k2]) && mgr@[k2].users@
                == pre_mgr[k2].users@.update(
                a2,
                crate::room::RoomUser {
                    is_connected: true,
                    id: pre_mgr[k2].users@[a2].id,
                    username: pre_mgr[k2].users@[a2].username,
                    role_id: pre_mgr[k2].users@[a2].role_id,
                },
            );
        crate::room_manager::lemma_room_index_unique(pre_mgr, room_id, k2, k);
        assert(pre_mgr[k].wf());
        crate::room::lemma_user_index_unique(pre_mgr[k].users@, user_id@, a2, user_idx as int);
    }
    if !threads {
        let ghost mid_mgr = mgr@;
        let mark_res = mgr.mark_room_threads_initiated(room_id);
        proof {
            if mark_res is Err {
                assert(is_room_index(mid_mgr, room_id, k));
                assert(false);
            }
            let k3 = choose|k3: int|
                #[trigger] is_room_index(mid_mgr, room_id, k3) && mgr@.len() == mid_mgr.len() && (
                forall|j: int|
                    0 <= j < mid_mgr.len() && j != k3 ==> mgr@[j] == mid_mgr[j])
                    && crate::room::same_except_metadata(mgr@[k3], mid_mgr[k3])
                    && mgr@[k3].metadata.are_threads_initiated;
            assert(is_room_index(mid_mgr, room_id, k));
            crate::room_manager::lemma_room_index_unique(mid_mgr, room_id, k3, k);
        }
    }
    Ok(WsAccept { username, start_room_loops: !threads, had_prior_session })
}

} // verus!
