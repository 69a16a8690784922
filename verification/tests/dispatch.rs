use sharify::commands::{
    provider_reply, Command, CommandResponse, CommandType, Dispatched, ProviderAction,
    ProviderOutcome, StateImpact, SPOTIFY_FETCH_ALL, SPOTIFY_FETCH_PLAYBACK,
    SPOTIFY_FETCH_TRACKS_Q,
};
use sharify::room::{CredentialsInput, RoomError};
use sharify::room_manager::RoomManager;
use sharify::spotify::{SpotifyError, Timestamp};
use sharify::websocket::{
    hb_expired, on_frame, plan_after_dispatch, poll_step, ws_accept, FrameAction, FrameEvent,
    PollEvent, PollStep, SharifyWsInstance, SharifyWsManager, WsReject,
};

fn creds() -> CredentialsInput {
    CredentialsInput {
        access_token: "access".to_owned(),
        refresh_token: "refresh".to_owned(),
        expires_in: 3600,
        created_at: Timestamp::new("1700000000".to_owned()),
    }
}

fn room_with_guest() -> (RoomManager, u128) {
    let mut mgr = RoomManager::new();
    let room = mgr
        .create_room("U1".to_owned(), "owner".to_owned(), "R".to_owned(), creds())
        .unwrap();
    mgr.join_room(room.id, "guest".to_owned(), "U2".to_owned()).unwrap();
    (mgr, room.id)
}

#[test]
fn guests_may_fetch_the_room_but_not_kick() {
    let (mgr, room_id) = room_with_guest();
    let cmd = Command::new("U2".to_owned(), room_id);
    assert!(cmd.has_permission_to(&mgr, &CommandType::GetRoom));
    assert!(cmd.has_permission_to(&mgr, &CommandType::LeaveRoom));
    assert!(!cmd.has_permission_to(&mgr, &CommandType::Search("q".to_owned())));
    assert!(!cmd.has_permission_to(
        &mgr,
        &CommandType::Kick { user_id: "U1".to_owned(), reason: "no".to_owned() },
    ));
}

#[test]
fn owners_hold_every_permission() {
    let (mgr, room_id) = room_with_guest();
    let cmd = Command::new("U1".to_owned(), room_id);
    assert!(cmd.has_permission_to(&mgr, &CommandType::SetVolume(40)));
    assert!(cmd.has_permission_to(&mgr, &CommandType::SkipNext));
    assert!(cmd.has_permission_to(
        &mgr,
        &CommandType::Ban { user_id: "U2".to_owned(), reason: "x".to_owned() },
    ));
    assert!(cmd.has_permission_to(&mgr, &CommandType::DeleteRole(7)));
}

#[test]
fn renaming_requires_a_strictly_weaker_target() {
    let (mgr, room_id) = room_with_guest();
    let room = mgr.get_room(&room_id).unwrap();
    let owner_role_id = room.users[0].role_id;
    let guest_role_id = room.users[1].role_id;
    let owner = Command::new("U1".to_owned(), room_id);
    assert!(owner.has_permission_to(
        &mgr,
        &CommandType::RenameRole { role_id: guest_role_id, name: "Pleb".to_owned() },
    ));
    // the owner's own role does not sit strictly below the owner
    assert!(!owner.has_permission_to(
        &mgr,
        &CommandType::RenameRole { role_id: owner_role_id, name: "Boss".to_owned() },
    ));
}

#[test]
fn unauthorized_commands_answer_unauthorized_with_no_impact() {
    let (mut mgr, room_id) = room_with_guest();
    let cmd = Command::new("U2".to_owned(), room_id);
    let (out, impact) = cmd.process(&mut mgr, CommandType::Pause);
    assert!(matches!(impact, StateImpact::Nothing));
    match out {
        Dispatched::Done(Err(CommandResponse::RoomError(e))) => {
            assert!(matches!(e, RoomError::Unauthorized))
        },
        _ => panic!("expected an unauthorized reply"),
    }
}

#[test]
fn provider_commands_carry_their_action_and_impact() {
    let (mut mgr, room_id) = room_with_guest();
    let cmd = Command::new("U1".to_owned(), room_id);
    let (out, impact) = cmd.process(&mut mgr, CommandType::SetVolume(55));
    assert!(matches!(impact, StateImpact::Both(SPOTIFY_FETCH_PLAYBACK)));
    assert!(matches!(out, Dispatched::Provider(ProviderAction::SetVolume(55))));
    let (out2, impact2) = cmd.process(&mut mgr, CommandType::SkipNext);
    assert!(matches!(impact2, StateImpact::Both(SPOTIFY_FETCH_ALL)));
    assert!(matches!(out2, Dispatched::Provider(ProviderAction::SkipNext)));
    let (out3, impact3) = cmd.process(
        &mut mgr,
        CommandType::AddToQueue {
            track_id: "t1".to_owned(),
            track_name: "one".to_owned(),
            track_duration: 1000,
        },
    );
    assert!(matches!(impact3, StateImpact::Both(SPOTIFY_FETCH_TRACKS_Q)));
    match out3 {
        Dispatched::Provider(ProviderAction::AddToQueue(t)) => assert_eq!(t, "t1"),
        _ => panic!("expected an enqueue action"),
    }
}

#[test]
fn dispatched_kick_applies_to_the_registry() {
    let (mut mgr, room_id) = room_with_guest();
    let cmd = Command::new("U1".to_owned(), room_id);
    let (out, impact) = cmd.process(
        &mut mgr,
        CommandType::Kick { user_id: "U2".to_owned(), reason: "bye".to_owned() },
    );
    assert!(matches!(impact, StateImpact::Room));
    assert!(matches!(out, Dispatched::Done(Ok(None))));
    let after = mgr.get_room(&room_id).unwrap();
    assert_eq!(after.users.len(), 1);
}

#[test]
fn dispatched_get_room_returns_a_snapshot() {
    let (mut mgr, room_id) = room_with_guest();
    let cmd = Command::new("U2".to_owned(), room_id);
    let (out, impact) = cmd.process(&mut mgr, CommandType::GetRoom);
    assert!(matches!(impact, StateImpact::Nothing));
    match out {
        Dispatched::Done(Ok(Some(CommandResponse::Room(room)))) => {
            assert_eq!(room.id, room_id);
            assert_eq!(room.users.len(), 2);
        },
        _ => panic!("expected a room snapshot"),
    }
}

#[test]
fn provider_replies_mirror_the_outcome() {
    assert!(matches!(provider_reply(ProviderOutcome::Done), Ok(None)));
    match provider_reply(ProviderOutcome::Failed(SpotifyError::RateLimited(12))) {
        Err(CommandResponse::SpotifyRateLimited(t)) => assert_eq!(t, 12),
        _ => panic!("expected the limiter's reply"),
    }
    match provider_reply(ProviderOutcome::Failed(SpotifyError::Generic("oops".to_owned()))) {
        Err(CommandResponse::GenericError(m)) => assert_eq!(m, "oops"),
        _ => panic!("expected the provider's message"),
    }
}

#[test]
fn frame_table_matches_the_session_loop() {
    assert!(matches!(on_frame(FrameEvent::Ping(vec![1, 2])), FrameAction::ReplyPong(b) if b == vec![1, 2]));
    assert!(matches!(on_frame(FrameEvent::Pong), FrameAction::MarkReady));
    assert!(matches!(on_frame(FrameEvent::Text), FrameAction::Ignore));
    assert!(matches!(on_frame(FrameEvent::Close), FrameAction::Stop));
    assert!(matches!(on_frame(FrameEvent::Binary), FrameAction::Dispatch));
}

#[test]
fn poll_table_matches_the_data_loop() {
    assert_eq!(poll_step(PollEvent::Cancelled), PollStep::Stop);
    assert_eq!(poll_step(PollEvent::TickReset(750)), PollStep::ResetDeadline(750));
    assert_eq!(poll_step(PollEvent::Elapsed), PollStep::FetchAllThenSleep);
}

#[test]
fn heartbeats_expire_after_the_timeout() {
    assert!(!hb_expired(110, 100));
    assert!(hb_expired(111, 100));
}

#[test]
fn second_session_for_the_same_user_evicts_the_first() {
    let mut sessions = SharifyWsManager::new();
    let first = SharifyWsInstance { room_id: 7, hb_secs: 10, is_ready: true };
    assert!(!sessions.insert("U1".to_owned(), first));
    let second = SharifyWsInstance { room_id: 7, hb_secs: 20, is_ready: false };
    assert!(sessions.insert("U1".to_owned(), second));
    let live = sessions.get(&"U1".to_owned()).unwrap();
    assert_eq!(live.hb_secs, 20);
    assert!(sessions.remove(&"U1".to_owned()));
    assert!(sessions.get(&"U1".to_owned()).is_none());
    assert!(!sessions.remove(&"U1".to_owned()));
}

#[test]
fn upgrade_is_refused_for_bogus_rooms_and_strangers() {
    let mut mgr = RoomManager::new();
    let mut sessions = SharifyWsManager::new();
    let res = ws_accept(&mut mgr, &mut sessions, 42, &"U1".to_owned(), 100);
    assert!(matches!(res, Err(WsReject::RoomNotFound)));
    let room = mgr
        .create_room("U1".to_owned(), "u".to_owned(), "R".to_owned(), creds())
        .unwrap();
    let res2 = ws_accept(&mut mgr, &mut sessions, room.id, &"U9".to_owned(), 100);
    assert!(matches!(res2, Err(WsReject::Unauthorized)));
}

#[test]
fn upgrade_registers_connects_and_starts_loops_once() {
    let mut mgr = RoomManager::new();
    let mut sessions = SharifyWsManager::new();
    let room = mgr
        .create_room("U1".to_owned(), "u".to_owned(), "R".to_owned(), creds())
        .unwrap();
    let acc = ws_accept(&mut mgr, &mut sessions, room.id, &"U1".to_owned(), 100).unwrap();
    assert_eq!(acc.username, "u");
    assert!(acc.start_room_loops);
    assert!(!acc.had_prior_session);
    let after = mgr.get_room(&room.id).unwrap();
    assert!(after.users[0].is_connected);
    assert!(after.metadata.are_threads_initiated);
    let inst = sessions.get(&"U1".to_owned()).unwrap();
    assert_eq!(inst.room_id, room.id);
    assert!(!inst.is_ready);
    // a second upgrade succeeds but evicts the first session
    let acc2 = ws_accept(&mut mgr, &mut sessions, room.id, &"U1".to_owned(), 200).unwrap();
    assert!(!acc2.start_room_loops);
    assert!(acc2.had_prior_session);
    assert_eq!(sessions.get(&"U1".to_owned()).unwrap().hb_secs, 200);
}

#[test]
fn pong_marks_the_session_ready() {
    let mut sessions = SharifyWsManager::new();
    sessions.insert(
        "U1".to_owned(),
        SharifyWsInstance { room_id: 1, hb_secs: 0, is_ready: false },
    );
    sessions.pong(&"U1".to_owned(), 77);
    let inst = sessions.get(&"U1".to_owned()).unwrap();
    assert!(inst.is_ready);
    assert_eq!(inst.hb_secs, 77);
}

#[test]
fn fanout_snapshot_lists_exactly_the_room_sessions() {
    let mut sessions = SharifyWsManager::new();
    sessions.insert("U1".to_owned(), SharifyWsInstance { room_id: 1, hb_secs: 0, is_ready: true });
    sessions.insert("U2".to_owned(), SharifyWsInstance { room_id: 2, hb_secs: 0, is_ready: true });
    sessions.insert("U3".to_owned(), SharifyWsInstance { room_id: 1, hb_secs: 0, is_ready: true });
    let mut ids = sessions.ids_in_room(1);
    ids.sort();
    assert_eq!(ids, vec!["U1".to_owned(), "U3".to_owned()]);
}

#[test]
fn eviction_plan_notifies_and_drops_the_target() {
    let cmd = CommandType::Ban { user_id: "U2".to_owned(), reason: "x".to_owned() };
    let plan = plan_after_dispatch(&cmd, true, false, StateImpact::Room, false);
    assert_eq!(plan.close_target, Some("U2".to_owned()));
    assert!(matches!(plan.target_notice, Some(CommandResponse::Ban { reason }) if reason == "x"));
    assert!(plan.broadcast_room);
    assert!(plan.delayed_fetch.is_none());
    assert!(!plan.close_self && !plan.close_room);
}

#[test]
fn leave_plan_closes_the_room_only_for_the_sole_manager() {
    let plan = plan_after_dispatch(&CommandType::LeaveRoom, true, false, StateImpact::Room, true);
    assert!(plan.close_self && plan.close_room);
    let plan2 = plan_after_dispatch(&CommandType::LeaveRoom, true, false, StateImpact::Room, false);
    assert!(plan2.close_self && !plan2.close_room);
}

#[test]
fn playback_commands_schedule_a_delayed_fetch() {
    let plan = plan_after_dispatch(
        &CommandType::Pause,
        true,
        false,
        StateImpact::Both(SPOTIFY_FETCH_PLAYBACK),
        false,
    );
    assert_eq!(plan.delayed_fetch, Some(SPOTIFY_FETCH_PLAYBACK));
    assert!(!plan.broadcast_room);
    let refused = plan_after_dispatch(
        &CommandType::Pause,
        false,
        true,
        StateImpact::Both(SPOTIFY_FETCH_PLAYBACK),
        false,
    );
    assert!(refused.delayed_fetch.is_none());
}
