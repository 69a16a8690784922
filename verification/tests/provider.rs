use sharify::discord::WebhookType;
use sharify::room::CredentialsInput;
use sharify::room_manager::RoomManager;
use sharify::spotify_web_utils::SpotifyCurrentPlaybackOutput;
use sharify::spotify::{
    next_poll_delay_ms, rate_limited_seconds, token_expired, validate_recent_tracks_count,
    RateLimiter, SpotifyError, Timestamp, DEFAULT_DATA_INTERVAL_MS, FETCH_OFFSET_MS,
    RATE_LIMIT_REQUEST_WINDOW,
};

#[test]
fn limiter_admits_nine_calls_per_window() {
    let mut limiter = RateLimiter::new(100);
    // the opening call counted as the first; eight more pass
    for _ in 0..8 {
        assert!(limiter.increment(110).is_ok());
    }
    // the tenth call of the window is refused with the seconds left
    match limiter.increment(110) {
        Err(SpotifyError::RateLimited(r)) => {
            assert_eq!(r, RATE_LIMIT_REQUEST_WINDOW - 10);
            assert!(r <= RATE_LIMIT_REQUEST_WINDOW);
        },
        _ => panic!("tenth call must be rate limited"),
    }
}

#[test]
fn limiter_resets_across_the_window_boundary() {
    let mut limiter = RateLimiter::new(100);
    for _ in 0..8 {
        assert!(limiter.increment(120).is_ok());
    }
    assert!(limiter.increment(131).is_ok());
    assert_eq!(limiter.current_window, 131);
    assert_eq!(limiter.request_count_on_window, 1);
    assert!(limiter.increment(140).is_ok());
}

#[test]
fn cadence_targets_the_end_of_a_short_track() {
    // one minute left: poll right after the track ends
    assert_eq!(
        next_poll_delay_ms(true, Some(180000), 240000),
        60000 + FETCH_OFFSET_MS
    );
}

#[test]
fn cadence_halves_a_long_remainder() {
    // four minutes left: poll halfway to catch outside changes
    assert_eq!(
        next_poll_delay_ms(true, Some(0), 240000),
        120000 + FETCH_OFFSET_MS
    );
}

#[test]
fn cadence_falls_back_when_nothing_plays() {
    assert_eq!(next_poll_delay_ms(false, Some(1000), 240000), DEFAULT_DATA_INTERVAL_MS);
    assert_eq!(next_poll_delay_ms(true, None, 240000), DEFAULT_DATA_INTERVAL_MS);
}

#[test]
fn timestamps_parse_exactly_the_decimal_strings() {
    assert_eq!(Timestamp::new("1700000000".to_owned()).to_secs(), Some(1700000000));
    assert_eq!(Timestamp::new("0".to_owned()).to_secs(), Some(0));
    assert_eq!(Timestamp::new(String::new()).to_secs(), None);
    assert_eq!(Timestamp::new("12a".to_owned()).to_secs(), None);
    assert_eq!(Timestamp::new("18446744073709551615".to_owned()).to_secs(), Some(u64::MAX));
    assert_eq!(Timestamp::new("18446744073709551616".to_owned()).to_secs(), None);
}

#[test]
fn tokens_expire_strictly_after_their_lifetime() {
    assert!(!token_expired(1000, 60, 1060));
    assert!(token_expired(1000, 60, 1061));
}

#[test]
fn recent_tracks_count_is_bounded() {
    assert_eq!(validate_recent_tracks_count(None).unwrap(), 5);
    assert_eq!(validate_recent_tracks_count(Some(50)).unwrap(), 50);
    match validate_recent_tracks_count(Some(51)) {
        Err(SpotifyError::Generic(m)) => assert_eq!(m, "You must get 1 to 50 recent tracks"),
        _ => panic!("a count over fifty must be refused"),
    }
    assert!(validate_recent_tracks_count(Some(0)).is_err());
}

#[test]
fn webhook_kinds_carry_their_titles() {
    assert_eq!(WebhookType::Feedback.title(), "Feedback");
    assert_eq!(WebhookType::BugReport.title(), "Bug Report");
}

#[test]
fn playback_snapshot_dequeues_the_playing_head_and_sets_the_cadence() {
    let mut mgr = RoomManager::new();
    let room = mgr
        .create_room(
            "U1".to_owned(),
            "u".to_owned(),
            "R".to_owned(),
            CredentialsInput {
                access_token: "access".to_owned(),
                refresh_token: "refresh".to_owned(),
                expires_in: 3600,
                created_at: Timestamp::new("1700000000".to_owned()),
            },
        )
        .unwrap();
    mgr.add_track_to_queue(room.id, "U1".to_owned(), "t1".to_owned(), "one".to_owned(), 240000)
        .unwrap();
    let playback = Some(SpotifyCurrentPlaybackOutput {
        device_id: "d".to_owned(),
        device_volume: 40,
        shuffle: false,
        progress_ms: Some(180000),
        duration_ms: 240000,
        is_playing: true,
        track_id: "t1".to_owned(),
        track_name: "one".to_owned(),
        artist_name: "a".to_owned(),
        album_image_src: "img".to_owned(),
    });
    let delay = mgr.handle_playback_snapshot(room.id, &playback);
    assert_eq!(delay, Some(60000 + FETCH_OFFSET_MS));
    assert!(mgr.get_room(&room.id).unwrap().tracks_queue.is_empty());
    assert_eq!(mgr.handle_playback_snapshot(room.id, &None), None);
}

#[test]
fn the_last_rate_limited_sub_fetch_wins() {
    assert_eq!(rate_limited_seconds(None, None, None), None);
    assert_eq!(rate_limited_seconds(Some(3), None, None), Some(3));
    assert_eq!(rate_limited_seconds(Some(3), Some(7), None), Some(7));
    assert_eq!(rate_limited_seconds(Some(3), Some(7), Some(11)), Some(11));
}
