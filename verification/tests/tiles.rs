use rustwari::cvutils::{COLMAX, ROWMAX, TILE_COUNT, TILE_WIDTH};
use rustwari::himawaridt::HimawariDatetime;
use rustwari::tiles::{
    check_status, full_disc_tiles, on_fetch_event, FetchAction, FetchError, FetchEvent,
    FetchState, RemoteTile, RetryPolicy,
};

fn run(policy: &RetryPolicy, events: &[FetchEvent]) -> (FetchState, Vec<FetchAction>) {
    let mut state = FetchState::Pending;
    let mut actions = Vec::new();
    for event in events {
        let (next, action) = on_fetch_event(policy, state, *event);
        state = next;
        actions.push(action);
    }
    (state, actions)
}

#[test]
fn grid_is_twenty_by_twenty_tiles_of_550() {
    assert_eq!(ROWMAX, 20);
    assert_eq!(COLMAX, 20);
    assert_eq!(TILE_WIDTH, 550);
    assert_eq!(TILE_COUNT, 400);
}

#[test]
fn full_disc_lists_every_cell_once() {
    let hwdt = HimawariDatetime { year: 2022, month: 9, day: 21, h: 0, m: 10 };
    let tiles = full_disc_tiles(&hwdt).unwrap();
    assert_eq!(tiles.len(), 400);
    for x in 0..20u32 {
        for y in 0..20u32 {
            let tile = &tiles[(x * 20 + y) as usize];
            assert_eq!((tile.x, tile.y), (x, y));
            assert_eq!(
                tile.url.as_str(),
                format!(
                    "https://himawari8.nict.go.jp/img/D531106/20d/550/2022/09/21/001000_{x}_{y}.png"
                )
            );
        }
    }
}

#[test]
fn full_disc_locators_differ() {
    let hwdt = HimawariDatetime { year: 2018, month: 8, day: 18, h: 9, m: 0 };
    let tiles = full_disc_tiles(&hwdt).unwrap();
    let mut urls: Vec<String> = tiles.iter().map(|t| t.url.as_str().to_string()).collect();
    urls.sort();
    urls.dedup();
    assert_eq!(urls.len(), 400);
    assert_eq!(
        tiles[17 * 20 + 3].url.as_str(),
        "https://himawari8.nict.go.jp/img/D531106/20d/550/2018/08/18/090000_17_3.png"
    );
}

#[test]
fn remote_tile_keeps_cell_and_locator() {
    let url = url::Url::parse("https://example.net/a_19_0.png").unwrap();
    let tile = RemoteTile::new(19, 0, url.clone());
    assert_eq!(tile, RemoteTile { x: 19, y: 0, url });
    assert_eq!(tile.clone(), tile);
}

#[test]
fn status_within_200_is_success() {
    assert_eq!(check_status(200), Ok(()));
    assert_eq!(check_status(204), Ok(()));
    assert_eq!(check_status(299), Ok(()));
    assert_eq!(check_status(199), Err(FetchError::HttpStatus(199)));
    assert_eq!(check_status(300), Err(FetchError::HttpStatus(300)));
    assert_eq!(check_status(304), Err(FetchError::HttpStatus(304)));
    assert_eq!(check_status(404), Err(FetchError::HttpStatus(404)));
    assert_eq!(check_status(500), Err(FetchError::HttpStatus(500)));
    assert_eq!(check_status(0), Err(FetchError::HttpStatus(0)));
    assert_eq!(check_status(65535), Err(FetchError::HttpStatus(65535)));
}

#[test]
fn a_started_task_sends_its_request() {
    let policy = RetryPolicy::unlimited();
    assert_eq!(
        on_fetch_event(&policy, FetchState::Pending, FetchEvent::Started),
        (FetchState::Requesting { attempt: 1 }, FetchAction::Request)
    );
}

#[test]
fn a_fetched_tile_is_delivered() {
    let policy = RetryPolicy::unlimited();
    assert_eq!(
        on_fetch_event(&policy, FetchState::Requesting { attempt: 1 }, FetchEvent::Fetched),
        (FetchState::Delivered, FetchAction::Deliver)
    );
    assert_eq!(
        on_fetch_event(&policy, FetchState::Requesting { attempt: 77 }, FetchEvent::Fetched),
        (FetchState::Delivered, FetchAction::Deliver)
    );
}

#[test]
fn failures_are_retried_without_limit_by_default() {
    let policy = RetryPolicy::default();
    assert_eq!(policy, RetryPolicy::unlimited());
    assert_eq!(policy.max_attempts, None);
    let mut events = vec![FetchEvent::Started];
    for i in 0..1000u16 {
        events.push(FetchEvent::Failure(if i % 2 == 0 {
            FetchError::Transport
        } else {
            FetchError::HttpStatus(503)
        }));
    }
    let (state, actions) = run(&policy, &events);
    assert_eq!(state, FetchState::Requesting { attempt: 1001 });
    assert!(actions.iter().all(|a| *a == FetchAction::Request));
    let (state, action) = on_fetch_event(&policy, state, FetchEvent::Fetched);
    assert_eq!((state, action), (FetchState::Delivered, FetchAction::Deliver));
}

#[test]
fn the_attempt_count_stops_at_its_limit() {
    let policy = RetryPolicy::unlimited();
    assert_eq!(
        on_fetch_event(
            &policy,
            FetchState::Requesting { attempt: u64::MAX },
            FetchEvent::Failure(FetchError::Transport)
        ),
        (FetchState::Requesting { attempt: u64::MAX }, FetchAction::Request)
    );
}

#[test]
fn a_capped_policy_gives_up_after_the_last_attempt() {
    let policy = RetryPolicy::capped(3);
    let failure = FetchEvent::Failure(FetchError::HttpStatus(404));
    let (state, actions) = run(&policy, &[FetchEvent::Started, failure, failure, failure]);
    assert_eq!(state, FetchState::Failed);
    assert_eq!(
        actions,
        vec![FetchAction::Request, FetchAction::Request, FetchAction::Request, FetchAction::GiveUp]
    );
}

#[test]
fn a_capped_policy_delivers_within_its_attempts() {
    let policy = RetryPolicy::capped(3);
    let failure = FetchEvent::Failure(FetchError::Transport);
    let (state, actions) =
        run(&policy, &[FetchEvent::Started, failure, failure, FetchEvent::Fetched]);
    assert_eq!(state, FetchState::Delivered);
    assert_eq!(actions.last(), Some(&FetchAction::Deliver));
}

#[test]
fn a_policy_of_one_attempt_never_retries() {
    let policy = RetryPolicy::capped(1);
    let (state, actions) =
        run(&policy, &[FetchEvent::Started, FetchEvent::Failure(FetchError::Transport)]);
    assert_eq!(state, FetchState::Failed);
    assert_eq!(actions, vec![FetchAction::Request, FetchAction::GiveUp]);
    let none = RetryPolicy::capped(0);
    let (state, _) = run(&none, &[FetchEvent::Started, FetchEvent::Failure(FetchError::Transport)]);
    assert_eq!(state, FetchState::Failed);
}

#[test]
fn finished_tasks_stay_as_they_are() {
    let policy = RetryPolicy::capped(2);
    for state in [FetchState::Delivered, FetchState::Failed] {
        for event in [
            FetchEvent::Started,
            FetchEvent::Fetched,
            FetchEvent::Failure(FetchError::Transport),
            FetchEvent::Failure(FetchError::HttpStatus(500)),
        ] {
            assert_eq!(on_fetch_event(&policy, state, event), (state, FetchAction::Idle));
        }
    }
}

#[test]
fn events_out_of_turn_change_nothing() {
    let policy = RetryPolicy::unlimited();
    assert_eq!(
        on_fetch_event(&policy, FetchState::Pending, FetchEvent::Fetched),
        (FetchState::Pending, FetchAction::Idle)
    );
    assert_eq!(
        on_fetch_event(&policy, FetchState::Pending, FetchEvent::Failure(FetchError::Transport)),
        (FetchState::Pending, FetchAction::Idle)
    );
    assert_eq!(
        on_fetch_event(&policy, FetchState::Requesting { attempt: 4 }, FetchEvent::Started),
        (FetchState::Requesting { attempt: 4 }, FetchAction::Idle)
    );
}

#[test]
fn a_task_delivers_once_at_most() {
    let policy = RetryPolicy::unlimited();
    let (state, actions) = run(
        &policy,
        &[
            FetchEvent::Started,
            FetchEvent::Failure(FetchError::Transport),
            FetchEvent::Fetched,
            FetchEvent::Fetched,
            FetchEvent::Started,
            FetchEvent::Fetched,
        ],
    );
    assert_eq!(state, FetchState::Delivered);
    assert_eq!(actions.iter().filter(|a| **a == FetchAction::Deliver).count(), 1);
}
