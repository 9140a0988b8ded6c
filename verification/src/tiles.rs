//! The tiles of one snapshot: which are fetched, from where, and what a
//! fetch task does after each attempt.

use crate::cvutils::{cell_index, in_grid, COLMAX, ROWMAX};
use crate::himawaridt::{HimawariDatetime, SnapshotError};
use vstd::prelude::*;

verus! {

/// One tile of a snapshot before it is fetched: its cell and its locator.
#[derive(Debug, PartialEq, Eq)]
pub struct RemoteTile {
    pub x: u32,
    pub y: u32,
    pub url: url::Url,
}

impl RemoteTile {
    /// The tile of cell (`x`, `y`), to be fetched from `url`.
    pub fn new(x: u32, y: u32, url: url::Url) -> (tile: Self)
        requires
            in_grid(x as int, y as int),
        ensures
            tile.x == x,
            tile.y == y,
            tile.url == url,
    {
        RemoteTile { x, y, url }
    }
}

impl Clone for RemoteTile {
    /// A second tile for the same cell, with the same locator.
    fn clone(&self) -> (tile: Self)
        ensures
            tile == *self,
    {
        RemoteTile { x: self.x, y: self.y, url: self.url.clone() }
    }
}

/// Whether the address of every tile of the snapshot is a valid URL.
pub open spec fn locators_valid(hwdt: HimawariDatetime) -> bool {
    forall|x: u32, y: u32| in_grid(x as int, y as int) ==> (#[trigger] hwdt.url_of(x, y)) is Ok
}

/// Whether `tiles` are the 400 tiles of the snapshot, column by column, each
/// with its own locator.
pub open spec fn is_full_disc(tiles: Seq<RemoteTile>, hwdt: HimawariDatetime) -> bool {
    &&& tiles.len() == 400
    &&& forall|x: u32, y: u32|
        in_grid(x as int, y as int) ==> {
            let tile = #[trigger] tiles[cell_index(x as int, y as int)];
            tile.x == x && tile.y == y && Ok::<url::Url, SnapshotError>(tile.url) == hwdt.url_of(
                x,
                y,
            )
        }
}

/// Lists the 400 tiles of a snapshot, one for each cell of the grid, column
/// by column. Fails with `MalformedLocator` where the address of some tile is
/// not a valid URL.
pub fn full_disc_tiles(hwdt: &HimawariDatetime) -> (r: Result<Vec<RemoteTile>, SnapshotError>)
    ensures
        match r {
            Ok(tiles) => locators_valid(*hwdt) && is_full_disc(tiles@, *hwdt),
            Err(e) => e == SnapshotError::MalformedLocator && !locators_valid(*hwdt),
        },
{
    let mut tiles: Vec<RemoteTile> = Vec::new();
    let mut x: u32 = 0;
    while x < ROWMAX
        invariant
            x <= 20,
            tiles.len() == x * 20,
            forall|i: u32, j: u32|
                i < x && j < 20 ==> (#[trigger] hwdt.url_of(i, j)) is Ok,
            forall|i: u32, j: u32|
                i < x && j < 20 ==> {
                    let tile = #[trigger] tiles@[cell_index(i as int, j as int)];
                    tile.x == i && tile.y == j && Ok::<url::Url, SnapshotError>(tile.url)
                        == hwdt.url_of(i, j)
                },
        decreases 20 - x,
    {
        let mut y: u32 = 0;
        while y < COLMAX
            invariant
                x < 20,
                y <= 20,
                tiles.len() == x * 20 + y,
                forall|i: u32, j: u32|
                    (i < x && j < 20) || (i == x && j < y) ==> (#[trigger] hwdt.url_of(i, j)) is Ok,
                forall|i: u32, j: u32|
                    (i < x && j < 20) || (i == x && j < y) ==> {
                        let tile = #[trigger] tiles@[cell_index(i as int, j as int)];
                        tile.x == i && tile.y == j && Ok::<url::Url, SnapshotError>(tile.url)
                            == hwdt.url_of(i, j)
                    },
            decreases 20 - y,
        {
            match hwdt.get_url(x, y) {
                Ok(url) => {
                    let ghost before = tiles@;
                    tiles.push(RemoteTile::new(x, y, url));
                    assert forall|i: u32, j: u32|
                        (i < x && j < 20) || (i == x && j < y + 1) implies {
                        let tile = #[trigger] tiles@[cell_index(i as int, j as int)];
                        tile.x == i && tile.y == j && Ok::<url::Url, SnapshotError>(tile.url)
                            == hwdt.url_of(i, j)
                    } by {
                        if i == x && j == y {
                        } else {
                            assert(tiles@[cell_index(i as int, j as int)] == before[cell_index(
                                i as int,
                                j as int,
                            )]);
                        }
                    }
                },
                Err(e) => {
                    return Err(e);
                },
            }
            y = y + 1;
        }
        x = x + 1;
    }
    Ok(tiles)
}

/// Why one attempt to fetch a tile failed.
#[derive(Debug, PartialEq, Eq, Clone, Copy, Structural)]
pub enum FetchError {
    /// The request did not get through, or no response came back.
    Transport,
    /// The response came with a status outside 200..=299.
    HttpStatus(u16),
}

/// How often a fetch task may ask for its tile.
#[derive(Debug, PartialEq, Eq, Clone, Copy, Structural)]
pub struct RetryPolicy {
    /// The most attempts that one tile gets; `None` for no limit.
    pub max_attempts: Option<u64>,
}

/// Where a fetch task stands.
#[derive(Debug, PartialEq, Eq, Clone, Copy, Structural)]
pub enum FetchState {
    /// Nothing was asked for yet.
    Pending,
    /// The request numbered `attempt`, counted from 1, is under way.
    Requesting { attempt: u64 },
    /// The tile arrived and goes to the conduit.
    Delivered,
    /// The last attempt that the policy allows has failed.
    Failed,
}

/// What happened to a fetch task.
#[derive(Debug, PartialEq, Eq, Clone, Copy, Structural)]
pub enum FetchEvent {
    /// The task was started.
    Started,
    /// The request under way brought the bytes of the tile.
    Fetched,
    /// The request under way failed.
    Failure(FetchError),
}

/// What a fetch task does next.
#[derive(Debug, PartialEq, Eq, Clone, Copy, Structural)]
pub enum FetchAction {
    /// Send the request for the tile, the same one each time.
    Request,
    /// Put the bytes that arrived and the tile's cell on the conduit.
    Deliver,
    /// Report that the tile cannot be had.
    GiveUp,
    /// Nothing: the event does not concern the task as it stands.
    Idle,
}

impl RetryPolicy {
    /// Whether a task whose attempt number `attempt` has failed may try again.
    pub open spec fn allows_retry_after(self, attempt: u64) -> bool {
        match self.max_attempts {
            None => true,
            Some(most) => attempt < most,
        }
    }

    /// The policy that retries until the tile arrives.
    pub fn unlimited() -> (policy: Self)
        ensures
            policy.max_attempts is None,
    {
        RetryPolicy { max_attempts: None }
    }

    /// The policy that gives up after `most` attempts.
    pub fn capped(most: u64) -> (policy: Self)
        ensures
            policy.max_attempts == Some(most),
    {
        RetryPolicy { max_attempts: Some(most) }
    }
}

impl Default for RetryPolicy {
    /// The default policy sets no limit.
    fn default() -> (policy: Self)
        ensures
            policy.max_attempts is None,
    {
        RetryPolicy { max_attempts: None }
    }
}

/// The attempt number that follows `attempt`; the count stops at `u64::MAX`.
pub open spec fn next_attempt(attempt: u64) -> u64 {
    if attempt < u64::MAX {
        (attempt + 1) as u64
    } else {
        attempt
    }
}

/// The state that follows `state` on `event`, and what the task does then.
pub open spec fn fetch_step(policy: RetryPolicy, state: FetchState, event: FetchEvent) -> (
    FetchState,
    FetchAction,
) {
    match (state, event) {
        (FetchState::Pending, FetchEvent::Started) => (
            FetchState::Requesting { attempt: 1 },
            FetchAction::Request,
        ),
        (FetchState::Requesting { attempt }, FetchEvent::Fetched) => (
            FetchState::Delivered,
            FetchAction::Deliver,
        ),
        (FetchState::Requesting { attempt }, FetchEvent::Failure(_)) => if policy.allows_retry_after(
            attempt,
        ) {
            (FetchState::Requesting { attempt: next_attempt(attempt) }, FetchAction::Request)
        } else {
            (FetchState::Failed, FetchAction::GiveUp)
        },
        _ => (state, FetchAction::Idle),
    }
}

/// The state of a task after the events `events`, starting from `state`.
pub open spec fn fetch_run(policy: RetryPolicy, state: FetchState, events: Seq<FetchEvent>)
    -> FetchState
    decreases events.len(),
{
    if events.len() == 0 {
        state
    } else {
        fetch_step(policy, fetch_run(policy, state, events.drop_last()), events.last()).0
    }
}

/// Tells a failed response from one that brought the tile: a status within
/// 200..=299 is a success, any other an `HttpStatus` failure.
pub fn check_status(status: u16) -> (r: Result<(), FetchError>)
    ensures
        r is Ok <==> 200 <= status <= 299,
        r is Err ==> r == Err::<(), FetchError>(FetchError::HttpStatus(status)),
{
    if 200 <= status && status <= 299 {
        Ok(())
    } else {
        Err(FetchError::HttpStatus(status))
    }
}

/// Decides what a fetch task does after `event`. A started task sends its
/// request. A request that brings the tile ends the task with a delivery. A
/// request that fails, whatever the failure, is sent again as long as the
/// policy allows; after the last attempt the task has failed. A task that
/// has delivered or failed stays as it is.
pub fn on_fetch_event(policy: &RetryPolicy, state: FetchState, event: FetchEvent) -> (r: (
    FetchState,
    FetchAction,
))
    ensures
        r == fetch_step(*policy, state, event),
{
    match state {
        FetchState::Pending => match event {
            FetchEvent::Started => (FetchState::Requesting { attempt: 1 }, FetchAction::Request),
            _ => (state, FetchAction::Idle),
        },
        FetchState::Requesting { attempt } => match event {
            FetchEvent::Started => (state, FetchAction::Idle),
            FetchEvent::Fetched => (FetchState::Delivered, FetchAction::Deliver),
            FetchEvent::Failure(_) => {
                let again = match policy.max_attempts {
                    None => true,
                    Some(most) => attempt < most,
                };
                if again {
                    let next = if attempt < u64::MAX {
                        attempt + 1
                    } else {
                        attempt
                    };
                    (FetchState::Requesting { attempt: next }, FetchAction::Request)
                } else {
                    (FetchState::Failed, FetchAction::GiveUp)
                }
            },
        },
        FetchState::Delivered => (state, FetchAction::Idle),
        FetchState::Failed => (state, FetchAction::Idle),
    }
}

/// Under the policy without a limit no run of events makes a task fail: it
/// keeps asking until the tile arrives.
pub proof fn lemma_unlimited_never_fails(state: FetchState, events: Seq<FetchEvent>)
    requires
        state != FetchState::Failed,
    ensures
        fetch_run(RetryPolicy { max_attempts: None }, state, events) != FetchState::Failed,
    decreases events.len(),
{
    if events.len() > 0 {
        lemma_unlimited_never_fails(state, events.drop_last());
    }
}

/// A task that has delivered or failed stays so, whatever happens next.
pub proof fn lemma_terminal_states_stay(
    policy: RetryPolicy,
    state: FetchState,
    events: Seq<FetchEvent>,
)
    requires
        state == FetchState::Delivered || state == FetchState::Failed,
    ensures
        fetch_run(policy, state, events) == state,
    decreases events.len(),
{
    if events.len() > 0 {
        lemma_terminal_states_stay(policy, state, events.drop_last());
    }
}

/// A task delivers at most once: among the actions that a run of events
/// brings about from the start, `Deliver` occurs once at most.
pub proof fn lemma_delivers_once(policy: RetryPolicy, events: Seq<FetchEvent>, i: int, j: int)
    requires
        0 <= i < j < events.len(),
        fetch_step(policy, fetch_run(policy, FetchState::Pending, events.take(i)), events[i]).1
            == FetchAction::Deliver,
    ensures
        fetch_step(policy, fetch_run(policy, FetchState::Pending, events.take(j)), events[j]).1
            != FetchAction::Deliver,
{
    let before = fetch_run(policy, FetchState::Pending, events.take(i));
    assert(events.take(i + 1).drop_last() =~= events.take(i));
    assert(events.take(i + 1).last() == events[i]);
    assert(fetch_run(policy, FetchState::Pending, events.take(i + 1)) == FetchState::Delivered);
    lemma_run_splits(policy, FetchState::Pending, events.take(j), i + 1);
    assert(events.take(j).take(i + 1) =~= events.take(i + 1));
    lemma_terminal_states_stay(policy, FetchState::Delivered, events.take(j).skip(i + 1));
}

/// Running a sequence of events is running its first `k`, then the rest.
pub proof fn lemma_run_splits(
    policy: RetryPolicy,
    state: FetchState,
    events: Seq<FetchEvent>,
    k: int,
)
    requires
        0 <= k <= events.len(),
    ensures
        fetch_run(policy, state, events) == fetch_run(
            policy,
            fetch_run(policy, state, events.take(k)),
            events.skip(k),
        ),
    decreases events.len(),
{
    if k == events.len() {
        assert(events.take(k) =~= events);
        assert(events.skip(k) =~= Seq::<FetchEvent>::empty());
    } else {
        lemma_run_splits(policy, state, events.drop_last(), k);
        assert(events.drop_last().take(k) =~= events.take(k));
        assert(events.drop_last().skip(k) =~= events.skip(k).drop_last());
        assert(events.skip(k).last() == events.last());
    }
}

} // verus!
