//! Stepping through a recorded BSP build: which events make up one partition step, and the
//! replay cursor that walks the recording step by step.

use vstd::prelude::*;

use crate::prefs::BspAnimPref;

verus! {

/// Shortest user-selectable delay between replay steps, in milliseconds.
pub const MIN_INTERVAL_MS: u64 = 1;

/// Longest user-selectable delay between replay steps, in milliseconds.
pub const MAX_INTERVAL_MS: u64 = 1000;

/// Delay between replay steps when none was chosen, in milliseconds.
pub const DEFAULT_INTERVAL_MS: u64 = 100;

/// What a recorded BSP build event is.
#[derive(Debug, Clone, Copy, PartialEq, Eq, Structural)]
pub enum BuildEventKind {
    PartitionChosen,
    SegsSplit,
    SubsectorDone,
}

/// Index of the `n`-th partition (counting from 1) at or after `start`, or `events.len()` when
/// there are fewer.
pub open spec fn nth_partition_from(events: Seq<BuildEventKind>, start: int, n: int) -> int
    decreases events.len() - start,
{
    if start >= events.len() {
        events.len() as int
    } else if events[start] == BuildEventKind::PartitionChosen {
        if n <= 1 {
            start
        } else {
            nth_partition_from(events, start + 1, n - 1)
        }
    } else {
        nth_partition_from(events, start + 1, n)
    }
}

/// Index past the step that starts at `start`: the step runs up to, not including, the second
/// partition from `start` (its own partition and what follows it), or to the end.
pub fn partition_step_end(events: &[BuildEventKind], start: usize) -> (end: usize)
    requires
        start <= events@.len(),
    ensures
        end == nth_partition_from(events@, start as int, 2),
{
    let mut seen_partition: bool = false;
    let mut i: usize = start;
    while i < events.len()
        invariant
            start <= i <= events@.len(),
            nth_partition_from(events@, start as int, 2) == nth_partition_from(
                events@,
                i as int,
                if seen_partition { 1 } else { 2 },
            ),
        decreases events@.len() - i,
    {
        if events[i] == BuildEventKind::PartitionChosen {
            if seen_partition {
                return i;
            }
            seen_partition = true;
        }
        i = i + 1;
    }
    events.len()
}

/// Every partition search stays within the recording: it lands at or after `start` and no later
/// than the end, and looking for a second partition from a position inside the recording always
/// moves past that position.
pub proof fn lemma_nth_partition_bounds(events: Seq<BuildEventKind>, start: int, n: int)
    requires
        0 <= start <= events.len(),
    ensures
        start <= nth_partition_from(events, start, n) <= events.len(),
        n >= 2 && start < events.len() ==> nth_partition_from(events, start, n) > start,
    decreases events.len() - start,
{
    if start < events.len() {
        if events[start] == BuildEventKind::PartitionChosen {
            if n > 1 {
                lemma_nth_partition_bounds(events, start + 1, n - 1);
            }
        } else {
            lemma_nth_partition_bounds(events, start + 1, n);
        }
    }
}

proof fn lemma_first_partition(events: Seq<BuildEventKind>, start: int)
    requires
        0 <= start <= events.len(),
    ensures
        start <= nth_partition_from(events, start, 1) <= events.len(),
        nth_partition_from(events, start, 1) < events.len() ==> events[nth_partition_from(events, start, 1)]
            == BuildEventKind::PartitionChosen,
        forall|i: int|
            start <= i < nth_partition_from(events, start, 1) ==> #[trigger] events[i]
                != BuildEventKind::PartitionChosen,
    decreases events.len() - start,
{
    if start < events.len() && events[start] != BuildEventKind::PartitionChosen {
        lemma_first_partition(events, start + 1);
    }
}

/// A replay step holds one partition and what that partition split: it runs from `start` to the
/// next partition after the first one at or after `start` (or to the end), so it takes in that
/// first partition when there is one, no two partitions fall in one step, and it stops only on a
/// partition or at the end.
pub proof fn lemma_partition_step_law(events: Seq<BuildEventKind>, start: int)
    requires
        0 <= start <= events.len(),
    ensures
        start <= nth_partition_from(events, start, 2) <= events.len(),
        nth_partition_from(events, start, 2) < events.len() ==> events[nth_partition_from(events, start, 2)]
            == BuildEventKind::PartitionChosen,
        forall|i: int, j: int|
            start <= i < j < nth_partition_from(events, start, 2) ==> !(#[trigger] events[i]
                == BuildEventKind::PartitionChosen && #[trigger] events[j] == BuildEventKind::PartitionChosen),
        (exists|i: int| start <= i < events.len() && #[trigger] events[i] == BuildEventKind::PartitionChosen)
            ==> exists|i: int|
            start <= i < nth_partition_from(events, start, 2) && #[trigger] events[i]
                == BuildEventKind::PartitionChosen,
    decreases events.len() - start,
{
    lemma_first_partition(events, start);
    if exists|i: int| start <= i < events.len() && #[trigger] events[i] == BuildEventKind::PartitionChosen {
        let w = choose|i: int| start <= i < events.len() && #[trigger] events[i] == BuildEventKind::PartitionChosen;
        assert(nth_partition_from(events, start, 1) <= w);
    }
    if start < events.len() {
        if events[start] == BuildEventKind::PartitionChosen {
            lemma_first_partition(events, start + 1);
        } else {
            lemma_partition_step_law(events, start + 1);
        }
    }
}

/// Clamps a requested replay delay into the user-tunable range.
pub fn replay_interval_ms(interval_ms: u64) -> (ms: u64)
    ensures
        ms == (if interval_ms < MIN_INTERVAL_MS {
            MIN_INTERVAL_MS
        } else if interval_ms > MAX_INTERVAL_MS {
            MAX_INTERVAL_MS
        } else {
            interval_ms
        }),
{
    if interval_ms < MIN_INTERVAL_MS {
        MIN_INTERVAL_MS
    } else if interval_ms > MAX_INTERVAL_MS {
        MAX_INTERVAL_MS
    } else {
        interval_ms
    }
}

/// Where a replay of a recorded build stands.
#[derive(Debug, Clone, Copy, PartialEq, Eq)]
pub struct BspReplay {
    /// Index of the next event to draw.
    pub next: usize,
    /// Draw every event in one step.
    pub instant: bool,
    /// Keep the geometry of earlier steps, or show only the current one.
    pub keep_all: bool,
}

/// What one replay step draws.
#[derive(Debug, Clone, Copy, PartialEq, Eq)]
pub struct ReplayStep {
    /// First event of the step.
    pub start: usize,
    /// Index past the last event of the step.
    pub end: usize,
    /// Drop the geometry kept from earlier steps before drawing this one.
    pub clear_kept: bool,
    /// The recording has been drawn to its end.
    pub finished: bool,
}

/// Starts a replay of `event_count` recorded events, or none when the preference is off or
/// nothing was recorded.
pub fn start_replay(mode: BspAnimPref, event_count: usize, keep_all: bool) -> (r: Option<BspReplay>)
    ensures
        r is None <==> (mode == BspAnimPref::Off || event_count == 0),
        r matches Some(p) ==> p.next == 0 && p.instant == (mode == BspAnimPref::Instant)
            && p.keep_all == keep_all,
{
    if mode == BspAnimPref::Off || event_count == 0 {
        None
    } else {
        Some(BspReplay { next: 0, instant: mode == BspAnimPref::Instant, keep_all })
    }
}

/// Advances the replay by one step: the whole recording when instant, else one partition step.
pub fn advance_replay(replay: &mut BspReplay, events: &[BuildEventKind]) -> (step: ReplayStep)
    requires
        old(replay).next <= events@.len(),
    ensures
        step.start == old(replay).next,
        step.end == (if old(replay).instant {
            events@.len() as int
        } else {
            nth_partition_from(events@, old(replay).next as int, 2)
        }),
        step.clear_kept == !old(replay).keep_all,
        step.finished == (step.end == events@.len()),
        final(replay).next == step.end,
        final(replay).instant == old(replay).instant,
        final(replay).keep_all == old(replay).keep_all,
        old(replay).next < events@.len() ==> step.end > step.start,
        step.start <= step.end <= events@.len(),
{
    proof {
        lemma_nth_partition_bounds(events@, replay.next as int, 2);
    }
    let start = replay.next;
    let end = if replay.instant {
        events.len()
    } else {
        partition_step_end(events, start)
    };
    replay.next = end;
    ReplayStep { start, end, clear_kept: !replay.keep_all, finished: end == events.len() }
}

} // verus!
