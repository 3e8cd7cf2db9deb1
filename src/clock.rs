//! The clock-sweep replacement policy, stated over a model of the frames.
use vstd::prelude::*;

verus! {

/// What the pool knows of one frame: the page it holds, that page's bytes,
/// whether they differ from disk, the replacement counter, and the number of
/// live handles to it.
pub struct FrameView {
    pub page_id: u64,
    pub page: Seq<u8>,
    pub is_dirty: bool,
    pub usage_count: u64,
    pub pin_count: u64,
}

/// A frame is pinned while some handle to it is alive.
pub open spec fn is_pinned(f: FrameView) -> bool {
    f.pin_count > 0
}

/// The slot after `cursor` in a circle of `n` slots.
pub open spec fn next_slot(cursor: int, n: int) -> int {
    if cursor + 1 >= n {
        0
    } else {
        cursor + 1
    }
}

/// The slot `k` places before `cursor` in a circle of `n` slots (`k <= n`).
pub open spec fn prev_slot(cursor: int, k: int, n: int) -> int {
    if cursor >= k {
        cursor - k
    } else {
        cursor + n - k
    }
}

/// The sum of the usage counters of all frames.
pub open spec fn total_usage(frames: Seq<FrameView>) -> nat
    decreases frames.len(),
{
    if frames.len() == 0 {
        0
    } else {
        (total_usage(frames.drop_last()) + frames.last().usage_count) as nat
    }
}

/// `frame` with its usage counter lowered by one.
pub open spec fn second_chance(frame: FrameView) -> FrameView {
    FrameView { usage_count: (frame.usage_count - 1) as u64, ..frame }
}

/// Where a sweep ends: the frames with their counters, the cursor, the
/// victim's slot if one was found, and how many frames were examined.
pub struct SweepOutcome {
    pub frames: Seq<FrameView>,
    pub cursor: int,
    pub victim: Option<int>,
    pub examined: nat,
}

/// One clock sweep from `cursor`, after `streak` pinned frames in a row.
/// A frame whose counter is zero is the victim and the cursor stays on it;
/// an unpinned frame loses one unit of its counter and the streak restarts;
/// a pinned frame lengthens the streak, and when the streak covers every
/// frame the sweep gives up without moving the cursor past it.
pub open spec fn clock_sweep(frames: Seq<FrameView>, cursor: int, streak: nat) -> SweepOutcome
    decreases total_usage(frames), frames.len() - streak,
    via sweep_decreases
{
    if !(0 <= cursor < frames.len()) || streak >= frames.len() {
        SweepOutcome { frames, cursor, victim: None, examined: 0 }
    } else if frames[cursor].usage_count == 0 {
        SweepOutcome { frames, cursor, victim: Some(cursor), examined: 1 }
    } else if !is_pinned(frames[cursor]) {
        let rest = clock_sweep(
            frames.update(cursor, second_chance(frames[cursor])),
            next_slot(cursor, frames.len() as int),
            0,
        );
        SweepOutcome { examined: rest.examined + 1, ..rest }
    } else if streak + 1 >= frames.len() {
        SweepOutcome { frames, cursor, victim: None, examined: 1 }
    } else {
        let rest = clock_sweep(frames, next_slot(cursor, frames.len() as int), streak + 1);
        SweepOutcome { examined: rest.examined + 1, ..rest }
    }
}

#[via_fn]
proof fn sweep_decreases(frames: Seq<FrameView>, cursor: int, streak: nat) {
    if 0 <= cursor < frames.len() && streak < frames.len() && frames[cursor].usage_count != 0
        && !is_pinned(frames[cursor]) {
        lemma_total_usage_update(frames, cursor, second_chance(frames[cursor]));
    }
}

/// Replacing one frame changes the total by the difference of the two counters.
pub proof fn lemma_total_usage_update(frames: Seq<FrameView>, i: int, v: FrameView)
    requires
        0 <= i < frames.len(),
    ensures
        total_usage(frames.update(i, v)) == total_usage(frames) - frames[i].usage_count
            + v.usage_count,
    decreases frames.len(),
{
    let u = frames.update(i, v);
    if i == frames.len() - 1 {
        assert(u.drop_last() =~= frames.drop_last());
    } else {
        lemma_total_usage_update(frames.drop_last(), i, v);
        assert(u.drop_last() =~= frames.drop_last().update(i, v));
    }
}


/// `after` differs from `before` in usage counters alone, none of them
/// higher than before, and pinned frames are left as they were.
pub open spec fn only_counters_lowered(before: Seq<FrameView>, after: Seq<FrameView>) -> bool {
    &&& after.len() == before.len()
    &&& forall|i: int|
        0 <= i < before.len() ==> #[trigger] after[i] == (FrameView {
            usage_count: after[i].usage_count,
            ..before[i]
        })
    &&& forall|i: int| 0 <= i < before.len() ==> #[trigger] after[i].usage_count <= before[i].usage_count
    &&& forall|i: int| 0 <= i < before.len() && is_pinned(before[i]) ==> #[trigger] after[i] == before[i]
}

/// Every pinned frame has a positive counter: a frame is pinned only by a
/// load or a hit, which both leave its counter positive, and the sweep
/// lowers only unpinned counters.
pub open spec fn pinned_have_credit(frames: Seq<FrameView>) -> bool {
    forall|i: int| 0 <= i < frames.len() && #[trigger] is_pinned(frames[i]) ==> frames[i].usage_count > 0
}

pub open spec fn all_pinned(frames: Seq<FrameView>) -> bool {
    forall|i: int| 0 <= i < frames.len() ==> #[trigger] is_pinned(frames[i])
}

/// The `streak` frames just before `cursor` are all pinned.
pub open spec fn pinned_run(frames: Seq<FrameView>, cursor: int, streak: nat) -> bool {
    forall|k: int|
        1 <= k <= streak ==> #[trigger] is_pinned(frames[prev_slot(cursor, k, frames.len() as int)])
}

/// What every sweep of a consistent pool gives: it only lowers counters,
/// it finds no victim exactly when every frame is pinned, and a victim is an
/// unpinned frame with a zero counter on which the cursor rests.
pub proof fn lemma_sweep_outcome(frames: Seq<FrameView>, cursor: int, streak: nat)
    requires
        0 <= cursor < frames.len(),
        streak < frames.len(),
        pinned_have_credit(frames),
        pinned_run(frames, cursor, streak),
    ensures
        ({
            let o = clock_sweep(frames, cursor, streak);
            &&& only_counters_lowered(frames, o.frames)
            &&& pinned_have_credit(o.frames)
            &&& 0 <= o.cursor < frames.len()
            &&& (o.victim is None <==> all_pinned(frames))
            &&& (o.victim is None ==> o.frames == frames)
            &&& (o.victim is Some ==> {
                &&& o.victim == Some(o.cursor)
                &&& o.frames[o.cursor].usage_count == 0
                &&& !is_pinned(o.frames[o.cursor])
            })
        }),
    decreases total_usage(frames), frames.len() - streak,
{
    let n = frames.len() as int;
    let o = clock_sweep(frames, cursor, streak);
    if frames[cursor].usage_count == 0 {
        assert(!all_pinned(frames)) by {
            assert(!is_pinned(frames[cursor]));
        }
    } else if !is_pinned(frames[cursor]) {
        let lowered = frames.update(cursor, second_chance(frames[cursor]));
        lemma_total_usage_update(frames, cursor, second_chance(frames[cursor]));
        lemma_sweep_outcome(lowered, next_slot(cursor, n), 0);
        assert(!all_pinned(frames));
        assert(!all_pinned(lowered)) by {
            assert(!is_pinned(lowered[cursor]));
        }
        assert forall|i: int| 0 <= i < n && is_pinned(frames[i]) implies #[trigger] o.frames[i]
            == frames[i] by {
            assert(lowered[i] == frames[i]);
        }
    } else if streak + 1 >= n {
        assert forall|j: int| 0 <= j < n implies #[trigger] is_pinned(frames[j]) by {
            let k = if cursor >= j {
                cursor - j
            } else {
                cursor + n - j
            };
            if k != 0 {
                assert(is_pinned(frames[prev_slot(cursor, k, n)]));
            }
        }
    } else {
        let next = next_slot(cursor, n);
        assert forall|k: int| 1 <= k <= streak + 1 implies #[trigger] is_pinned(
            frames[prev_slot(next, k, n)],
        ) by {
            if k >= 2 {
                assert(prev_slot(next, k, n) == prev_slot(cursor, k - 1, n));
            }
        }
        lemma_sweep_outcome(frames, next, streak + 1);
    }
}

/// When every frame is pinned (each with credit, as in any consistent pool),
/// a sweep examines exactly one full round of frames, changes no counter,
/// finds no victim, and leaves the cursor on the last frame it examined.
pub proof fn lemma_sweep_all_pinned(frames: Seq<FrameView>, cursor: int)
    requires
        0 <= cursor < frames.len(),
        all_pinned(frames),
        pinned_have_credit(frames),
    ensures
        clock_sweep(frames, cursor, 0) == (SweepOutcome {
            frames,
            cursor: prev_slot(cursor, 1, frames.len() as int),
            victim: None,
            examined: frames.len(),
        }),
{
    lemma_sweep_all_pinned_from(frames, cursor, 0);
}

proof fn lemma_sweep_all_pinned_from(frames: Seq<FrameView>, cursor: int, streak: nat)
    requires
        0 <= cursor < frames.len(),
        streak < frames.len(),
        all_pinned(frames),
        pinned_have_credit(frames),
    ensures
        clock_sweep(frames, cursor, streak) == (SweepOutcome {
            frames,
            cursor: prev_slot(cursor, streak + 1 as int, frames.len() as int),
            victim: None,
            examined: (frames.len() - streak) as nat,
        }),
    decreases frames.len() - streak,
{
    assert(is_pinned(frames[cursor]));
    if streak + 1 < frames.len() {
        lemma_sweep_all_pinned_from(frames, next_slot(cursor, frames.len() as int), streak + 1);
    }
}

/// In a pool whose frames all have empty counters and none is pinned, the
/// sweep takes the frame under the cursor and changes nothing. Once that
/// frame is refilled with one unit of credit, pinned or not, the next sweep
/// passes it by and takes the following frame, which is another frame
/// whenever the pool has two or more.
pub proof fn lemma_sweep_fresh_then_refilled(frames: Seq<FrameView>, cursor: int, refill: FrameView)
    requires
        0 <= cursor < frames.len(),
        forall|i: int|
            0 <= i < frames.len() ==> (#[trigger] frames[i]).usage_count == 0 && !is_pinned(
                frames[i],
            ),
        refill.usage_count == 1,
    ensures
        ({
            let first = clock_sweep(frames, cursor, 0);
            let second = clock_sweep(first.frames.update(first.cursor, refill), first.cursor, 0);
            &&& first == (SweepOutcome { frames, cursor, victim: Some(cursor), examined: 1 })
            &&& frames.len() >= 2 ==> {
                &&& second.victim == Some(next_slot(cursor, frames.len() as int))
                &&& second.victim != Some(cursor)
                &&& second.examined == 2
            }
        }),
{
    reveal_with_fuel(clock_sweep, 2);
    let n = frames.len() as int;
    let refilled = frames.update(cursor, refill);
    if n >= 2 {
        let next = next_slot(cursor, n);
        assert(refilled[next] == frames[next]);
        if !is_pinned(refill) {
            let lowered = refilled.update(cursor, second_chance(refilled[cursor]));
            assert(lowered[next] == frames[next]);
        }
    }
}

} // verus!
