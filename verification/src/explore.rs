//! The measured part of one exploration attempt: step the world, feed each
//! fresh generation to the novelty tracker, and stop at the sampling
//! horizon or at full quiescence, whichever comes first. The whole run is a
//! function of the starting world and tracker alone, so its verdict is
//! reproducible from them.

use vstd::prelude::*;

use crate::novelty::{observe_spec, NoveltyModel, NoveltyTracker};
use crate::world::{step_spec, World, WorldModel};

verus! {

/// Whether the last computed generation changed any cell.
pub open spec fn any_changed(w: WorldModel) -> bool {
    exists|i: int| 0 <= i < w.cell_changed.len() && w.cell_changed[i]
}

/// The run as a function of its starting state: repeatedly step and
/// observe, until the tracker reaches its sampling horizon or a generation
/// changes nothing.
pub open spec fn run_spec(w: WorldModel, t: NoveltyModel) -> (WorldModel, NoveltyModel)
    decreases t.sample_frame_count - t.frames_seen,
{
    if t.frames_seen >= t.sample_frame_count {
        (w, t)
    } else {
        let w2 = step_spec(w);
        let t2 = observe_spec(t, w2);
        if t2.frames_seen == t.sample_frame_count || !any_changed(w2) {
            (w2, t2)
        } else {
            run_spec(w2, t2)
        }
    }
}

/// Runs one exploration attempt to its end. Every quantity the heuristic
/// reports afterwards — the distinct-hash count and the window difference —
/// is pinned by `run_spec`, a function of the starting world and tracker:
/// two runs from equal states report equal results.
pub fn run_novelty_search(world: &mut World, tracker: &mut NoveltyTracker)
    requires
        old(world)@.wf(),
        old(world)@.stable(),
        old(tracker)@.wf(),
        old(tracker)@.frames_seen < old(tracker)@.sample_frame_count,
        old(tracker)@.window_a.len() == old(world)@.area(),
        old(tracker)@.window_b.len() == old(world)@.area(),
    ensures
        (final(world)@, final(tracker)@) == run_spec(old(world)@, old(tracker)@),
        final(world)@.wf(),
        final(tracker)@.wf(),
{
    loop
        invariant_except_break
            world@.wf(),
            world@.stable(),
            tracker@.wf(),
            tracker@.frames_seen < tracker@.sample_frame_count,
            tracker@.window_a.len() == world@.area(),
            tracker@.window_b.len() == world@.area(),
            run_spec(world@, tracker@) == run_spec(old(world)@, old(tracker)@),
        ensures
            (world@, tracker@) == run_spec(old(world)@, old(tracker)@),
            world@.wf(),
            tracker@.wf(),
        decreases tracker@.sample_frame_count - tracker@.frames_seen,
    {
        let ghost wv = world@;
        let ghost tv = tracker@;
        world.step();
        proof {
            crate::world::lemma_step_preserves_stability(wv);
        }
        tracker.observe(world);
        let at_horizon = tracker.frames_seen() == tracker.sample_frame_count();
        let changes = world.any_cell_changed();
        proof {
            assert(world@ == step_spec(wv));
            assert(tracker@ == observe_spec(tv, step_spec(wv)));
            assert(run_spec(wv, tv) == (if tracker@.frames_seen == tv.sample_frame_count
                || !any_changed(world@) {
                (world@, tracker@)
            } else {
                run_spec(world@, tracker@)
            }));
        }
        if at_horizon || !changes {
            break;
        }
    }
}

} // verus!
