//! Which pending screen captures a repaint of an output serves.
use vstd::prelude::*;

verus! {

/// What a repaint of an output does with one pending capture request.
#[derive(Debug, Clone, Copy, PartialEq, Eq, Structural)]
pub enum CaptureStep {
    /// The request is for this output, which has a current mode: capture
    /// the frame now.
    Capture,
    /// The request is for another output: leave it queued.
    Keep,
    /// The request's output is gone, or it is this output and this output
    /// has no current mode: fail it as stopped.
    Fail,
}

/// The step for a request whose output is `entry_output` (`None` once that
/// output is gone) when output `output`, which has a current mode exactly
/// when `has_mode`, was repainted.
pub open spec fn capture_step_for(entry_output: Option<u32>, output: u32, has_mode: bool) -> CaptureStep {
    match entry_output {
        Some(o) => if o == output {
            if has_mode {
                CaptureStep::Capture
            } else {
                CaptureStep::Fail
            }
        } else {
            CaptureStep::Keep
        },
        None => CaptureStep::Fail,
    }
}

/// The step for a request whose output is `entry_output` (`None` once that
/// output is gone) when output `output`, which has a current mode exactly
/// when `has_mode`, was repainted.
pub fn capture_step(entry_output: Option<u32>, output: u32, has_mode: bool) -> (s: CaptureStep)
    ensures
        s == capture_step_for(entry_output, output, has_mode),
{
    match entry_output {
        Some(o) => if o == output {
            if has_mode {
                CaptureStep::Capture
            } else {
                CaptureStep::Fail
            }
        } else {
            CaptureStep::Keep
        },
        None => CaptureStep::Fail,
    }
}

/// The positions in `entries` whose step is `step`, in queue order.
pub open spec fn positions_with(entries: Seq<Option<u32>>, output: u32, has_mode: bool, step: CaptureStep) -> Seq<usize>
    decreases entries.len(),
{
    if entries.len() == 0 {
        Seq::empty()
    } else {
        let prev = positions_with(entries.drop_last(), output, has_mode, step);
        if capture_step_for(entries.last(), output, has_mode) == step {
            prev.push((entries.len() - 1) as usize)
        } else {
            prev
        }
    }
}

/// Splits the pending requests (each given by its output, `None` once that
/// output is gone) on a repaint of `output` (which has a current mode
/// exactly when `has_mode`): the positions to keep queued, to capture now
/// and to fail as stopped, each in queue order.
pub fn partition_pending(entries: &Vec<Option<u32>>, output: u32, has_mode: bool) -> (r: (Vec<usize>, Vec<usize>, Vec<usize>))
    ensures
        r.0@ == positions_with(entries@, output, has_mode, CaptureStep::Keep),
        r.1@ == positions_with(entries@, output, has_mode, CaptureStep::Capture),
        r.2@ == positions_with(entries@, output, has_mode, CaptureStep::Fail),
{
    let mut keep: Vec<usize> = Vec::new();
    let mut capture: Vec<usize> = Vec::new();
    let mut fail: Vec<usize> = Vec::new();
    let mut i: usize = 0;
    while i < entries.len()
        invariant
            i <= entries@.len(),
            keep@ == positions_with(entries@.take(i as int), output, has_mode, CaptureStep::Keep),
            capture@ == positions_with(entries@.take(i as int), output, has_mode, CaptureStep::Capture),
            fail@ == positions_with(entries@.take(i as int), output, has_mode, CaptureStep::Fail),
        decreases entries@.len() - i,
    {
        proof {
            let t = entries@.take(i + 1);
            assert(t.drop_last() =~= entries@.take(i as int));
            assert(t.last() == entries@[i as int]);
        }
        match capture_step(entries[i], output, has_mode) {
            CaptureStep::Keep => keep.push(i),
            CaptureStep::Capture => capture.push(i),
            CaptureStep::Fail => fail.push(i),
        }
        i = i + 1;
    }
    assert(entries@.take(entries@.len() as int) =~= entries@);
    (keep, capture, fail)
}

/// A repaint of an output without a current mode captures nothing: every
/// request for that output is failed as stopped, like every request whose
/// output is gone, and the rest stay queued.
pub proof fn law_no_mode_fails_its_captures(entries: Seq<Option<u32>>, output: u32)
    ensures
        positions_with(entries, output, false, CaptureStep::Capture).len() == 0,
        forall|i: int| 0 <= i < entries.len() && #[trigger] entries[i] == Some(output) ==> capture_step_for(
            entries[i],
            output,
            false,
        ) == CaptureStep::Fail,
    decreases entries.len(),
{
    if entries.len() > 0 {
        law_no_mode_fails_its_captures(entries.drop_last(), output);
    }
}

/// Every pending request gets exactly one step: the three position lists
/// together hold as many positions as there are requests, and a position
/// lies in the list of its own step.
pub proof fn law_each_request_has_one_step(entries: Seq<Option<u32>>, output: u32, has_mode: bool)
    requires
        entries.len() <= usize::MAX,
    ensures
        positions_with(entries, output, has_mode, CaptureStep::Keep).len() + positions_with(entries, output, has_mode, CaptureStep::Capture).len()
            + positions_with(entries, output, has_mode, CaptureStep::Fail).len() == entries.len(),
        forall|i: int, step: CaptureStep|
            0 <= i < entries.len() ==> (#[trigger] positions_with(entries, output, has_mode, step).contains(i as usize)
                <==> capture_step_for(entries[i], output, has_mode) == step),
    decreases entries.len(),
{
    if entries.len() > 0 {
        let p = entries.drop_last();
        law_each_request_has_one_step(p, output, has_mode);
        assert forall|i: int, step: CaptureStep|
            0 <= i < entries.len() implies (#[trigger] positions_with(entries, output, has_mode, step).contains(i as usize)
                <==> capture_step_for(entries[i], output, has_mode) == step) by {
            let ps = positions_with(p, output, has_mode, step);
            let es = positions_with(entries, output, has_mode, step);
            assert forall|k: int| 0 <= k < ps.len() implies ps[k] < p.len() by {
                lemma_positions_below(p, output, has_mode, step);
            }
            if i < p.len() {
                assert(entries[i] == p[i]);
                if es.contains(i as usize) && !ps.contains(i as usize) {
                    assert(es[es.len() - 1] == (entries.len() - 1) as usize);
                }
                if ps.contains(i as usize) {
                    let k = choose|k: int| 0 <= k < ps.len() && ps[k] == i as usize;
                    assert(es[k] == i as usize);
                }
            } else {
                if es.contains(i as usize) && capture_step_for(entries[i], output, has_mode) != step {
                    let k = choose|k: int| 0 <= k < es.len() && es[k] == i as usize;
                    assert(es == ps);
                    assert(ps[k] < p.len());
                }
                if capture_step_for(entries[i], output, has_mode) == step {
                    assert(es[es.len() - 1] == i as usize);
                }
            }
        }
    }
}

proof fn lemma_positions_below(entries: Seq<Option<u32>>, output: u32, has_mode: bool, step: CaptureStep)
    requires
        entries.len() <= usize::MAX,
    ensures
        forall|k: int| 0 <= k < positions_with(entries, output, has_mode, step).len() ==> #[trigger] positions_with(
            entries,
            output,
            has_mode,
            step,
        )[k] < entries.len(),
    decreases entries.len(),
{
    if entries.len() > 0 {
        let p = entries.drop_last();
        lemma_positions_below(p, output, has_mode, step);
        let ps = positions_with(p, output, has_mode, step);
        let es = positions_with(entries, output, has_mode, step);
        assert forall|k: int| 0 <= k < es.len() implies #[trigger] es[k] < entries.len() by {
            if k < ps.len() {
                assert(es[k] == ps[k]);
            } else {
                assert(es[k] == (entries.len() - 1) as usize);
            }
        }
    }
}

} // verus!
