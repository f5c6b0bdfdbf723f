//! How the results of running one operation on every selected device are
//! combined: which follow-up work runs, which failures are only logged, and
//! which failure the whole dispatch reports.
use vstd::prelude::*;

verus! {

/// The number of selected devices from which the operation runs on all of
/// them at once.
pub const DEFAULT_PARALLEL_THRESHOLD: usize = 2;

/// One piece of follow-up work, for the device at a position of the selection.
#[derive(Clone, Copy, Debug, PartialEq, Eq, Structural)]
pub enum Step {
    /// Run the follow-up operation for the device, whose operation succeeded.
    Post(usize),
    /// Log the failure of the device, which is not the last failure.
    Log(usize),
}

/// The follow-up of a dispatch: the steps in selection order, and the position
/// whose failure the dispatch returns, if any failed.
#[derive(Clone, Debug, PartialEq, Eq)]
pub struct DispatchPlan {
    pub steps: Vec<Step>,
    pub error: Option<usize>,
}

/// The position of the last failure in `ok`, if any.
pub open spec fn last_failure(ok: Seq<bool>) -> Option<int>
    decreases ok.len(),
{
    if ok.len() == 0 {
        None
    } else if !ok.last() {
        Some(ok.len() - 1)
    } else {
        last_failure(ok.drop_last())
    }
}

/// The follow-up steps for the outcomes `ok`, given the last failure `last`:
/// each success is followed up, each failure but `last` is logged.
pub open spec fn steps_spec(ok: Seq<bool>, last: Option<int>) -> Seq<Step>
    decreases ok.len(),
{
    if ok.len() == 0 {
        Seq::empty()
    } else {
        let i = ok.len() - 1;
        let prev = steps_spec(ok.drop_last(), last);
        if ok[i] {
            prev.push(Step::Post(i as usize))
        } else if last == Some(i) {
            prev
        } else {
            prev.push(Step::Log(i as usize))
        }
    }
}

/// Whether `count` devices are run all at once rather than one after another.
pub fn is_parallel(count: usize, threshold: usize) -> (r: bool)
    ensures
        r == (count >= threshold),
{
    count >= threshold
}

/// The follow-up of a dispatch whose per-device outcomes, in selection order,
/// are `ok` (`true` for success).
pub fn plan(ok: &Vec<bool>) -> (r: DispatchPlan)
    ensures
        r.steps@ == steps_spec(ok@, last_failure(ok@)),
        match r.error {
            Some(i) => last_failure(ok@) == Some(i as int),
            None => last_failure(ok@) is None,
        },
{
    let n = ok.len();
    let mut j: usize = n;
    while j > 0 && ok[j - 1]
        invariant
            j <= n == ok@.len(),
            forall|m: int| j <= m < n ==> ok@[m],
        decreases j,
    {
        j = j - 1;
    }
    let last: Option<usize> = if j > 0 { Some(j - 1) } else { None };
    proof {
        lemma_last_failure(ok@, last);
    }
    let ghost lf = last_failure(ok@);
    let mut steps: Vec<Step> = Vec::new();
    let mut i: usize = 0;
    while i < n
        invariant
            i <= n == ok@.len(),
            lf == last_failure(ok@),
            match last {
                Some(l) => lf == Some(l as int),
                None => lf is None,
            },
            steps@ == steps_spec(ok@.subrange(0, i as int), lf),
        decreases n - i,
    {
        let ghost pre = ok@.subrange(0, i as int);
        let ghost next = ok@.subrange(0, i + 1);
        assert(next.drop_last() =~= pre);
        if ok[i] {
            steps.push(Step::Post(i));
        } else if last != Some(i) {
            steps.push(Step::Log(i));
        }
        i = i + 1;
    }
    assert(ok@.subrange(0, n as int) =~= ok@);
    DispatchPlan { steps, error: last }
}

proof fn lemma_last_failure(ok: Seq<bool>, last: Option<usize>)
    requires
        match last {
            Some(l) => l < ok.len() && !ok[l as int] && forall|m: int| l < m < ok.len() ==> ok[m],
            None => forall|m: int| 0 <= m < ok.len() ==> ok[m],
        },
    ensures
        match last {
            Some(l) => last_failure(ok) == Some(l as int),
            None => last_failure(ok) is None,
        },
    decreases ok.len(),
{
    if ok.len() > 0 {
        match last {
            Some(l) => {
                if l < ok.len() - 1 {
                    lemma_last_failure(ok.drop_last(), last);
                }
            },
            None => {
                lemma_last_failure(ok.drop_last(), last);
            },
        }
    }
}

/// The default least time between two commands to one infrared remote
/// device, in milliseconds.
pub const DEFAULT_REMOTE_INTERVAL_MS: u64 = 500;

/// How long to wait, in milliseconds, before sending a command to a device
/// at time `now`: a remote device waits until `min_interval` has passed since
/// its last command at `last_sent`; other devices never wait.
pub fn command_delay(is_remote: bool, last_sent: Option<u64>, now: u64, min_interval: u64) -> (r: u64)
    ensures
        r == match last_sent {
            Some(t) if is_remote && now >= t && now - t < min_interval => (min_interval - (now - t)) as int,
            Some(t) if is_remote && now < t => min_interval as int,
            _ => 0int,
        },
{
    if !is_remote {
        return 0;
    }
    match last_sent {
        Some(t) => {
            let elapsed: u64 = if now >= t { now - t } else { 0 };
            if elapsed < min_interval {
                min_interval - elapsed
            } else {
                0
            }
        },
        None => 0,
    }
}

} // verus!
