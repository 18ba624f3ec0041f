//! The association of plan runs with the subjects of their segments.

use crate::error::{joined_text, KernelError, Refusal};
use crate::plan_service::{fiber_name, fiber_of, segment_of};
use crate::text::same;
use vstd::prelude::*;

verus! {

/// A stored plan run.
pub struct RunRow {
    pub run: String,
    pub plan: String,
    pub fiber: String,
}

/// The segment of a plan run.
#[derive(Debug, PartialEq, Eq)]
pub struct SegmentRow {
    pub run: String,
    pub subject: String,
}

/// Whether a run has a segment of its own.
pub open spec fn has_segment(r: RunRow, segments: Seq<SegmentRow>) -> bool {
    exists|i: int|
        0 <= i < segments.len() && (#[trigger] segments[i]).run@ == r.run@
            && segments[i].subject@.len() > 0 && segments[i].subject@ != r.fiber@
}

/// Whether a run has a segment, and each of its segments is named and is not the run itself.
pub open spec fn sound_for(r: RunRow, segments: Seq<SegmentRow>) -> bool {
    &&& has_segment(r, segments)
    &&& forall|i: int|
        0 <= i < segments.len() && (#[trigger] segments[i]).run@ == r.run@
            ==> segments[i].subject@.len() > 0 && segments[i].subject@ != r.fiber@
}

/// Whether a segment belongs to a run.
pub open spec fn has_run(s: SegmentRow, runs: Seq<RunRow>) -> bool {
    exists|i: int| 0 <= i < runs.len() && (#[trigger] runs[i]).run@ == s.run@
}

/// Whether every run has a segment of its own, and every segment a run.
pub open spec fn associated(runs: Seq<RunRow>, segments: Seq<SegmentRow>) -> bool {
    &&& forall|i: int| 0 <= i < runs.len() ==> sound_for(#[trigger] runs[i], segments)
    &&& forall|i: int| 0 <= i < segments.len() ==> has_run(#[trigger] segments[i], runs)
}

fn check_run(r: &RunRow, segments: &Vec<SegmentRow>) -> (b: bool)
    ensures
        b == sound_for(*r, segments@),
{
    let mut found: bool = false;
    let mut i: usize = 0;
    while i < segments.len()
        invariant
            i <= segments@.len(),
            found == exists|k: int| 0 <= k < i && (#[trigger] segments@[k]).run@ == r.run@,
            forall|k: int|
                0 <= k < i && (#[trigger] segments@[k]).run@ == r.run@
                    ==> segments@[k].subject@.len() > 0 && segments@[k].subject@ != r.fiber@,
        decreases segments.len() - i,
    {
        if same(segments[i].run.as_str(), r.run.as_str()) {
            if segments[i].subject.as_str().unicode_len() == 0 || same(
                segments[i].subject.as_str(),
                r.fiber.as_str(),
            ) {
                assert(segments@[i as int].run@ == r.run@);
                return false;
            }
            found = true;
        }
        i = i + 1;
    }
    found
}

fn check_segment(s: &SegmentRow, runs: &Vec<RunRow>) -> (b: bool)
    ensures
        b == has_run(*s, runs@),
{
    let mut i: usize = 0;
    while i < runs.len()
        invariant
            i <= runs@.len(),
            forall|k: int| 0 <= k < i ==> (#[trigger] runs@[k]).run@ != s.run@,
        decreases runs.len() - i,
    {
        if same(runs[i].run.as_str(), s.run.as_str()) {
            return true;
        }
        i = i + 1;
    }
    false
}

/// Checks that every run has a segment of its own, and every segment a run. What is missing is not
/// made up from names.
pub fn check_segments(runs: &Vec<RunRow>, segments: &Vec<SegmentRow>) -> (r: Result<
    (),
    KernelError,
>)
    ensures
        match r {
            Ok(_) => associated(runs@, segments@),
            Err(e) => !associated(runs@, segments@) && e@ == Refusal::Corrupt(
                "invalid plan/segment association"@,
            ),
        },
{
    let mut i: usize = 0;
    while i < runs.len()
        invariant
            i <= runs@.len(),
            forall|k: int| 0 <= k < i ==> sound_for(#[trigger] runs@[k], segments@),
        decreases runs.len() - i,
    {
        if !check_run(&runs[i], segments) {
            return Err(KernelError::Corrupt("invalid plan/segment association".to_owned()));
        }
        i = i + 1;
    }
    i = 0;
    while i < segments.len()
        invariant
            i <= segments@.len(),
            forall|k: int| 0 <= k < runs@.len() ==> sound_for(#[trigger] runs@[k], segments@),
            forall|k: int| 0 <= k < i ==> has_run(#[trigger] segments@[k], runs@),
        decreases segments.len() - i,
    {
        if !check_segment(&segments[i], runs) {
            return Err(KernelError::Corrupt("invalid plan/segment association".to_owned()));
        }
        i = i + 1;
    }
    Ok(())
}

/// Whether the subject of a run is the one that runs of its plan have.
pub open spec fn known(r: RunRow) -> bool {
    r.fiber@ == fiber_name(r.plan@, r.run@)
}

/// Whether the identities of runs are distinct.
pub open spec fn distinct_runs(runs: Seq<RunRow>) -> bool {
    forall|i: int, j: int|
        0 <= i < j < runs.len() ==> (#[trigger] runs[i]).run@ != (#[trigger] runs[j]).run@
}

/// Whether segments are those that are derived from runs: one for each run, of the run's subject.
pub open spec fn derived(runs: Seq<RunRow>, segments: Seq<SegmentRow>) -> bool {
    &&& segments.len() == runs.len()
    &&& forall|i: int|
        0 <= i < segments.len() ==> (#[trigger] segments[i]).run@ == runs[i].run@
            && segments[i].subject@ == runs[i].fiber@ + ":seg"@
}

/// Segments that are derived from runs are associated with them.
pub proof fn derived_is_associated(runs: Seq<RunRow>, segments: Seq<SegmentRow>)
    requires
        distinct_runs(runs),
        derived(runs, segments),
    ensures
        associated(runs, segments),
{
    reveal_strlit(":seg");
    assert(":seg"@.len() == 4);
    assert forall|i: int| 0 <= i < runs.len() implies sound_for(#[trigger] runs[i], segments) by {
        assert(segments[i].subject@.len() == runs[i].fiber@.len() + 4);
        assert(segments[i].run@ == runs[i].run@);
        assert forall|k: int|
            0 <= k < segments.len() && (#[trigger] segments[k]).run@ == runs[i].run@ implies segments[k].subject@.len()
            > 0 && segments[k].subject@ != runs[i].fiber@ by {
            assert(runs[k].run@ == runs[i].run@);
            assert(k == i);
        }
    }
    assert forall|i: int| 0 <= i < segments.len() implies has_run(#[trigger] segments[i], runs) by {
        assert(runs[i].run@ == segments[i].run@);
    }
}

/// The segments of stored runs. A table that is there is checked and kept. One that is not is
/// derived, and only from runs whose subjects are known.
pub fn migrate_plan_segments(runs: &Vec<RunRow>, table: Option<Vec<SegmentRow>>) -> (r: Result<
    Vec<SegmentRow>,
    KernelError,
>)
    requires
        distinct_runs(runs@),
    ensures
        match table {
            Some(t) => match r {
                Ok(s) => s == t && associated(runs@, t@),
                Err(e) => !associated(runs@, t@) && e@ == Refusal::Corrupt(
                    "invalid plan/segment association"@,
                ),
            },
            None => match r {
                Ok(s) => {
                    &&& forall|i: int| 0 <= i < runs@.len() ==> known(#[trigger] runs@[i])
                    &&& derived(runs@, s@)
                    &&& associated(runs@, s@)
                },
                Err(e) => exists|i: int|
                    0 <= i < runs@.len() && !known(#[trigger] runs@[i]) && e@ == Refusal::Corrupt(
                        "cannot migrate segment for plan run "@ + runs@[i].run@
                            + ": unexpected subject"@,
                    ) && forall|j: int| 0 <= j < i ==> known(#[trigger] runs@[j]),
            },
        },
{
    let segments: Vec<SegmentRow> = match table {
        Some(t) => t,
        None => {
            let mut v: Vec<SegmentRow> = Vec::new();
            let mut i: usize = 0;
            while i < runs.len()
                invariant
                    i <= runs@.len(),
                    v@.len() == i,
                    table is None,
                    forall|k: int| 0 <= k < i ==> known(#[trigger] runs@[k]),
                    forall|k: int|
                        0 <= k < i ==> (#[trigger] v@[k]).run@ == runs@[k].run@ && v@[k].subject@
                            == runs@[k].fiber@ + ":seg"@,
                decreases runs.len() - i,
            {
                let expected: String = fiber_of(runs[i].plan.as_str(), runs[i].run.as_str());
                if !same(runs[i].fiber.as_str(), expected.as_str()) {
                    let mut s: String = joined_text(
                        "cannot migrate segment for plan run ",
                        runs[i].run.as_str(),
                    );
                    s.append(": unexpected subject");
                    assert(!known(runs@[i as int]));
                    return Err(KernelError::Corrupt(s));
                }
                v.push(
                    SegmentRow {
                        run: runs[i].run.clone(),
                        subject: segment_of(runs[i].fiber.as_str()),
                    },
                );
                i = i + 1;
            }
            proof {
                derived_is_associated(runs@, v@);
            }
            v
        },
    };
    match check_segments(runs, &segments) {
        Ok(_) => Ok(segments),
        Err(e) => Err(e),
    }
}

} // verus!
