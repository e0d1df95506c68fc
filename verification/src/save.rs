//! A whole save: what becomes of a file, and of the two temporary ones beside it, from the first
//! step to the last.

use crate::mp4rewrite::{
    be32, boxes_of, chunk_marks, first_of, headers_fit, law_moov_first_gives_fast_start,
    law_moov_last_ends_fast_start, law_progress_stays_within, lemma_chunk_marks, lemma_first_from,
    movie_first, piece_marks, plan_first, plan_last, rewritten, BoxAt, PlanAt, FTYP, MDAT, MOOV,
};
use crate::tag::{first_step, step_after, steps_of, SaveStep, StepOutcome, WritePhase};
use vstd::prelude::*;

verus! {

/// The bytes of the file that is saved, and of the two temporary files where they are there.
pub struct Files {
    pub file: Seq<u8>,
    pub first: Option<Seq<u8>>,
    pub second: Option<Seq<u8>>,
}

/// What is reported while a file is copied: the pass, the bytes that are done, and all there are.
pub struct Report {
    pub phase: WritePhase,
    pub done: int,
    pub total: int,
}

/// A step that was performed: how it ended, what the files are after it, and what it reported.
pub struct Performed {
    pub step: SaveStep,
    pub outcome: StepOutcome,
    pub files: Files,
    pub reports: Seq<Report>,
}

/// The pass that a step reports, if it reports anything.
pub open spec fn phase_of(step: SaveStep) -> Option<WritePhase> {
    match step {
        SaveStep::Copy => Some(WritePhase::Copying),
        SaveStep::MoovFirst => Some(WritePhase::Optimizing),
        SaveStep::MoovLast => Some(WritePhase::Optimizing),
        _ => None,
    }
}

/// The pass that a step reports, if it reports anything.
pub fn reported_phase(step: SaveStep) -> (r: Option<WritePhase>)
    ensures
        r == phase_of(step),
{
    match step {
        SaveStep::Copy => Some(WritePhase::Copying),
        SaveStep::MoovFirst | SaveStep::MoovLast => Some(WritePhase::Optimizing),
        _ => None,
    }
}

/// Whether there is a box of this kind, and only one.
pub open spec fn exactly_one(bs: Seq<BoxAt>, code: u32) -> bool {
    &&& first_of(bs, code as nat) is Some
    &&& forall|i: int, j: int|
        0 <= i < bs.len() && 0 <= j < bs.len() && (#[trigger] bs[i]).code == code && (
        #[trigger] bs[j]).code == code ==> i == j
}

/// Whether a file is a movie in good order: one `moov` and one `mdat`, every box as long as its
/// header at least, and neither `moov` nor `ftyp` of a length that is left open.
pub open spec fn well_laid(data: Seq<u8>) -> bool {
    boxes_of(data) matches Some(bs) && {
        &&& headers_fit(data, bs)
        &&& exactly_one(bs, MOOV)
        &&& exactly_one(bs, MDAT)
        &&& forall|i: int|
            0 <= i < bs.len() && ((#[trigger] bs[i]).code == MOOV || bs[i].code == FTYP) ==> be32(
                data,
                bs[i].start,
            ) != 0
    }
}

/// Whether a file is laid out for streaming.
pub open spec fn streams(data: Seq<u8>) -> bool {
    boxes_of(data) matches Some(bs) && movie_first(bs)
}

/// What writes a tag into a file: from which bytes it may make which.
pub type Writer = spec_fn(Seq<u8>, Seq<u8>) -> bool;

/// Whether a writer keeps a movie in good order, and its boxes in their order.
pub open spec fn keeps_order(writer: Writer) -> bool {
    forall|x: Seq<u8>, y: Seq<u8>|
        #[trigger] writer(x, y) && well_laid(x) ==> well_laid(y) && streams(y) == streams(x)
}

/// The plan to rewrite a file with `moov` first or last, where there is anything to rewrite.
pub open spec fn plan_for(data: Seq<u8>, moov_first: bool) -> Option<PlanAt> {
    match boxes_of(data) {
        Some(bs) => if moov_first {
            plan_first(bs)
        } else {
            plan_last(bs)
        },
        None => None,
    }
}

/// Whether a file is one that a writer made, as it is or with its `moov` moved.
pub open spec fn tagged(writer: Writer, data: Seq<u8>, moov_first: bool) -> bool {
    exists|x: Seq<u8>, y: Seq<u8>| #[trigger]
        writer(x, y) && (data == y || (plan_for(y, moov_first) matches Some(plan) && data
            == rewritten(y, plan)))
}

/// Whether a writer moves no box of a file that it has written its tag into before.
pub open spec fn leaves_boxes(writer: Writer) -> bool {
    forall|x: Seq<u8>, y: Seq<u8>, moov_first: bool|
        #[trigger] tagged(writer, x, moov_first) && #[trigger] writer(x, y) ==> boxes_of(y)
            == boxes_of(x)
}

/// The reports of a pass, of so many bytes done each time.
pub open spec fn reports_at(phase: WritePhase, marks: Seq<int>, total: int) -> Seq<Report> {
    marks.map_values(|done: int| Report { phase, done, total })
}

/// Whether a step reported all that it has to report, or the beginning of it where it failed.
pub open spec fn reported(p: Performed, all: Seq<Report>) -> bool {
    &&& p.reports.len() <= all.len()
    &&& p.reports == all.take(p.reports.len() as int)
    &&& p.outcome != StepOutcome::Broke ==> p.reports.len() == all.len()
}

/// What the steps do to the files. Where one fails, the files that it writes may hold anything;
/// no step but those that write the file itself touches it.
pub open spec fn effect(writer: Writer, before: Files, p: Performed) -> bool {
    let after = p.files;
    let worked = p.outcome != StepOutcome::Broke;
    match p.step {
        SaveStep::TagInPlace => {
            &&& after.first == before.first && after.second == before.second
            &&& worked ==> writer(before.file, after.file)
            &&& p.reports.len() == 0
        },
        SaveStep::Copy => {
            &&& after.file == before.file && after.second == before.second
            &&& worked ==> after.first == Some(before.file)
            &&& reported(
                p,
                reports_at(
                    WritePhase::Copying,
                    chunk_marks(0, before.file.len() as int),
                    before.file.len() as int,
                ),
            )
        },
        SaveStep::TagCopy => {
            &&& after.file == before.file && after.second == before.second
            &&& worked ==> (before.first matches Some(x) && (after.first matches Some(y) && writer(
                x,
                y,
            )))
            &&& p.reports.len() == 0
        },
        SaveStep::MoovFirst | SaveStep::MoovLast => {
            &&& after.file == before.file && after.first == before.first
            &&& before.first matches Some(x) && match plan_for(x, p.step == SaveStep::MoovFirst) {
                Some(plan) => {
                    &&& p.outcome != StepOutcome::Unchanged
                    &&& worked ==> after.second == Some(rewritten(x, plan))
                    &&& reported(
                        p,
                        reports_at(
                            WritePhase::Optimizing,
                            piece_marks(plan.pieces, 0),
                            plan.total,
                        ),
                    )
                },
                None => {
                    &&& p.outcome != StepOutcome::Worked
                    &&& p.reports.len() == 0
                },
            }
        },
        SaveStep::TakeRewritten => {
            &&& after.file == before.file
            &&& worked ==> after.first == before.second && after.second is None
            &&& p.reports.len() == 0
        },
        SaveStep::Replace => {
            &&& worked ==> before.first == Some(after.file) && after.first is None
            &&& !worked ==> after.file == before.file
            &&& p.reports.len() == 0
        },
        SaveStep::CleanUp => {
            &&& after.file == before.file && after.first is None && after.second is None
            &&& p.reports.len() == 0
        },
        SaveStep::Failed | SaveStep::Done => false,
    }
}

/// The files before the step of an index.
pub open spec fn files_at(start: Files, ps: Seq<Performed>, i: int) -> Files {
    if 0 < i <= ps.len() {
        ps[i - 1].files
    } else {
        start
    }
}

/// How the steps ended.
pub open spec fn outcomes(ps: Seq<Performed>) -> Seq<StepOutcome> {
    ps.map_values(|p: Performed| p.outcome)
}

/// The step that is due once these steps were performed.
pub open spec fn due(start: Files, fast_start: bool, ps: Seq<Performed>) -> SaveStep {
    steps_of(first_step(streams(start.file), fast_start), fast_start, outcomes(ps))
}

/// Whether these are the steps of a save, as far as it has come: each was the one that was due, and
/// did what it does.
pub open spec fn under_way(
    writer: Writer,
    start: Files,
    fast_start: bool,
    ps: Seq<Performed>,
) -> bool {
    forall|i: int|
        0 <= i < ps.len() ==> (#[trigger] ps[i]).step == due(start, fast_start, ps.take(i))
            && effect(writer, files_at(start, ps, i), ps[i])
}

/// Whether these are all steps of a save: success or failure is to be reported next.
pub open spec fn is_save(
    writer: Writer,
    start: Files,
    fast_start: bool,
    ps: Seq<Performed>,
) -> bool {
    &&& under_way(writer, start, fast_start, ps)
    &&& due(start, fast_start, ps) == SaveStep::Done || due(start, fast_start, ps)
        == SaveStep::Failed
}

/// Whether the steps of a save report success in the end.
pub open spec fn succeeds(start: Files, fast_start: bool, ps: Seq<Performed>) -> bool {
    due(start, fast_start, ps) == SaveStep::Done
}

/// The files after some steps.
pub open spec fn files_after(start: Files, ps: Seq<Performed>) -> Files {
    files_at(start, ps, ps.len() as int)
}

/// All that was reported.
pub open spec fn all_reports(ps: Seq<Performed>) -> Seq<Report>
    decreases ps.len(),
{
    if ps.len() == 0 {
        Seq::empty()
    } else {
        all_reports(ps.drop_last()) + ps.last().reports
    }
}

/// Whether every report is within its bounds, and copying is reported before the second pass.
pub open spec fn in_order(reports: Seq<Report>) -> bool {
    &&& forall|i: int|
        0 <= i < reports.len() ==> 0 <= (#[trigger] reports[i]).done <= reports[i].total
    &&& forall|i: int, j: int|
        0 <= i < j < reports.len() && (#[trigger] reports[j]).phase == WritePhase::Copying ==> (
        #[trigger] reports[i]).phase == WritePhase::Copying
}

/// Whether every report is of one pass.
pub open spec fn all_of(reports: Seq<Report>, phase: WritePhase) -> bool {
    forall|i: int| 0 <= i < reports.len() ==> (#[trigger] reports[i]).phase == phase
}

// ---------------------------------------------------------------------------
// Proofs
// ---------------------------------------------------------------------------

/// Moving `moov` gives the layout that is wanted, and so does finding nothing to move.
proof fn lemma_moved(data: Seq<u8>, moov_first: bool)
    requires
        well_laid(data),
    ensures
        plan_for(data, moov_first) matches Some(plan) ==> streams(rewritten(data, plan))
            == moov_first,
        plan_for(data, moov_first) is None ==> !moov_first && !streams(data),
        plan_for(data, moov_first) matches Some(plan) ==> forall|i: int|
            0 <= i < piece_marks(plan.pieces, 0).len() ==> 0 <= #[trigger] piece_marks(
                plan.pieces,
                0,
            )[i] <= plan.total,
{
    let bs = boxes_of(data).unwrap();
    lemma_first_from(bs, MOOV as nat, 0);
    lemma_first_from(bs, MDAT as nat, 0);
    lemma_first_from(bs, FTYP as nat, 0);
    if let Some(plan) = plan_for(data, moov_first) {
        law_progress_stays_within(data, bs, plan);
        if moov_first {
            law_moov_first_gives_fast_start(data, bs, plan);
        } else {
            law_moov_last_ends_fast_start(data, bs, plan);
        }
    }
}

/// What is reported at marks within bounds is within bounds.
proof fn lemma_reports(p: Performed, phase: WritePhase, marks: Seq<int>, total: int)
    requires
        reported(p, reports_at(phase, marks, total)),
        forall|i: int| 0 <= i < marks.len() ==> 0 <= #[trigger] marks[i] <= total,
    ensures
        in_order(p.reports),
        all_of(p.reports, phase),
{
    let all = reports_at(phase, marks, total);
    assert forall|i: int| 0 <= i < p.reports.len() implies 0 <= (#[trigger] p.reports[i]).done
        <= p.reports[i].total && p.reports[i].phase == phase by {
        assert(p.reports[i] == all[i]);
        assert(0 <= marks[i] <= total);
    }
}

/// Reports of copying may be followed by any.
proof fn lemma_in_order_concat(a: Seq<Report>, b: Seq<Report>)
    requires
        in_order(a),
        in_order(b),
        all_of(a, WritePhase::Copying) || b.len() == 0,
    ensures
        in_order(a + b),
        all_of(b, WritePhase::Copying) && all_of(a, WritePhase::Copying) ==> all_of(
            a + b,
            WritePhase::Copying,
        ),
{
    let c = a + b;
    assert forall|i: int| 0 <= i < c.len() implies 0 <= (#[trigger] c[i]).done <= c[i].total by {
        if i < a.len() {
            assert(c[i] == a[i]);
        } else {
            assert(c[i] == b[i - a.len()]);
        }
    }
    assert forall|i: int, j: int|
        0 <= i < j < c.len() && (#[trigger] c[j]).phase == WritePhase::Copying implies (
    #[trigger] c[i]).phase == WritePhase::Copying by {
        if i < a.len() {
            assert(c[i] == a[i]);
            if j < a.len() {
                assert(c[j] == a[j]);
            }
        } else {
            assert(c[i] == b[i - a.len()]);
            assert(c[j] == b[j - a.len()]);
        }
    }
}

/// The step that is due after one more.
proof fn lemma_due(start: Files, fast_start: bool, ps: Seq<Performed>)
    requires
        ps.len() > 0,
    ensures
        due(start, fast_start, ps) == step_after(
            due(start, fast_start, ps.drop_last()),
            fast_start,
            ps.last().outcome,
        ),
{
    assert(outcomes(ps).drop_last() =~= outcomes(ps.drop_last()));
    assert(outcomes(ps).last() == ps.last().outcome);
}

/// A save without its last step is a save that is under way.
proof fn lemma_shorter(writer: Writer, start: Files, fast_start: bool, ps: Seq<Performed>)
    requires
        ps.len() > 0,
        under_way(writer, start, fast_start, ps),
    ensures
        under_way(writer, start, fast_start, ps.drop_last()),
        ps.last().step == due(start, fast_start, ps.drop_last()),
        effect(writer, files_after(start, ps.drop_last()), ps.last()),
{
    let init = ps.drop_last();
    let n = init.len() as int;
    assert forall|i: int| 0 <= i < init.len() implies (#[trigger] init[i]).step == due(
        start,
        fast_start,
        init.take(i),
    ) && effect(writer, files_at(start, init, i), init[i]) by {
        assert(init[i] == ps[i]);
        assert(init.take(i) =~= ps.take(i));
        assert(files_at(start, init, i) == files_at(start, ps, i));
    }
    assert(ps.last() == ps[n]);
    assert(ps.take(n) =~= init);
    assert(files_at(start, ps, n) == files_after(start, init));
}

/// Where a save that changes the layout stands.
spec fn stands(
    writer: Writer,
    start: Files,
    fast_start: bool,
    step: SaveStep,
    files: Files,
    reports: Seq<Report>,
) -> bool {
    &&& in_order(reports)
    &&& step != SaveStep::Done ==> files.file == start.file
    &&& match step {
        SaveStep::TagInPlace => false,
        SaveStep::Copy => reports.len() == 0,
        SaveStep::TagCopy => files.first == Some(start.file) && all_of(
            reports,
            WritePhase::Copying,
        ),
        SaveStep::MoovFirst | SaveStep::MoovLast => {
            &&& (step == SaveStep::MoovFirst) == fast_start
            &&& files.first matches Some(y) && well_laid(y) && (exists|x: Seq<u8>|
                #[trigger] writer(x, y))
            &&& all_of(reports, WritePhase::Copying)
        },
        SaveStep::TakeRewritten => files.second matches Some(z) && streams(z) == fast_start
            && tagged(writer, z, fast_start),
        SaveStep::Replace => files.first matches Some(z) && streams(z) == fast_start && tagged(
            writer,
            z,
            fast_start,
        ),
        SaveStep::CleanUp => true,
        SaveStep::Failed => files.first is None && files.second is None,
        SaveStep::Done => streams(files.file) == fast_start && tagged(
            writer,
            files.file,
            fast_start,
        ) && files.first is None,
    }
}

/// One step leads from where a save stands to where it stands next.
proof fn lemma_stands_next(
    writer: Writer,
    start: Files,
    fast_start: bool,
    before: Files,
    reports: Seq<Report>,
    p: Performed,
)
    requires
        keeps_order(writer),
        well_laid(start.file),
        stands(writer, start, fast_start, p.step, before, reports),
        effect(writer, before, p),
    ensures
        stands(
            writer,
            start,
            fast_start,
            step_after(p.step, fast_start, p.outcome),
            p.files,
            reports + p.reports,
        ),
{
    match p.step {
        SaveStep::Copy => {
            let n = start.file.len() as int;
            lemma_chunk_marks(0, n);
            lemma_reports(p, WritePhase::Copying, chunk_marks(0, n), n);
            assert(reports + p.reports =~= p.reports);
        },
        SaveStep::MoovFirst | SaveStep::MoovLast => {
            let y = before.first.unwrap();
            lemma_moved(y, fast_start);
            if let Some(plan) = plan_for(y, fast_start) {
                lemma_reports(p, WritePhase::Optimizing, piece_marks(plan.pieces, 0), plan.total);
                if p.outcome == StepOutcome::Worked {
                    let x = choose|x: Seq<u8>| #[trigger] writer(x, y);
                    assert(writer(x, y));
                    assert(tagged(writer, rewritten(y, plan), fast_start));
                }
            } else {
                let x = choose|x: Seq<u8>| #[trigger] writer(x, y);
                assert(writer(x, y));
                assert(tagged(writer, y, fast_start));
            }
            lemma_in_order_concat(reports, p.reports);
        },
        _ => {
            assert(reports + p.reports =~= reports);
        },
    }
}

/// Where a save that changes the layout stands after some steps.
proof fn lemma_stands(writer: Writer, start: Files, fast_start: bool, ps: Seq<Performed>)
    requires
        keeps_order(writer),
        well_laid(start.file),
        streams(start.file) != fast_start,
        under_way(writer, start, fast_start, ps),
    ensures
        stands(
            writer,
            start,
            fast_start,
            due(start, fast_start, ps),
            files_after(start, ps),
            all_reports(ps),
        ),
    decreases ps.len(),
{
    if ps.len() == 0 {
        assert(outcomes(ps) =~= Seq::<StepOutcome>::empty());
    } else {
        let init = ps.drop_last();
        lemma_due(start, fast_start, ps);
        lemma_shorter(writer, start, fast_start, ps);
        lemma_stands(writer, start, fast_start, init);
        lemma_stands_next(
            writer,
            start,
            fast_start,
            files_after(start, init),
            all_reports(init),
            ps.last(),
        );
        assert(files_after(start, ps) == ps.last().files);
    }
}

/// A save in place is one step.
proof fn lemma_in_place(writer: Writer, start: Files, fast_start: bool, ps: Seq<Performed>)
    requires
        streams(start.file) == fast_start,
        under_way(writer, start, fast_start, ps),
    ensures
        ps.len() <= 1,
        ps.len() == 0 ==> due(start, fast_start, ps) == SaveStep::TagInPlace,
        ps.len() == 1 ==> {
            let p = ps[0];
            &&& p.step == SaveStep::TagInPlace
            &&& effect(writer, start, p)
            &&& due(start, fast_start, ps) == step_after(p.step, fast_start, p.outcome)
            &&& all_reports(ps) =~= Seq::<Report>::empty()
        },
    decreases ps.len(),
{
    if ps.len() == 0 {
        assert(outcomes(ps) =~= Seq::<StepOutcome>::empty());
    } else {
        let init = ps.drop_last();
        lemma_due(start, fast_start, ps);
        lemma_shorter(writer, start, fast_start, ps);
        lemma_in_place(writer, start, fast_start, init);
        if init.len() == 0 {
            assert(ps.last() == ps[0]);
            assert(all_reports(init) =~= Seq::<Report>::empty());
        }
    }
}

// ---------------------------------------------------------------------------
// Laws
// ---------------------------------------------------------------------------

/// A whole save of a movie in good order, by a writer that keeps it so. Once success is reported,
/// the file is laid out as it was asked for, and holds what the writer wrote. Where it was laid out
/// so before, there is one step, which writes the tag in place: nothing is copied, and nothing is
/// reported. Where it was not, copying is reported before the second pass, and never more bytes
/// than there are; and once failure is reported, the file holds the bytes it held before, and both
/// temporary files are gone. (A movie with a second `moov`, or whose `moov` leaves its length open,
/// is not in good order.)
pub proof fn law_whole_save(writer: Writer, start: Files, fast_start: bool, ps: Seq<Performed>)
    requires
        keeps_order(writer),
        well_laid(start.file),
        is_save(writer, start, fast_start, ps),
    ensures
        succeeds(start, fast_start, ps) ==> streams(files_after(start, ps).file) == fast_start
            && tagged(writer, files_after(start, ps).file, fast_start),
        in_order(all_reports(ps)),
        streams(start.file) == fast_start ==> {
            &&& ps.len() == 1 && ps[0].step == SaveStep::TagInPlace
            &&& all_reports(ps).len() == 0
            &&& files_after(start, ps).first == start.first
            &&& files_after(start, ps).second == start.second
        },
        streams(start.file) != fast_start && !succeeds(start, fast_start, ps) ==> files_after(
            start,
            ps,
        ) == (Files { file: start.file, first: None, second: None }),
{
    if streams(start.file) == fast_start {
        lemma_in_place(writer, start, fast_start, ps);
        if succeeds(start, fast_start, ps) {
            let end = files_after(start, ps).file;
            assert(writer(start.file, end));
            assert(tagged(writer, end, fast_start));
        }
    } else {
        lemma_stands(writer, start, fast_start, ps);
    }
}

/// A second save like the first, by a writer that moves no box of a file that it has written its
/// tag into before: it writes in place, copies nothing and reports nothing, and every box of the
/// file stays where it was, `mdat` among them.
pub proof fn law_saving_again_moves_nothing(
    writer: Writer,
    start: Files,
    fast_start: bool,
    ps: Seq<Performed>,
    again: Seq<Performed>,
)
    requires
        keeps_order(writer),
        leaves_boxes(writer),
        well_laid(start.file),
        is_save(writer, start, fast_start, ps),
        succeeds(start, fast_start, ps),
        is_save(writer, files_after(start, ps), fast_start, again),
        succeeds(files_after(start, ps), fast_start, again),
    ensures
        again.len() == 1,
        again[0].step == SaveStep::TagInPlace,
        all_reports(again).len() == 0,
        boxes_of(files_after(files_after(start, ps), again).file) == boxes_of(
            files_after(start, ps).file,
        ),
{
    law_whole_save(writer, start, fast_start, ps);
    let middle = files_after(start, ps);
    lemma_in_place(writer, middle, fast_start, again);
    let end = files_after(middle, again).file;
    assert(tagged(writer, middle.file, fast_start));
    assert(writer(middle.file, end));
}

/// Copying is told as copying, and moving the `moov` either way as improving the layout; no other
/// step is told.
pub proof fn law_two_phases_are_told(step: SaveStep)
    ensures
        (phase_of(step) == Some(WritePhase::Copying)) == (step == SaveStep::Copy),
        (phase_of(step) == Some(WritePhase::Optimizing)) == (step == SaveStep::MoovFirst || step
            == SaveStep::MoovLast),
{
}

} // verus!
