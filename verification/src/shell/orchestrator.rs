use vstd::multiset::Multiset;
use vstd::prelude::*;

use crate::shell::command::{Pipeline, StageS};

verus! {

/// Spec-level image of an `Op`.
pub enum OpS {
    Spawn { stage: int, child_close: Seq<int> },
    Close(int),
    Wait(int),
}

pub open spec fn fds_view(s: Seq<i32>) -> Seq<int> {
    s.map_values(|f: i32| f as int)
}

/// One instruction of the execution schedule, in order: fork-and-exec a
/// stage (the child closes every listed pipe end, none of which the stage
/// uses, before duplicating its own descriptors and replacing its image);
/// close a descriptor in the shell's own process; or wait for the child
/// spawned for a stage and report its termination.
pub enum Op {
    Spawn { stage: usize, child_close: Vec<i32> },
    Close(i32),
    Wait(usize),
}

impl View for Op {
    type V = OpS;

    open spec fn view(&self) -> OpS {
        match self {
            Op::Spawn { stage, child_close } => OpS::Spawn {
                stage: *stage as int,
                child_close: fds_view(child_close@),
            },
            Op::Close(fd) => OpS::Close(*fd as int),
            Op::Wait(k) => OpS::Wait(*k as int),
        }
    }
}

impl DeepView for Op {
    type V = OpS;

    open spec fn deep_view(&self) -> OpS {
        self.view()
    }
}

/// Every end in the pipe registry, read end then write end, pipe by pipe.
pub open spec fn ends_of(pipes: Seq<(int, int)>) -> Seq<int>
    decreases pipes.len(),
{
    if pipes.len() == 0 {
        Seq::empty()
    } else {
        ends_of(pipes.drop_last()) + seq![pipes.last().0, pipes.last().1]
    }
}

/// Whether the stage itself uses the descriptor.
pub open spec fn stage_owns(s: StageS, fd: int) -> bool {
    s.infd == Some(fd) || s.outfd == Some(fd)
}

/// The open ends the stage does not use, in order: what the parent keeps
/// open across the spawn and what the child must close before exec.
pub open spec fn unowned_ends(open: Seq<int>, s: StageS) -> Seq<int>
    decreases open.len(),
{
    if open.len() == 0 {
        Seq::empty()
    } else {
        unowned_ends(open.drop_last(), s) + (if stage_owns(s, open.last()) {
            Seq::empty()
        } else {
            seq![open.last()]
        })
    }
}

/// The open ends the stage does use: once its child holds them, the parent
/// closes its own copies.
pub open spec fn owned_ends(open: Seq<int>, s: StageS) -> Seq<int>
    decreases open.len(),
{
    if open.len() == 0 {
        Seq::empty()
    } else {
        owned_ends(open.drop_last(), s) + (if stage_owns(s, open.last()) {
            seq![open.last()]
        } else {
            Seq::empty()
        })
    }
}

pub open spec fn close_ops(fds: Seq<int>) -> Seq<OpS>
    decreases fds.len(),
{
    if fds.len() == 0 {
        Seq::empty()
    } else {
        seq![OpS::Close(fds[0])] + close_ops(fds.skip(1))
    }
}

pub open spec fn wait_ops(k: int, n: int) -> Seq<OpS>
    decreases n - k,
{
    if k < 0 || k >= n {
        Seq::empty()
    } else {
        seq![OpS::Wait(k)] + wait_ops(k + 1, n)
    }
}

/// The schedule from stage `i` on, with `open` the pipe ends still open in
/// the shell: spawn each stage in order and close the ends its child took,
/// then close whatever no stage consumed, then wait for every child in
/// spawn order.
pub open spec fn sched_ops(stages: Seq<StageS>, i: int, open: Seq<int>) -> Seq<OpS>
    decreases stages.len() - i,
{
    if i < 0 || i >= stages.len() {
        close_ops(open) + wait_ops(0, stages.len() as int)
    } else {
        seq![OpS::Spawn { stage: i, child_close: unowned_ends(open, stages[i]) }] + close_ops(
            owned_ends(open, stages[i]),
        ) + sched_ops(stages, i + 1, unowned_ends(open, stages[i]))
    }
}

/// The whole execution schedule of a pipeline.
pub open spec fn spec_schedule(stages: Seq<StageS>, pipes: Seq<(int, int)>) -> Seq<OpS> {
    sched_ops(stages, 0, ends_of(pipes))
}

/// Computes the execution schedule of a pipeline: in stage order, a spawn
/// followed by the parent-side closes of the pipe ends that stage consumed;
/// then closes for every pipe end no stage consumed; then one wait per
/// stage, in spawn order.
pub fn execution_schedule(pl: &Pipeline) -> (plan: Vec<Op>)
    ensures
        plan.deep_view() == spec_schedule(pl@.stages, pl@.pipes),
{
    let ghost gstages = pl@.stages;
    let ghost gpipes = pl@.pipes;
    let ghost full = spec_schedule(gstages, gpipes);
    let mut open: Vec<i32> = Vec::new();
    let np = pl.pipes.len();
    for k in 0..np
        invariant
            np == pl.pipes@.len(),
            gpipes == pl@.pipes,
            gstages == pl@.stages,
            full == spec_schedule(gstages, gpipes),
            fds_view(open@) =~= ends_of(gpipes.take(k as int)),
    {
        let pr = pl.pipes[k];
        open.push(pr.0);
        open.push(pr.1);
        proof {
            assert(gpipes.take(k + 1).drop_last() =~= gpipes.take(k as int));
            assert(gpipes.take(k + 1).last() == (pr.0 as int, pr.1 as int));
            assert(fds_view(open@) =~= ends_of(gpipes.take(k as int)) + seq![
                pr.0 as int,
                pr.1 as int,
            ]);
            assert(fds_view(open@) =~= ends_of(gpipes.take(k + 1)));
        }
    }
    proof {
        assert(gpipes.take(np as int) =~= gpipes);
        assert(fds_view(open@) =~= ends_of(gpipes));
    }
    let mut plan: Vec<Op> = Vec::new();
    let ns = pl.stages.len();
    proof {
        assert(plan.deep_view() + sched_ops(gstages, 0, fds_view(open@)) =~= full);
    }
    let mut i: usize = 0;
    while i < ns
        invariant
            ns == pl.stages@.len(),
            gstages == pl@.stages,
            gstages.len() == ns,
            i <= ns,
            plan.deep_view() + sched_ops(gstages, i as int, fds_view(open@)) =~= full,
        decreases ns - i,
    {
        let ghost open0 = fds_view(open@);
        let ghost gs = gstages[i as int];
        let s_infd = pl.stages[i].infd;
        let s_outfd = pl.stages[i].outfd;
        proof {
            assert(gs == pl.stages@[i as int]@);
            assert(gs.infd == crate::shell::command::fd_view(s_infd));
            assert(gs.outfd == crate::shell::command::fd_view(s_outfd));
        }
        let mut cc: Vec<i32> = Vec::new();
        let mut keep: Vec<i32> = Vec::new();
        let mut own: Vec<i32> = Vec::new();
        let no = open.len();
        let mut j: usize = 0;
        while j < no
            invariant
                no == open@.len(),
                j <= no,
                gs.infd == crate::shell::command::fd_view(s_infd),
                gs.outfd == crate::shell::command::fd_view(s_outfd),
                fds_view(cc@) =~= unowned_ends(fds_view(open@.take(j as int)), gs),
                fds_view(own@) =~= owned_ends(fds_view(open@.take(j as int)), gs),
                keep@ == cc@,
            decreases no - j,
        {
            let fd = open[j];
            let owns = (match s_infd {
                Some(f) => f == fd,
                None => false,
            }) || (match s_outfd {
                Some(f) => f == fd,
                None => false,
            });
            proof {
                assert(owns == stage_owns(gs, fd as int));
            }
            if owns {
                own.push(fd);
            } else {
                cc.push(fd);
                keep.push(fd);
            }
            proof {
                assert(open@.take(j + 1).drop_last() =~= open@.take(j as int));
                assert(fds_view(open@.take(j + 1)).drop_last() =~= fds_view(
                    open@.take(j as int),
                ));
                assert(fds_view(open@.take(j + 1)).last() == fd as int);
                assert(fds_view(open@.take(j + 1)) =~= fds_view(open@.take(j as int)).push(
                    fd as int,
                ));
                if owns {
                    assert(fds_view(own@) =~= owned_ends(fds_view(open@.take(j + 1)), gs));
                    assert(fds_view(cc@) =~= unowned_ends(fds_view(open@.take(j + 1)), gs));
                } else {
                    assert(fds_view(own@) =~= owned_ends(fds_view(open@.take(j + 1)), gs));
                    assert(fds_view(cc@) =~= unowned_ends(fds_view(open@.take(j + 1)), gs));
                }
            }
            j += 1;
        }
        proof {
            assert(open@.take(no as int) =~= open@);
            assert(fds_view(cc@) =~= unowned_ends(open0, gs));
            assert(fds_view(own@) =~= owned_ends(open0, gs));
        }
        let ghost plan0 = plan.deep_view();
        plan.push(Op::Spawn { stage: i, child_close: cc });
        proof {
            assert(plan.deep_view() =~= plan0.push(
                OpS::Spawn { stage: i as int, child_close: unowned_ends(open0, gs) },
            ));
            assert(sched_ops(gstages, i as int, open0) == seq![
                OpS::Spawn { stage: i as int, child_close: unowned_ends(open0, gs) },
            ] + close_ops(owned_ends(open0, gs)) + sched_ops(
                gstages,
                i + 1,
                unowned_ends(open0, gs),
            ));
            assert(plan.deep_view() + (close_ops(owned_ends(open0, gs)) + sched_ops(
                gstages,
                i + 1,
                unowned_ends(open0, gs),
            )) =~= full);
        }
        proof {
            assert(fds_view(own@).skip(0) =~= fds_view(own@));
            assert(close_ops(fds_view(own@).skip(0)) == close_ops(owned_ends(open0, gs)));
        }
        let nown = own.len();
        let mut t: usize = 0;
        while t < nown
            invariant
                nown == own@.len(),
                t <= nown,
                plan.deep_view() + (close_ops(fds_view(own@).skip(t as int)) + sched_ops(
                    gstages,
                    i + 1,
                    unowned_ends(open0, gs),
                )) =~= full,
            decreases nown - t,
        {
            let ghost plan1 = plan.deep_view();
            plan.push(Op::Close(own[t]));
            proof {
                assert(plan.deep_view() =~= plan1.push(OpS::Close(own@[t as int] as int)));
                assert(fds_view(own@).skip(t as int)[0] == own@[t as int] as int);
                assert(fds_view(own@).skip(t as int).skip(1) =~= fds_view(own@).skip(t + 1));
                assert(close_ops(fds_view(own@).skip(t as int)) == seq![
                    OpS::Close(own@[t as int] as int),
                ] + close_ops(fds_view(own@).skip(t + 1)));
                assert(plan.deep_view() + (close_ops(fds_view(own@).skip(t + 1)) + sched_ops(
                    gstages,
                    i + 1,
                    unowned_ends(open0, gs),
                )) =~= full);
            }
            t += 1;
        }
        proof {
            assert(fds_view(own@).skip(nown as int) =~= Seq::<int>::empty());
            assert(close_ops(Seq::<int>::empty()) =~= Seq::<OpS>::empty());
        }
        open = keep;
        proof {
            assert(fds_view(open@) =~= unowned_ends(open0, gs));
            assert(plan.deep_view() + sched_ops(gstages, i + 1, fds_view(open@)) =~= full);
        }
        i += 1;
    }
    proof {
        assert(sched_ops(gstages, ns as int, fds_view(open@)) == close_ops(fds_view(open@))
            + wait_ops(0, ns as int));
        assert(fds_view(open@).skip(0) =~= fds_view(open@));
        assert(plan.deep_view() + (close_ops(fds_view(open@).skip(0)) + wait_ops(0, ns as int))
            =~= full);
    }
    let nrem = open.len();
    let mut t: usize = 0;
    while t < nrem
        invariant
            nrem == open@.len(),
            t <= nrem,
            gstages.len() == ns,
            plan.deep_view() + (close_ops(fds_view(open@).skip(t as int)) + wait_ops(
                0,
                ns as int,
            )) =~= full,
        decreases nrem - t,
    {
        let ghost plan1 = plan.deep_view();
        plan.push(Op::Close(open[t]));
        proof {
            assert(plan.deep_view() =~= plan1.push(OpS::Close(open@[t as int] as int)));
            assert(fds_view(open@).skip(t as int)[0] == open@[t as int] as int);
            assert(fds_view(open@).skip(t as int).skip(1) =~= fds_view(open@).skip(t + 1));
            assert(close_ops(fds_view(open@).skip(t as int)) == seq![
                OpS::Close(open@[t as int] as int),
            ] + close_ops(fds_view(open@).skip(t + 1)));
            assert(plan.deep_view() + (close_ops(fds_view(open@).skip(t + 1)) + wait_ops(
                0,
                ns as int,
            )) =~= full);
        }
        t += 1;
    }
    proof {
        assert(fds_view(open@).skip(nrem as int) =~= Seq::<int>::empty());
        assert(plan.deep_view() + wait_ops(0, ns as int) =~= full);
    }
    let mut k: usize = 0;
    while k < ns
        invariant
            k <= ns,
            plan.deep_view() + wait_ops(k as int, ns as int) =~= full,
        decreases ns - k,
    {
        let ghost plan1 = plan.deep_view();
        plan.push(Op::Wait(k));
        proof {
            assert(plan.deep_view() =~= plan1.push(OpS::Wait(k as int)));
            assert(wait_ops(k as int, ns as int) == seq![OpS::Wait(k as int)] + wait_ops(
                k + 1,
                ns as int,
            ));
            assert(plan.deep_view() + wait_ops(k + 1, ns as int) =~= full);
        }
        k += 1;
    }
    proof {
        assert(wait_ops(ns as int, ns as int) =~= Seq::<OpS>::empty());
        assert(plan.deep_view() =~= full);
    }
    plan
}

/// The descriptors a schedule closes in the shell's own process, in order.
pub open spec fn closes_of(ops: Seq<OpS>) -> Seq<int>
    decreases ops.len(),
{
    if ops.len() == 0 {
        Seq::empty()
    } else {
        (match ops[0] {
            OpS::Close(fd) => seq![fd],
            _ => Seq::empty(),
        }) + closes_of(ops.skip(1))
    }
}

proof fn lemma_closes_concat(x: Seq<OpS>, y: Seq<OpS>)
    ensures
        closes_of(x + y) =~= closes_of(x) + closes_of(y),
    decreases x.len(),
{
    if x.len() == 0 {
        assert(x + y =~= y);
        assert(closes_of(x) =~= Seq::<int>::empty());
    } else {
        assert((x + y)[0] == x[0]);
        assert((x + y).skip(1) =~= x.skip(1) + y);
        lemma_closes_concat(x.skip(1), y);
    }
}

proof fn lemma_closes_of_close_ops(fds: Seq<int>)
    ensures
        closes_of(close_ops(fds)) =~= fds,
    decreases fds.len(),
{
    if fds.len() > 0 {
        let ops = close_ops(fds);
        assert(ops == seq![OpS::Close(fds[0])] + close_ops(fds.skip(1)));
        assert(ops[0] == OpS::Close(fds[0]));
        assert(ops.skip(1) =~= close_ops(fds.skip(1)));
        lemma_closes_of_close_ops(fds.skip(1));
    }
}

proof fn lemma_closes_of_wait_ops(k: int, n: int)
    ensures
        closes_of(wait_ops(k, n)) =~= Seq::<int>::empty(),
    decreases n - k,
{
    if !(k < 0 || k >= n) {
        let ops = wait_ops(k, n);
        assert(ops[0] == OpS::Wait(k));
        assert(ops.skip(1) =~= wait_ops(k + 1, n));
        lemma_closes_of_wait_ops(k + 1, n);
    }
}

/// Every open end is either consumed by the stage (parent closes it) or
/// kept for later (child closes it): the two lists split the open set
/// exactly, nothing lost and nothing duplicated.
pub proof fn lemma_owned_unowned_split(open: Seq<int>, s: StageS)
    ensures
        owned_ends(open, s).to_multiset().add(unowned_ends(open, s).to_multiset())
            == open.to_multiset(),
    decreases open.len(),
{
    broadcast use vstd::seq_lib::group_to_multiset_ensures;

    if open.len() == 0 {
        assert(owned_ends(open, s).to_multiset() =~= Multiset::<int>::empty());
        assert(unowned_ends(open, s).to_multiset() =~= Multiset::<int>::empty());
        assert(open.to_multiset() =~= Multiset::<int>::empty());
        assert(owned_ends(open, s).to_multiset().add(unowned_ends(open, s).to_multiset())
            =~= open.to_multiset());
    } else {
        let dl = open.drop_last();
        let l = open.last();
        lemma_owned_unowned_split(dl, s);
        assert(open =~= dl.push(l));
        assert(open.to_multiset() =~= dl.to_multiset().insert(l));
        if stage_owns(s, l) {
            assert(owned_ends(open, s) =~= owned_ends(dl, s).push(l));
            assert(unowned_ends(open, s) =~= unowned_ends(dl, s));
            assert(owned_ends(open, s).to_multiset() =~= owned_ends(dl, s).to_multiset().insert(
                l,
            ));
            assert(owned_ends(open, s).to_multiset().add(unowned_ends(open, s).to_multiset())
                =~= open.to_multiset());
        } else {
            assert(owned_ends(open, s) =~= owned_ends(dl, s));
            assert(unowned_ends(open, s) =~= unowned_ends(dl, s).push(l));
            assert(unowned_ends(open, s).to_multiset() =~= unowned_ends(
                dl,
                s,
            ).to_multiset().insert(l));
            assert(owned_ends(open, s).to_multiset().add(unowned_ends(open, s).to_multiset())
                =~= open.to_multiset());
        }
    }
}

proof fn lemma_sched_closes(stages: Seq<StageS>, i: int, open: Seq<int>)
    ensures
        closes_of(sched_ops(stages, i, open)).to_multiset() == open.to_multiset(),
    decreases stages.len() - i,
{
    if i < 0 || i >= stages.len() {
        lemma_closes_concat(close_ops(open), wait_ops(0, stages.len() as int));
        lemma_closes_of_close_ops(open);
        lemma_closes_of_wait_ops(0, stages.len() as int);
        assert(closes_of(sched_ops(stages, i, open)) =~= open);
    } else {
        broadcast use vstd::seq_lib::lemma_multiset_commutative;

        let s = stages[i];
        let hd = seq![OpS::Spawn { stage: i, child_close: unowned_ends(open, s) }];
        let cl = close_ops(owned_ends(open, s));
        let rest = sched_ops(stages, i + 1, unowned_ends(open, s));
        assert(sched_ops(stages, i, open) == hd + cl + rest);
        lemma_closes_concat(hd + cl, rest);
        lemma_closes_concat(hd, cl);
        assert(closes_of(hd) =~= Seq::<int>::empty()) by {
            assert(hd[0] is Spawn);
            assert(hd.skip(1) =~= Seq::<OpS>::empty());
            assert(closes_of(hd.skip(1)) =~= Seq::<int>::empty());
        }
        lemma_closes_of_close_ops(owned_ends(open, s));
        lemma_sched_closes(stages, i + 1, unowned_ends(open, s));
        assert(closes_of(sched_ops(stages, i, open)) =~= owned_ends(open, s) + closes_of(rest));
        lemma_owned_unowned_split(open, s);
        assert(closes_of(sched_ops(stages, i, open)).to_multiset() == owned_ends(
            open,
            s,
        ).to_multiset().add(closes_of(rest).to_multiset()));
    }
}

/// After orchestrating any pipeline, the shell process holds no pipe
/// descriptor: the schedule closes, in the shell's own process, exactly the
/// ends the builder registered — each end once, none forgotten.
pub proof fn lemma_schedule_closes_all_pipe_ends(stages: Seq<StageS>, pipes: Seq<(int, int)>)
    ensures
        closes_of(spec_schedule(stages, pipes)).to_multiset() == ends_of(pipes).to_multiset(),
{
    lemma_sched_closes(stages, 0, ends_of(pipes));
}

proof fn lemma_close_ops_shape(fds: Seq<int>)
    ensures
        close_ops(fds).len() == fds.len(),
        forall|j: int| 0 <= j < fds.len() ==> !(#[trigger] close_ops(fds)[j] is Wait),
    decreases fds.len(),
{
    if fds.len() > 0 {
        lemma_close_ops_shape(fds.skip(1));
        assert forall|j: int| 0 <= j < fds.len() implies !(#[trigger] close_ops(fds)[j]
            is Wait) by {
            if j > 0 {
                assert(close_ops(fds)[j] == close_ops(fds.skip(1))[j - 1]);
            }
        }
    }
}

proof fn lemma_wait_ops_shape(k: int, n: int)
    requires
        0 <= k <= n,
    ensures
        wait_ops(k, n).len() == n - k,
        forall|j: int| 0 <= j < n - k ==> #[trigger] wait_ops(k, n)[j] == OpS::Wait(k + j),
    decreases n - k,
{
    if k < n {
        lemma_wait_ops_shape(k + 1, n);
        assert forall|j: int| 0 <= j < n - k implies #[trigger] wait_ops(k, n)[j] == OpS::Wait(
            k + j,
        ) by {
            if j > 0 {
                assert(wait_ops(k, n)[j] == wait_ops(k + 1, n)[j - 1]);
            }
        }
    }
}

proof fn lemma_sched_shape(stages: Seq<StageS>, i: int, open: Seq<int>)
    requires
        0 <= i,
    ensures
        sched_ops(stages, i, open).len() >= stages.len(),
        forall|j: int|
            0 <= j < sched_ops(stages, i, open).len() - stages.len() ==> !(#[trigger] sched_ops(
                stages,
                i,
                open,
            )[j] is Wait),
        forall|j: int|
            0 <= j < stages.len() ==> #[trigger] sched_ops(stages, i, open)[sched_ops(
                stages,
                i,
                open,
            ).len() - stages.len() + j] == OpS::Wait(j),
    decreases stages.len() - i,
{
    let ops = sched_ops(stages, i, open);
    if i >= stages.len() {
        let n = stages.len() as int;
        lemma_close_ops_shape(open);
        lemma_wait_ops_shape(0, n);
        assert(ops == close_ops(open) + wait_ops(0, n));
        assert forall|j: int| 0 <= j < ops.len() - n implies !(#[trigger] ops[j] is Wait) by {
            assert(ops[j] == close_ops(open)[j]);
        }
        assert forall|j: int| 0 <= j < n implies #[trigger] ops[ops.len() - n + j] == OpS::Wait(
            j,
        ) by {
            assert(ops[ops.len() - n + j] == wait_ops(0, n)[j]);
        }
    } else {
        let n = stages.len() as int;
        let s = stages[i];
        let hd = seq![OpS::Spawn { stage: i, child_close: unowned_ends(open, s) }] + close_ops(
            owned_ends(open, s),
        );
        let rest = sched_ops(stages, i + 1, unowned_ends(open, s));
        assert(ops == hd + rest);
        lemma_close_ops_shape(owned_ends(open, s));
        lemma_sched_shape(stages, i + 1, unowned_ends(open, s));
        assert forall|j: int| 0 <= j < hd.len() implies !(#[trigger] hd[j] is Wait) by {
            if j > 0 {
                assert(hd[j] == close_ops(owned_ends(open, s))[j - 1]);
            }
        }
        assert forall|j: int| 0 <= j < ops.len() - n implies !(#[trigger] ops[j] is Wait) by {
            if j < hd.len() {
                assert(ops[j] == hd[j]);
            } else {
                assert(ops[j] == rest[j - hd.len()]);
            }
        }
        assert forall|j: int| 0 <= j < n implies #[trigger] ops[ops.len() - n + j] == OpS::Wait(
            j,
        ) by {
            assert(ops[ops.len() - n + j] == rest[rest.len() - n + j]);
        }
    }
}

/// In every schedule all descriptor reconciliation comes first and all
/// waiting comes last: no close follows a wait, so each pipe's write end is
/// closed in the shell before the shell blocks on the pipe's reader and
/// end-of-file can propagate; and the schedule ends with exactly one wait
/// per stage, in spawn order, so every spawned child is reported.
pub proof fn lemma_schedule_waits_last(stages: Seq<StageS>, pipes: Seq<(int, int)>)
    ensures
        spec_schedule(stages, pipes).len() >= stages.len(),
        forall|j: int|
            0 <= j < spec_schedule(stages, pipes).len() - stages.len() ==> !(
            #[trigger] spec_schedule(stages, pipes)[j] is Wait),
        forall|j: int|
            0 <= j < stages.len() ==> #[trigger] spec_schedule(stages, pipes)[spec_schedule(
                stages,
                pipes,
            ).len() - stages.len() + j] == OpS::Wait(j),
{
    lemma_sched_shape(stages, 0, ends_of(pipes));
}

/// A child closes only pipe ends its own stage does not use: nothing in a
/// spawn's close list is the stage's input or output descriptor.
pub proof fn lemma_child_closes_only_unused(open: Seq<int>, s: StageS)
    ensures
        forall|j: int|
            0 <= j < unowned_ends(open, s).len() ==> !stage_owns(
                s,
                #[trigger] unowned_ends(open, s)[j],
            ),
    decreases open.len(),
{
    if open.len() > 0 {
        lemma_child_closes_only_unused(open.drop_last(), s);
        let u = unowned_ends(open, s);
        assert forall|j: int| 0 <= j < u.len() implies !stage_owns(s, #[trigger] u[j]) by {
            if j < unowned_ends(open.drop_last(), s).len() {
                assert(u[j] == unowned_ends(open.drop_last(), s)[j]);
            }
        }
    }
}

} // verus!
