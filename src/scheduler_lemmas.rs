use vstd::prelude::*;

use crate::plan::{ExprModel, PlanModel, StageKind};
use crate::scheduler::{
    distinct_nodes, fragment, has_stage, local_only, locality, remote_only, resolvable, schedule,
    sources,
    stage_action, stage_actions, targets, valid_topology, ActionModel, ScheduleError, TasksModel,
};

verus! {

proof fn lemma_no_stage_parts(p: PlanModel, nodes: Seq<Seq<char>>, local: Seq<char>)
    requires
        !has_stage(p),
    ensures
        resolvable(p, nodes, local),
        stage_actions(p, nodes, local) == Seq::<(Seq<char>, ActionModel)>::empty(),
        fragment(p, local, nodes, local) == p,
    decreases p,
{
    match p {
        PlanModel::Compute { input } => {
            lemma_no_stage_parts(*input, nodes, local);
        },
        _ => {},
    }
}

/// A plan without a stage schedules, on any topology, to no task and no
/// local action, and the local node runs the plan unchanged.
pub proof fn lemma_no_stage_identity(p: PlanModel, nodes: Seq<Seq<char>>, local: Seq<char>)
    requires
        !has_stage(p),
    ensures
        schedule(p, nodes, local) == Ok::<TasksModel, ScheduleError>(
            TasksModel { tasks: Seq::empty(), local_actions: Seq::empty(), local_task: p },
        ),
{
    lemma_no_stage_parts(p, nodes, local);
    assert(remote_only(Seq::<(Seq<char>, ActionModel)>::empty(), local) =~= Seq::empty());
    assert(local_only(Seq::<(Seq<char>, ActionModel)>::empty(), local) =~= Seq::empty());
}

/// On a topology with no node, every plan that has a stage fails with
/// `TopologyError`.
pub proof fn lemma_empty_topology(p: PlanModel, local: Seq<char>)
    requires
        has_stage(p),
    ensures
        schedule(p, Seq::empty(), local) == Err::<TasksModel, ScheduleError>(
            ScheduleError::TopologyError,
        ),
{
}

/// Scheduling depends on the plan and the topology alone: equal inputs
/// give equal outcomes, down to the order of every sink and fetch list.
pub proof fn lemma_deterministic(
    p1: PlanModel,
    p2: PlanModel,
    nodes1: Seq<Seq<char>>,
    nodes2: Seq<Seq<char>>,
    local1: Seq<char>,
    local2: Seq<char>,
)
    requires
        p1 == p2,
        nodes1 == nodes2,
        local1 == local2,
    ensures
        schedule(p1, nodes1, local1) == schedule(p2, nodes2, local2),
{
}

proof fn lemma_remote_only_prefix(acts: Seq<(Seq<char>, ActionModel)>, n: int, local: Seq<char>)
    requires
        0 <= n <= acts.len(),
    ensures
        remote_only(acts.subrange(0, n), local).len() <= remote_only(acts, local).len(),
        remote_only(acts, local).subrange(0, remote_only(acts.subrange(0, n), local).len() as int)
            == remote_only(acts.subrange(0, n), local),
    decreases acts.len() - n,
{
    if n == acts.len() {
        assert(acts.subrange(0, n) =~= acts);
        assert(remote_only(acts, local).subrange(0, remote_only(acts, local).len() as int)
            =~= remote_only(acts, local));
    } else {
        lemma_remote_only_prefix(acts, n + 1, local);
        let a = acts.subrange(0, n);
        let b = acts.subrange(0, n + 1);
        assert(b.drop_last() =~= a);
        let ra = remote_only(a, local);
        let rb = remote_only(b, local);
        let r = remote_only(acts, local);
        assert(rb.subrange(0, ra.len() as int) =~= ra);
        assert(r.subrange(0, ra.len() as int) =~= r.subrange(0, rb.len() as int).subrange(
            0,
            ra.len() as int,
        ));
    }
}

proof fn lemma_remote_only_keeps(acts: Seq<(Seq<char>, ActionModel)>, i: int, local: Seq<char>)
    requires
        0 <= i < acts.len(),
        acts[i].0 != local,
    ensures
        remote_only(acts.subrange(0, i + 1), local).len() >= 1,
        remote_only(acts.subrange(0, i + 1), local).len() == remote_only(
            acts.subrange(0, i),
            local,
        ).len() + 1,
        remote_only(acts.subrange(0, i + 1), local).last() == acts[i],
{
    let b = acts.subrange(0, i + 1);
    assert(b.drop_last() =~= acts.subrange(0, i));
}

/// Two actions of one scheduling call addressed to the same remote node
/// always make the call fail, so no action is silently overwritten. The
/// error is `ConflictingDispatchError` wherever no earlier error takes
/// precedence: the topology is usable and every stage has a locality. (Each
/// plan node has at most one input, so the two actions come from two nested
/// stages; the stages of a plan are never side by side.)
pub proof fn lemma_conflict_detected(
    p: PlanModel,
    nodes: Seq<Seq<char>>,
    local: Seq<char>,
    i: int,
    j: int,
)
    requires
        0 <= i < j < stage_actions(p, nodes, local).len(),
        stage_actions(p, nodes, local)[i].0 == stage_actions(p, nodes, local)[j].0,
        stage_actions(p, nodes, local)[i].0 != local,
    ensures
        schedule(p, nodes, local) is Err,
        valid_topology(nodes, local) && resolvable(p, nodes, local) ==> schedule(p, nodes, local)
            == Err::<TasksModel, ScheduleError>(ScheduleError::ConflictingDispatchError),
{
    if !has_stage(p) {
        lemma_no_stage_parts(p, nodes, local);
    }
    let acts = stage_actions(p, nodes, local);
    let r = remote_only(acts, local);
    lemma_remote_only_keeps(acts, i, local);
    lemma_remote_only_keeps(acts, j, local);
    lemma_remote_only_prefix(acts, i + 1, local);
    lemma_remote_only_prefix(acts, j + 1, local);
    let sj = acts.subrange(0, j);
    lemma_remote_only_prefix(sj, i + 1, local);
    assert(sj.subrange(0, i + 1) =~= acts.subrange(0, i + 1));
    let a = remote_only(acts.subrange(0, i + 1), local).len() as int;
    let b = remote_only(acts.subrange(0, j + 1), local).len() as int;
    assert(a < b);
    assert(r[a - 1] == r.subrange(0, a)[a - 1]);
    assert(r[b - 1] == r.subrange(0, b)[b - 1]);
    assert(r[a - 1].0 == r[b - 1].0);
    assert(!distinct_nodes(r));
}

/// `p` under `depth` pass-through computations.
pub open spec fn computes(depth: nat, p: PlanModel) -> PlanModel
    decreases depth,
{
    if depth == 0 {
        p
    } else {
        PlanModel::Compute { input: Box::new(computes((depth - 1) as nat, p)) }
    }
}

/// Whether `q` is `p` or a subtree of `p`.
pub open spec fn within(p: PlanModel, q: PlanModel) -> bool
    decreases p,
{
    p == q || match p {
        PlanModel::Compute { input } => within(*input, q),
        PlanModel::Stage { input, .. } => within(*input, q),
        _ => false,
    }
}

proof fn lemma_computes_transparent(
    depth: nat,
    p: PlanModel,
    t: Seq<char>,
    nodes: Seq<Seq<char>>,
    local: Seq<char>,
)
    ensures
        locality(computes(depth, p), nodes, local) == locality(p, nodes, local),
        resolvable(computes(depth, p), nodes, local) == resolvable(p, nodes, local),
        stage_actions(computes(depth, p), nodes, local) == stage_actions(p, nodes, local),
        fragment(computes(depth, p), t, nodes, local) == computes(depth, fragment(p, t, nodes, local)),
    decreases depth,
{
    if depth > 0 {
        lemma_computes_transparent((depth - 1) as nat, p, t, nodes, local);
    }
}

/// A stage's actions come first among those of any plan that holds it: the
/// actions of every subtree `q` of a resolvable plan `p` are a prefix of
/// those of `p`, in the same order.
pub proof fn lemma_enclosed_actions_first(
    p: PlanModel,
    q: PlanModel,
    nodes: Seq<Seq<char>>,
    local: Seq<char>,
)
    requires
        within(p, q),
        resolvable(p, nodes, local),
    ensures
        resolvable(q, nodes, local),
        stage_actions(q, nodes, local).len() <= stage_actions(p, nodes, local).len(),
        stage_actions(p, nodes, local).subrange(0, stage_actions(q, nodes, local).len() as int)
            == stage_actions(q, nodes, local),
    decreases p,
{
    let ap = stage_actions(p, nodes, local);
    let aq = stage_actions(q, nodes, local);
    if p == q {
        assert(ap.subrange(0, ap.len() as int) =~= ap);
    } else {
        match p {
            PlanModel::Compute { input } => {
                lemma_enclosed_actions_first(*input, q, nodes, local);
            },
            PlanModel::Stage { input, .. } => {
                lemma_enclosed_actions_first(*input, q, nodes, local);
                let ai = stage_actions(*input, nodes, local);
                assert(ap.subrange(0, aq.len() as int) =~= ai.subrange(0, aq.len() as int));
            },
            _ => {},
        }
    }
}

/// Nested stages resolve innermost first. Take a stage of kind `outer_kind`
/// whose input is a stage of kind `inner_kind` over `leaf`, under
/// `inner_depth` pass-through computations, with the outer stage itself
/// under `outer_depth` computations at the top of the plan. Then the outer
/// stage's sources are exactly the inner stage's targets, in topology order;
/// the inner stage's sources each route into those targets; each of those
/// targets runs the outer stage over the computations above a read of its
/// own mailbox, which the inner sources write; and the local node reads its
/// own mailbox, which every inner target writes. Where the outer stage sits
/// deeper, `lemma_enclosed_actions_first` puts these actions first.
pub proof fn lemma_nested_stages_compose(
    outer_kind: StageKind,
    outer_expr: ExprModel,
    inner_kind: StageKind,
    inner_expr: ExprModel,
    leaf: PlanModel,
    inner_depth: nat,
    outer_depth: nat,
    nodes: Seq<Seq<char>>,
    local: Seq<char>,
)
    requires
        resolvable(leaf, nodes, local),
        locality(leaf, nodes, local) is Some,
    ensures
        ({
            let inner = PlanModel::Stage {
                kind: inner_kind,
                scatter_expr: inner_expr,
                input: Box::new(leaf),
            };
            let outer = PlanModel::Stage {
                kind: outer_kind,
                scatter_expr: outer_expr,
                input: Box::new(computes(inner_depth, inner)),
            };
            let plan = computes(outer_depth, outer);
            let src = sources(leaf, nodes, local);
            let mid = targets(inner_kind, src, nodes, local);
            let all = stage_actions(plan, nodes, local);
            let before = stage_actions(leaf, nodes, local).len();
            &&& resolvable(plan, nodes, local)
            &&& sources(computes(inner_depth, inner), nodes, local) == mid
            &&& all.len() == before + src.len() + mid.len()
            &&& all.subrange(0, before as int) == stage_actions(leaf, nodes, local)
            &&& forall|m: int|
                0 <= m < src.len() ==> #[trigger] all[before + m] == (
                    src[m],
                    ActionModel::Shuffle {
                        plan: fragment(leaf, src[m], nodes, local),
                        sinks: mid,
                        scatter_expr: inner_expr,
                    },
                )
            &&& forall|m: int|
                0 <= m < mid.len() ==> #[trigger] all[before + src.len() + m] == (
                    mid[m],
                    ActionModel::Shuffle {
                        plan: computes(
                            inner_depth,
                            PlanModel::Remote { stream_id: mid[m], fetch_nodes: src },
                        ),
                        sinks: targets(outer_kind, mid, nodes, local),
                        scatter_expr: outer_expr,
                    },
                )
            &&& fragment(plan, local, nodes, local) == computes(
                outer_depth,
                PlanModel::Remote { stream_id: local, fetch_nodes: mid },
            )
        }),
{
    let inner = PlanModel::Stage {
        kind: inner_kind,
        scatter_expr: inner_expr,
        input: Box::new(leaf),
    };
    let wrapped = computes(inner_depth, inner);
    let outer = PlanModel::Stage {
        kind: outer_kind,
        scatter_expr: outer_expr,
        input: Box::new(wrapped),
    };
    let plan = computes(outer_depth, outer);
    let src = sources(leaf, nodes, local);
    let mid = targets(inner_kind, src, nodes, local);
    lemma_computes_transparent(outer_depth, outer, local, nodes, local);
    lemma_computes_transparent(inner_depth, inner, local, nodes, local);
    assert(resolvable(inner, nodes, local));
    assert(sources(wrapped, nodes, local) == mid);
    assert(resolvable(outer, nodes, local));
    let base = stage_actions(leaf, nodes, local);
    let part1 = src.map_values(
        |n: Seq<char>| (n, stage_action(inner_kind, inner_expr, leaf, n, nodes, local)),
    );
    let part2 = mid.map_values(
        |n: Seq<char>| (n, stage_action(outer_kind, outer_expr, wrapped, n, nodes, local)),
    );
    let all = stage_actions(plan, nodes, local);
    assert(stage_actions(wrapped, nodes, local) == base + part1);
    assert(all == base + part1 + part2);
    let before = base.len();
    assert(all.subrange(0, before as int) =~= base);
    assert(all.len() == before + src.len() + mid.len());
    assert forall|m: int| 0 <= m < src.len() implies #[trigger] all[before + m] == (
        src[m],
        ActionModel::Shuffle {
            plan: fragment(leaf, src[m], nodes, local),
            sinks: mid,
            scatter_expr: inner_expr,
        },
    ) by {
        assert(all[before + m] == part1[m]);
    }
    assert forall|m: int| 0 <= m < mid.len() implies #[trigger] all[before + src.len() + m] == (
        mid[m],
        ActionModel::Shuffle {
            plan: computes(inner_depth, PlanModel::Remote { stream_id: mid[m], fetch_nodes: src }),
            sinks: targets(outer_kind, mid, nodes, local),
            scatter_expr: outer_expr,
        },
    ) by {
        lemma_computes_transparent(inner_depth, inner, mid[m], nodes, local);
        assert(all[before + src.len() + m] == part2[m]);
    }
}

/// Whether every name of `names` is a node of `nodes`.
pub open spec fn all_in(names: Seq<Seq<char>>, nodes: Seq<Seq<char>>) -> bool {
    forall|i: int| 0 <= i < names.len() ==> nodes.contains(#[trigger] names[i])
}

/// Whether every mailbox that `p` reads, and each of its writers, is a node
/// of `nodes`.
pub open spec fn reads_within(p: PlanModel, nodes: Seq<Seq<char>>) -> bool
    decreases p,
{
    match p {
        PlanModel::Compute { input } => reads_within(*input, nodes),
        PlanModel::Remote { stream_id, fetch_nodes } => nodes.contains(stream_id) && all_in(
            fetch_nodes,
            nodes,
        ),
        _ => true,
    }
}

/// Whether `a` is a shuffle of a stage-free plan that reads and routes only
/// between nodes of `nodes`.
pub open spec fn action_resolved(a: ActionModel, nodes: Seq<Seq<char>>) -> bool {
    match a {
        ActionModel::Shuffle { plan, sinks, .. } => !has_stage(plan) && reads_within(plan, nodes)
            && all_in(sinks, nodes),
        ActionModel::Broadcast { .. } => false,
    }
}

/// Whether `e` pairs a node of `nodes` with a resolved action.
pub open spec fn entry_resolved(e: (Seq<char>, ActionModel), nodes: Seq<Seq<char>>) -> bool {
    nodes.contains(e.0) && action_resolved(e.1, nodes)
}

proof fn lemma_locality_within(p: PlanModel, nodes: Seq<Seq<char>>, local: Seq<char>)
    requires
        nodes.contains(local),
        locality(p, nodes, local) is Some,
    ensures
        all_in(locality(p, nodes, local)->0, nodes),
    decreases p,
{
    match p {
        PlanModel::Compute { input } => lemma_locality_within(*input, nodes, local),
        PlanModel::Stage { input, .. } => lemma_locality_within(*input, nodes, local),
        _ => {},
    }
}

proof fn lemma_staged_has_locality(p: PlanModel, nodes: Seq<Seq<char>>, local: Seq<char>)
    requires
        has_stage(p),
        resolvable(p, nodes, local),
    ensures
        locality(p, nodes, local) is Some,
    decreases p,
{
    match p {
        PlanModel::Compute { input } => lemma_staged_has_locality(*input, nodes, local),
        _ => {},
    }
}

proof fn lemma_fragment_resolved(p: PlanModel, t: Seq<char>, nodes: Seq<Seq<char>>, local: Seq<char>)
    requires
        nodes.contains(local),
        nodes.contains(t),
        locality(p, nodes, local) is Some,
    ensures
        !has_stage(fragment(p, t, nodes, local)),
        reads_within(fragment(p, t, nodes, local), nodes),
    decreases p,
{
    match p {
        PlanModel::Compute { input } => lemma_fragment_resolved(*input, t, nodes, local),
        PlanModel::Stage { input, .. } => lemma_locality_within(*input, nodes, local),
        _ => {},
    }
}

proof fn lemma_stage_actions_resolved(p: PlanModel, nodes: Seq<Seq<char>>, local: Seq<char>)
    requires
        nodes.contains(local),
        resolvable(p, nodes, local),
    ensures
        forall|k: int|
            0 <= k < stage_actions(p, nodes, local).len() ==> entry_resolved(
                #[trigger] stage_actions(p, nodes, local)[k],
                nodes,
            ),
    decreases p,
{
    match p {
        PlanModel::Compute { input } => {
            lemma_stage_actions_resolved(*input, nodes, local);
            let all = stage_actions(p, nodes, local);
            assert(all == stage_actions(*input, nodes, local));
            assert forall|k: int| 0 <= k < all.len() implies entry_resolved(#[trigger] all[k], nodes) by {
                assert(all[k] == stage_actions(*input, nodes, local)[k]);
            }
        },
        PlanModel::Stage { kind, scatter_expr, input } => {
            lemma_stage_actions_resolved(*input, nodes, local);
            lemma_locality_within(*input, nodes, local);
            let inner = stage_actions(*input, nodes, local);
            let src = sources(*input, nodes, local);
            let all = stage_actions(p, nodes, local);
            assert forall|k: int| 0 <= k < all.len() implies entry_resolved(#[trigger] all[k], nodes) by {
                if k < inner.len() {
                    assert(all[k] == inner[k]);
                } else {
                    let n = src[k - inner.len()];
                    assert(nodes.contains(n));
                    lemma_fragment_resolved(*input, n, nodes, local);
                    let tg = targets(kind, src, nodes, local);
                    assert(all_in(tg, nodes)) by {
                        if kind == StageKind::Convergent {
                            assert forall|i: int| 0 <= i < tg.len() implies nodes.contains(
                                #[trigger] tg[i],
                            ) by {
                                assert(tg[i] == local);
                            }
                        }
                    }
                    assert(all[k] == (n, stage_action(kind, scatter_expr, *input, n, nodes, local)));
                }
            }
        },
        _ => {},
    }
}

proof fn lemma_remote_only_from(acts: Seq<(Seq<char>, ActionModel)>, local: Seq<char>)
    ensures
        forall|k: int|
            0 <= k < remote_only(acts, local).len() ==> (#[trigger] remote_only(acts, local)[k]).0
                != local && acts.contains(remote_only(acts, local)[k]),
    decreases acts.len(),
{
    if acts.len() > 0 {
        let rest = acts.drop_last();
        lemma_remote_only_from(rest, local);
        let r = remote_only(acts, local);
        assert forall|k: int| 0 <= k < r.len() implies (#[trigger] r[k]).0 != local
            && acts.contains(r[k]) by {
            if k < remote_only(rest, local).len() {
                let x = r[k];
                assert(x == remote_only(rest, local)[k]);
                let w = choose|w: int| 0 <= w < rest.len() && rest[w] == x;
                assert(acts[w] == x);
            } else {
                assert(r[k] == acts[acts.len() - 1]);
            }
        }
    }
}

proof fn lemma_local_only_from(acts: Seq<(Seq<char>, ActionModel)>, local: Seq<char>)
    ensures
        forall|k: int|
            0 <= k < local_only(acts, local).len() ==> exists|w: int|
                0 <= w < acts.len() && acts[w].1 == #[trigger] local_only(acts, local)[k],
    decreases acts.len(),
{
    if acts.len() > 0 {
        let rest = acts.drop_last();
        lemma_local_only_from(rest, local);
        let r = local_only(acts, local);
        assert forall|k: int| 0 <= k < r.len() implies exists|w: int|
            0 <= w < acts.len() && acts[w].1 == #[trigger] r[k] by {
            if k < local_only(rest, local).len() {
                assert(r[k] == local_only(rest, local)[k]);
                let w = choose|w: int| 0 <= w < rest.len() && rest[w].1 == local_only(rest, local)[k];
                assert(acts[w] == rest[w]);
            } else {
                assert(acts[acts.len() - 1].1 == r[k]);
            }
        }
    }
}

/// Once a plan with a stage is scheduled, no stage is left: the local
/// fragment and the plan of every action are stage-free. Every action is a
/// shuffle; it is dispatched to a node of the topology other than the local
/// node, routes only into nodes of the topology, and reads only mailboxes of
/// the topology's nodes, written by the topology's nodes; so does the local
/// fragment.
pub proof fn lemma_no_stage_remains(p: PlanModel, nodes: Seq<Seq<char>>, local: Seq<char>)
    requires
        has_stage(p),
        schedule(p, nodes, local) is Ok,
    ensures
        ({
            let t = schedule(p, nodes, local)->Ok_0;
            &&& !has_stage(t.local_task)
            &&& reads_within(t.local_task, nodes)
            &&& forall|k: int|
                0 <= k < t.tasks.len() ==> nodes.contains(#[trigger] t.tasks[k].0) && t.tasks[k].0
                    != local && action_resolved(t.tasks[k].1, nodes)
            &&& forall|k: int|
                0 <= k < t.local_actions.len() ==> action_resolved(
                    #[trigger] t.local_actions[k],
                    nodes,
                )
        }),
{
    let acts = stage_actions(p, nodes, local);
    lemma_staged_has_locality(p, nodes, local);
    lemma_fragment_resolved(p, local, nodes, local);
    lemma_stage_actions_resolved(p, nodes, local);
    lemma_remote_only_from(acts, local);
    lemma_local_only_from(acts, local);
    let t = schedule(p, nodes, local)->Ok_0;
    assert forall|k: int| 0 <= k < t.tasks.len() implies nodes.contains(#[trigger] t.tasks[k].0)
        && t.tasks[k].0 != local && action_resolved(t.tasks[k].1, nodes) by {
        let w = choose|w: int| 0 <= w < acts.len() && acts[w] == t.tasks[k];
        assert(entry_resolved(acts[w], nodes));
    }
    assert forall|k: int| 0 <= k < t.local_actions.len() implies action_resolved(
        #[trigger] t.local_actions[k],
        nodes,
    ) by {
        let w = choose|w: int| 0 <= w < acts.len() && acts[w].1 == t.local_actions[k];
        assert(entry_resolved(acts[w], nodes));
    }
}

} // verus!
