use vstd::prelude::*;

use crate::plan::{
    copy_names, names_view, ExprModel, Expression, PlanModel, PlanNode, Scope, StageKind,
};

verus! {

/// Why a plan could not be scheduled. Scheduling fails as a whole: no
/// partial task list is ever handed out.
#[derive(Clone, Copy, Debug, PartialEq, Eq, Structural)]
pub enum ScheduleError {
    /// The topology is empty, lacks the local node, or names a node twice.
    TopologyError,
    /// A remote node would receive more than one dispatch action.
    ConflictingDispatchError,
    /// The nodes that run a stage's input cannot be told from the tree.
    UnresolvableLocalityError,
}

/// Run `plan` and route each output block, by `scatter_expr`, into the
/// mailbox of one of `sinks`.
#[derive(Debug, PartialEq, Eq)]
pub struct PrepareShuffleAction {
    pub plan: PlanNode,
    pub sinks: Vec<String>,
    pub scatter_expr: Expression,
}

/// Run `plan` and push a copy of each output block into every sink.
#[derive(Debug, PartialEq, Eq)]
pub struct BroadcastAction {
    pub plan: PlanNode,
    pub sinks: Vec<String>,
}

/// The work handed to one node for one stage.
#[derive(Debug, PartialEq, Eq)]
pub enum DispatchAction {
    PrepareShuffleAction(PrepareShuffleAction),
    BroadcastAction(BroadcastAction),
}

/// The mathematical value of a `DispatchAction`.
pub enum ActionModel {
    Shuffle { plan: PlanModel, sinks: Seq<Seq<char>>, scatter_expr: ExprModel },
    Broadcast { plan: PlanModel, sinks: Seq<Seq<char>> },
}

impl DispatchAction {
    pub open spec fn view(&self) -> ActionModel {
        match self {
            DispatchAction::PrepareShuffleAction(a) => ActionModel::Shuffle {
                plan: a.plan.view(),
                sinks: names_view(a.sinks@),
                scatter_expr: a.scatter_expr.view(),
            },
            DispatchAction::BroadcastAction(a) => ActionModel::Broadcast {
                plan: a.plan.view(),
                sinks: names_view(a.sinks@),
            },
        }
    }
}

/// A dispatch action together with the node that runs it.
#[derive(Debug, PartialEq, Eq)]
pub struct Task {
    pub node: String,
    pub action: DispatchAction,
}

/// The node names and action models of a list of tasks.
pub open spec fn tasks_view(ts: Seq<Task>) -> Seq<(Seq<char>, ActionModel)> {
    ts.map_values(|t: Task| (t.node@, t.action.view()))
}

/// The action models of a list of actions.
pub open spec fn actions_view(acts: Seq<DispatchAction>) -> Seq<ActionModel> {
    acts.map_values(|a: DispatchAction| a.view())
}

/// The outcome of one scheduling call.
#[derive(Debug, PartialEq, Eq)]
pub struct ScheduledTasks {
    /// One action per remote node, in the order in which stages were resolved.
    pub tasks: Vec<Task>,
    /// The actions that the local node runs in-process, in resolution order.
    pub local_actions: Vec<DispatchAction>,
    /// The fragment that the local node executes; it holds no `Stage`.
    pub local_task: PlanNode,
}

/// The mathematical value of a `ScheduledTasks`.
pub struct TasksModel {
    pub tasks: Seq<(Seq<char>, ActionModel)>,
    pub local_actions: Seq<ActionModel>,
    pub local_task: PlanModel,
}

impl ScheduledTasks {
    pub open spec fn view(&self) -> TasksModel {
        TasksModel {
            tasks: tasks_view(self.tasks@),
            local_actions: actions_view(self.local_actions@),
            local_task: self.local_task.view(),
        }
    }

    /// The actions to dispatch, keyed by distinct remote nodes.
    pub fn tasks(&self) -> (r: &Vec<Task>)
        ensures
            tasks_view(r@) == self.view().tasks,
    {
        &self.tasks
    }

    /// The fragment to execute on the local node.
    pub fn local_task(&self) -> (r: &PlanNode)
        ensures
            r.view() == self.view().local_task,
    {
        &self.local_task
    }
}

/// Whether a `Stage` occurs anywhere in `p`.
pub open spec fn has_stage(p: PlanModel) -> bool
    decreases p,
{
    match p {
        PlanModel::Compute { input } => has_stage(*input),
        PlanModel::Stage { .. } => true,
        _ => false,
    }
}

/// The nodes that a stage of kind `kind` routes into, when `src` runs its input.
pub open spec fn targets(
    kind: StageKind,
    src: Seq<Seq<char>>,
    nodes: Seq<Seq<char>>,
    local: Seq<char>,
) -> Seq<Seq<char>> {
    match kind {
        StageKind::Normal => src,
        StageKind::Expansive => nodes,
        StageKind::Convergent => seq![local],
    }
}

/// The nodes, in topology order, on which `p` runs; `None` where the tree
/// does not tell (a bare `Remote` leaf).
pub open spec fn locality(p: PlanModel, nodes: Seq<Seq<char>>, local: Seq<char>) -> Option<
    Seq<Seq<char>>,
>
    decreases p,
{
    match p {
        PlanModel::Empty { scope } => match scope {
            Scope::Local => Some(seq![local]),
            Scope::Cluster => Some(nodes),
        },
        PlanModel::Compute { input } => locality(*input, nodes, local),
        PlanModel::Stage { kind, input, .. } => match locality(*input, nodes, local) {
            Some(src) => Some(targets(kind, src, nodes, local)),
            None => None,
        },
        PlanModel::Remote { .. } => None,
    }
}

/// The source nodes of a stage whose input is `input` (empty where unresolvable).
pub open spec fn sources(input: PlanModel, nodes: Seq<Seq<char>>, local: Seq<char>) -> Seq<
    Seq<char>,
> {
    match locality(input, nodes, local) {
        Some(src) => src,
        None => Seq::empty(),
    }
}

/// Whether the input of every stage in `p` has a locality.
pub open spec fn resolvable(p: PlanModel, nodes: Seq<Seq<char>>, local: Seq<char>) -> bool
    decreases p,
{
    match p {
        PlanModel::Compute { input } => resolvable(*input, nodes, local),
        PlanModel::Stage { input, .. } => resolvable(*input, nodes, local) && locality(
            *input,
            nodes,
            local,
        ) is Some,
        _ => true,
    }
}

/// The fragment of `p` that node `t` executes: every outermost `Stage` is
/// replaced by a read of `t`'s own mailbox, written by the stage's sources.
pub open spec fn fragment(p: PlanModel, t: Seq<char>, nodes: Seq<Seq<char>>, local: Seq<char>) -> PlanModel
    decreases p,
{
    match p {
        PlanModel::Compute { input } => PlanModel::Compute {
            input: Box::new(fragment(*input, t, nodes, local)),
        },
        PlanModel::Stage { input, .. } => PlanModel::Remote {
            stream_id: t,
            fetch_nodes: sources(*input, nodes, local),
        },
        _ => p,
    }
}

/// The action that source node `n` runs for a stage.
pub open spec fn stage_action(
    kind: StageKind,
    scatter_expr: ExprModel,
    input: PlanModel,
    n: Seq<char>,
    nodes: Seq<Seq<char>>,
    local: Seq<char>,
) -> ActionModel {
    ActionModel::Shuffle {
        plan: fragment(input, n, nodes, local),
        sinks: targets(kind, sources(input, nodes, local), nodes, local),
        scatter_expr,
    }
}

/// Every (node, action) pair that the stages of `p` produce, innermost stage
/// first, and within a stage in the order of its sources.
pub open spec fn stage_actions(p: PlanModel, nodes: Seq<Seq<char>>, local: Seq<char>) -> Seq<
    (Seq<char>, ActionModel),
>
    decreases p,
{
    match p {
        PlanModel::Compute { input } => stage_actions(*input, nodes, local),
        PlanModel::Stage { kind, scatter_expr, input } => stage_actions(*input, nodes, local)
            + sources(*input, nodes, local).map_values(
            |n: Seq<char>| (n, stage_action(kind, scatter_expr, *input, n, nodes, local)),
        ),
        _ => Seq::empty(),
    }
}

/// The pairs of `acts` addressed to a node other than `local`, in order.
pub open spec fn remote_only(acts: Seq<(Seq<char>, ActionModel)>, local: Seq<char>) -> Seq<
    (Seq<char>, ActionModel),
>
    decreases acts.len(),
{
    if acts.len() == 0 {
        Seq::empty()
    } else {
        let rest = remote_only(acts.drop_last(), local);
        if acts.last().0 != local {
            rest.push(acts.last())
        } else {
            rest
        }
    }
}

/// The actions of `acts` addressed to `local`, in order.
pub open spec fn local_only(acts: Seq<(Seq<char>, ActionModel)>, local: Seq<char>) -> Seq<
    ActionModel,
>
    decreases acts.len(),
{
    if acts.len() == 0 {
        Seq::empty()
    } else {
        let rest = local_only(acts.drop_last(), local);
        if acts.last().0 == local {
            rest.push(acts.last().1)
        } else {
            rest
        }
    }
}

/// No two pairs of `ts` name the same node.
pub open spec fn distinct_nodes(ts: Seq<(Seq<char>, ActionModel)>) -> bool {
    forall|i: int, j: int| 0 <= i < j < ts.len() ==> ts[i].0 != ts[j].0
}

/// A usable topology: not empty, holding the local node, no name twice.
pub open spec fn valid_topology(nodes: Seq<Seq<char>>, local: Seq<char>) -> bool {
    &&& nodes.len() > 0
    &&& nodes.contains(local)
    &&& nodes.no_duplicates()
}

/// What scheduling `p` on the topology `nodes` (with `local` the local node) yields.
pub open spec fn schedule(p: PlanModel, nodes: Seq<Seq<char>>, local: Seq<char>) -> Result<
    TasksModel,
    ScheduleError,
> {
    if has_stage(p) && !valid_topology(nodes, local) {
        Err(ScheduleError::TopologyError)
    } else if !resolvable(p, nodes, local) {
        Err(ScheduleError::UnresolvableLocalityError)
    } else if !distinct_nodes(remote_only(stage_actions(p, nodes, local), local)) {
        Err(ScheduleError::ConflictingDispatchError)
    } else {
        Ok(
            TasksModel {
                tasks: remote_only(stage_actions(p, nodes, local), local),
                local_actions: local_only(stage_actions(p, nodes, local), local),
                local_task: fragment(p, local, nodes, local),
            },
        )
    }
}

/// A read-only snapshot of the cluster, used to schedule plans.
#[derive(Debug)]
pub struct PlanScheduler {
    /// Every node of the cluster, in topology order.
    pub nodes: Vec<String>,
    /// The node that accepted the query.
    pub local_node: String,
}

impl PlanScheduler {
    /// The names of the cluster's nodes, in topology order.
    pub open spec fn nodes_view(&self) -> Seq<Seq<char>> {
        names_view(self.nodes@)
    }

    /// The name of the local node.
    pub open spec fn local_view(&self) -> Seq<char> {
        self.local_node@
    }

    /// A scheduler over the given topology.
    pub fn create(nodes: Vec<String>, local_node: String) -> (r: PlanScheduler)
        ensures
            r.nodes_view() == names_view(nodes@),
            r.local_view() == local_node@,
    {
        PlanScheduler { nodes, local_node }
    }

    /// Whether a `Stage` occurs anywhere in `plan`.
    pub fn has_stage(plan: &PlanNode) -> (r: bool)
        ensures
            r == has_stage(plan.view()),
        decreases plan,
    {
        match plan {
            PlanNode::Compute { input } => Self::has_stage(input),
            PlanNode::Stage { .. } => true,
            _ => false,
        }
    }

    /// The nodes that a stage of kind `kind` routes into, when `src` runs its input.
    fn targets(&self, kind: StageKind, src: &Vec<String>) -> (r: Vec<String>)
        ensures
            names_view(r@) == targets(kind, names_view(src@), self.nodes_view(), self.local_view()),
    {
        match kind {
            StageKind::Normal => copy_names(src),
            StageKind::Expansive => copy_names(&self.nodes),
            StageKind::Convergent => {
                let r = vec![self.local_node.clone()];
                proof {
                    assert(names_view(r@) =~= seq![self.local_view()]);
                }
                r
            },
        }
    }

    /// The nodes on which `plan` runs, if the tree tells.
    fn locality(&self, plan: &PlanNode) -> (r: Option<Vec<String>>)
        ensures
            match r {
                Some(v) => locality(plan.view(), self.nodes_view(), self.local_view()) == Some(
                    names_view(v@),
                ),
                None => locality(plan.view(), self.nodes_view(), self.local_view()) is None,
            },
        decreases plan,
    {
        match plan {
            PlanNode::Empty { scope } => match scope {
                Scope::Local => {
                    let r = vec![self.local_node.clone()];
                    proof {
                        assert(names_view(r@) =~= seq![self.local_view()]);
                    }
                    Some(r)
                },
                Scope::Cluster => Some(copy_names(&self.nodes)),
            },
            PlanNode::Compute { input } => self.locality(input),
            PlanNode::Stage { kind, input, .. } => match self.locality(input) {
                Some(src) => Some(self.targets(*kind, &src)),
                None => None,
            },
            PlanNode::Remote { .. } => None,
        }
    }

    /// Whether the input of every stage in `plan` has a locality.
    fn is_resolvable(&self, plan: &PlanNode) -> (r: bool)
        ensures
            r == resolvable(plan.view(), self.nodes_view(), self.local_view()),
        decreases plan,
    {
        match plan {
            PlanNode::Compute { input } => self.is_resolvable(input),
            PlanNode::Stage { input, .. } => {
                if !self.is_resolvable(input) {
                    false
                } else {
                    self.locality(input).is_some()
                }
            },
            _ => true,
        }
    }

    /// The fragment of `plan` that node `t` executes.
    fn fragment(&self, plan: &PlanNode, t: &String) -> (r: PlanNode)
        requires
            resolvable(plan.view(), self.nodes_view(), self.local_view()),
        ensures
            r.view() == fragment(plan.view(), t@, self.nodes_view(), self.local_view()),
        decreases plan,
    {
        match plan {
            PlanNode::Compute { input } => PlanNode::Compute {
                input: Box::new(self.fragment(input, t)),
            },
            PlanNode::Stage { input, .. } => {
                let fetch_nodes = match self.locality(input) {
                    Some(src) => src,
                    None => Vec::new(),
                };
                PlanNode::Remote { stream_id: t.clone(), fetch_nodes }
            },
            _ => plan.duplicate(),
        }
    }

    /// Whether the topology is usable: not empty, holding the local node,
    /// and naming no node twice.
    fn valid_topology(&self) -> (r: bool)
        ensures
            r == valid_topology(self.nodes_view(), self.local_view()),
    {
        let ghost nv = self.nodes_view();
        if self.nodes.len() == 0 {
            return false;
        }
        let mut found = false;
        let mut i: usize = 0;
        while i < self.nodes.len()
            invariant
                0 <= i <= self.nodes@.len(),
                nv == self.nodes_view(),
                found <==> exists|j: int| 0 <= j < i && nv[j] == self.local_view(),
                forall|a: int, b: int| 0 <= a < b < i ==> nv[a] != nv[b],
            decreases self.nodes@.len() - i,
        {
            proof {
                assert(nv[i as int] == self.nodes@[i as int]@);
            }
            if self.nodes[i] == self.local_node {
                found = true;
            }
            let mut k: usize = 0;
            while k < i
                invariant
                    0 <= k <= i < self.nodes@.len(),
                    nv == self.nodes_view(),
                    forall|a: int| 0 <= a < k ==> nv[a] != nv[i as int],
                decreases i - k,
            {
                proof {
                    assert(nv[k as int] == self.nodes@[k as int]@);
                }
                if self.nodes[k] == self.nodes[i] {
                    proof {
                        assert(nv[k as int] == nv[i as int]);
                        assert(!nv.no_duplicates());
                    }
                    return false;
                }
                k = k + 1;
            }
            i = i + 1;
        }
        proof {
            if found {
                let j = choose|j: int| 0 <= j < nv.len() && nv[j] == self.local_view();
                assert(nv.contains(self.local_view()));
            }
            assert(nv.no_duplicates());
        }
        found
    }

    /// Appends to `out`, innermost stage first, the action of every source
    /// node of every stage of `plan`.
    fn collect_actions(&self, plan: &PlanNode, out: &mut Vec<Task>)
        requires
            resolvable(plan.view(), self.nodes_view(), self.local_view()),
        ensures
            tasks_view(final(out)@) == tasks_view(old(out)@) + stage_actions(
                plan.view(),
                self.nodes_view(),
                self.local_view(),
            ),
        decreases plan,
    {
        let ghost nodes = self.nodes_view();
        let ghost local = self.local_view();
        match plan {
            PlanNode::Compute { input } => self.collect_actions(input, out),
            PlanNode::Stage { kind, scatter_expr, input } => {
                self.collect_actions(input, out);
                let src = match self.locality(input) {
                    Some(src) => src,
                    None => Vec::new(),
                };
                let sinks = self.targets(*kind, &src);
                let ghost pre = tasks_view(out@);
                let ghost srcv = names_view(src@);
                let ghost made = srcv.map_values(
                    |n: Seq<char>| (n, stage_action(*kind, scatter_expr.view(), input.view(), n, nodes, local)),
                );
                let mut i: usize = 0;
                while i < src.len()
                    invariant
                        0 <= i <= src@.len(),
                        srcv == names_view(src@),
                        srcv == sources(input.view(), nodes, local),
                        names_view(sinks@) == targets(*kind, srcv, nodes, local),
                        resolvable(input.view(), nodes, local),
                        nodes == self.nodes_view(),
                        local == self.local_view(),
                        made == srcv.map_values(
                            |n: Seq<char>| (n, stage_action(*kind, scatter_expr.view(), input.view(), n, nodes, local)),
                        ),
                        tasks_view(out@) =~= pre + made.subrange(0, i as int),
                    decreases src@.len() - i,
                {
                    let action = DispatchAction::PrepareShuffleAction(
                        PrepareShuffleAction {
                            plan: self.fragment(input, &src[i]),
                            sinks: copy_names(&sinks),
                            scatter_expr: scatter_expr.duplicate(),
                        },
                    );
                    let node = src[i].clone();
                    let task = Task { node, action };
                    let ghost old_out = out@;
                    proof {
                        assert(srcv[i as int] == src@[i as int]@);
                        assert((task.node@, task.action.view()) == made[i as int]);
                    }
                    out.push(task);
                    proof {
                        assert(tasks_view(out@) =~= tasks_view(old_out).push(made[i as int]));
                        assert(made.subrange(0, i + 1) =~= made.subrange(0, i as int) + seq![made[i as int]]);
                    }
                    i = i + 1;
                }
                proof {
                    assert(made.subrange(0, src@.len() as int) =~= made);
                }
            },
            _ => {},
        }
    }


    /// Resolves every stage of `plan` into dispatch actions and the local
    /// fragment. Fails, as a whole, on a bad topology (only where `plan` has
    /// a stage), on a stage whose input has no locality, and where a remote
    /// node would receive two actions.
    pub fn reschedule(&self, plan: &PlanNode) -> (r: Result<ScheduledTasks, ScheduleError>)
        ensures
            match r {
                Ok(t) => schedule(plan.view(), self.nodes_view(), self.local_view()) == Ok::<
                    TasksModel,
                    ScheduleError,
                >(t.view()),
                Err(e) => schedule(plan.view(), self.nodes_view(), self.local_view()) == Err::<
                    TasksModel,
                    ScheduleError,
                >(e),
            },
    {
        let ghost nodes = self.nodes_view();
        let ghost local = self.local_view();
        if Self::has_stage(plan) && !self.valid_topology() {
            return Err(ScheduleError::TopologyError);
        }
        if !self.is_resolvable(plan) {
            return Err(ScheduleError::UnresolvableLocalityError);
        }
        let mut all: Vec<Task> = Vec::new();
        self.collect_actions(plan, &mut all);
        let ghost acts = tasks_view(all@);
        proof {
            assert(acts =~= stage_actions(plan.view(), nodes, local));
        }
        let mut tasks: Vec<Task> = Vec::new();
        let mut local_actions: Vec<DispatchAction> = Vec::new();
        let ghost mut k: int = 0;
        while all.len() > 0
            invariant
                0 <= k <= acts.len(),
                all@.len() + k == acts.len(),
                tasks_view(all@) =~= acts.subrange(k, acts.len() as int),
                tasks_view(tasks@) == remote_only(acts.subrange(0, k), local),
                actions_view(local_actions@) == local_only(acts.subrange(0, k), local),
                local == self.local_view(),
            decreases all@.len(),
        {
            let ghost before = all@;
            let task = all.remove(0);
            proof {
                assert(tasks_view(before)[0] == acts.subrange(k, acts.len() as int)[0]);
                assert(tasks_view(before)[0] == acts[k]);
                assert(tasks_view(all@) =~= tasks_view(before).subrange(1, before.len() as int));
                assert(acts.subrange(0, k + 1).drop_last() =~= acts.subrange(0, k));
                assert(acts.subrange(0, k + 1).last() == acts[k]);
            }
            if task.node == self.local_node {
                let ghost la = local_actions@;
                local_actions.push(task.action);
                proof {
                    assert(actions_view(local_actions@) =~= actions_view(la).push(acts[k].1));
                }
            } else {
                let ghost ta = tasks@;
                tasks.push(task);
                proof {
                    assert(tasks_view(tasks@) =~= tasks_view(ta).push(acts[k]));
                }
            }
            proof {
                k = k + 1;
            }
        }
        proof {
            assert(acts.subrange(0, k) =~= acts);
        }
        if Self::has_repeated_node(&tasks) {
            return Err(ScheduleError::ConflictingDispatchError);
        }
        let local_task = self.fragment(plan, &self.local_node);
        Ok(ScheduledTasks { tasks, local_actions, local_task })
    }

    /// Whether two tasks of `tasks` name the same node.
    fn has_repeated_node(tasks: &Vec<Task>) -> (r: bool)
        ensures
            r == !distinct_nodes(tasks_view(tasks@)),
    {
        let ghost tv = tasks_view(tasks@);
        let mut i: usize = 0;
        while i < tasks.len()
            invariant
                0 <= i <= tasks@.len(),
                tv == tasks_view(tasks@),
                forall|a: int, b: int| 0 <= a < b < i ==> tv[a].0 != tv[b].0,
            decreases tasks@.len() - i,
        {
            let mut j: usize = 0;
            while j < i
                invariant
                    0 <= j <= i < tasks@.len(),
                    tv == tasks_view(tasks@),
                    forall|a: int| 0 <= a < j ==> tv[a].0 != tv[i as int].0,
                decreases i - j,
            {
                if tasks[j].node == tasks[i].node {
                    proof {
                        assert(tv[j as int].0 == tv[i as int].0);
                    }
                    return true;
                }
                j = j + 1;
            }
            i = i + 1;
        }
        false
    }

}

} // verus!
