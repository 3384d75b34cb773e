use plan_scheduler::plan::{Expression, PlanNode, Scope, StageKind};
use plan_scheduler::scheduler::{
    DispatchAction, PlanScheduler, PrepareShuffleAction, ScheduleError, Task,
};

fn names(v: &[&str]) -> Vec<String> {
    v.iter().map(|s| s.to_string()).collect()
}

fn create_env() -> PlanScheduler {
    PlanScheduler::create(names(&["dummy_local", "dummy"]), "dummy_local".to_string())
}

fn literal(v: u64) -> Expression {
    Expression::Literal(v)
}

fn empty(scope: Scope) -> PlanNode {
    PlanNode::Empty { scope }
}

fn stage(kind: StageKind, scatter_expr: Expression, input: PlanNode) -> PlanNode {
    PlanNode::Stage { kind, scatter_expr, input: Box::new(input) }
}

fn select(input: PlanNode) -> PlanNode {
    PlanNode::Compute { input: Box::new(input) }
}

fn remote(stream_id: &str, fetch_nodes: &[&str]) -> PlanNode {
    PlanNode::Remote { stream_id: stream_id.to_string(), fetch_nodes: names(fetch_nodes) }
}

fn shuffle(action: &DispatchAction) -> &PrepareShuffleAction {
    match action {
        DispatchAction::PrepareShuffleAction(a) => a,
        DispatchAction::BroadcastAction(_) => panic!("expected a shuffle action"),
    }
}

fn block_number() -> Expression {
    Expression::Function { op: "blockNumber".to_string(), args: vec![] }
}

#[test]
fn test_scheduler_plan_without_stage() {
    let scheduler = create_env();
    let scheduled_tasks = scheduler.reschedule(&empty(Scope::Local)).unwrap();

    assert!(scheduled_tasks.tasks().is_empty());
    assert!(scheduled_tasks.local_actions.is_empty());
    assert_eq!(scheduled_tasks.local_task(), &empty(Scope::Local));
}

#[test]
fn test_scheduler_plan_with_one_convergent_stage() {
    let scheduler = create_env();
    let scheduled_tasks = scheduler
        .reschedule(&stage(StageKind::Convergent, literal(0), empty(Scope::Cluster)))
        .unwrap();

    // the local node's share runs in-process
    assert_eq!(scheduled_tasks.local_actions.len(), 1);
    let local = shuffle(&scheduled_tasks.local_actions[0]);
    assert_eq!(local.sinks, names(&["dummy_local"]));
    assert_eq!(local.scatter_expr, literal(0));
    assert_eq!(local.plan, empty(Scope::Cluster));

    let tasks = scheduled_tasks.tasks();
    assert_eq!(tasks.len(), 1);
    assert_eq!(tasks[0].node, "dummy");
    let action = shuffle(&tasks[0].action);
    assert_eq!(action.sinks, names(&["dummy_local"]));
    assert_eq!(action.scatter_expr, literal(0));
    assert_eq!(action.plan, empty(Scope::Cluster));

    match scheduled_tasks.local_task() {
        PlanNode::Remote { stream_id, fetch_nodes } => {
            assert_eq!(stream_id, "dummy_local");
            assert_eq!(fetch_nodes, &names(&["dummy_local", "dummy"]));
        }
        _ => panic!("test_scheduler_plan_with_one_convergent_stage must be have Remote plan!"),
    }
}

#[test]
fn test_scheduler_plan_with_convergent_and_expansive_stage() {
    let scheduler = create_env();
    let plan = select(stage(
        StageKind::Convergent,
        literal(0),
        select(stage(StageKind::Expansive, block_number(), empty(Scope::Local))),
    ));
    let scheduled_tasks = scheduler.reschedule(&plan).unwrap();

    // three actions in all: two on the local node, one dispatched
    assert_eq!(scheduled_tasks.local_actions.len(), 2);
    assert_eq!(scheduled_tasks.tasks().len(), 1);

    let first = shuffle(&scheduled_tasks.local_actions[0]);
    assert_eq!(first.sinks, names(&["dummy_local", "dummy"]));
    assert_eq!(first.scatter_expr, block_number());
    assert_eq!(first.plan, empty(Scope::Local));

    let second = shuffle(&scheduled_tasks.local_actions[1]);
    assert_eq!(second.sinks, names(&["dummy_local"]));
    assert_eq!(second.scatter_expr, literal(0));
    assert_eq!(second.plan, select(remote("dummy_local", &["dummy_local"])));

    let task = &scheduled_tasks.tasks()[0];
    assert_eq!(task.node, "dummy");
    let third = shuffle(&task.action);
    assert_eq!(third.sinks, names(&["dummy_local"]));
    assert_eq!(third.scatter_expr, literal(0));
    assert_eq!(third.plan, select(remote("dummy", &["dummy_local"])));

    assert_eq!(scheduled_tasks.local_task(), &select(remote("dummy_local", &["dummy_local", "dummy"])));
}

#[test]
fn test_scheduler_plan_with_convergent_and_normal_stage() {
    // Both stages run on every node, so the remote node would be handed two
    // independent actions: scheduling refuses that.
    let scheduler = create_env();
    let plan = select(stage(
        StageKind::Convergent,
        literal(1),
        select(stage(StageKind::Normal, literal(0), empty(Scope::Cluster))),
    ));
    assert_eq!(
        scheduler.reschedule(&plan).unwrap_err(),
        ScheduleError::ConflictingDispatchError
    );
}

#[test]
fn expansive_stage_fans_out_from_local_node() {
    let scheduler = create_env();
    let scheduled_tasks = scheduler
        .reschedule(&stage(StageKind::Expansive, block_number(), empty(Scope::Local)))
        .unwrap();
    assert!(scheduled_tasks.tasks().is_empty());
    assert_eq!(scheduled_tasks.local_actions.len(), 1);
    let action = shuffle(&scheduled_tasks.local_actions[0]);
    assert_eq!(action.sinks, names(&["dummy_local", "dummy"]));
    assert_eq!(action.plan, empty(Scope::Local));
    assert_eq!(scheduled_tasks.local_task(), &remote("dummy_local", &["dummy_local"]));
}

#[test]
fn normal_stage_shuffles_among_sources() {
    let scheduler = create_env();
    let scheduled_tasks = scheduler
        .reschedule(&stage(StageKind::Normal, literal(3), empty(Scope::Cluster)))
        .unwrap();
    let tasks = scheduled_tasks.tasks();
    assert_eq!(tasks.len(), 1);
    assert_eq!(tasks[0].node, "dummy");
    assert_eq!(shuffle(&tasks[0].action).sinks, names(&["dummy_local", "dummy"]));
    assert_eq!(
        shuffle(&scheduled_tasks.local_actions[0]).sinks,
        names(&["dummy_local", "dummy"])
    );
    assert_eq!(scheduled_tasks.local_task(), &remote("dummy_local", &["dummy_local", "dummy"]));
}

#[test]
fn sinks_follow_topology_order() {
    let scheduler = PlanScheduler::create(names(&["c", "a", "b"]), "a".to_string());
    let scheduled_tasks = scheduler
        .reschedule(&stage(StageKind::Normal, literal(0), empty(Scope::Cluster)))
        .unwrap();
    let nodes: Vec<&str> = scheduled_tasks.tasks().iter().map(|t: &Task| t.node.as_str()).collect();
    assert_eq!(nodes, vec!["c", "b"]);
    assert_eq!(shuffle(&scheduled_tasks.tasks()[0].action).sinks, names(&["c", "a", "b"]));
    assert_eq!(scheduled_tasks.local_task(), &remote("a", &["c", "a", "b"]));
}

#[test]
fn scatter_expression_is_copied_into_every_action() {
    let expr = || Expression::Function {
        op: "hash".to_string(),
        args: vec![Expression::Column("id".to_string()), Expression::Literal(7)],
    };
    let scheduler = create_env();
    let scheduled_tasks = scheduler
        .reschedule(&stage(StageKind::Convergent, expr(), select(empty(Scope::Cluster))))
        .unwrap();
    assert_eq!(shuffle(&scheduled_tasks.local_actions[0]).scatter_expr, expr());
    assert_eq!(shuffle(&scheduled_tasks.tasks()[0].action).scatter_expr, expr());
    assert_eq!(shuffle(&scheduled_tasks.tasks()[0].action).plan, select(empty(Scope::Cluster)));
}

#[test]
fn rescheduling_is_deterministic() {
    let scheduler = create_env();
    let plan = select(stage(
        StageKind::Convergent,
        literal(0),
        select(stage(StageKind::Expansive, block_number(), empty(Scope::Local))),
    ));
    let first = scheduler.reschedule(&plan).unwrap();
    let second = scheduler.reschedule(&plan).unwrap();
    assert_eq!(first, second);
}

#[test]
fn empty_topology_fails_every_stage() {
    let scheduler = PlanScheduler::create(vec![], "dummy_local".to_string());
    for kind in [StageKind::Normal, StageKind::Expansive, StageKind::Convergent] {
        assert_eq!(
            scheduler.reschedule(&stage(kind, literal(0), empty(Scope::Cluster))).unwrap_err(),
            ScheduleError::TopologyError
        );
    }
    // a plan without a stage needs no topology
    let scheduled_tasks = scheduler.reschedule(&select(empty(Scope::Local))).unwrap();
    assert!(scheduled_tasks.tasks().is_empty());
    assert_eq!(scheduled_tasks.local_task(), &select(empty(Scope::Local)));
}

#[test]
fn local_node_missing_from_topology() {
    let scheduler = PlanScheduler::create(names(&["a", "b"]), "c".to_string());
    assert_eq!(
        scheduler.reschedule(&stage(StageKind::Normal, literal(0), empty(Scope::Local))).unwrap_err(),
        ScheduleError::TopologyError
    );
}

#[test]
fn repeated_node_in_topology() {
    let scheduler = PlanScheduler::create(names(&["a", "b", "a"]), "a".to_string());
    assert_eq!(
        scheduler.reschedule(&stage(StageKind::Convergent, literal(0), empty(Scope::Cluster))).unwrap_err(),
        ScheduleError::TopologyError
    );
}

#[test]
fn stage_over_remote_leaf_is_unresolvable() {
    let scheduler = create_env();
    let plan = stage(StageKind::Convergent, literal(0), select(remote("dummy", &["dummy"])));
    assert_eq!(
        scheduler.reschedule(&plan).unwrap_err(),
        ScheduleError::UnresolvableLocalityError
    );
}

#[test]
fn plan_without_stage_is_kept_as_is() {
    let scheduler = create_env();
    let plan = select(select(remote("dummy", &["dummy_local", "dummy"])));
    let scheduled_tasks = scheduler.reschedule(&plan).unwrap();
    assert!(scheduled_tasks.tasks().is_empty());
    assert!(scheduled_tasks.local_actions.is_empty());
    assert_eq!(scheduled_tasks.local_task(), &plan);
}

#[test]
fn has_stage_looks_through_computations() {
    assert!(PlanScheduler::has_stage(&select(stage(StageKind::Normal, literal(0), empty(Scope::Local)))));
    assert!(!PlanScheduler::has_stage(&select(empty(Scope::Cluster))));
}

#[test]
fn duplicates_are_equal() {
    let plan = select(stage(StageKind::Expansive, block_number(), remote("x", &["y", "z"])));
    assert_eq!(plan.duplicate(), plan);
}
