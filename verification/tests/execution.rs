use query_plan::ast::{Document, OperationDefinition, SelectionSet, SubgraphFetchOperation};
use query_plan::dag::DagScheduler;
use query_plan::execution::{Execution, Step};
use query_plan::plan_nodes::{
    ConditionNode, DeferNode, DeferPrimary, FetchNode, FlattenNode, FlattenNodePath, ParallelNode,
    PlanNode, SequenceNode, SubscriptionNode,
};

fn fetch(id: i64) -> PlanNode {
    PlanNode::Fetch(FetchNode {
        id,
        service_name: format!("service_{}", id),
        variable_usages: None,
        operation_kind: None,
        operation_name: None,
        operation: SubgraphFetchOperation {
            document: Document {
                operation: OperationDefinition {
                    name: None,
                    operation_kind: None,
                    selection_set: SelectionSet { items: vec![] },
                    variable_definitions: None,
                },
                fragments: vec![],
            },
            document_str: "{ a }".to_string(),
            hash: 0,
        },
        requires: None,
        input_rewrites: None,
        output_rewrites: None,
        depends_on: None,
    })
}

fn sequence(nodes: Vec<PlanNode>) -> PlanNode {
    PlanNode::Sequence(SequenceNode { nodes })
}

fn parallel(nodes: Vec<PlanNode>) -> PlanNode {
    PlanNode::Parallel(ParallelNode { nodes })
}

fn subscription() -> PlanNode {
    PlanNode::Subscription(SubscriptionNode { primary: Box::new(fetch(100)) })
}

fn defer() -> PlanNode {
    PlanNode::Defer(DeferNode {
        primary: DeferPrimary { subselection: None, node: None },
        deferred: vec![],
    })
}

fn condition() -> PlanNode {
    PlanNode::Condition(ConditionNode {
        condition: "flag".to_string(),
        if_clause: Some(Box::new(fetch(200))),
        else_clause: None,
    })
}

fn fetch_id(execution: &Execution, id: usize) -> i64 {
    match execution.plan_node(id) {
        PlanNode::Fetch(fetch) => fetch.id,
        other => panic!("unexpected {:?}", other),
    }
}

/// Prepares all nodes that can be, each with work, and gives their fetches with their jobs.
fn launch(execution: &mut Execution) -> Vec<(i64, usize)> {
    let mut launched = Vec::new();
    loop {
        match execution.next() {
            Step::Prepare(id) => {
                let fetch = fetch_id(execution, id);
                launched.push((fetch, execution.prepared(true).unwrap()));
            }
            Step::Await => return launched,
        }
    }
}

fn fetches(launched: &[(i64, usize)]) -> Vec<i64> {
    launched.iter().map(|(fetch, _)| *fetch).collect()
}

/// Runs a plan whose nodes all have work, one job at a time, and gives the fetches in the order in
/// which they were launched.
fn run(root: &PlanNode) -> Vec<i64> {
    let mut execution = Execution::new(root);
    let mut jobs = launch(&mut execution);
    let mut order = fetches(&jobs);
    while !jobs.is_empty() {
        let (_, job) = jobs.remove(0);
        execution.job_done(job);
        let more = launch(&mut execution);
        order.extend(fetches(&more));
        jobs.extend(more);
    }
    order
}

fn ready(scheduler: &mut DagScheduler) -> Vec<usize> {
    let mut ids = Vec::new();
    while let Some(id) = scheduler.next_ready() {
        ids.push(id);
    }
    ids
}

#[test]
fn nodes_side_by_side_are_launched_together() {
    let plan = parallel(vec![fetch(1), fetch(2)]);
    let mut execution = Execution::new(&plan);
    let jobs = launch(&mut execution);
    assert_eq!(fetches(&jobs), vec![1, 2]);
    // the job of the first one comes back while the other one is running
    execution.job_done(jobs[0].1);
    assert_eq!(execution.next(), Step::Await);
    execution.job_done(jobs[1].1);
    assert_eq!(execution.next(), Step::Await);
}

#[test]
fn a_sequence_is_launched_one_by_one() {
    let plan = sequence(vec![fetch(1), fetch(2)]);
    let mut execution = Execution::new(&plan);
    let first = launch(&mut execution);
    assert_eq!(fetches(&first), vec![1]);
    execution.job_done(first[0].1);
    let second = launch(&mut execution);
    assert_eq!(fetches(&second), vec![2]);
    execution.job_done(second[0].1);
    assert_eq!(execution.next(), Step::Await);
}

#[test]
fn groups_in_a_sequence_wait_for_what_stands_before_them() {
    let plan = sequence(vec![fetch(1), parallel(vec![fetch(2), fetch(3)])]);
    let mut execution = Execution::new(&plan);
    let first = launch(&mut execution);
    assert_eq!(fetches(&first), vec![1]);
    execution.job_done(first[0].1);
    assert_eq!(fetches(&launch(&mut execution)), vec![2, 3]);
}

#[test]
fn after_a_group_all_of_it_is_waited_for() {
    for first_back in [0, 1] {
        let plan = sequence(vec![parallel(vec![fetch(1), fetch(2)]), fetch(3)]);
        let mut execution = Execution::new(&plan);
        let jobs = launch(&mut execution);
        assert_eq!(fetches(&jobs), vec![1, 2]);
        execution.job_done(jobs[first_back].1);
        assert_eq!(execution.next(), Step::Await);
        execution.job_done(jobs[1 - first_back].1);
        assert_eq!(fetches(&launch(&mut execution)), vec![3]);
    }
}

#[test]
fn every_fetch_of_a_plan_is_launched_once() {
    let plan = sequence(vec![
        parallel(vec![sequence(vec![fetch(1), fetch(2)]), fetch(3)]),
        fetch(4),
        parallel(vec![fetch(5), sequence(vec![fetch(6), fetch(7)])]),
    ]);
    let mut order = run(&plan);
    assert_eq!(order, vec![1, 3, 2, 4, 5, 6, 7]);
    order.sort();
    assert_eq!(order, vec![1, 2, 3, 4, 5, 6, 7]);
}

#[test]
fn a_node_without_work_at_the_start_does_not_hold_up_others() {
    let plan = sequence(vec![fetch(1), fetch(2), fetch(3)]);
    let mut execution = Execution::new(&plan);
    assert_eq!(execution.next(), Step::Prepare(0));
    assert_eq!(execution.prepared(false), None);
    assert_eq!(execution.next(), Step::Prepare(1));
    assert_eq!(execution.prepared(false), None);
    assert_eq!(execution.next(), Step::Prepare(2));
    assert_eq!(execution.prepared(false), None);
    assert_eq!(execution.next(), Step::Await);
}

#[test]
fn at_the_start_nodes_behind_one_without_work_come_last() {
    let plan = parallel(vec![sequence(vec![fetch(1), fetch(2)]), fetch(3)]);
    let mut execution = Execution::new(&plan);
    assert_eq!(execution.next(), Step::Prepare(0));
    assert_eq!(execution.prepared(false), None);
    assert_eq!(execution.next(), Step::Prepare(2));
    assert!(execution.prepared(true).is_some());
    assert_eq!(execution.next(), Step::Prepare(1));
    assert!(execution.prepared(true).is_some());
    assert_eq!(execution.next(), Step::Await);
}

#[test]
fn a_node_without_work_after_a_job_is_passed_over() {
    let plan = sequence(vec![fetch(1), fetch(2), fetch(3)]);
    let mut execution = Execution::new(&plan);
    let first = launch(&mut execution);
    execution.job_done(first[0].1);
    assert_eq!(execution.next(), Step::Prepare(1));
    assert_eq!(execution.prepared(false), None);
    assert_eq!(execution.next(), Step::Prepare(2));
    assert!(execution.prepared(true).is_some());
    assert_eq!(execution.next(), Step::Await);
}

#[test]
fn nodes_without_work_in_a_row_are_passed_over() {
    let plan = sequence(vec![fetch(1), fetch(2), fetch(3), fetch(4)]);
    let mut execution = Execution::new(&plan);
    let first = launch(&mut execution);
    execution.job_done(first[0].1);
    assert_eq!(execution.next(), Step::Prepare(1));
    assert_eq!(execution.prepared(false), None);
    assert_eq!(execution.next(), Step::Prepare(2));
    assert_eq!(execution.prepared(false), None);
    assert_eq!(execution.next(), Step::Prepare(3));
    let last = execution.prepared(true).unwrap();
    assert_eq!(execution.next(), Step::Await);
    execution.job_done(last);
    assert_eq!(execution.next(), Step::Await);
}

#[test]
fn nodes_behind_one_without_work_come_before_other_nodes() {
    let plan = sequence(vec![
        fetch(1),
        parallel(vec![sequence(vec![fetch(2), fetch(3)]), fetch(4)]),
    ]);
    let mut execution = Execution::new(&plan);
    let first = launch(&mut execution);
    execution.job_done(first[0].1);
    assert_eq!(execution.next(), Step::Prepare(1));
    assert_eq!(execution.prepared(false), None);
    assert_eq!(execution.next(), Step::Prepare(2));
    assert!(execution.prepared(true).is_some());
    assert_eq!(execution.next(), Step::Prepare(3));
    assert!(execution.prepared(true).is_some());
    assert_eq!(execution.next(), Step::Await);
}

#[test]
fn an_unknown_job_changes_nothing() {
    let plan = sequence(vec![fetch(1), fetch(2)]);
    let mut execution = Execution::new(&plan);
    let first = launch(&mut execution);
    execution.job_done(first[0].1 + 1);
    assert_eq!(execution.next(), Step::Await);
    execution.job_done(first[0].1);
    let second = launch(&mut execution);
    assert_eq!(fetches(&second), vec![2]);
    // a job comes back once only
    execution.job_done(first[0].1);
    assert_eq!(execution.next(), Step::Await);
}

#[test]
fn running_jobs_have_different_ids() {
    let plan = parallel(vec![fetch(1), fetch(2), fetch(3)]);
    let mut execution = Execution::new(&plan);
    let mut jobs: Vec<usize> = launch(&mut execution).iter().map(|(_, job)| *job).collect();
    jobs.sort();
    jobs.dedup();
    assert_eq!(jobs.len(), 3);
}

#[test]
fn a_plan_without_work_is_over_at_once() {
    for plan in [
        sequence(vec![]),
        parallel(vec![]),
        subscription(),
        defer(),
        sequence(vec![parallel(vec![]), subscription()]),
    ] {
        assert_eq!(Execution::new(&plan).next(), Step::Await);
    }
}

#[test]
fn a_condition_is_one_node() {
    let plan = sequence(vec![condition(), fetch(2)]);
    let mut execution = Execution::new(&plan);
    assert_eq!(execution.next(), Step::Prepare(0));
    assert!(matches!(execution.plan_node(0), PlanNode::Condition(_)));
    assert!(execution.prepared(true).is_some());
    assert_eq!(execution.next(), Step::Await);
}

#[test]
fn nodes_that_are_not_scheduled_keep_the_order_of_a_sequence() {
    for between in [subscription(), defer(), sequence(vec![]), parallel(vec![])] {
        let plan = sequence(vec![fetch(1), between, fetch(2)]);
        let mut scheduler = DagScheduler::compile(&plan);
        assert_eq!(ready(&mut scheduler), vec![0]);
        assert_eq!(scheduler.complete_node(0), vec![1]);
    }
}

#[test]
fn an_empty_sequence_side_by_side_creates_no_node() {
    let plan = sequence(vec![
        fetch(1),
        parallel(vec![fetch(2), sequence(vec![])]),
        fetch(3),
    ]);
    let mut scheduler = DagScheduler::compile(&plan);
    assert_eq!(ready(&mut scheduler), vec![0]);
    assert_eq!(scheduler.complete_node(0), vec![1]);
    assert_eq!(scheduler.complete_node(1), vec![2]);
}

#[test]
fn completing_a_node_makes_ready_what_waits_for_it() {
    let plan = sequence(vec![fetch(1), parallel(vec![fetch(2), sequence(vec![fetch(3), fetch(4)])])]);
    let mut scheduler = DagScheduler::compile(&plan);
    assert_eq!(ready(&mut scheduler), vec![0]);
    assert_eq!(scheduler.complete_node(0), vec![1, 2]);
    assert!(scheduler.complete_node(1).is_empty());
    assert_eq!(scheduler.complete_node(2), vec![3]);
    assert!(scheduler.complete_node(3).is_empty());
    assert!(matches!(scheduler.plan_node(3), PlanNode::Fetch(fetch) if fetch.id == 4));
}

#[test]
fn completing_a_node_that_is_not_there_changes_nothing() {
    let plan = sequence(vec![fetch(1), fetch(2)]);
    let mut scheduler = DagScheduler::compile(&plan);
    assert!(scheduler.complete_node(2).is_empty());
    assert_eq!(ready(&mut scheduler), vec![0]);
    assert_eq!(scheduler.complete_node(0), vec![1]);
}

#[test]
fn nodes_queue_up_behind_those_that_are_ready() {
    let plan = parallel(vec![fetch(1), fetch(2), fetch(3)]);
    let mut scheduler = DagScheduler::compile(&plan);
    assert_eq!(scheduler.next_ready(), Some(0));
    scheduler.extend_ready(vec![7, 8]);
    assert_eq!(ready(&mut scheduler), vec![1, 2, 7, 8]);
    assert_eq!(scheduler.next_ready(), None);
}

#[test]
fn nested_sequences_run_in_one_line() {
    let plan = sequence(vec![
        sequence(vec![fetch(1), sequence(vec![]), fetch(2)]),
        fetch(3),
        sequence(vec![subscription(), fetch(4)]),
    ]);
    let mut scheduler = DagScheduler::compile(&plan);
    assert_eq!(ready(&mut scheduler), vec![0]);
    assert_eq!(scheduler.complete_node(0), vec![1]);
    assert_eq!(scheduler.complete_node(1), vec![2]);
    assert_eq!(scheduler.complete_node(2), vec![3]);
    assert!(scheduler.complete_node(3).is_empty());
}

#[test]
fn every_line_of_a_group_in_a_sequence_is_waited_for() {
    let plan = sequence(vec![
        parallel(vec![fetch(1), sequence(vec![fetch(2), fetch(3)])]),
        fetch(4),
    ]);
    let mut scheduler = DagScheduler::compile(&plan);
    assert_eq!(ready(&mut scheduler), vec![0, 1]);
    assert_eq!(scheduler.complete_node(1), vec![2]);
    assert!(scheduler.complete_node(2).is_empty());
    assert_eq!(scheduler.complete_node(0), vec![3]);
}

#[test]
fn a_group_waits_for_all_of_the_group_before_it() {
    let plan = sequence(vec![
        parallel(vec![fetch(1), fetch(2)]),
        parallel(vec![subscription(), sequence(vec![])]),
        parallel(vec![fetch(3), fetch(4)]),
    ]);
    let mut scheduler = DagScheduler::compile(&plan);
    assert_eq!(ready(&mut scheduler), vec![0, 1]);
    assert!(scheduler.complete_node(1).is_empty());
    assert_eq!(scheduler.complete_node(0), vec![2, 3]);
}

fn fetch_after(id: i64, depends_on: Vec<i64>) -> PlanNode {
    match fetch(id) {
        PlanNode::Fetch(mut node) => {
            node.depends_on = Some(depends_on);
            PlanNode::Fetch(node)
        }
        other => other,
    }
}

#[test]
fn explicit_dependencies_are_waited_for() {
    let plan = parallel(vec![fetch(1), fetch_after(2, vec![1])]);
    let mut scheduler = DagScheduler::compile(&plan);
    assert_eq!(ready(&mut scheduler), vec![0]);
    assert_eq!(scheduler.complete_node(0), vec![1]);
}

#[test]
fn all_explicit_dependencies_are_waited_for() {
    let plan = parallel(vec![fetch_after(3, vec![1, 2]), fetch(1), fetch(2)]);
    let mut scheduler = DagScheduler::compile(&plan);
    assert_eq!(ready(&mut scheduler), vec![1, 2]);
    assert!(scheduler.complete_node(2).is_empty());
    assert_eq!(scheduler.complete_node(1), vec![0]);
}

#[test]
fn explicit_dependencies_add_to_the_order_of_a_sequence() {
    let plan = parallel(vec![fetch(1), sequence(vec![fetch(2), fetch_after(3, vec![1, 2])])]);
    let mut scheduler = DagScheduler::compile(&plan);
    assert_eq!(ready(&mut scheduler), vec![0, 1]);
    assert!(scheduler.complete_node(1).is_empty());
    assert_eq!(scheduler.complete_node(0), vec![2]);
}

#[test]
fn explicit_dependencies_reach_through_conditions_and_paths() {
    let flatten = |node: PlanNode| {
        PlanNode::Flatten(FlattenNode { path: FlattenNodePath::new(vec![]), node: Box::new(node) })
    };
    let on = |node: PlanNode| {
        PlanNode::Condition(ConditionNode {
            condition: "flag".to_string(),
            if_clause: None,
            else_clause: Some(Box::new(node)),
        })
    };
    let plan = parallel(vec![
        on(flatten(fetch_after(2, vec![1]))),
        on(flatten(fetch(1))),
        flatten(fetch_after(3, vec![2])),
    ]);
    let mut scheduler = DagScheduler::compile(&plan);
    assert_eq!(ready(&mut scheduler), vec![1]);
    assert_eq!(scheduler.complete_node(1), vec![0]);
    assert_eq!(scheduler.complete_node(0), vec![2]);
}

#[test]
fn unknown_and_own_ids_are_not_waited_for() {
    let plan = parallel(vec![fetch_after(1, vec![9]), fetch_after(2, vec![2])]);
    let mut scheduler = DagScheduler::compile(&plan);
    assert_eq!(ready(&mut scheduler), vec![0, 1]);
}

#[test]
fn every_fetch_with_an_id_is_waited_for() {
    let plan = parallel(vec![fetch(1), fetch(1), fetch_after(2, vec![1])]);
    let mut scheduler = DagScheduler::compile(&plan);
    assert_eq!(ready(&mut scheduler), vec![0, 1]);
    assert!(scheduler.complete_node(0).is_empty());
    assert_eq!(scheduler.complete_node(1), vec![2]);
}

#[test]
fn nodes_in_a_circle_are_never_given_out() {
    let plan = parallel(vec![fetch_after(1, vec![2]), fetch_after(2, vec![1]), fetch(3)]);
    assert_eq!(run(&plan), vec![3]);
    let plan = sequence(vec![fetch_after(1, vec![2]), fetch(2)]);
    assert_eq!(Execution::new(&plan).next(), Step::Await);
}

#[test]
fn a_fetch_starts_when_its_explicit_dependencies_are_done() {
    let plan = parallel(vec![fetch_after(2, vec![1]), fetch(1), fetch(3)]);
    let mut execution = Execution::new(&plan);
    let jobs = launch(&mut execution);
    assert_eq!(fetches(&jobs), vec![1, 3]);
    execution.job_done(jobs[1].1);
    assert_eq!(execution.next(), Step::Await);
    execution.job_done(jobs[0].1);
    assert_eq!(fetches(&launch(&mut execution)), vec![2]);
}

#[test]
fn a_copy_of_a_plan_runs_alike() {
    let plan = sequence(vec![
        fetch(1),
        parallel(vec![fetch(2), sequence(vec![fetch(3), fetch(4)])]),
        fetch(5),
    ]);
    assert_eq!(run(&plan.clone()), run(&plan));
    assert_eq!(run(&plan), vec![1, 2, 3, 4, 5]);
}

#[test]
fn more_nodes_are_listed_behind_those_that_wait_already() {
    let few = sequence(vec![fetch(1), parallel(vec![fetch(2), fetch(3)])]);
    let many = sequence(vec![
        fetch(1),
        parallel(vec![fetch(2), fetch(3), sequence(vec![fetch(4), fetch(5)])]),
    ]);
    assert_eq!(DagScheduler::compile(&few).complete_node(0), vec![1, 2]);
    let mut scheduler = DagScheduler::compile(&many);
    assert_eq!(scheduler.complete_node(0), vec![1, 2, 3]);
    assert!(scheduler.complete_node(1).is_empty());
}
