use serverless_sim::fn_dag::FnContainer;
use serverless_sim::mechanism::SimEnvObserve;
use serverless_sim::node::Node;

#[test]
fn container_reports_idle() {
    let c = FnContainer::new(4, true);
    assert_eq!(c, FnContainer { fn_id: 4, idle: true });
    assert!(c.is_idle());
    assert!(!FnContainer::new(4, false).is_idle());
}

#[test]
fn node_keeps_containers_in_order() {
    let cs = vec![FnContainer::new(3, true), FnContainer::new(1, false), FnContainer::new(2, true)];
    let node = Node::new(9, cs.clone()).unwrap();
    assert_eq!(node.node_id(), 9);
    assert_eq!(node.fn_containers(), &cs);
    let empty = Node::new(0, vec![]).unwrap();
    assert!(empty.fn_containers().is_empty());
}

#[test]
fn node_hosts_one_container_per_function() {
    assert!(Node::new(0, vec![FnContainer::new(1, true), FnContainer::new(1, false)]).is_none());
    assert!(Node::new(
        0,
        vec![FnContainer::new(1, true), FnContainer::new(2, true), FnContainer::new(1, true)]
    )
    .is_none());
    assert!(Node::new(0, vec![FnContainer::new(1, true), FnContainer::new(2, true)]).is_some());
}

#[test]
fn snapshot_keeps_nodes_in_order() {
    let env = SimEnvObserve::new(vec![
        Node::new(2, vec![]).unwrap(),
        Node::new(0, vec![FnContainer::new(1, true)]).unwrap(),
    ])
    .unwrap();
    let ids: Vec<usize> = env.nodes().iter().map(|n| n.node_id()).collect();
    assert_eq!(ids, vec![2, 0]);
    assert!(SimEnvObserve::new(vec![]).unwrap().nodes().is_empty());
}

#[test]
fn snapshot_has_one_node_per_identifier() {
    assert!(SimEnvObserve::new(vec![Node::new(1, vec![]).unwrap(), Node::new(1, vec![]).unwrap()])
        .is_none());
    assert!(SimEnvObserve::new(vec![
        Node::new(1, vec![]).unwrap(),
        Node::new(2, vec![]).unwrap(),
        Node::new(1, vec![FnContainer::new(1, true)]).unwrap(),
    ])
    .is_none());
    assert!(SimEnvObserve::new(vec![
        Node::new(1, vec![FnContainer::new(1, true)]).unwrap(),
        Node::new(2, vec![FnContainer::new(1, true)]).unwrap(),
    ])
    .is_some());
}
