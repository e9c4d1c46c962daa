use ergo_tasks::dataflow::dag::{toposort_nodes, DataFlowConfig, NodeWalker};
use ergo_tasks::dataflow::node::{DataFlowNode, DataFlowNodeFunction, DataFlowText, TextRenderAs};
use ergo_tasks::dataflow::DataFlowEdge;
use ergo_tasks::error::Error;

fn blank_node() -> DataFlowNode {
    DataFlowNode {
        name: "test_node".to_string(),
        allow_null_inputs: true,
        func: DataFlowNodeFunction::Text(DataFlowText { body: String::new(), render_as: TextRenderAs::PlainText }),
    }
}

fn test_edge(from: u32, to: u32) -> DataFlowEdge {
    DataFlowEdge { from, to }
}

fn sorted_ok(r: Result<Vec<u32>, Error>) -> Vec<u32> {
    match r {
        Ok(v) => v,
        Err(_) => panic!("toposort failed"),
    }
}

#[test]
fn empty() {
    let sorted = sorted_ok(toposort_nodes(0, &vec![]));
    assert_eq!(sorted, Vec::<u32>::new());
}

#[test]
fn working() {
    let edges = vec![
        test_edge(0, 1),
        test_edge(0, 2),
        test_edge(0, 3),
        test_edge(2, 1),
        test_edge(2, 4),
        test_edge(3, 1),
        test_edge(3, 2),
        test_edge(3, 4),
        test_edge(6, 2),
    ];
    let sorted = sorted_ok(toposort_nodes(7, &edges));
    let positions = (0..7u32)
        .map(|i| sorted.iter().position(|&n| n == i).expect("Finding position for node {i}"))
        .collect::<Vec<_>>();
    for edge in &edges {
        assert!(
            positions[edge.from as usize] < positions[edge.to as usize],
            "Edge {} comes before its child {}",
            edge.from,
            edge.to
        );
    }
}

#[test]
fn errors_on_cycle() {
    let edges = vec![
        test_edge(0, 1),
        test_edge(1, 2),
        test_edge(1, 4),
        test_edge(2, 3),
        test_edge(2, 4),
        test_edge(3, 1),
        test_edge(3, 4),
        test_edge(4, 5),
    ];
    let sort_result = toposort_nodes(6, &edges);
    assert!(matches!(sort_result, Err(Error::DataflowCycle(_))));
}

#[test]
fn errors_on_self_cycle() {
    let edges = vec![
        test_edge(0, 1),
        test_edge(1, 2),
        test_edge(1, 4),
        test_edge(2, 3),
        test_edge(3, 3),
        test_edge(3, 4),
    ];
    let sort_result = toposort_nodes(5, &edges);
    assert!(matches!(sort_result, Err(Error::DataflowCycle(3))));
}

#[test]
fn to_edge_bounds_error() {
    let edges = vec![test_edge(0, 1), test_edge(1, 2), test_edge(1, 3)];
    let sort_result = toposort_nodes(3, &edges);
    assert!(matches!(sort_result, Err(Error::BadEdgeIndex(1, 3))));
}

#[test]
fn from_edge_bounds_error() {
    let edges = vec![test_edge(0, 1), test_edge(1, 2), test_edge(3, 2)];
    let sort_result = toposort_nodes(3, &edges);
    assert!(matches!(sort_result, Err(Error::BadEdgeIndex(3, 2))));
}

fn make_config() -> DataFlowConfig {
    let edges = vec![
        test_edge(0, 1),
        test_edge(0, 2),
        test_edge(0, 3),
        test_edge(2, 1),
        test_edge(2, 4),
        test_edge(3, 1),
        test_edge(3, 2),
        test_edge(3, 4),
        test_edge(6, 2),
    ];
    let toposorted = sorted_ok(toposort_nodes(7, &edges));
    DataFlowConfig {
        nodes: (0..7).map(|_| blank_node()).collect(),
        edges,
        compiled: String::new(),
        map: None,
        toposorted,
    }
}

fn walk(config: &DataFlowConfig, start: u32) -> Vec<usize> {
    let mut walker = match NodeWalker::starting_from(config, start) {
        Ok(w) => w,
        Err(_) => panic!("Creating walker"),
    };
    let mut chain = Vec::new();
    while let Some(n) = walker.next() {
        chain.push(n);
    }
    println!("Full chain: {:?}", chain);
    chain
}

fn check_order(config: &DataFlowConfig, chain: &[usize]) -> Vec<u32> {
    let mut seen: Vec<u32> = Vec::new();
    for &node in chain {
        let after = config.toposorted.iter().skip_while(|&&n| n != node as u32);
        for &n in after {
            assert!(!seen.contains(&n), "Node {} was seen before node {}", n, node);
        }
        seen.push(node as u32);
    }
    seen
}

#[test]
fn from_root() {
    let config = make_config();
    let chain = walk(&config, 0);
    let seen = check_order(&config, &chain);
    for i in 0..5u32 {
        assert!(seen.contains(&i), "should see {i}");
    }
    assert!(!seen.contains(&6), "should not see 6");
}

#[test]
fn from_alternate_root() {
    let config = make_config();
    let chain = walk(&config, 6);
    let seen = check_order(&config, &chain);
    assert!(seen.contains(&6), "should see 6");
    assert!(seen.contains(&2), "should see 2");
    assert!(seen.contains(&4), "should see 4");
    assert!(seen.contains(&1), "should see 1");
    assert!(!seen.contains(&0), "should not see 0");
    assert!(!seen.contains(&3), "should not see 3");
}

#[test]
fn from_middle() {
    let config = make_config();
    let chain = walk(&config, 2);
    let seen = check_order(&config, &chain);
    assert!(seen.contains(&2), "should see 2");
    assert!(seen.contains(&4), "should see 4");
    assert!(seen.contains(&1), "should see 1");
    assert!(!seen.contains(&0), "should not see 0");
    assert!(!seen.contains(&3), "should not see 3");
    assert!(!seen.contains(&6), "should not see 6");
}

#[test]
fn from_leaf() {
    let config = make_config();
    let chain = walk(&config, 4);
    assert_eq!(chain, vec![4]);
}

#[test]
fn from_past_end() {
    let config = make_config();
    assert!(NodeWalker::starting_from(&config, 7).is_err(), "Should see error");
}

#[test]
fn rest_runs_the_whole_walk() {
    let config = make_config();
    let mut walker = match NodeWalker::starting_from(&config, 6) {
        Ok(w) => w,
        Err(_) => panic!("walker"),
    };
    let rest = walker.rest();
    let chain: Vec<usize> = rest.iter().map(|&x| x as usize).collect();
    assert_eq!(chain, walk(&config, 6));
    let mut sorted = rest.clone();
    sorted.sort();
    assert_eq!(sorted, vec![1, 2, 4, 6]);
    assert_eq!(walker.next(), None);
}
