use quasar::automation::{
    ActionType, Connection, ConnectionType, Node, NodeConfig, NodeType, NotificationChannel,
    Position, TriggerType, Workflow, WorkflowError,
};
use quasar::engine::{next_nodes, RunStep, WorkflowRun};
use quasar::automation::ExecutionStatus;
use quasar::graph::DirectedGraph;
use quasar::automation::NodeResult;

fn pos(x: f64, y: f64) -> Position {
    Position { x_bits: x.to_bits(), y_bits: y.to_bits() }
}

fn node(id: &str, node_type: NodeType, name: &str, x: f64, config: NodeConfig) -> Node {
    Node {
        id: id.to_string(),
        node_type,
        name: name.to_string(),
        type_version: 1,
        position: pos(x, 0.0),
        config,
        disabled: None,
        notes: None,
        notes_in_flow: None,
        on_error: None,
        continue_on_fail: None,
        retry_on_fail: None,
        max_tries: None,
        wait_between_tries: None,
        credentials: None,
        parameters: None,
        always_output_data: None,
    }
}

fn notification() -> NodeConfig {
    NodeConfig::Action {
        action_type: ActionType::Notification {
            title: "Test".to_string(),
            message: "Test".to_string(),
            channel: NotificationChannel::InApp,
        },
    }
}

fn link(id: &str, from: &str, to: &str) -> Connection {
    Connection {
        id: id.to_string(),
        source_node: from.to_string(),
        source_port: "output".to_string(),
        source_index: 0,
        target_node: to.to_string(),
        target_port: "input".to_string(),
        target_index: 0,
        connection_type: ConnectionType::Main,
    }
}

/// trigger -> action1 -> action2
fn create_graph_workflow() -> Workflow {
    let mut workflow = Workflow::new("Test Graph Workflow".to_string());
    let trigger = NodeConfig::Trigger { trigger_type: TriggerType::Manual };
    workflow.nodes.push(node("trigger", NodeType::Trigger, "Trigger", 0.0, trigger));
    workflow.nodes.push(node("action1", NodeType::Action, "Action 1", 100.0, notification()));
    workflow.nodes.push(node("action2", NodeType::Action, "Action 2", 200.0, notification()));
    workflow.connections.push(link("conn1", "trigger", "action1"));
    workflow.connections.push(link("conn2", "action1", "action2"));
    workflow
}

/// trigger_1 -> action_1 (an SSH command)
fn create_test_workflow() -> Workflow {
    let mut workflow = Workflow::new("Test Workflow".to_string());
    let trigger = NodeConfig::Trigger { trigger_type: TriggerType::Manual };
    workflow.nodes.push(node("trigger_1", NodeType::Trigger, "Manual Trigger", 100.0, trigger));
    let ssh = NodeConfig::Action {
        action_type: ActionType::SshCommand {
            host: "192.168.1.1".to_string(),
            port: 22,
            username: "admin".to_string(),
            password: None,
            command: "uptime".to_string(),
        },
    };
    workflow.nodes.push(node("action_1", NodeType::Action, "SSH Command", 300.0, ssh));
    workflow.connections.push(link("conn_1", "trigger_1", "action_1"));
    workflow
}

#[test]
fn test_graph_construction() {
    let workflow = create_graph_workflow();
    let graph = DirectedGraph::from_workflow(&workflow);

    assert_eq!(graph.node_count(), 3);
    assert_eq!(graph.edge_count(), 2);
    assert!(graph.has_node("trigger"));
    assert!(graph.has_node("action1"));
    assert!(graph.has_node("action2"));
}

#[test]
fn test_successors_predecessors() {
    let workflow = create_graph_workflow();
    let graph = DirectedGraph::from_workflow(&workflow);

    assert_eq!(graph.get_successors("trigger"), &["action1"]);
    assert_eq!(graph.get_successors("action1"), &["action2"]);
    assert_eq!(graph.get_successors("action2").len(), 0);

    assert_eq!(graph.get_predecessors("trigger").len(), 0);
    assert_eq!(graph.get_predecessors("action1"), &["trigger"]);
    assert_eq!(graph.get_predecessors("action2"), &["action1"]);
}

#[test]
fn test_no_cycle() {
    let workflow = create_graph_workflow();
    let graph = DirectedGraph::from_workflow(&workflow);

    assert!(!graph.has_cycle());
}

#[test]
fn graph_test_topological_sort() {
    let workflow = create_graph_workflow();
    let graph = DirectedGraph::from_workflow(&workflow);

    let order = graph.topological_sort().unwrap();
    assert_eq!(order.len(), 3);

    // Trigger should come before action1
    let trigger_pos = order.iter().position(|n| n == "trigger").unwrap();
    let action1_pos = order.iter().position(|n| n == "action1").unwrap();
    let action2_pos = order.iter().position(|n| n == "action2").unwrap();

    assert!(trigger_pos < action1_pos);
    assert!(action1_pos < action2_pos);
}

#[test]
fn test_ancestors() {
    let workflow = create_graph_workflow();
    let graph = DirectedGraph::from_workflow(&workflow);

    let ancestors = graph.get_ancestors("action2");
    assert_eq!(ancestors.len(), 2);
    assert!(ancestors.iter().any(|a| a == "trigger"));
    assert!(ancestors.iter().any(|a| a == "action1"));
}

#[test]
fn test_execution_subgraph() {
    let workflow = create_graph_workflow();
    let graph = DirectedGraph::from_workflow(&workflow);

    let subgraph = graph.get_execution_subgraph("action2");
    assert_eq!(subgraph.len(), 3);
    assert!(subgraph.iter().any(|a| a == "trigger"));
    assert!(subgraph.iter().any(|a| a == "action1"));
    assert!(subgraph.iter().any(|a| a == "action2"));
}

#[test]
fn a_cycle_is_found_and_refused() {
    let mut workflow = create_graph_workflow();
    workflow.connections.push(link("back", "action2", "trigger"));
    let graph = DirectedGraph::from_workflow(&workflow);
    assert!(graph.has_cycle());
    assert!(matches!(graph.topological_sort(), Err(WorkflowError::CircularDependency)));
    assert!(matches!(workflow.validate_no_cycles(), Err(WorkflowError::CircularDependency)));
    assert!(matches!(workflow.topological_sort(), Err(WorkflowError::CircularDependency)));
}

#[test]
fn descendants_follow_the_edges() {
    let workflow = create_graph_workflow();
    let graph = DirectedGraph::from_workflow(&workflow);
    let d = graph.get_descendants("trigger");
    assert_eq!(d.len(), 2);
    assert!(graph.get_descendants("action2").is_empty());
    assert_eq!(workflow.get_execution_order().unwrap().len(), 3);
}

#[test]
fn automation_test_workflow_creation() {
    let workflow = Workflow::new("My Workflow".to_string());
    assert_eq!(workflow.name, "My Workflow");
    assert!(workflow.find_trigger_node().is_none());
}

#[test]
fn automation_test_find_trigger_node() {
    let workflow = create_test_workflow();
    let trigger = workflow.find_trigger_node();
    assert!(trigger.is_some());
    assert_eq!(trigger.unwrap().id, "trigger_1");
}

#[test]
fn automation_test_topological_sort() {
    let workflow = create_test_workflow();
    let sorted = workflow.topological_sort().unwrap();
    assert_eq!(sorted.len(), 2);
    assert_eq!(sorted[0].id, "action_1"); // Action comes first in reverse topological order
    assert_eq!(sorted[1].id, "trigger_1");
}

#[test]
fn automation_test_get_connections() {
    let workflow = create_test_workflow();
    let outgoing = workflow.get_outgoing_connections("trigger_1");
    assert_eq!(outgoing.len(), 1);
    assert_eq!(outgoing[0].target_node, "action_1");

    let incoming = workflow.get_incoming_connections("action_1");
    assert_eq!(incoming.len(), 1);
    assert_eq!(incoming[0].source_node, "trigger_1");
}

#[test]
fn a_workflow_without_a_trigger_has_no_order() {
    let mut workflow = Workflow::new("no trigger".to_string());
    workflow.nodes.push(node("a", NodeType::Action, "A", 0.0, notification()));
    assert!(matches!(workflow.topological_sort(), Err(WorkflowError::NoTriggerNode)));
    assert_eq!(WorkflowError::NoTriggerNode.to_string(), "No trigger node found in workflow");
}

#[test]
fn tags_are_kept_once() {
    let mut workflow = Workflow::new("tags".to_string());
    workflow.add_tag("prod".to_string());
    workflow.add_tag("prod".to_string());
    assert_eq!(workflow.tags.len(), 1);
    assert!(workflow.has_tag("prod"));
    workflow.remove_tag("prod");
    assert!(!workflow.has_tag("prod"));
}

#[test]
fn static_and_pinned_data_round_trip() {
    let mut workflow = Workflow::new("data".to_string());
    workflow.set_static_data("k", "\"v\"".to_string());
    assert_eq!(workflow.get_static_data("k"), Some(&"\"v\"".to_string()));
    workflow.clear_static_data();
    assert_eq!(workflow.get_static_data("k"), None);
    workflow.pin_node_data("n", vec!["1".to_string()]);
    assert_eq!(workflow.get_pinned_data("n").map(|v| v.len()), Some(1));
    workflow.unpin_node_data("n");
    assert!(workflow.get_pinned_data("n").is_none());
}

#[test]
fn a_run_follows_the_connections_and_the_chosen_branch() {
    let workflow = create_graph_workflow();
    let ok = NodeResult::Success { output: None };
    assert_eq!(next_nodes(&workflow, &workflow.nodes[0], &ok), vec!["action1".to_string()]);
    assert!(next_nodes(&workflow, &workflow.nodes[2], &ok).is_empty());
    let failed = NodeResult::Failure { error: "x".to_string() };
    assert!(next_nodes(&workflow, &workflow.nodes[0], &failed).is_empty());

    let mut wf = Workflow::new("branches".to_string());
    let cond = NodeConfig::Condition {
        expression: "${x}".to_string(),
        true_branch: "yes".to_string(),
        false_branch: "no".to_string(),
    };
    wf.nodes.push(node("c", NodeType::Condition, "C", 0.0, cond));
    wf.connections.push(link("1", "c", "yes"));
    wf.connections.push(link("2", "c", "no"));
    let t = NodeResult::Success { output: Some("true".to_string()) };
    let f = NodeResult::Success { output: Some("false".to_string()) };
    assert_eq!(next_nodes(&wf, &wf.nodes[0], &t), vec!["yes".to_string()]);
    assert_eq!(next_nodes(&wf, &wf.nodes[0], &f), vec!["no".to_string()]);
    wf.connections.pop();
    assert!(next_nodes(&wf, &wf.nodes[0], &f).is_empty());
}

#[test]
fn every_node_comes_after_all_nodes_it_leads_to() {
    // trigger -> ghost (no such node) -> action2, and trigger -> action1 -> action2.
    let mut workflow = create_graph_workflow();
    workflow.connections.push(link("c3", "trigger", "ghost"));
    workflow.connections.push(link("c4", "ghost", "action2"));
    let order: Vec<String> = workflow.topological_sort().unwrap().iter().map(|n| n.id.clone()).collect();
    assert_eq!(order.len(), 3);
    let pos = |id: &str| order.iter().position(|x| x == id).unwrap();
    assert!(pos("action2") < pos("action1"));
    assert!(pos("action1") < pos("trigger"));
    assert_eq!(order.last().unwrap(), "trigger");
}

/// Drives a run, answering each node with `answer`; returns the outcome and the order
/// in which nodes ran.
fn drive(workflow: &Workflow, answer: &dyn Fn(&Node) -> NodeResult) -> (Result<ExecutionStatus, WorkflowError>, Vec<String>) {
    let mut run = match WorkflowRun::start(workflow) {
        Ok(r) => r,
        Err(e) => return (Err(e), vec![]),
    };
    let mut order = Vec::new();
    loop {
        match run.next_step(workflow) {
            RunStep::Execute(node) => {
                order.push(node.id.clone());
                let result = answer(node);
                run.finish_node(workflow, node, &result);
            }
            RunStep::Done(outcome) => return (outcome, order),
        }
    }
}

#[test]
fn a_run_goes_depth_first_from_the_trigger() {
    // trigger -> a -> a2, trigger -> b
    let mut workflow = Workflow::new("run".to_string());
    let trigger = NodeConfig::Trigger { trigger_type: TriggerType::Manual };
    workflow.nodes.push(node("t", NodeType::Trigger, "T", 0.0, trigger));
    workflow.nodes.push(node("a", NodeType::Action, "A", 0.0, notification()));
    workflow.nodes.push(node("a2", NodeType::Action, "A2", 0.0, notification()));
    workflow.nodes.push(node("b", NodeType::Action, "B", 0.0, notification()));
    workflow.connections.push(link("1", "t", "a"));
    workflow.connections.push(link("2", "t", "b"));
    workflow.connections.push(link("3", "a", "a2"));
    let ok = |_: &Node| NodeResult::Success { output: None };
    let (outcome, order) = drive(&workflow, &ok);
    assert!(matches!(outcome, Ok(ExecutionStatus::Completed)));
    assert_eq!(order, vec!["t", "a", "a2", "b"]);

    // A failure below the trigger stops its own branch only; the run still completes.
    let fail_a = |n: &Node| if n.id == "a" { NodeResult::Failure { error: "x".to_string() } } else { NodeResult::Success { output: None } };
    let (outcome, order) = drive(&workflow, &fail_a);
    assert!(matches!(outcome, Ok(ExecutionStatus::Completed)));
    assert_eq!(order, vec!["t", "a", "b"]);

    // The trigger's own failure fails the run.
    let fail_t = |n: &Node| if n.id == "t" { NodeResult::Failure { error: "x".to_string() } } else { NodeResult::Success { output: None } };
    let (outcome, order) = drive(&workflow, &fail_t);
    assert!(matches!(outcome, Ok(ExecutionStatus::Failed)));
    assert_eq!(order, vec!["t"]);

    // A connection to a missing node ends the run with an error.
    workflow.connections.push(link("4", "b", "nowhere"));
    let (outcome, _) = drive(&workflow, &ok);
    assert!(matches!(outcome, Err(WorkflowError::NodeNotFound(id)) if id == "nowhere"));
    assert!(matches!(drive(&Workflow::new("empty".to_string()), &ok).0, Err(WorkflowError::NoTriggerNode)));
}
