use quasar::automation::{ExecutionStatus, Workflow, WorkflowError};
use quasar::workflow_store::AutomationState;

#[test]
fn automation_test_automation_state() {
    let mut state = AutomationState::new();

    let workflow = Workflow::new("Test Workflow".to_string());
    let id = state.create_workflow(workflow);

    let retrieved = state.get_workflow(&id);
    assert!(retrieved.is_some());

    let workflows = state.list_workflows();
    assert_eq!(workflows.len(), 1);

    let exec_id = state.create_execution(&id);
    let execution = state.get_execution(&exec_id);
    assert!(execution.is_some());
    assert!(matches!(execution.unwrap().status, ExecutionStatus::Pending));
}

#[test]
fn updating_an_unknown_workflow_is_refused() {
    let mut state = AutomationState::new();
    let w = Workflow::new("w".to_string());
    let wid = w.id.clone();
    assert!(matches!(state.update_workflow(w), Err(WorkflowError::NodeNotFound(id)) if id == wid));
    let w = Workflow::new("w".to_string());
    let id = state.create_workflow(w);
    let mut again = Workflow::new("renamed".to_string());
    again.id = id.clone();
    assert!(state.update_workflow(again).is_ok());
    assert_eq!(state.get_workflow(&id).unwrap().name, "renamed");
    assert!(state.delete_workflow(&id));
    assert!(!state.delete_workflow(&id));
    assert!(state.list_workflows().is_empty());
}

#[test]
fn executions_are_listed_by_workflow() {
    let mut state = AutomationState::new();
    let a = state.create_execution("wf-a");
    let _b = state.create_execution("wf-b");
    let _c = state.create_execution("wf-a");
    assert_eq!(state.list_executions(None).len(), 3);
    let only_a = state.list_executions(Some("wf-a"));
    assert_eq!(only_a.len(), 2);
    assert!(only_a.iter().all(|e| e.workflow_id == "wf-a"));
    assert_eq!(state.list_executions(Some("wf-z")).len(), 0);
    let rec = state.get_execution(&a).unwrap();
    assert_eq!(rec.workflow_id, "wf-a");
    assert!(rec.completed_at.is_none() && rec.error_message.is_none());
}
