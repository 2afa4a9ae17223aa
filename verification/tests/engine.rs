use quasar::automation::{ExecutionStatus, NodeResult, TransferDirection};
use quasar::expression::{Comparison, NumericOp};
use quasar::engine::{
    evaluate_condition, next_branch, node_status, parse_transfer_host, replace_all,
    ssh_command_result, transfer_result, ExecutionContext,
};

fn output(r: &NodeResult) -> Option<String> {
    match r {
        NodeResult::Success { output } => output.clone(),
        _ => None,
    }
}

#[test]
fn test_expand_variables() {
    let mut context = ExecutionContext::new();
    context.set_variable("host", "192.168.1.1".to_string());
    context.set_variable("status", "success".to_string());

    assert_eq!(context.expand_variables("ssh ${host}: ${status}"), "ssh 192.168.1.1: success");
    assert_eq!(context.expand_variables("${missing} stays"), "${missing} stays");
    assert_eq!(context.get_variable("host"), Some("192.168.1.1"));
    assert_eq!(context.get_variable("nope"), None);
}

#[test]
fn conditions_recognise_the_true_forms() {
    assert!(evaluate_condition("TRUE"));
    assert!(evaluate_condition("1"));
    assert!(evaluate_condition("success"));
    assert!(evaluate_condition("result == success"));
    assert!(evaluate_condition("result = success"));
    assert!(!evaluate_condition("false"));
    assert!(!evaluate_condition("Success"));
    assert!(!evaluate_condition(""));
}

#[test]
fn a_condition_picks_its_branch() {
    let t = "yes".to_string();
    let f = "no".to_string();
    let ok = NodeResult::Success { output: Some("true".to_string()) };
    let other = NodeResult::Success { output: Some("false".to_string()) };
    assert_eq!(next_branch(&ok, &t, &f), "yes");
    assert_eq!(next_branch(&other, &t, &f), "no");
    assert_eq!(next_branch(&NodeResult::Skipped, &t, &f), "no");
    assert!(matches!(node_status(&ok), ExecutionStatus::Completed));
    assert!(matches!(
        node_status(&NodeResult::Failure { error: "x".to_string() }),
        ExecutionStatus::Failed
    ));
    assert!(matches!(node_status(&NodeResult::Skipped), ExecutionStatus::Cancelled));
}

#[test]
fn transfer_hosts_are_user_at_host_with_an_optional_port() {
    assert_eq!(
        parse_transfer_host("admin@10.0.0.5:2222").unwrap(),
        ("admin".to_string(), "10.0.0.5".to_string(), 2222)
    );
    assert_eq!(
        parse_transfer_host("admin@10.0.0.5").unwrap(),
        ("admin".to_string(), "10.0.0.5".to_string(), 22)
    );
    assert_eq!(
        parse_transfer_host("admin@10.0.0.5:notaport").unwrap(),
        ("admin".to_string(), "10.0.0.5".to_string(), 22)
    );
    assert_eq!(
        parse_transfer_host("10.0.0.5").err(),
        Some("Invalid host format. Expected: username@host:port".to_string())
    );
    assert!(parse_transfer_host("a@b@c").is_err());
}

#[test]
fn results_report_what_happened() {
    let up = transfer_result("/a", "/b", TransferDirection::Upload, Ok(()));
    assert_eq!(output(&up).unwrap(), "Successfully transferred /a to /b");
    let down = transfer_result("/a", "/b", TransferDirection::Download, Ok(()));
    assert_eq!(output(&down).unwrap(), "Successfully transferred /a from /b");
    let failed = transfer_result("/a", "/b", TransferDirection::Upload, Err("denied".to_string()));
    assert_eq!(output(&failed).unwrap(), "File transfer failed: denied");
    assert_eq!(output(&ssh_command_result(Ok("up 3 days".to_string()))).unwrap(), "up 3 days");
    assert_eq!(
        output(&ssh_command_result(Err("timeout".to_string()))).unwrap(),
        "SSH command failed: timeout"
    );
}

#[test]
fn replace_all_replaces_every_occurrence_left_to_right() {
    assert_eq!(replace_all("aaa", "aa", "b"), "ba");
    assert_eq!(replace_all("x-x-x", "x", "yy"), "yy-yy-yy");
}

fn run_context() -> ExecutionContext {
    let env = vec![
        ("HOME".to_string(), "/root".to_string()),
        ("HOME".to_string(), "/home/u".to_string()),
    ];
    let mut ctx = ExecutionContext::for_run("wf-1".to_string(), "run-9".to_string(), env);
    ctx.set_variable("host", "10.0.0.1".to_string());
    ctx.set_result("n1", NodeResult::Success { output: Some("42".to_string()) });
    ctx.set_result("n2", NodeResult::Failure { error: "x".to_string() });
    ctx
}

#[test]
fn placeholders_resolve_paths() {
    let ctx = run_context();
    assert_eq!(
        ctx.evaluate_expression("${host} ${env.HOME} ${node.n1.output} ${workflow.id}/${execution.id} ${execution.mode}"),
        "10.0.0.1 /home/u 42 wf-1/run-9 manual"
    );
    assert_eq!(ctx.evaluate_expression("[${nope}][${node.n2.output}][${a.b.c.d}]"), "[][][]");
    assert_eq!(ctx.evaluate_expression("${} and ${unclosed"), "${} and ${unclosed");
    assert_eq!(ctx.get_env("HOME"), Some("/home/u"));
    assert_eq!(ctx.get_variable_or("missing", "dflt"), "dflt");
    assert_eq!(ctx.get_node_output("n1"), Some("42".to_string()));
    assert_eq!(ctx.get_node_output("n2"), None);
    assert!(ctx.node_succeeded("n1"));
    assert!(!ctx.node_succeeded("n2"));
    assert!(!ctx.node_succeeded("n3"));
}

#[test]
fn conditions_read_keywords_and_comparisons() {
    let ctx = run_context();
    assert!(matches!(ctx.evaluate_condition(" Yes "), Comparison::Decided(true)));
    assert!(matches!(ctx.evaluate_condition("${missing}"), Comparison::Decided(false)));
    assert!(matches!(ctx.evaluate_condition("${host} == 10.0.0.1"), Comparison::Decided(true)));
    assert!(matches!(ctx.evaluate_condition("${host} != 10.0.0.1"), Comparison::Decided(false)));
    match ctx.evaluate_condition("${node.n1.output} >= 40") {
        Comparison::Numeric(checks) => {
            assert_eq!(checks.len(), 2);
            assert_eq!(checks[0].op, NumericOp::AtLeast);
            assert_eq!((checks[0].left.as_str(), checks[0].right.as_str()), ("42", "40"));
            assert_eq!(checks[1].op, NumericOp::Above);
            assert_eq!((checks[1].left.as_str(), checks[1].right.as_str()), ("42", "= 40"));
        }
        Comparison::Decided(_) => panic!("a numeric comparison is left to the caller"),
    }
    match ctx.evaluate_condition("plain words") {
        Comparison::Numeric(checks) => assert!(checks.is_empty()),
        Comparison::Decided(_) => panic!("no operator: nothing decided"),
    }
}
