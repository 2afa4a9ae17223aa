use quasar::ai::{chat_stream_step, forward_chat_stream};

fn run(items: Vec<Result<(String, bool), ()>>) -> (Result<(), String>, Vec<(String, bool)>) {
    let (sent, result) = forward_chat_stream(items);
    (result, sent.into_iter().map(|p| (p.content, p.done)).collect())
}

/// Every ending emits exactly one final `done`.
#[test]
fn every_stream_ending_emits_one_done() {
    let (ok, seen) = run(vec![Ok(("Hel".into(), false)), Ok(("lo".into(), true))]);
    assert!(ok.is_ok());
    assert_eq!(seen.iter().filter(|(_, d)| *d).count(), 1);
    assert_eq!(seen.last(), Some(&(String::new(), true)));

    // Ends without a done chunk: used to emit nothing final.
    let (ok, seen) = run(vec![Ok(("partial".into(), false))]);
    assert!(ok.is_ok());
    assert_eq!(seen, vec![("partial".to_string(), false), (String::new(), true)]);

    let (err, seen) = run(vec![Ok(("x".into(), false)), Err(())]);
    assert!(err.is_err());
    assert_eq!(seen.last(), Some(&(String::new(), true)));

    let (_, seen) = run(vec![]);
    assert_eq!(seen, vec![(String::new(), true)]);
}

#[test]
fn items_after_the_end_are_not_read() {
    let (ok, seen) = run(vec![Ok(("a".into(), true)), Err(())]);
    assert!(ok.is_ok());
    assert_eq!(seen, vec![("a".to_string(), false), (String::new(), true)]);
    let (out, end) = chat_stream_step(Some(Err(())));
    assert_eq!(end, Some(Err("Ollama chat stream failed".to_string())));
    assert_eq!(out.len(), 1);
    let (out, end) = chat_stream_step(Some(Ok(("c".to_string(), false))));
    assert!(end.is_none());
    assert_eq!(out[0].content, "c");
}
