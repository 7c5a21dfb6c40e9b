use codex_collab::text::text_lt;
use codex_collab::collab::{
    CallId, ThreadId, WaitingEndEvent, count_statuses, error_preview, is_valid_transition, prompt_lines, resolve_wait,
    sorted_statuses, status_label, AgentStatus,
};

fn s(v: &str) -> String {
    v.to_string()
}

#[test]
fn wait_reports_not_found_for_unknown_thread() {
    let known = vec![
        (s("A"), AgentStatus::Running),
        (s("C"), AgentStatus::Completed(Some(s("done")))),
        (s("Z"), AgentStatus::Shutdown),
    ];
    let r = resolve_wait(&vec![s("A"), s("B"), s("C")], &known);
    assert_eq!(r.len(), 3);
    assert_eq!(
        r,
        vec![
            (s("A"), AgentStatus::Running),
            (s("B"), AgentStatus::NotFound),
            (s("C"), AgentStatus::Completed(Some(s("done")))),
        ]
    );
    let r = resolve_wait(&vec![s("A"), s("A")], &known);
    assert_eq!(r, vec![(s("A"), AgentStatus::Running)]);
    assert!(resolve_wait(&vec![], &known).is_empty());
}

#[test]
fn transitions_only_move_forward() {
    assert!(is_valid_transition(&AgentStatus::PendingInit, &AgentStatus::Running));
    assert!(is_valid_transition(&AgentStatus::Running, &AgentStatus::Completed(None)));
    assert!(is_valid_transition(&AgentStatus::Running, &AgentStatus::Errored(s("e"))));
    assert!(is_valid_transition(&AgentStatus::Shutdown, &AgentStatus::NotFound));
    assert!(!is_valid_transition(&AgentStatus::Running, &AgentStatus::PendingInit));
    assert!(!is_valid_transition(&AgentStatus::Completed(None), &AgentStatus::Running));
    assert!(!is_valid_transition(&AgentStatus::PendingInit, &AgentStatus::Shutdown));
    assert!(AgentStatus::Shutdown.is_terminal());
    assert!(!AgentStatus::Running.is_terminal());
}

#[test]
fn prompt_lines_keep_every_line() {
    let lines = prompt_lines(
        "RUN_ID: RUN-1\nCANDIDATE_ID: C1\nCANONICAL_TASK_PROMPT:\nline-1\nline-2\nline-3",
    );
    assert_eq!(lines.len(), 6);
    assert_eq!(lines[0], "RUN_ID: RUN-1");
    assert_eq!(lines[1], "CANDIDATE_ID: C1");
    assert_eq!(lines[5], "line-3");
    assert!(!lines.iter().any(|l| l.contains("...")));
    assert_eq!(prompt_lines("  \n "), Vec::<String>::new());
    assert_eq!(prompt_lines(" a\r\n\nb \n"), vec![s("a"), s(""), s("b")]);
}

#[test]
fn error_preview_collapses_and_cuts() {
    assert_eq!(error_preview("  boom \n\t went  the   thing "), "boom went the thing");
    let long = "x".repeat(200);
    let p = error_preview(&long);
    assert_eq!(p.chars().count(), 160);
    assert!(p.ends_with("..."));
    let exact = "y".repeat(160);
    assert_eq!(error_preview(&exact), exact);
    let completion = "<ruler_verdict> status: FAIL summary: Evidence is enough, but gaps remain in reproducibility details and constrained-beam corner cases.";
    assert_eq!(error_preview(completion), completion);
}

#[test]
fn statuses_sort_by_thread_id_and_count() {
    let statuses = vec![
        (s("c"), AgentStatus::Errored(s("bad"))),
        (s("a"), AgentStatus::Completed(None)),
        (s("b2"), AgentStatus::NotFound),
        (s("b"), AgentStatus::NotFound),
    ];
    let sorted = sorted_statuses(&statuses);
    let keys: Vec<&str> = sorted.iter().map(|(k, _)| k.as_str()).collect();
    assert_eq!(keys, vec!["a", "b", "b2", "c"]);
    let c = count_statuses(&statuses);
    assert_eq!((c.pending_init, c.running, c.completed, c.errored, c.shutdown, c.not_found), (0, 0, 1, 1, 0, 2));
    assert!(text_lt("b", "b2"));
    assert!(!text_lt("b2", "b"));
    assert_eq!(status_label(&AgentStatus::PendingInit), "pending init");
    assert_eq!(status_label(&AgentStatus::NotFound), "not found");
}

#[test]
fn wait_end_event_names_each_thread_once() {
    let event = |statuses: Vec<(String, AgentStatus)>| WaitingEndEvent {
        call_id: CallId { value: s("call-2") },
        sender_thread_id: ThreadId { value: s("t0") },
        statuses,
    };
    assert!(event(vec![(s("a"), AgentStatus::Running), (s("b"), AgentStatus::NotFound)]).is_well_formed());
    assert!(!event(vec![(s("a"), AgentStatus::Running), (s("a"), AgentStatus::NotFound)]).is_well_formed());
    assert!(event(vec![]).is_well_formed());
}
