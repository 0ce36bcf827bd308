use on_exit_hook_waybar::task::generate_waybar_output;
use on_exit_hook_waybar::task::sort_tasks;
use on_exit_hook_waybar::task::waybar_json_line;
use on_exit_hook_waybar::task::Task;
use on_exit_hook_waybar::task::WaybarOutput;

fn task(
    id: u32,
    description: Option<&str>,
    priority: Option<&str>,
    due: Option<&str>,
    urgency_hundredths: Option<i64>,
) -> Task {
    Task {
        id,
        description: description.map(|s| s.to_string()),
        priority: priority.map(|s| s.to_string()),
        due: due.map(|s| s.to_string()),
        urgency: urgency_hundredths,
    }
}

#[test]
fn test_generate_valid_waybar_output() {
    let waybar_output = generate_waybar_output(
        &vec![
            task(1, Some("Test1"), Some("H"), Some("20241206T143002Z"), Some(4200)),
            task(2, Some("Test2"), Some("M"), Some("20241206T173002Z"), Some(500)),
        ],
        3600,
    );

    assert_eq!(
        waybar_output,
        WaybarOutput {
            text: "1 Test1, Prio: H, Due: Fri, 24-12-06 15:30, Urgency: 42.00".to_string(),
            tooltip: "1 Test1, Prio: H, Due: Fri, 24-12-06 15:30, Urgency: 42.00\n2 Test2, Prio: M, Due: Fri, 24-12-06 18:30, Urgency: 5.00".to_string()
        }
    );
}

#[test]
fn test_generate_empty_tasks_waybar_output() {
    let waybar_output = generate_waybar_output(&vec![], 3600);

    assert_eq!(
        waybar_output,
        WaybarOutput {
            text: "No tasks.".to_string(),
            tooltip: "No tasks.".to_string()
        }
    );
}

#[test]
fn test_sort_tasks() {
    let mut tasks = vec![
        task(1, Some("First task"), Some("H"), Some("20241206T143002Z"), Some(300)),
        task(2, Some("Second task"), Some("M"), Some("20241205T143002Z"), Some(500)),
        task(3, Some("Third task"), Some("L"), Some("20241207T143002Z"), None),
        task(4, Some("Fourth task"), None, None, Some(200)),
        task(5, Some("Fifth task"), None, Some("20231205T143002Z"), Some(500)),
        task(6, Some("Sixth task"), None, Some("20231205T143002Z"), Some(500)),
    ];

    sort_tasks(&mut tasks);

    let expected = vec![
        task(5, Some("Fifth task"), None, Some("20231205T143002Z"), Some(500)),
        task(6, Some("Sixth task"), None, Some("20231205T143002Z"), Some(500)),
        task(2, Some("Second task"), Some("M"), Some("20241205T143002Z"), Some(500)),
        task(1, Some("First task"), Some("H"), Some("20241206T143002Z"), Some(300)),
        task(4, Some("Fourth task"), None, None, Some(200)),
        task(3, Some("Third task"), Some("L"), Some("20241207T143002Z"), None),
    ];

    assert_eq!(tasks, expected);
}

#[test]
fn test_empty_snapshot_json_line_is_exact() {
    let output = generate_waybar_output(&vec![], 0);
    assert_eq!(
        waybar_json_line(&output),
        "{\"text\":\"No tasks.\",\"tooltip\":\"No tasks.\"}\n"
    );
}

#[test]
fn test_render_omits_absent_fields_without_separators() {
    let output = generate_waybar_output(
        &vec![task(3, Some("Write docs"), None, None, Some(150))],
        0,
    );
    assert_eq!(output.text, "3 Write docs, Urgency: 1.50");
}

#[test]
fn test_render_bare_task_keeps_id_and_space() {
    let output = generate_waybar_output(&vec![task(7, None, None, None, None)], 0);
    assert_eq!(output.text, "7 ");
}

#[test]
fn test_render_negative_urgency_two_decimals() {
    let output = generate_waybar_output(&vec![task(9, None, None, None, Some(-150))], 0);
    assert_eq!(output.text, "9 Urgency: -1.50");
}

#[test]
fn test_render_malformed_due_omits_due_segment() {
    let output = generate_waybar_output(
        &vec![task(4, Some("Renew pass"), Some("L"), Some("tomorrow"), Some(25))],
        0,
    );
    assert_eq!(output.text, "4 Renew pass, Prio: L, Urgency: 0.25");
}

#[test]
fn test_json_line_escapes_special_characters() {
    let output = generate_waybar_output(
        &vec![task(5, Some("a\"b\\c\nd\u{1}e"), None, None, None)],
        0,
    );
    assert_eq!(output.text, "5 a\"b\\c\nd\u{1}e");
    assert_eq!(
        waybar_json_line(&output),
        "{\"text\":\"5 a\\\"b\\\\c\\nd\\u0001e\",\"tooltip\":\"5 a\\\"b\\\\c\\nd\\u0001e\"}\n"
    );
}

#[test]
fn test_pipeline_is_deterministic() {
    let build = || {
        vec![
            task(1, Some("First task"), Some("H"), Some("20241206T143002Z"), Some(300)),
            task(2, Some("Second task"), None, None, None),
            task(3, None, None, Some("20231205T143002Z"), Some(500)),
        ]
    };
    let run = || {
        let mut tasks = build();
        sort_tasks(&mut tasks);
        waybar_json_line(&generate_waybar_output(&tasks, 3600))
    };
    let first = run();
    let second = run();
    assert_eq!(first, second);
    assert_eq!(first.as_bytes(), second.as_bytes());
}
