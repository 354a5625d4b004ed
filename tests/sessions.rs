use drill::abstract_sequence::all_combinations;
use drill::arithmetic::Sum;
use drill::generate::{abstract_seq_missing, build_missing, generate_tasks, Kind};
use drill::session::{parse_config_stat_options, parse_kind, parse_pipe_mod, stats_config_from_options};
use drill::stats::{calculate_average_time_millis, calculate_total_pos_neg, collect_stats, StatsConfig};
use drill::input::DefferedInput;
use drill::task::{CheckError, Task};
use drill::tasks_pipe::{next_index, pipeline_step, step_outcome, run, run_with_stats, run_without_steps, PipeError, PipeMod, Resolution};

#[test]
fn average_is_last_over_count() {
    assert_eq!(calculate_average_time_millis(vec![1, 3]), 1);
    assert_eq!(calculate_average_time_millis(vec![4]), 4);
    assert_eq!(calculate_average_time_millis(vec![2, 5, 9]), 3);
}

#[test]
fn average_over_until_right_run() {
    let questions: Vec<Task> = vec![Task::Sum(Sum { a: 1, b: 1 }), Task::Sum(Sum { a: 2, b: 3 })];
    let input = DefferedInput { input: "2\n2\n5\n", delay_secs: 1 };
    let mut output = String::new();
    let config = StatsConfig { time: true, percentage: false };
    let stats = run_with_stats(&questions, &PipeMod::UntilRight, &input, &mut output, &config).unwrap();
    let times = stats.times_secs.unwrap();
    assert_eq!(times, vec![1, 3]);
    assert_eq!(calculate_average_time_millis(times), 1);
}

#[test]
fn tally_counts_outcomes() {
    let p = calculate_total_pos_neg(vec![true, false, true, true]);
    assert_eq!((p.positive, p.negative), (3, 1));
    let p = calculate_total_pos_neg(vec![]);
    assert_eq!((p.positive, p.negative), (0, 0));
}

#[test]
fn empty_question_list_writes_nothing() {
    let questions: Vec<Task> = vec![];
    let mut output = String::new();
    assert_eq!(run_without_steps(&questions, &PipeMod::Skip, "", &mut output), Ok(()));
    assert_eq!(output, "");
}

#[test]
fn exhausted_input_stops_the_run() {
    let questions: Vec<Task> = vec![Task::Sum(Sum { a: 1, b: 1 }), Task::Sum(Sum { a: 2, b: 2 })];
    let mut output = String::new();
    assert_eq!(run_without_steps(&questions, &PipeMod::Skip, "2\n", &mut output), Err(PipeError::InputExhausted));
    assert_eq!(output, "1 + 1 = ?\ntrue\n2 + 2 = ?\n");
}

#[test]
fn last_line_without_newline_is_read() {
    let questions: Vec<Task> = vec![Task::Sum(Sum { a: 1, b: 1 })];
    let mut output = String::new();
    let steps = run(&questions, &PipeMod::Skip, "2", &mut output).unwrap();
    assert_eq!(output, "1 + 1 = ?\ntrue\n");
    assert_eq!(steps, vec![Resolution { index: 0, correct: true, lines_read: 1 }]);
}

#[test]
fn validation_error_is_not_resolved() {
    let questions: Vec<Task> = vec![Task::Sum(Sum { a: 1, b: 1 })];
    let mut output = String::new();
    let steps = run(&questions, &PipeMod::UntilRight, "x\n3\n2\n", &mut output).unwrap();
    assert_eq!(
        steps,
        vec![
            Resolution { index: 0, correct: false, lines_read: 2 },
            Resolution { index: 0, correct: true, lines_read: 3 },
        ]
    );
}

#[test]
fn next_index_follows_policy() {
    assert_eq!(next_index(3, true, &PipeMod::Skip), 4);
    assert_eq!(next_index(3, false, &PipeMod::Skip), 4);
    assert_eq!(next_index(3, true, &PipeMod::UntilRight), 4);
    assert_eq!(next_index(3, false, &PipeMod::UntilRight), 3);
}

#[test]
fn pipeline_step_lines() {
    let questions: Vec<Task> = vec![Task::Sum(Sum { a: 1, b: 1 })];
    let step = |line: &str| pipeline_step(&questions, &PipeMod::UntilRight, 0, &line.to_string(), 4);
    assert_eq!(step("2\n"), ("true".to_string(), Some(Resolution { index: 0, correct: true, lines_read: 4 }), 1));
    assert_eq!(step("3\n"), ("false".to_string(), Some(Resolution { index: 0, correct: false, lines_read: 4 }), 0));
    assert_eq!(step("z\n"), ("Input is not an integer `z`".to_string(), None, 0));
}

#[test]
fn step_outcome_under_skip() {
    assert_eq!(
        step_outcome(&Ok(false), 2, &PipeMod::Skip, 7),
        ("false".to_string(), Some(Resolution { index: 2, correct: false, lines_read: 7 }), 3)
    );
    let (text, resolution, next) = step_outcome(&Err(CheckError::NotInRange(9)), 2, &PipeMod::Skip, 7);
    assert_eq!((text.as_str(), resolution, next), ("Input is not in range `9`", None, 2));
}

#[test]
fn stats_keep_only_sampled_steps() {
    let resolved = vec![
        Resolution { index: 0, correct: false, lines_read: 1 },
        Resolution { index: 0, correct: true, lines_read: 2 },
    ];
    let times = vec![10, 20];
    let config = StatsConfig { time: true, percentage: true };
    let s = collect_stats(&PipeMod::UntilRight, &resolved, &times, &config);
    assert_eq!(s.times_secs, Some(vec![20]));
    assert_eq!(s.pos_negs, Some(vec![true]));
    let s = collect_stats(&PipeMod::Skip, &resolved, &times, &config);
    assert_eq!(s.times_secs, Some(vec![10, 20]));
    assert_eq!(s.pos_negs, Some(vec![false, true]));
}

#[test]
fn session_names() {
    assert_eq!(parse_pipe_mod("skip"), Some(PipeMod::Skip));
    assert_eq!(parse_pipe_mod("right"), Some(PipeMod::UntilRight));
    assert_eq!(parse_pipe_mod("left"), None);
    assert_eq!(parse_kind("missing"), Some(Kind::Missing));
    assert_eq!(parse_kind("mod"), Some(Kind::Mod));
    assert_eq!(parse_kind("percent"), None);
}

#[test]
fn stat_options_are_split_and_trimmed() {
    let opts = parse_config_stat_options(String::from("time  percentage\t"));
    assert_eq!(opts, vec!["time".to_string(), "".to_string(), "percentage".to_string()]);
    let config = stats_config_from_options(&opts);
    assert_eq!(config, StatsConfig { time: true, percentage: true });
    let config = stats_config_from_options(&parse_config_stat_options(String::from("percentage")));
    assert_eq!(config, StatsConfig { time: false, percentage: true });
}

#[test]
fn generated_missing_question_is_consistent() {
    let mut rng = rand::thread_rng();
    let mut shuffled = 0;
    for _ in 0..50 {
        let m = abstract_seq_missing(&mut rng);
        let mut sorted_items: Vec<String> = m.items.iter().map(|i| format!("{:?}", i)).collect();
        let mut universe: Vec<String> = all_combinations().iter().map(|i| format!("{:?}", i)).collect();
        sorted_items.sort();
        universe.sort();
        assert_eq!(sorted_items, universe);
        if m.items != all_combinations() {
            shuffled += 1;
        }
        assert_eq!(m.options.len(), 4);
        assert!(m.options.contains(&m.solution));
        assert!(m.items.contains(&m.solution));
        for i in 0..4 {
            assert!(m.items.contains(&m.options[i]));
            for j in (i + 1)..4 {
                assert_ne!(m.options[i], m.options[j]);
            }
        }
    }
    assert!(shuffled > 0);
}

#[test]
fn generated_arithmetic_in_ranges() {
    let mut rng = rand::thread_rng();
    let tasks = generate_tasks(Kind::Div, 30, &mut rng);
    assert_eq!(tasks.len(), 30);
    for t in tasks {
        match t {
            Task::Div(q) => assert!(1 <= q.a && q.a < 20 && 1 <= q.b && q.b < 10),
            _ => panic!("wrong kind"),
        }
    }
}

#[test]
fn build_missing_from_draws() {
    let all = all_combinations();
    let m = build_missing(all_combinations(), 4, 1, vec![0, 0, 0]);
    assert_eq!(m.solution, all[4]);
    assert_eq!(m.options, vec![all[0], all[4], all[1], all[2]]);
    assert_eq!(m.items, all);
    let m = build_missing(all_combinations(), 0, 3, vec![7, 6, 5]);
    assert_eq!(m.options, vec![all[8], all[7], all[6], all[0]]);
    let m = build_missing(all_combinations(), 8, 0, vec![7, 0, 1]);
    assert_eq!(m.options, vec![all[8], all[7], all[0], all[2]]);
}

#[test]
fn insert_statement_doubles_quotes() {
    let record = drill::store::Stats {
        id: "a'b".to_string(),
        question_type: "sum".to_string(),
        formatted_body: "1 + 1 = ?".to_string(),
        is_answer_right: true,
        time_millis: 1200,
        created_at_millis: -5,
    };
    assert_eq!(
        drill::store::insert_query(&record),
        "INSERT OR REPLACE INTO Stats VALUES ('a''b', 'sum', '1 + 1 = ?', 1, 1200, -5);"
    );
}
