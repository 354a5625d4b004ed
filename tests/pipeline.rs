use drill::abstract_sequence::{all_combinations, Form, Missing, SeqItem, Size};
use drill::arithmetic::{Div, Mod, Mul, Sub, Sum};
use drill::input::DefferedInput;
use drill::stats::{CollectedStats, StatsConfig};
use drill::task::Task;
use drill::tasks_pipe::{run_with_stats, run_without_steps, PipeError, PipeMod};

#[test]
fn sum_and_sub_0() -> Result<(), PipeError> {
    let questions: Vec<Task> = vec![Task::Sum(Sum { a: 1, b: 1 }), Task::Sub(Sub { a: 1, b: 1 })];
    let input = "2\n0\n";
    let mut output = String::new();
    run_without_steps(&questions, &PipeMod::Skip, input, &mut output)?;
    assert_eq!(output, "1 + 1 = ?\ntrue\n1 - 1 = ?\ntrue\n");
    Ok(())
}

#[test]
fn sum_and_sub_1() -> Result<(), PipeError> {
    let questions: Vec<Task> = vec![Task::Sum(Sum { a: 1, b: 1 }), Task::Sub(Sub { a: 1, b: 1 })];
    let input = "2\n2\n";
    let mut output = String::new();
    run_without_steps(&questions, &PipeMod::Skip, input, &mut output)?;
    assert_eq!(output, "1 + 1 = ?\ntrue\n1 - 1 = ?\nfalse\n");
    Ok(())
}

#[test]
fn sum_fail_on_non_digit() -> Result<(), PipeError> {
    let questions: Vec<Task> = vec![Task::Sum(Sum { a: 1, b: 1 })];
    let input = "kek\n2\n";
    let mut output = String::new();
    run_without_steps(&questions, &PipeMod::Skip, input, &mut output)?;
    assert_eq!(output, "1 + 1 = ?\nInput is not an integer `kek`\n1 + 1 = ?\ntrue\n");
    Ok(())
}

#[test]
fn mul_and_div_0() -> Result<(), PipeError> {
    let questions: Vec<Task> = vec![Task::Mul(Mul { a: 4, b: 5 }), Task::Div(Div { a: 5, b: 2 })];
    let input = "20\n3\n";
    let mut output = String::new();
    run_without_steps(&questions, &PipeMod::Skip, input, &mut output)?;
    assert_eq!(output, "4 * 5 = ?\ntrue\n5 div 2 = ?\nfalse\n");
    Ok(())
}

#[test]
fn div_and_mod_0() -> Result<(), PipeError> {
    let questions: Vec<Task> = vec![Task::Div(Div { a: 8, b: 4 }), Task::Mod(Mod { a: 5, b: 2 })];
    let input = "2\n1\n";
    let mut output = String::new();
    run_without_steps(&questions, &PipeMod::Skip, input, &mut output)?;
    assert_eq!(output, "8 div 4 = ?\ntrue\n5 mod 2 = ?\ntrue\n");
    Ok(())
}

#[test]
fn abstract_seq_missing_0() -> Result<(), PipeError> {
    let item1 = SeqItem { form: Form::Star, size: Size::Small };
    let item2 = SeqItem { form: Form::Ampersand, size: Size::Big };
    let item3 = SeqItem { form: Form::Cover, size: Size::Medium };
    let questions: Vec<Task> = vec![
        Task::Missing(Missing { items: vec![item1, item2, item3], options: vec![item1, item2], solution: item2 }),
        Task::Missing(Missing { items: vec![item1, item2, item3], options: vec![item3, item2], solution: item3 }),
    ];
    let input = "2\n2\n";
    let mut output = String::new();
    run_without_steps(&questions, &PipeMod::Skip, input, &mut output)?;
    assert_eq!(output, "* ? ^^\n1. * 2. &&&\ntrue\n* &&& ?\n1. ^^ 2. &&&\nfalse\n");
    Ok(())
}

#[test]
fn abstract_seq_missing_1() -> Result<(), PipeError> {
    let item1 = SeqItem { form: Form::Star, size: Size::Small };
    let item2 = SeqItem { form: Form::Ampersand, size: Size::Big };
    let item3 = SeqItem { form: Form::Cover, size: Size::Medium };
    let questions: Vec<Task> = vec![
        Task::Missing(Missing { items: all_combinations(), options: vec![item1, item2, item3], solution: item3 }),
        Task::Missing(Missing { items: all_combinations(), options: vec![item1, item2, item3], solution: item1 }),
    ];
    let input = "1\n1\n";
    let mut output = String::new();
    run_without_steps(&questions, &PipeMod::Skip, input, &mut output)?;
    assert_eq!(
        output,
        "* ** *** & && &&& ^ ? ^^^\n1. * 2. &&& 3. ^^\nfalse\n? ** *** & && &&& ^ ^^ ^^^\n1. * 2. &&& 3. ^^\ntrue\n"
    );
    Ok(())
}

#[test]
fn mod_until_right_0() -> Result<(), PipeError> {
    let questions: Vec<Task> = vec![Task::Sum(Sum { a: 1, b: 1 })];
    let input = "12\n2\n";
    let mut output = String::new();
    run_without_steps(&questions, &PipeMod::UntilRight, input, &mut output)?;
    assert_eq!(output, "1 + 1 = ?\nfalse\n1 + 1 = ?\ntrue\n");
    Ok(())
}

#[test]
fn mod_until_right_1() -> Result<(), PipeError> {
    let questions: Vec<Task> = vec![Task::Sum(Sum { a: 1, b: 1 }), Task::Sum(Sum { a: 2, b: 3 })];
    let input = "2\n2\n5\n";
    let mut output = String::new();
    run_without_steps(&questions, &PipeMod::UntilRight, input, &mut output)?;
    assert_eq!(output, "1 + 1 = ?\ntrue\n2 + 3 = ?\nfalse\n2 + 3 = ?\ntrue\n");
    Ok(())
}

#[test]
fn mod_skip_with_stats_0() -> Result<(), PipeError> {
    let questions: Vec<Task> = vec![Task::Sum(Sum { a: 1, b: 1 }), Task::Sub(Sub { a: 1, b: 1 })];
    let input = DefferedInput { input: "2\n0\n", delay_secs: 0 };
    let mut output = String::new();
    let stats_config = StatsConfig { time: true, percentage: false };
    let expected_stats = CollectedStats { times_secs: Some(vec![0, 0]), pos_negs: None };
    let stats = run_with_stats(&questions, &PipeMod::Skip, &input, &mut output, &stats_config)?;
    assert_eq!(output, "1 + 1 = ?\ntrue\n1 - 1 = ?\ntrue\n");
    assert_eq!(stats, expected_stats);
    Ok(())
}

#[test]
fn mod_skip_with_stats_1() -> Result<(), PipeError> {
    let questions: Vec<Task> = vec![
        Task::Sum(Sum { a: 1, b: 1 }),
        Task::Sub(Sub { a: 1, b: 1 }),
        Task::Mul(Mul { a: 1, b: 2 }),
    ];
    let input = DefferedInput { input: "2\n0\n1\n", delay_secs: 1 };
    let mut output = String::new();
    let stats_config = StatsConfig { time: true, percentage: true };
    let expected_stats = CollectedStats { times_secs: Some(vec![1, 2, 3]), pos_negs: Some(vec![true, true, false]) };
    let stats = run_with_stats(&questions, &PipeMod::Skip, &input, &mut output, &stats_config)?;
    assert_eq!(output, "1 + 1 = ?\ntrue\n1 - 1 = ?\ntrue\n1 * 2 = ?\nfalse\n");
    assert_eq!(stats, expected_stats);
    Ok(())
}

#[test]
fn mod_skip_with_stats_2() -> Result<(), PipeError> {
    let questions: Vec<Task> = vec![Task::Sum(Sum { a: 1, b: 1 }), Task::Sub(Sub { a: 1, b: 1 })];
    let input = DefferedInput { input: "3\n0\n", delay_secs: 1 };
    let mut output = String::new();
    let stats_config = StatsConfig { time: false, percentage: true };
    let expected_stats = CollectedStats { times_secs: None, pos_negs: Some(vec![false, true]) };
    let stats = run_with_stats(&questions, &PipeMod::Skip, &input, &mut output, &stats_config)?;
    assert_eq!(output, "1 + 1 = ?\nfalse\n1 - 1 = ?\ntrue\n");
    assert_eq!(stats, expected_stats);
    Ok(())
}

#[test]
fn mod_until_right_with_stats_2() -> Result<(), PipeError> {
    let questions: Vec<Task> = vec![Task::Sum(Sum { a: 1, b: 1 }), Task::Sum(Sum { a: 2, b: 3 })];
    let input = DefferedInput { input: "2\n2\n5\n", delay_secs: 1 };
    let mut output = String::new();
    let stats_config = StatsConfig { time: true, percentage: true };
    let expected_stats = CollectedStats { times_secs: Some(vec![1, 3]), pos_negs: Some(vec![true, true]) };
    let stats = run_with_stats(&questions, &PipeMod::UntilRight, &input, &mut output, &stats_config)?;
    assert_eq!(output, "1 + 1 = ?\ntrue\n2 + 3 = ?\nfalse\n2 + 3 = ?\ntrue\n");
    assert_eq!(stats, expected_stats);
    Ok(())
}
