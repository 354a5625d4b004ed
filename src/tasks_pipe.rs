//! The pipeline: asks questions in order, reads one line of answer for each,
//! reports the outcome, and moves on as the replay policy says.

use vstd::prelude::*;
use crate::input::DefferedInput;
use crate::stats::{collect_stats, outcome_samples, time_samples, CollectedStats, StatsConfig};
use crate::task::{verdict_of, CheckError, Question};
use crate::text::trimmed;

verus! {

/// The replay policy: what happens after a wrong answer.
#[derive(Debug, PartialEq, Eq, Structural, Clone, Copy)]
pub enum PipeMod {
    /// Ask the same question again until it is answered right.
    UntilRight,
    /// Go on to the next question whatever the answer was.
    Skip,
}

/// Why a run stopped before every question was resolved.
#[derive(Debug, PartialEq, Eq, Structural, Clone, Copy)]
pub enum PipeError {
    /// The input ended while a question was waiting for its answer.
    InputExhausted,
}

/// A step whose answer was read and checked: which question, whether the
/// answer was right, and how many lines of input had been read by then.
#[derive(Debug, PartialEq, Eq, Structural, Clone, Copy)]
pub struct Resolution {
    pub index: usize,
    pub correct: bool,
    pub lines_read: usize,
}

/// The index of the question asked after question `index` was answered.
pub open spec fn spec_next_index(index: int, correct: bool, pipe_mod: PipeMod) -> int {
    match pipe_mod {
        PipeMod::UntilRight => if correct { index + 1 } else { index },
        PipeMod::Skip => index + 1,
    }
}

/// The index of the question asked after question `index` was answered.
pub fn next_index(index: usize, correct: bool, pipe_mod: &PipeMod) -> (r: usize)
    requires
        index < usize::MAX,
    ensures
        r == spec_next_index(index as int, correct, *pipe_mod),
{
    match pipe_mod {
        PipeMod::UntilRight => {
            if correct {
                index + 1
            } else {
                index
            }
        },
        PipeMod::Skip => index + 1,
    }
}

/// The text of a verdict.
pub open spec fn bool_text(b: bool) -> Seq<char> {
    if b { "true"@ } else { "false"@ }
}

/// The line written after an answer was checked: the verdict, or the error.
pub open spec fn outcome_line(v: Result<bool, Seq<char>>) -> Seq<char> {
    match v {
        Ok(b) => bool_text(b),
        Err(m) => m,
    }
}

/// The position just past the line that starts at `from`: past its `'\n'`,
/// or the end of the input when no `'\n'` follows.
pub open spec fn line_end(s: Seq<char>, from: int) -> int
    decreases s.len() - from,
{
    if from >= s.len() {
        s.len() as int
    } else if s[from] == '\n' {
        from + 1
    } else {
        line_end(s, from + 1)
    }
}

/// A line that starts inside the input is not empty and ends within it.
pub proof fn lemma_line_end(s: Seq<char>, from: int)
    requires
        0 <= from < s.len(),
    ensures
        from < line_end(s, from) <= s.len(),
    decreases s.len() - from,
{
    if s[from] != '\n' {
        if from + 1 < s.len() {
            lemma_line_end(s, from + 1);
        } else {
            assert(line_end(s, from + 1) == s.len());
        }
    }
}

/// What a run writes, which steps it resolves, and whether it reaches the end
/// of the question list.
pub struct Trace {
    pub output: Seq<char>,
    pub resolutions: Seq<Resolution>,
    pub finished: bool,
}

/// The run from question `index`, with the input read up to `pos` and
/// `lines` lines read so far. Each step writes the prompt and a newline, then
/// reads a line; when none is left the run stops unfinished. Otherwise it
/// writes the outcome and a newline; a checked answer resolves the step and
/// moves as the policy says, an unreadable one asks the same question again.
pub open spec fn trace_from<Q: Question>(
    qs: Seq<Q>,
    pipe_mod: PipeMod,
    s: Seq<char>,
    index: int,
    pos: int,
    lines: nat,
) -> Trace
    decreases s.len() - pos,
{
    if index < 0 || index >= qs.len() {
        Trace { output: Seq::empty(), resolutions: Seq::empty(), finished: true }
    } else if pos < 0 || pos >= s.len() {
        Trace { output: qs[index].prompt() + "\n"@, resolutions: Seq::empty(), finished: false }
    } else {
        proof {
            lemma_line_end(s, pos);
        }
        let end = line_end(s, pos);
        let v = qs[index].verdict(trimmed(s.subrange(pos, end)));
        let head = qs[index].prompt() + "\n"@ + outcome_line(v) + "\n"@;
        match v {
            Ok(c) => {
                let rest = trace_from(
                    qs,
                    pipe_mod,
                    s,
                    spec_next_index(index, c, pipe_mod),
                    end,
                    lines + 1,
                );
                Trace {
                    output: head + rest.output,
                    resolutions: seq![
                        Resolution { index: index as usize, correct: c, lines_read: (lines + 1) as usize },
                    ] + rest.resolutions,
                    finished: rest.finished,
                }
            },
            Err(_) => {
                let rest = trace_from(qs, pipe_mod, s, index, end, lines + 1);
                Trace { output: head + rest.output, resolutions: rest.resolutions, finished: rest.finished }
            },
        }
    }
}

/// The whole run of `qs` over the input `s`.
pub open spec fn run_trace<Q: Question>(qs: Seq<Q>, pipe_mod: PipeMod, s: Seq<char>) -> Trace {
    trace_from(qs, pipe_mod, s, 0, 0, 0)
}

/// The question asked after the one at `index` was answered with outcome `v`.
pub open spec fn after_outcome(index: int, v: Result<bool, Seq<char>>, pipe_mod: PipeMod) -> int {
    match v {
        Ok(c) => spec_next_index(index, c, pipe_mod),
        Err(_) => index,
    }
}

/// One step of a run that has a question to ask and input left to read.
pub proof fn lemma_trace_step<Q: Question>(
    qs: Seq<Q>,
    pipe_mod: PipeMod,
    s: Seq<char>,
    index: int,
    pos: int,
    lines: nat,
)
    requires
        0 <= index < qs.len(),
        0 <= pos < s.len(),
    ensures
        ({
            let end = line_end(s, pos);
            let v = qs[index].verdict(trimmed(s.subrange(pos, end)));
            let here = trace_from(qs, pipe_mod, s, index, pos, lines);
            let rest = trace_from(qs, pipe_mod, s, after_outcome(index, v, pipe_mod), end, lines + 1);
            &&& pos < end <= s.len()
            &&& here.output == qs[index].prompt() + "\n"@ + outcome_line(v) + "\n"@ + rest.output
            &&& here.resolutions == match v {
                Ok(c) => seq![
                    Resolution { index: index as usize, correct: c, lines_read: (lines + 1) as usize },
                ] + rest.resolutions,
                Err(_) => rest.resolutions,
            }
            &&& here.finished == rest.finished
        }),
{
    lemma_line_end(s, pos);
}

/// How many of the resolved steps `rs` move on to the next question.
pub open spec fn advance_count(pipe_mod: PipeMod, rs: Seq<Resolution>) -> nat
    decreases rs.len(),
{
    if rs.len() == 0 {
        0
    } else {
        (if spec_next_index(0, rs[0].correct, pipe_mod) == 1 { 1nat } else { 0nat })
            + advance_count(pipe_mod, rs.drop_first())
    }
}

proof fn lemma_trace_follows_policy<Q: Question>(
    qs: Seq<Q>,
    pipe_mod: PipeMod,
    s: Seq<char>,
    index: int,
    pos: int,
    lines: nat,
)
    requires
        0 <= index <= qs.len() <= usize::MAX,
        0 <= pos,
    ensures
        ({
            let t = trace_from(qs, pipe_mod, s, index, pos, lines);
            &&& forall|i: int|
                0 <= i < t.resolutions.len() ==> (#[trigger] t.resolutions[i]).index == index
                    + advance_count(pipe_mod, t.resolutions.take(i))
            &&& forall|i: int| 0 <= i < t.resolutions.len() ==> (#[trigger] t.resolutions[i]).index < qs.len()
            &&& t.finished ==> index + advance_count(pipe_mod, t.resolutions) == qs.len()
        }),
    decreases s.len() - pos,
{
    let t = trace_from(qs, pipe_mod, s, index, pos, lines);
    if index < qs.len() && pos < s.len() {
        lemma_trace_step(qs, pipe_mod, s, index, pos, lines);
        let end = line_end(s, pos);
        let v = qs[index].verdict(trimmed(s.subrange(pos, end)));
        let next = after_outcome(index, v, pipe_mod);
        let rest = trace_from(qs, pipe_mod, s, next, end, lines + 1);
        lemma_trace_follows_policy(qs, pipe_mod, s, next, end, lines + 1);
        match v {
            Ok(c) => {
                let r0 = Resolution { index: index as usize, correct: c, lines_read: (lines + 1) as usize };
                assert(t.resolutions == seq![r0] + rest.resolutions);
                assert(t.resolutions.drop_first() =~= rest.resolutions);
                assert forall|i: int| 0 <= i < t.resolutions.len() implies (#[trigger] t.resolutions[i]).index
                    == index + advance_count(pipe_mod, t.resolutions.take(i)) by {
                    if i > 0 {
                        assert(t.resolutions.take(i).drop_first() =~= rest.resolutions.take(i - 1));
                        assert(t.resolutions[i] == rest.resolutions[i - 1]);
                    } else {
                        assert(t.resolutions.take(0) =~= Seq::<Resolution>::empty());
                    }
                }
                assert forall|i: int| 0 <= i < t.resolutions.len() implies (#[trigger] t.resolutions[i]).index
                    < qs.len() by {
                    if i > 0 {
                        assert(t.resolutions[i] == rest.resolutions[i - 1]);
                    }
                }
            },
            Err(_) => {},
        }
    }
}

/// Whatever the answers, each resolved step is for the question whose index
/// is the number of earlier resolved steps that moved on: every step under
/// `Skip`, the right answers under `UntilRight`. A run that finishes has moved
/// on exactly once per question.
pub proof fn law_run_follows_policy<Q: Question>(qs: Seq<Q>, pipe_mod: PipeMod, s: Seq<char>)
    requires
        qs.len() <= usize::MAX,
    ensures
        ({
            let t = run_trace(qs, pipe_mod, s);
            &&& forall|i: int|
                0 <= i < t.resolutions.len() ==> (#[trigger] t.resolutions[i]).index
                    == advance_count(pipe_mod, t.resolutions.take(i))
            &&& t.finished ==> advance_count(pipe_mod, t.resolutions) == qs.len()
        }),
{
    lemma_trace_follows_policy(qs, pipe_mod, s, 0, 0, 0);
}

/// A run that has question `index` to ask begins by writing its prompt and a
/// newline.
pub proof fn lemma_asks_first<Q: Question>(
    qs: Seq<Q>,
    pipe_mod: PipeMod,
    s: Seq<char>,
    index: int,
    pos: int,
    lines: nat,
)
    requires
        0 <= index < qs.len(),
        0 <= pos,
    ensures
        ({
            let head = qs[index].prompt() + "\n"@;
            let t = trace_from(qs, pipe_mod, s, index, pos, lines);
            &&& head.len() <= t.output.len()
            &&& t.output.subrange(0, head.len() as int) == head
        }),
{
    let head = qs[index].prompt() + "\n"@;
    let t = trace_from(qs, pipe_mod, s, index, pos, lines);
    if pos < s.len() {
        lemma_trace_step(qs, pipe_mod, s, index, pos, lines);
    }
    assert(t.output.subrange(0, head.len() as int) =~= head);
}

/// Under `UntilRight` a wrong answer writes `false` after the prompt, is
/// resolved as wrong, and the run goes on with the same question: the next
/// thing written is the same prompt.
pub proof fn law_wrong_answer_asks_again<Q: Question>(
    qs: Seq<Q>,
    s: Seq<char>,
    index: int,
    pos: int,
    lines: nat,
)
    requires
        0 <= index < qs.len(),
        0 <= pos < s.len(),
        qs[index].verdict(trimmed(s.subrange(pos, line_end(s, pos)))) == Ok::<bool, Seq<char>>(false),
    ensures
        ({
            let p = qs[index].prompt();
            let here = trace_from(qs, PipeMod::UntilRight, s, index, pos, lines);
            let rest = trace_from(qs, PipeMod::UntilRight, s, index, line_end(s, pos), lines + 1);
            &&& here.output == p + "\n"@ + "false"@ + "\n"@ + rest.output
            &&& here.resolutions == seq![
                Resolution { index: index as usize, correct: false, lines_read: (lines + 1) as usize },
            ] + rest.resolutions
            &&& here.finished == rest.finished
            &&& rest.output.subrange(0, p.len() + 1int) == p + "\n"@
        }),
{
    lemma_trace_step(qs, PipeMod::UntilRight, s, index, pos, lines);
    lemma_asks_first(qs, PipeMod::UntilRight, s, index, line_end(s, pos), lines + 1);
    reveal_strlit("\n");
}

/// Under either policy an answer that cannot be read writes its message after
/// the prompt, resolves nothing, and the run goes on with the same question:
/// the next thing written is the same prompt.
pub proof fn law_unreadable_answer_asks_again<Q: Question>(
    qs: Seq<Q>,
    pipe_mod: PipeMod,
    s: Seq<char>,
    index: int,
    pos: int,
    lines: nat,
    message: Seq<char>,
)
    requires
        0 <= index < qs.len(),
        0 <= pos < s.len(),
        qs[index].verdict(trimmed(s.subrange(pos, line_end(s, pos)))) == Err::<bool, Seq<char>>(message),
    ensures
        ({
            let p = qs[index].prompt();
            let here = trace_from(qs, pipe_mod, s, index, pos, lines);
            let rest = trace_from(qs, pipe_mod, s, index, line_end(s, pos), lines + 1);
            &&& here.output == p + "\n"@ + message + "\n"@ + rest.output
            &&& here.resolutions == rest.resolutions
            &&& here.finished == rest.finished
            &&& rest.output.subrange(0, p.len() + 1int) == p + "\n"@
        }),
{
    lemma_trace_step(qs, pipe_mod, s, index, pos, lines);
    lemma_asks_first(qs, pipe_mod, s, index, line_end(s, pos), lines + 1);
    reveal_strlit("\n");
}

/// Every question of the list can be asked.
pub open spec fn all_well_formed<Q: Question>(qs: Seq<Q>) -> bool {
    forall|i: int| 0 <= i < qs.len() ==> (#[trigger] qs[i]).well_formed()
}

fn find_line_end(input: &str, len: usize, from: usize) -> (r: usize)
    requires
        len == input@.len(),
        from < len,
    ensures
        r == line_end(input@, from as int),
{
    let mut i: usize = from;
    while i < len && input.get_char(i) != '\n'
        invariant
            from <= i <= len,
            len == input@.len(),
            line_end(input@, from as int) == line_end(input@, i as int),
        decreases len - i,
    {
        i = i + 1;
    }
    if i < len {
        i + 1
    } else {
        i
    }
}

/// The line to write after a check, and the outcome when the answer could be
/// checked.
pub fn outcome_of(result: &Result<bool, CheckError>) -> (r: (String, Option<bool>))
    ensures
        r.0@ == outcome_line(verdict_of(*result)),
        r.1 == match result {
            Ok(c) => Some(*c),
            Err(_) => None::<bool>,
        },
{
    proof {
        reveal_strlit("true");
        reveal_strlit("false");
    }
    match result {
        Ok(correct) => {
            let text = if *correct {
                String::from_str("true")
            } else {
                String::from_str("false")
            };
            (text, Some(*correct))
        },
        Err(error) => (error.message(), None),
    }
}

/// One step after a check, for a driver that makes the check itself: the
/// line to write after the prompt, the resolved step when the answer could be
/// checked (for question `index`, with `lines_read` lines read), and the index
/// of the question asked next.
pub fn step_outcome(
    result: &Result<bool, CheckError>,
    index: usize,
    pipe_mod: &PipeMod,
    lines_read: usize,
) -> (r: (String, Option<Resolution>, usize))
    requires
        index < usize::MAX,
    ensures
        r.0@ == outcome_line(verdict_of(*result)),
        r.1 == match result {
            Ok(c) => Some(Resolution { index, correct: *c, lines_read }),
            Err(_) => None::<Resolution>,
        },
        r.2 == after_outcome(index as int, verdict_of(*result), *pipe_mod),
{
    let (text, outcome) = outcome_of(result);
    match outcome {
        Some(correct) => (
            text,
            Some(Resolution { index, correct, lines_read }),
            next_index(index, correct, pipe_mod),
        ),
        None => (text, None, index),
    }
}

/// One step of a run, for a driver that reads answers one at a time: checks
/// `line` against question `index`, and gives the line to write after the
/// prompt, the resolved step when the answer could be checked, and the index
/// of the question asked next, as `trace_from` takes them.
pub fn pipeline_step<Q: Question>(
    questions: &Vec<Q>,
    pipe_mod: &PipeMod,
    index: usize,
    line: &String,
    lines_read: usize,
) -> (r: (String, Option<Resolution>, usize))
    requires
        index < questions@.len(),
        questions@[index as int].well_formed(),
    ensures
        ({
            let v = questions@[index as int].verdict(trimmed(line@));
            &&& r.0@ == outcome_line(v)
            &&& r.1 == match v {
                Ok(c) => Some(Resolution { index, correct: c, lines_read }),
                Err(_) => None::<Resolution>,
            }
            &&& r.2 == after_outcome(index as int, v, *pipe_mod)
        }),
{
    let count: usize = questions.len();
    let result = questions[index].check(line);
    step_outcome(&result, index, pipe_mod, lines_read)
}

/// Runs the questions over the lines of `input`, writing each prompt and each
/// outcome to `output`, and returns the resolved steps in order.
pub fn run<Q: Question>(
    questions: &Vec<Q>,
    pipe_mod: &PipeMod,
    input: &str,
    output: &mut String,
) -> (r: Result<Vec<Resolution>, PipeError>)
    requires
        all_well_formed(questions@),
    ensures
        final(output)@ == old(output)@ + run_trace(questions@, *pipe_mod, input@).output,
        match r {
            Ok(v) => run_trace(questions@, *pipe_mod, input@).finished
                && v@ == run_trace(questions@, *pipe_mod, input@).resolutions
                && forall|i: int| 0 <= i < v@.len() ==> (#[trigger] v@[i]).lines_read <= input@.len(),
            Err(e) => !run_trace(questions@, *pipe_mod, input@).finished && e == PipeError::InputExhausted,
        },
{
    let ghost qs = questions@;
    let ghost s = input@;
    let ghost whole = run_trace(qs, *pipe_mod, s);
    let ghost start = output@;
    let mut resolved: Vec<Resolution> = Vec::new();
    if questions.len() == 0 {
        assert(output@ =~= start + whole.output);
        return Ok(resolved);
    }
    let len: usize = input.unicode_len();
    let count: usize = questions.len();
    let mut index: usize = 0;
    let mut pos: usize = 0;
    let mut lines: usize = 0;
    loop
        invariant
            qs == questions@,
            s == input@,
            start == old(output)@,
            len == s.len(),
            all_well_formed(qs),
            whole == run_trace(qs, *pipe_mod, s),
            count == qs.len(),
            index < qs.len(),
            lines <= pos <= len,
            start + whole.output == output@ + trace_from(qs, *pipe_mod, s, index as int, pos as int, lines as nat).output,
            whole.resolutions == resolved@ + trace_from(qs, *pipe_mod, s, index as int, pos as int, lines as nat).resolutions,
            whole.finished == trace_from(qs, *pipe_mod, s, index as int, pos as int, lines as nat).finished,
            forall|i: int| 0 <= i < resolved@.len() ==> (#[trigger] resolved@[i]).lines_read <= len,
        decreases len - pos,
    {
        let ghost before = output@;
        let question = &questions[index];
        let body = question.body();
        output.append(body.as_str());
        output.append("\n");
        if pos >= len {
            assert(start + whole.output =~= output@);
            assert(whole.resolutions =~= resolved@ + Seq::<Resolution>::empty());
            return Err(PipeError::InputExhausted);
        }
        proof {
            lemma_trace_step(qs, *pipe_mod, s, index as int, pos as int, lines as nat);
        }
        let end: usize = find_line_end(input, len, pos);
        let line = String::from_str(input.substring_char(pos, end));
        lines = lines + 1;
        let (text, resolution, next) = pipeline_step(questions, pipe_mod, index, &line, lines);
        output.append(text.as_str());
        output.append("\n");
        match resolution {
            Some(step) => {
                resolved.push(step);
            },
            None => {},
        }
        index = next;
        pos = end;
        proof {
            let rest = trace_from(qs, *pipe_mod, s, index as int, pos as int, lines as nat);
            assert(start + whole.output =~= output@ + rest.output);
            assert(whole.resolutions =~= resolved@ + rest.resolutions);
        }
        if index == count {
            assert(output@ =~= start + whole.output);
            assert(resolved@ =~= whole.resolutions);
            return Ok(resolved);
        }
    }
}

/// Runs the questions as `run` does, keeping only whether the run finished.
pub fn run_without_steps<Q: Question>(
    questions: &Vec<Q>,
    pipe_mod: &PipeMod,
    input: &str,
    output: &mut String,
) -> (r: Result<(), PipeError>)
    requires
        all_well_formed(questions@),
    ensures
        final(output)@ == old(output)@ + run_trace(questions@, *pipe_mod, input@).output,
        r is Ok <==> run_trace(questions@, *pipe_mod, input@).finished,
        r is Err ==> r == Err::<(), PipeError>(PipeError::InputExhausted),
{
    match run(questions, pipe_mod, input, output) {
        Ok(_) => Ok(()),
        Err(e) => Err(e),
    }
}

/// When each resolved step was resolved, counted from the start of the run,
/// when every line of input takes `delay` seconds to arrive.
pub open spec fn arrival_times(rs: Seq<Resolution>, delay: u64) -> Seq<u64> {
    Seq::new(rs.len(), |i: int| (rs[i].lines_read * delay) as u64)
}

/// Runs the questions as `run` does over input whose lines each take
/// `delay_secs` seconds to arrive, and collects the samples that
/// `stats_config` asks for: for each step sampled under the policy, the time
/// since the start of the run and the outcome.
pub fn run_with_stats<Q: Question>(
    questions: &Vec<Q>,
    pipe_mod: &PipeMod,
    input: &DefferedInput,
    output: &mut String,
    stats_config: &StatsConfig,
) -> (r: Result<CollectedStats, PipeError>)
    requires
        all_well_formed(questions@),
        input.input@.len() * input.delay_secs <= u64::MAX,
    ensures
        final(output)@ == old(output)@ + run_trace(questions@, *pipe_mod, input.input@).output,
        match r {
            Ok(c) => {
                let t = run_trace(questions@, *pipe_mod, input.input@);
                let n = t.resolutions.len() as int;
                &&& t.finished
                &&& match c.times_secs {
                    Some(v) => stats_config.time && v@ == time_samples(
                        *pipe_mod,
                        t.resolutions,
                        arrival_times(t.resolutions, input.delay_secs),
                        n,
                    ),
                    None => !stats_config.time,
                }
                &&& match c.pos_negs {
                    Some(v) => stats_config.percentage && v@ == outcome_samples(*pipe_mod, t.resolutions, n),
                    None => !stats_config.percentage,
                }
            },
            Err(e) => !run_trace(questions@, *pipe_mod, input.input@).finished
                && e == PipeError::InputExhausted,
        },
{
    let resolved = match run(questions, pipe_mod, input.input, output) {
        Ok(v) => v,
        Err(e) => {
            return Err(e);
        },
    };
    let ghost len = input.input@.len();
    let delay: u64 = input.delay_secs;
    let mut times: Vec<u64> = Vec::new();
    let mut i: usize = 0;
    while i < resolved.len()
        invariant
            i <= resolved@.len(),
            len == input.input@.len(),
            delay == input.delay_secs,
            len * delay <= u64::MAX,
            forall|k: int| 0 <= k < resolved@.len() ==> (#[trigger] resolved@[k]).lines_read <= len,
            times@ == arrival_times(resolved@, delay).take(i as int),
        decreases resolved@.len() - i,
    {
        let lines: u64 = resolved[i].lines_read as u64;
        assert(lines * delay <= len * delay) by (nonlinear_arith)
            requires
                lines <= len,
        ;
        times.push(lines * delay);
        assert(times@ =~= arrival_times(resolved@, delay).take(i + 1));
        i = i + 1;
    }
    assert(times@ =~= arrival_times(resolved@, delay));
    Ok(collect_stats(pipe_mod, &resolved, &times, stats_config))
}

} // verus!
