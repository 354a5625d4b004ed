//! Reading the choices of a session: the kind of question, the replay policy
//! and the samples to collect.

use vstd::prelude::*;
use crate::generate::Kind;
use crate::stats::StatsConfig;
use crate::tasks_pipe::PipeMod;
use crate::text::{trim, trimmed};

verus! {

fn same_text(a: &str, b: &str) -> (r: bool)
    ensures
        r == (a@ == b@),
{
    String::from_str(a) == String::from_str(b)
}

/// The replay policy named `s`: `"skip"` or `"right"`.
pub fn parse_pipe_mod(s: &str) -> (r: Option<PipeMod>)
    ensures
        r == if s@ == "skip"@ {
            Some(PipeMod::Skip)
        } else if s@ == "right"@ {
            Some(PipeMod::UntilRight)
        } else {
            None::<PipeMod>
        },
{
    if same_text(s, "skip") {
        Some(PipeMod::Skip)
    } else if same_text(s, "right") {
        Some(PipeMod::UntilRight)
    } else {
        None
    }
}

/// The kind of question named `s`.
pub fn parse_kind(s: &str) -> (r: Option<Kind>)
    ensures
        r == if s@ == "sum"@ {
            Some(Kind::Sum)
        } else if s@ == "sub"@ {
            Some(Kind::Sub)
        } else if s@ == "mul"@ {
            Some(Kind::Mul)
        } else if s@ == "div"@ {
            Some(Kind::Div)
        } else if s@ == "mod"@ {
            Some(Kind::Mod)
        } else if s@ == "missing"@ {
            Some(Kind::Missing)
        } else {
            None::<Kind>
        },
{
    if same_text(s, "sum") {
        Some(Kind::Sum)
    } else if same_text(s, "sub") {
        Some(Kind::Sub)
    } else if same_text(s, "mul") {
        Some(Kind::Mul)
    } else if same_text(s, "div") {
        Some(Kind::Div)
    } else if same_text(s, "mod") {
        Some(Kind::Mod)
    } else if same_text(s, "missing") {
        Some(Kind::Missing)
    } else {
        None
    }
}

/// The pieces of `s` between single spaces, empty pieces included.
pub open spec fn split_spaces(s: Seq<char>) -> Seq<Seq<char>>
    decreases s.len(),
{
    if s.len() == 0 {
        seq![Seq::empty()]
    } else {
        let p = split_spaces(s.drop_last());
        if s.last() == ' ' {
            p.push(Seq::empty())
        } else {
            p.update(p.len() - 1, p.last().push(s.last()))
        }
    }
}

/// The option tokens of `opts`: its pieces between spaces, each trimmed.
pub fn parse_config_stat_options(opts: String) -> (r: Vec<String>)
    ensures
        r@.len() == split_spaces(opts@).len(),
        forall|k: int| 0 <= k < r@.len() ==> (#[trigger] r@[k])@ == trimmed(split_spaces(opts@)[k]),
{
    let ghost s = opts@;
    let opts = opts.as_str();
    let len: usize = opts.unicode_len();
    let mut pieces: Vec<String> = Vec::new();
    let ghost mut raw: Seq<Seq<char>> = Seq::empty();
    let mut start: usize = 0;
    let mut i: usize = 0;
    assert(s.take(0) =~= Seq::<char>::empty());
    assert(s.subrange(0, 0) =~= Seq::<char>::empty());
    while i < len
        invariant
            s == opts@,
            len == s.len(),
            start <= i <= len,
            split_spaces(s.take(i as int)) == raw.push(s.subrange(start as int, i as int)),
            pieces@.len() == raw.len(),
            forall|k: int| 0 <= k < pieces@.len() ==> (#[trigger] pieces@[k])@ == trimmed(raw[k]),
        decreases len - i,
    {
        assert(s.take(i + 1).drop_last() =~= s.take(i as int));
        let c = opts.get_char(i);
        if c == ' ' {
            let piece = trim(opts.substring_char(start, i));
            pieces.push(String::from_str(piece));
            proof {
                raw = raw.push(s.subrange(start as int, i as int));
                assert(s.subrange(i + 1, i + 1) =~= Seq::<char>::empty());
            }
            start = i + 1;
        } else {
            assert(s.subrange(start as int, i as int).push(c) =~= s.subrange(start as int, i + 1));
        }
        i = i + 1;
    }
    assert(s.take(len as int) =~= s);
    let last = trim(opts.substring_char(start, len));
    pieces.push(String::from_str(last));
    proof {
        raw = raw.push(s.subrange(start as int, len as int));
    }
    pieces
}

/// Whether `token` is among `options`.
pub open spec fn has_option(options: Seq<String>, token: Seq<char>) -> bool {
    exists|k: int| 0 <= k < options.len() && (#[trigger] options[k])@ == token
}

fn contains_token(options: &Vec<String>, token: &str) -> (r: bool)
    ensures
        r == has_option(options@, token@),
{
    let mut k: usize = 0;
    while k < options.len()
        invariant
            k <= options@.len(),
            forall|j: int| 0 <= j < k ==> (#[trigger] options@[j])@ != token@,
        decreases options@.len() - k,
    {
        if same_text(options[k].as_str(), token) {
            return true;
        }
        k = k + 1;
    }
    false
}

/// The samples asked for by option tokens: `"time"` and `"percentage"`.
pub fn stats_config_from_options(options: &Vec<String>) -> (r: StatsConfig)
    ensures
        r.time == has_option(options@, "time"@),
        r.percentage == has_option(options@, "percentage"@),
{
    StatsConfig { time: contains_token(options, "time"), percentage: contains_token(options, "percentage") }
}

} // verus!
