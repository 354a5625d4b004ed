//! Random questions of a chosen kind.

use vstd::prelude::*;
use rand::rngs::ThreadRng;
use rand::seq::SliceRandom;
use rand::Rng;
use crate::abstract_sequence::{all_combinations, universe, Missing, SeqItem};
use crate::arithmetic::{Div, Mod, Mul, Sub, Sum};
use crate::task::{Question, Task};

verus! {

/// rand's thread-local generator, carried through as an opaque value.
#[verifier::external_type_specification]
#[verifier::external_body]
pub struct ExThreadRng(ThreadRng);

/// Relies on `Rng::gen_range` over `0..n`: a value in the range, which it
/// requires to be non-empty.
#[verifier::external_body]
fn random_below(rng: &mut ThreadRng, n: usize) -> (r: usize)
    requires
        n > 0,
    ensures
        r < n,
{
    rng.gen_range(0..n)
}

/// Relies on `SliceRandom::shuffle`, which only swaps elements: the same items
/// in some order.
#[verifier::external_body]
fn shuffle_items(items: &mut Vec<SeqItem>, rng: &mut ThreadRng)
    ensures
        final(items)@.to_multiset() == old(items)@.to_multiset(),
{
    items.shuffle(rng)
}

/// A value drawn from `low..high`.
fn random_in(rng: &mut ThreadRng, low: i32, high: i32) -> (r: i32)
    requires
        low < high,
    ensures
        low <= r < high,
{
    let span: usize = (high as i64 - low as i64) as usize;
    (low as i64 + random_below(rng, span) as i64) as i32
}

/// The nine items of the universe are distinct.
pub proof fn lemma_universe_distinct()
    ensures
        universe().no_duplicates(),
{
    assert forall|i: int, j: int| 0 <= i < 9 && 0 <= j < 9 && i != j implies universe()[i]
        != universe()[j] by {
        assert(i == 3 * (i / 3) + i % 3);
        assert(j == 3 * (j / 3) + j % 3);
    }
}

/// The items of a shuffled universe are nine distinct items.
pub proof fn lemma_shuffled_distinct(items: Seq<SeqItem>)
    requires
        items.to_multiset() == universe().to_multiset(),
    ensures
        items.no_duplicates(),
        items.len() == 9,
{
    lemma_universe_distinct();
    universe().lemma_multiset_has_no_duplicates();
    items.lemma_multiset_has_no_duplicates_conv();
    items.to_multiset_ensures();
    universe().to_multiset_ensures();
}

/// Taking one item out of distinct items leaves distinct items: all the
/// others, and only them.
proof fn lemma_remove_distinct(s: Seq<SeqItem>, i: int)
    requires
        s.no_duplicates(),
        0 <= i < s.len(),
    ensures
        s.remove(i).no_duplicates(),
        s.remove(i).len() == s.len() - 1,
        forall|x: SeqItem| #[trigger] s.remove(i).contains(x) <==> s.contains(x) && x != s[i],
{
    let r = s.remove(i);
    assert forall|a: int, b: int| 0 <= a < r.len() && 0 <= b < r.len() && a != b implies r[a]
        != r[b] by {
        let sa = if a < i { a } else { a + 1 };
        let sb = if b < i { b } else { b + 1 };
        assert(r[a] == s[sa] && r[b] == s[sb]);
    }
    assert forall|x: SeqItem| #[trigger] r.contains(x) <==> s.contains(x) && x != s[i] by {
        if r.contains(x) {
            let a = choose|a: int| 0 <= a < r.len() && r[a] == x;
            let sa = if a < i { a } else { a + 1 };
            assert(s[sa] == x);
        }
        if s.contains(x) && x != s[i] {
            let k = choose|k: int| 0 <= k < s.len() && s[k] == x;
            let a = if k < i { k } else { k - 1 };
            assert(r[a] == x);
        }
    }
}

/// How many options a pattern-completion question offers.
pub const OPTIONS_COUNT: usize = 4;

/// What a distractor can still be drawn from once `d` distractors have been
/// drawn: the items without the solution and without those `d`, in order.
pub open spec fn pool(items: Seq<SeqItem>, solution_index: int, picks: Seq<usize>, d: int) -> Seq<SeqItem>
    decreases d,
{
    if d <= 0 {
        items.remove(solution_index)
    } else {
        pool(items, solution_index, picks, d - 1).remove(picks[d - 1] as int)
    }
}

/// The distractor drawn `d`-th: the item at `picks[d]` in what is left to draw from.
pub open spec fn distractor(items: Seq<SeqItem>, solution_index: int, picks: Seq<usize>, d: int) -> SeqItem {
    pool(items, solution_index, picks, d)[picks[d] as int]
}

/// How many distractor slots come before slot `j` when the solution is at
/// `right_position`.
pub open spec fn rank(j: int, right_position: int) -> int {
    if j < right_position {
        j
    } else {
        j - 1
    }
}

/// One pick per distractor, each within what is left to draw from: the
/// `d`-th below `8 - d`.
pub open spec fn picks_in_range(picks: Seq<usize>) -> bool {
    &&& picks.len() == OPTIONS_COUNT - 1
    &&& forall|d: int| 0 <= d < picks.len() ==> #[trigger] picks[d] < 8 - d
}

/// What a generated pattern-completion question satisfies: its items are the
/// universe in some order, the solution is one of them, and the options are
/// distinct items among which the solution stands once.
pub open spec fn generated_missing(m: Missing) -> bool {
    &&& m.items@.to_multiset() == universe().to_multiset()
    &&& m.items@.contains(m.solution)
    &&& m.options@.len() == OPTIONS_COUNT
    &&& m.options@.contains(m.solution)
    &&& m.options@.no_duplicates()
    &&& forall|i: int| 0 <= i < m.options@.len() ==> m.items@.contains(#[trigger] m.options@[i])
}

/// Builds a pattern-completion question from drawn values: the solution is
/// `items[solution_index]` and stands at `right_position`; the other slots,
/// in order, take the distractor drawn next, `picks[d]` being its place among
/// the items that are neither the solution nor already drawn.
pub fn build_missing(
    items: Vec<SeqItem>,
    solution_index: usize,
    right_position: usize,
    picks: Vec<usize>,
) -> (m: Missing)
    requires
        items@.len() == 9,
        items@.no_duplicates(),
        solution_index < 9,
        right_position < OPTIONS_COUNT,
        picks_in_range(picks@),
    ensures
        m.items@ == items@,
        m.solution == items@[solution_index as int],
        m.options@.len() == OPTIONS_COUNT,
        m.options@[right_position as int] == m.solution,
        forall|j: int|
            0 <= j < OPTIONS_COUNT && j != right_position ==> #[trigger] m.options@[j] == distractor(
                items@,
                solution_index as int,
                picks@,
                rank(j, right_position as int),
            ),
        m.options@.no_duplicates(),
        forall|j: int| 0 <= j < m.options@.len() ==> items@.contains(#[trigger] m.options@[j]),
{
    let solution = items[solution_index];
    let mut rest = items.clone();
    let ghost si = solution_index as int;
    let ghost rp = right_position as int;
    assert(rest@ =~= items@);
    rest.remove(solution_index);
    proof {
        lemma_remove_distinct(items@, si);
    }
    let mut options: Vec<SeqItem> = Vec::new();
    let mut d: usize = 0;
    while options.len() < OPTIONS_COUNT
        invariant
            items@.len() == 9,
            items@.no_duplicates(),
            si == solution_index,
            rp == right_position,
            si < 9,
            rp < OPTIONS_COUNT,
            solution == items@[si],
            picks_in_range(picks@),
            options@.len() <= OPTIONS_COUNT,
            d == if options@.len() <= rp { options@.len() as int } else { options@.len() - 1 },
            rest@ == pool(items@, si, picks@, d as int),
            rest@.len() == 8 - d,
            rest@.no_duplicates(),
            forall|x: SeqItem| #[trigger] rest@.contains(x) ==> items@.contains(x) && x != solution
                && !options@.contains(x),
            options@.len() > rp ==> options@[rp] == solution,
            forall|j: int| 0 <= j < options@.len() && j != rp ==> #[trigger] options@[j] != solution,
            forall|j: int|
                0 <= j < options@.len() && j != rp ==> #[trigger] options@[j] == distractor(
                    items@,
                    si,
                    picks@,
                    rank(j, rp),
                ),
            options@.no_duplicates(),
            forall|j: int| 0 <= j < options@.len() ==> items@.contains(#[trigger] options@[j]),
        decreases OPTIONS_COUNT - options@.len(),
    {
        let ghost before = options@;
        if options.len() == right_position {
            assert(!before.contains(solution)) by {
                if before.contains(solution) {
                    let k = choose|k: int| 0 <= k < before.len() && before[k] == solution;
                    assert(k != rp);
                }
            }
            options.push(solution);
            proof {
                assert(items@[si] == solution);
                assert forall|a: int, b: int|
                    0 <= a < options@.len() && 0 <= b < options@.len() && a != b implies options@[a]
                    != options@[b] by {
                    if a == before.len() {
                        assert(before[b] == options@[b]);
                    }
                    if b == before.len() {
                        assert(before[a] == options@[a]);
                    }
                }
                assert forall|x: SeqItem| #[trigger] rest@.contains(x) implies !options@.contains(x) by {
                    if options@.contains(x) {
                        let k = choose|k: int| 0 <= k < options@.len() && options@[k] == x;
                        if k < before.len() {
                            assert(before[k] == x);
                        }
                    }
                }
            }
        } else {
            let ghost old_rest = rest@;
            let p: usize = picks[d];
            assert(p < 8 - d);
            let pick = rest.remove(p);
            proof {
                lemma_remove_distinct(old_rest, p as int);
                assert(old_rest.contains(pick));
            }
            options.push(pick);
            proof {
                assert forall|a: int, b: int|
                    0 <= a < options@.len() && 0 <= b < options@.len() && a != b implies options@[a]
                    != options@[b] by {
                    if a == before.len() {
                        assert(before[b] == options@[b]);
                        assert(before.contains(before[b]));
                    }
                    if b == before.len() {
                        assert(before[a] == options@[a]);
                        assert(before.contains(before[a]));
                    }
                }
                assert forall|x: SeqItem| #[trigger] rest@.contains(x) implies items@.contains(x) && x
                    != solution && !options@.contains(x) by {
                    assert(old_rest.contains(x));
                    if options@.contains(x) {
                        let k = choose|k: int| 0 <= k < options@.len() && options@[k] == x;
                        if k < before.len() {
                            assert(before[k] == x);
                            assert(before.contains(x));
                        }
                    }
                }
            }
            d = d + 1;
        }
    }
    Missing { items, options, solution }
}

/// A random pattern-completion question: the universe shuffled, one of its
/// items drawn as the solution, a slot drawn for it among the four options,
/// and for each other slot in order a distractor drawn uniformly from the
/// items that are neither the solution nor already among the options.
pub fn abstract_seq_missing(rng: &mut ThreadRng) -> (m: Missing)
    ensures
        generated_missing(m),
{
    let mut items = all_combinations();
    shuffle_items(&mut items, rng);
    proof {
        lemma_shuffled_distinct(items@);
    }
    let ghost shuffled = items@;
    let length: usize = items.len();
    let solution_index: usize = random_below(rng, length);
    let right_position: usize = random_below(rng, OPTIONS_COUNT);
    let mut picks: Vec<usize> = Vec::new();
    let mut d: usize = 0;
    while d < OPTIONS_COUNT - 1
        invariant
            d <= OPTIONS_COUNT - 1,
            picks@.len() == d,
            forall|e: int| 0 <= e < picks@.len() ==> #[trigger] picks@[e] < 8 - e,
        decreases OPTIONS_COUNT - 1 - d,
    {
        picks.push(random_below(rng, 8 - d));
        d = d + 1;
    }
    let m = build_missing(items, solution_index, right_position, picks);
    assert(m.options@[right_position as int] == m.solution);
    assert(m.items@[solution_index as int] == m.solution);
    m
}

/// The kinds of question that can be generated.
#[derive(Debug, PartialEq, Eq, Structural, Clone, Copy)]
pub enum Kind {
    Sum,
    Sub,
    Mul,
    Div,
    Mod,
    Missing,
}

/// The question is of the kind, with operands in the kind's ranges: `0..100`
/// for sums and differences, `0..25` for products, a dividend in `1..20` and a
/// divisor in `1..10` for quotients and remainders.
pub open spec fn generated(kind: Kind, t: Task) -> bool {
    match kind {
        Kind::Sum => t matches Task::Sum(q) && 0 <= q.a < 100 && 0 <= q.b < 100,
        Kind::Sub => t matches Task::Sub(q) && 0 <= q.a < 100 && 0 <= q.b < 100,
        Kind::Mul => t matches Task::Mul(q) && 0 <= q.a < 25 && 0 <= q.b < 25,
        Kind::Div => t matches Task::Div(q) && 1 <= q.a < 20 && 1 <= q.b < 10,
        Kind::Mod => t matches Task::Mod(q) && 1 <= q.a < 20 && 1 <= q.b < 10,
        Kind::Missing => t matches Task::Missing(m) && generated_missing(m),
    }
}

/// One random question of the kind.
pub fn generate_task(kind: Kind, rng: &mut ThreadRng) -> (t: Task)
    ensures
        generated(kind, t),
        t.well_formed(),
{
    match kind {
        Kind::Sum => Task::Sum(Sum { a: random_in(rng, 0, 100), b: random_in(rng, 0, 100) }),
        Kind::Sub => Task::Sub(Sub { a: random_in(rng, 0, 100), b: random_in(rng, 0, 100) }),
        Kind::Mul => Task::Mul(Mul { a: random_in(rng, 0, 25), b: random_in(rng, 0, 25) }),
        Kind::Div => Task::Div(Div { a: random_in(rng, 1, 20), b: random_in(rng, 1, 10) }),
        Kind::Mod => Task::Mod(Mod { a: random_in(rng, 1, 20), b: random_in(rng, 1, 10) }),
        Kind::Missing => Task::Missing(abstract_seq_missing(rng)),
    }
}

/// `count` random questions of the kind.
pub fn generate_tasks(kind: Kind, count: u32, rng: &mut ThreadRng) -> (r: Vec<Task>)
    ensures
        r@.len() == count,
        forall|i: int| 0 <= i < r@.len() ==> generated(kind, #[trigger] r@[i]),
        forall|i: int| 0 <= i < r@.len() ==> (#[trigger] r@[i]).well_formed(),
{
    let mut tasks: Vec<Task> = Vec::new();
    let mut i: u32 = 0;
    while i < count
        invariant
            i <= count,
            tasks@.len() == i,
            forall|k: int| 0 <= k < tasks@.len() ==> generated(kind, #[trigger] tasks@[k]),
            forall|k: int| 0 <= k < tasks@.len() ==> (#[trigger] tasks@[k]).well_formed(),
        decreases count - i,
    {
        tasks.push(generate_task(kind, rng));
        i = i + 1;
    }
    tasks
}

} // verus!
