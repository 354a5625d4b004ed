//! Pattern completion: find the item left out of a shown sequence.

use vstd::prelude::*;
use crate::task::{not_in_range_message, not_integer_message, CheckError, Question};
use crate::text::{append_nat, nat_text, parse_i32, parsed_i32};

verus! {

/// The shape of an item.
#[derive(Debug, PartialEq, Eq, Structural, Clone, Copy)]
pub enum Form {
    Star,
    Ampersand,
    Cover,
}

/// How many times an item's glyph is repeated.
#[derive(Debug, PartialEq, Eq, Structural, Clone, Copy)]
pub enum Size {
    Small,
    Medium,
    Big,
}

/// One item of the universe: a form in a size.
#[derive(Debug, PartialEq, Eq, Structural, Clone, Copy)]
pub struct SeqItem {
    pub form: Form,
    pub size: Size,
}

/// A pattern-completion question: `items` with `solution` hidden, and the
/// numbered `options` to pick it from.
#[derive(Debug, PartialEq, Eq)]
pub struct Missing {
    pub items: Vec<SeqItem>,
    pub options: Vec<SeqItem>,
    pub solution: SeqItem,
}

/// An enumeration whose three values are numbered `0`, `1` and `2` in order.
pub trait OrderedEnum: Sized {
    /// The value with number `index`.
    spec fn spec_by_index(index: u8) -> Self;

    /// The value with number `index`.
    fn by_index(index: u8) -> (r: Self)
        requires
            index < 3,
        ensures
            r == Self::spec_by_index(index),
    ;
}

impl OrderedEnum for Form {
    open spec fn spec_by_index(index: u8) -> Form {
        if index == 0 {
            Form::Star
        } else if index == 1 {
            Form::Ampersand
        } else {
            Form::Cover
        }
    }

    fn by_index(index: u8) -> (r: Form) {
        match index {
            0 => Form::Star,
            1 => Form::Ampersand,
            _ => Form::Cover,
        }
    }
}

impl OrderedEnum for Size {
    open spec fn spec_by_index(index: u8) -> Size {
        if index == 0 {
            Size::Small
        } else if index == 1 {
            Size::Medium
        } else {
            Size::Big
        }
    }

    fn by_index(index: u8) -> (r: Size) {
        match index {
            0 => Size::Small,
            1 => Size::Medium,
            _ => Size::Big,
        }
    }
}

/// The item at position `i` of the universe, forms major and sizes minor.
pub open spec fn universe_item(i: int) -> SeqItem {
    SeqItem {
        form: Form::spec_by_index((i / 3) as u8),
        size: Size::spec_by_index((i % 3) as u8),
    }
}

/// The nine items of the universe in their fixed order.
pub open spec fn universe() -> Seq<SeqItem> {
    Seq::new(9, |i: int| universe_item(i))
}

/// All nine items: every form in every size, forms major and sizes minor.
pub fn all_combinations() -> (r: Vec<SeqItem>)
    ensures
        r@ == universe(),
{
    let mut result: Vec<SeqItem> = Vec::new();
    let mut i: u8 = 0;
    while i < 3
        invariant
            i <= 3,
            result@ == universe().take(3 * i),
        decreases 3 - i,
    {
        let mut j: u8 = 0;
        while j < 3
            invariant
                i < 3,
                j <= 3,
                result@ == universe().take(3 * i + j),
            decreases 3 - j,
        {
            result.push(SeqItem { form: Form::by_index(i), size: Size::by_index(j) });
            assert(universe_item(3 * i + j) == SeqItem {
                form: Form::spec_by_index(i),
                size: Size::spec_by_index(j),
            }) by {
                assert((3 * i + j) / 3 == i as int);
                assert((3 * i + j) % 3 == j as int);
            }
            assert(result@ =~= universe().take(3 * i + j + 1));
            j = j + 1;
        }
        i = i + 1;
    }
    assert(result@ =~= universe());
    result
}

/// The glyph of a form.
pub open spec fn glyph(form: Form) -> char {
    match form {
        Form::Star => '*',
        Form::Ampersand => '&',
        Form::Cover => '^',
    }
}

/// How many glyphs a size stands for.
pub open spec fn size_count(size: Size) -> nat {
    match size {
        Size::Small => 1,
        Size::Medium => 2,
        Size::Big => 3,
    }
}

/// The text of an item: its glyph repeated as its size says.
pub open spec fn figure_text(item: SeqItem) -> Seq<char> {
    Seq::new(size_count(item.size), |i: int| glyph(item.form))
}

fn glyph_str(form: Form) -> (r: &'static str)
    ensures
        r@ == seq![glyph(form)],
{
    proof {
        reveal_strlit("*");
        reveal_strlit("&");
        reveal_strlit("^");
    }
    match form {
        Form::Star => "*",
        Form::Ampersand => "&",
        Form::Cover => "^",
    }
}

fn append_figure(out: &mut String, item: SeqItem)
    ensures
        final(out)@ == old(out)@ + figure_text(item),
{
    let symbol = glyph_str(item.form);
    let number: u8 = match item.size {
        Size::Small => 1,
        Size::Medium => 2,
        Size::Big => 3,
    };
    let ghost start = out@;
    let mut k: u8 = 0;
    while k < number
        invariant
            k <= number,
            number == size_count(item.size),
            symbol@ == seq![glyph(item.form)],
            out@ == start + Seq::new(k as nat, |i: int| glyph(item.form)),
        decreases number - k,
    {
        out.append(symbol);
        assert(Seq::new(k as nat, |i: int| glyph(item.form)) + seq![glyph(item.form)]
            =~= Seq::new((k + 1) as nat, |i: int| glyph(item.form)));
        k = k + 1;
    }
    assert(Seq::new(k as nat, |i: int| glyph(item.form)) =~= figure_text(item));
}

/// The text of an item: its glyph repeated once, twice or three times.
pub fn figure(item: &SeqItem) -> (r: String)
    ensures
        r@ == figure_text(*item),
{
    let mut out = String::new();
    append_figure(&mut out, *item);
    out
}

/// Words joined by single spaces.
pub open spec fn join_words(words: Seq<Seq<char>>) -> Seq<char>
    decreases words.len(),
{
    if words.len() == 0 {
        Seq::empty()
    } else if words.len() == 1 {
        words[0]
    } else {
        join_words(words.drop_last()) + " "@ + words.last()
    }
}

/// How an item of the sequence is shown: `?` when it equals the solution.
pub open spec fn item_word(item: SeqItem, solution: SeqItem) -> Seq<char> {
    if item == solution {
        "?"@
    } else {
        figure_text(item)
    }
}

/// How the option at 0-based position `i` is shown: `"{i + 1}. {figure}"`.
pub open spec fn option_word(i: int, item: SeqItem) -> Seq<char> {
    nat_text((i + 1) as nat) + ". "@ + figure_text(item)
}

/// The first line of the prompt.
pub open spec fn sequence_line(items: Seq<SeqItem>, solution: SeqItem) -> Seq<char> {
    join_words(items.map_values(|item: SeqItem| item_word(item, solution)))
}

/// The second line of the prompt.
pub open spec fn options_line(options: Seq<SeqItem>) -> Seq<char> {
    join_words(Seq::new(options.len(), |i: int| option_word(i, options[i])))
}

proof fn lemma_join_step(words: Seq<Seq<char>>, i: int)
    requires
        0 <= i < words.len(),
    ensures
        join_words(words.take(i + 1)) == if i == 0 {
            words[0]
        } else {
            join_words(words.take(i)) + " "@ + words[i]
        },
{
    assert(words.take(i + 1).drop_last() =~= words.take(i));
}

impl Question for Missing {
    open spec fn well_formed(&self) -> bool {
        true
    }

    open spec fn prompt(&self) -> Seq<char> {
        sequence_line(self.items@, self.solution) + "\n"@ + options_line(self.options@)
    }

    open spec fn verdict(&self, t: Seq<char>) -> Result<bool, Seq<char>> {
        match parsed_i32(t) {
            None => Err(not_integer_message(t)),
            Some(n) => if n < 1 || n > self.options@.len() {
                Err(not_in_range_message(n))
            } else {
                Ok(self.options@[n - 1] == self.solution)
            },
        }
    }

    fn body(&self) -> (r: String) {
        let ghost words = self.items@.map_values(|item: SeqItem| item_word(item, self.solution));
        let mut sequence = String::new();
        let mut i: usize = 0;
        while i < self.items.len()
            invariant
                i <= self.items@.len(),
                words == self.items@.map_values(|item: SeqItem| item_word(item, self.solution)),
                sequence@ == join_words(words.take(i as int)),
            decreases self.items@.len() - i,
        {
            proof {
                lemma_join_step(words, i as int);
            }
            if i > 0 {
                sequence.append(" ");
            }
            if self.items[i] == self.solution {
                sequence.append("?");
            } else {
                append_figure(&mut sequence, self.items[i]);
            }
            i = i + 1;
        }
        assert(words.take(i as int) =~= words);
        let ghost owords = Seq::new(self.options@.len(), |k: int| option_word(k, self.options@[k]));
        let mut options = String::new();
        let mut i: usize = 0;
        while i < self.options.len()
            invariant
                i <= self.options@.len(),
                owords == Seq::new(self.options@.len(), |k: int| option_word(k, self.options@[k])),
                options@ == join_words(owords.take(i as int)),
            decreases self.options@.len() - i,
        {
            proof {
                lemma_join_step(owords, i as int);
            }
            if i > 0 {
                options.append(" ");
            }
            let ghost before = options@;
            append_nat(&mut options, i as u64 + 1);
            options.append(". ");
            append_figure(&mut options, self.options[i]);
            assert(options@ =~= before + option_word(i as int, self.options@[i as int]));
            i = i + 1;
        }
        assert(owords.take(i as int) =~= owords);
        sequence.append("\n");
        sequence.append(options.as_str());
        sequence
    }

    fn check_trimmed(&self, t: &str) -> (r: Result<bool, CheckError>) {
        match parse_i32(t) {
            None => Err(CheckError::NotAnInteger(String::from_str(t))),
            Some(n) => {
                if n < 1 || n as usize > self.options.len() {
                    Err(CheckError::NotInRange(n))
                } else {
                    Ok(self.options[n as usize - 1] == self.solution)
                }
            },
        }
    }
}

} // verus!
