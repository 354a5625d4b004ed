//! The record kept for each answered question, and the statement that stores it.

use vstd::prelude::*;
use crate::text::{append_int, int_text};

verus! {

/// One answered question as it is stored.
#[derive(Debug, PartialEq, Eq)]
pub struct Stats {
    pub id: String,
    pub question_type: String,
    pub formatted_body: String,
    pub is_answer_right: bool,
    pub time_millis: i64,
    pub created_at_millis: i64,
}

/// Text as it stands inside single quotes in SQL: each `'` doubled.
pub open spec fn quoted(s: Seq<char>) -> Seq<char>
    decreases s.len(),
{
    if s.len() == 0 {
        Seq::empty()
    } else {
        quoted(s.drop_last()) + if s.last() == '\'' {
            seq!['\'', '\'']
        } else {
            seq![s.last()]
        }
    }
}

fn append_quoted(out: &mut String, s: &str)
    ensures
        final(out)@ == old(out)@ + quoted(s@),
{
    proof {
        reveal_strlit("''");
    }
    let ghost start = out@;
    let len: usize = s.unicode_len();
    let mut i: usize = 0;
    assert(s@.take(0) =~= Seq::<char>::empty());
    while i < len
        invariant
            len == s@.len(),
            i <= len,
            start == old(out)@,
            "''"@ == seq!['\'', '\''],
            out@ == start + quoted(s@.take(i as int)),
        decreases len - i,
    {
        assert(s@.take(i + 1).drop_last() =~= s@.take(i as int));
        let c = s.get_char(i);
        if c == '\'' {
            out.append("''");
        } else {
            let one = s.substring_char(i, i + 1);
            assert(one@ =~= seq![c]);
            out.append(one);
        }
        assert(out@ =~= start + quoted(s@.take(i + 1)));
        i = i + 1;
    }
    assert(s@.take(len as int) =~= s@);
}

/// The statement that stores `stats`, replacing any record with its id. The
/// text fields stand between single quotes, with each `'` in them doubled.
pub open spec fn insert_statement(stats: Stats) -> Seq<char> {
    "INSERT OR REPLACE INTO Stats VALUES ('"@ + quoted(stats.id@) + "', '"@ + quoted(stats.question_type@)
        + "', '"@ + quoted(stats.formatted_body@) + "', "@ + (if stats.is_answer_right { "1"@ } else { "0"@ }) + ", "@
        + int_text(stats.time_millis as int) + ", "@ + int_text(stats.created_at_millis as int) + ");"@
}

/// The statement that stores `stats`.
pub fn insert_query(stats: &Stats) -> (r: String)
    ensures
        r@ == insert_statement(*stats),
{
    let mut q = String::from_str("INSERT OR REPLACE INTO Stats VALUES ('");
    append_quoted(&mut q, stats.id.as_str());
    q.append("', '");
    append_quoted(&mut q, stats.question_type.as_str());
    q.append("', '");
    append_quoted(&mut q, stats.formatted_body.as_str());
    q.append("', ");
    if stats.is_answer_right {
        q.append("1");
    } else {
        q.append("0");
    }
    q.append(", ");
    append_int(&mut q, stats.time_millis);
    q.append(", ");
    append_int(&mut q, stats.created_at_millis);
    q.append(");");
    q
}

} // verus!
