//! The five arithmetic questions, each over two `i32` operands.

use vstd::prelude::*;
use crate::task::{not_integer_message, verdict_of, CheckError, Question};
use vstd::arithmetic::div_mod::{lemma_fundamental_div_mod, lemma_mod_bound};
use crate::text::{append_int, int_text, parse_i32, parsed_i32, trim, trimmed};

verus! {

/// `a + b`.
#[derive(Debug, PartialEq, Eq, Structural, Clone, Copy)]
pub struct Sum {
    pub a: i32,
    pub b: i32,
}

/// `a - b`.
#[derive(Debug, PartialEq, Eq, Structural, Clone, Copy)]
pub struct Sub {
    pub a: i32,
    pub b: i32,
}

/// `a * b`.
#[derive(Debug, PartialEq, Eq, Structural, Clone, Copy)]
pub struct Mul {
    pub a: i32,
    pub b: i32,
}

/// `a` divided by `b`, truncated toward zero.
#[derive(Debug, PartialEq, Eq, Structural, Clone, Copy)]
pub struct Div {
    pub a: i32,
    pub b: i32,
}

/// The remainder of `a` by `b`, with the sign of `a`.
#[derive(Debug, PartialEq, Eq, Structural, Clone, Copy)]
pub struct Mod {
    pub a: i32,
    pub b: i32,
}

pub open spec fn abs(v: int) -> nat {
    if v < 0 { (-v) as nat } else { v as nat }
}

/// Integer division truncated toward zero.
pub open spec fn trunc_div(a: int, b: int) -> int {
    if (a < 0) == (b < 0) {
        (abs(a) / abs(b)) as int
    } else {
        -((abs(a) / abs(b)) as int)
    }
}

/// The remainder that goes with `trunc_div`: it has the sign of the dividend.
pub open spec fn trunc_rem(a: int, b: int) -> int {
    if a < 0 {
        -((abs(a) % abs(b)) as int)
    } else {
        (abs(a) % abs(b)) as int
    }
}

/// The truncated quotient and the remainder put the dividend back together,
/// and the remainder is smaller than the divisor in magnitude.
pub proof fn lemma_trunc_div_rem(a: int, b: int)
    requires
        b != 0,
    ensures
        a == b * trunc_div(a, b) + trunc_rem(a, b),
        abs(trunc_rem(a, b)) < abs(b),
        trunc_rem(a, b) != 0 ==> (trunc_rem(a, b) < 0) == (a < 0),
{
    let q = abs(a) / abs(b);
    let m = abs(a) % abs(b);
    lemma_fundamental_div_mod(abs(a) as int, abs(b) as int);
    lemma_mod_bound(abs(a) as int, abs(b) as int);
    assert(abs(a) == abs(b) * q + m);
    if a < 0 {
        if b < 0 {
            assert(b * q == -(abs(b) * q)) by (nonlinear_arith)
                requires
                    b < 0,
                    abs(b) == -b,
            ;
        } else {
            assert(b * (-(q as int)) == -(abs(b) * q)) by (nonlinear_arith)
                requires
                    b > 0,
                    abs(b) == b,
            ;
        }
    } else {
        if b < 0 {
            assert(b * (-(q as int)) == abs(b) * q) by (nonlinear_arith)
                requires
                    b < 0,
                    abs(b) == -b,
            ;
        } else {
            assert(b * q == abs(b) * q);
        }
    }
}

/// Every arithmetic question, on every pair of operands (with a non-zero
/// divisor for quotients and remainders), accepts an answer that reads as an
/// `i32` exactly when it equals the exact result, the quotient truncated
/// toward zero and the remainder with the sign of the dividend.
pub proof fn law_answers_match_exact_results(a: i32, b: i32, t: Seq<char>)
    requires
        parsed_i32(t) is Some,
    ensures
        (Sum { a, b }).verdict(t) == Ok::<bool, Seq<char>>(parsed_i32(t)->0 as int == a + b),
        (Sub { a, b }).verdict(t) == Ok::<bool, Seq<char>>(parsed_i32(t)->0 as int == a - b),
        (Mul { a, b }).verdict(t) == Ok::<bool, Seq<char>>(parsed_i32(t)->0 as int == a * b),
        b != 0 ==> (Div { a, b }).verdict(t) == Ok::<bool, Seq<char>>(
            parsed_i32(t)->0 as int == trunc_div(a as int, b as int),
        ),
        b != 0 ==> (Mod { a, b }).verdict(t) == Ok::<bool, Seq<char>>(
            parsed_i32(t)->0 as int == trunc_rem(a as int, b as int),
        ),
{
}

/// The prompt `"{a} {op} {b} = ?"`.
pub open spec fn binary_prompt(a: i32, op: Seq<char>, b: i32) -> Seq<char> {
    int_text(a as int) + op + int_text(b as int) + " = ?"@
}

/// The outcome of a trimmed integer answer against the exact `solution`.
pub open spec fn integer_verdict(t: Seq<char>, solution: int) -> Result<bool, Seq<char>> {
    match parsed_i32(t) {
        Some(v) => Ok(v as int == solution),
        None => Err(not_integer_message(t)),
    }
}

/// Reads an answer that has already been trimmed as an `i32`.
pub fn parse_answer_i32(t: &str) -> (r: Result<i32, CheckError>)
    ensures
        match parsed_i32(t@) {
            Some(v) => r == Ok::<i32, CheckError>(v),
            None => r matches Err(CheckError::NotAnInteger(s)) && s@ == t@,
        },
{
    match parse_i32(t) {
        Some(v) => Ok(v),
        None => Err(CheckError::NotAnInteger(String::from_str(t))),
    }
}

/// Reads a typed answer as an `i32`, after trimming white space around it.
pub fn convert_to_i32(value: &String) -> (r: Result<i32, CheckError>)
    ensures
        match parsed_i32(trimmed(value@)) {
            Some(v) => r == Ok::<i32, CheckError>(v),
            None => r matches Err(CheckError::NotAnInteger(s)) && s@ == trimmed(value@),
        },
{
    parse_answer_i32(trim(value.as_str()))
}

fn binary_body(a: i32, op: &str, b: i32) -> (r: String)
    ensures
        r@ == binary_prompt(a, op@, b),
{
    let mut out = String::new();
    append_int(&mut out, a as i64);
    out.append(op);
    append_int(&mut out, b as i64);
    out.append(" = ?");
    out
}

fn integer_check(t: &str, solution: i64) -> (r: Result<bool, CheckError>)
    ensures
        verdict_of(r) == integer_verdict(t@, solution as int),
{
    match parse_answer_i32(t) {
        Ok(v) => Ok(v as i64 == solution),
        Err(e) => Err(e),
    }
}

impl Question for Sum {
    open spec fn well_formed(&self) -> bool {
        true
    }

    open spec fn prompt(&self) -> Seq<char> {
        binary_prompt(self.a, " + "@, self.b)
    }

    open spec fn verdict(&self, t: Seq<char>) -> Result<bool, Seq<char>> {
        integer_verdict(t, self.a + self.b)
    }

    fn body(&self) -> (r: String) {
        binary_body(self.a, " + ", self.b)
    }

    fn check_trimmed(&self, t: &str) -> (r: Result<bool, CheckError>) {
        integer_check(t, self.a as i64 + self.b as i64)
    }
}

impl Question for Sub {
    open spec fn well_formed(&self) -> bool {
        true
    }

    open spec fn prompt(&self) -> Seq<char> {
        binary_prompt(self.a, " - "@, self.b)
    }

    open spec fn verdict(&self, t: Seq<char>) -> Result<bool, Seq<char>> {
        integer_verdict(t, self.a - self.b)
    }

    fn body(&self) -> (r: String) {
        binary_body(self.a, " - ", self.b)
    }

    fn check_trimmed(&self, t: &str) -> (r: Result<bool, CheckError>) {
        integer_check(t, self.a as i64 - self.b as i64)
    }
}

impl Question for Mul {
    open spec fn well_formed(&self) -> bool {
        true
    }

    open spec fn prompt(&self) -> Seq<char> {
        binary_prompt(self.a, " * "@, self.b)
    }

    open spec fn verdict(&self, t: Seq<char>) -> Result<bool, Seq<char>> {
        integer_verdict(t, self.a * self.b)
    }

    fn body(&self) -> (r: String) {
        binary_body(self.a, " * ", self.b)
    }

    fn check_trimmed(&self, t: &str) -> (r: Result<bool, CheckError>) {
        let a: i64 = self.a as i64;
        let b: i64 = self.b as i64;
        assert(-0x8000_0000_0000_0000 <= a * b <= 0x7fff_ffff_ffff_ffff) by (nonlinear_arith)
            requires
                -0x8000_0000 <= a <= 0x7fff_ffff,
                -0x8000_0000 <= b <= 0x7fff_ffff,
        ;
        integer_check(t, a * b)
    }
}

/// The magnitude of an `i32` as a `u64`.
fn magnitude(v: i32) -> (r: u64)
    ensures
        r as int == abs(v as int),
{
    if v < 0 {
        (-(v as i64)) as u64
    } else {
        v as u64
    }
}

/// `trunc_div(a, b)`, computed without overflow.
fn quotient(a: i32, b: i32) -> (r: i64)
    requires
        b != 0,
    ensures
        r as int == trunc_div(a as int, b as int),
{
    let q: u64 = magnitude(a) / magnitude(b);
    assert(q <= abs(a as int)) by (nonlinear_arith)
        requires
            q == abs(a as int) / abs(b as int),
            abs(b as int) >= 1,
    ;
    if (a < 0) == (b < 0) {
        q as i64
    } else {
        -(q as i64)
    }
}

/// `trunc_rem(a, b)`, computed without overflow.
fn remainder(a: i32, b: i32) -> (r: i64)
    requires
        b != 0,
    ensures
        r as int == trunc_rem(a as int, b as int),
{
    let m: u64 = magnitude(a) % magnitude(b);
    if a < 0 {
        -(m as i64)
    } else {
        m as i64
    }
}

impl Question for Div {
    open spec fn well_formed(&self) -> bool {
        self.b != 0
    }

    open spec fn prompt(&self) -> Seq<char> {
        binary_prompt(self.a, " div "@, self.b)
    }

    open spec fn verdict(&self, t: Seq<char>) -> Result<bool, Seq<char>> {
        integer_verdict(t, trunc_div(self.a as int, self.b as int))
    }

    fn body(&self) -> (r: String) {
        binary_body(self.a, " div ", self.b)
    }

    fn check_trimmed(&self, t: &str) -> (r: Result<bool, CheckError>) {
        integer_check(t, quotient(self.a, self.b))
    }
}

impl Question for Mod {
    open spec fn well_formed(&self) -> bool {
        self.b != 0
    }

    open spec fn prompt(&self) -> Seq<char> {
        binary_prompt(self.a, " mod "@, self.b)
    }

    open spec fn verdict(&self, t: Seq<char>) -> Result<bool, Seq<char>> {
        integer_verdict(t, trunc_rem(self.a as int, self.b as int))
    }

    fn body(&self) -> (r: String) {
        binary_body(self.a, " mod ", self.b)
    }

    fn check_trimmed(&self, t: &str) -> (r: Result<bool, CheckError>) {
        integer_check(t, remainder(self.a, self.b))
    }
}

} // verus!
