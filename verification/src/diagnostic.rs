//! Diagnostics: a failed match told as a place in the source and a sorted
//! list of the productions that could have stood there.
//!
//! Lines are counted from 1 and columns from 1, both in bytes; a line ends
//! with its line feed. On an input so long that such a number does not fit,
//! the largest number that fits is given.

use vstd::prelude::*;
use vstd::string::*;
use crate::engine::ParseError;
use crate::grammar::{Expected, Rule, LINE_FEED};
use crate::syntax::Failure;

verus! {

/// The mathematical model of a diagnostic.
pub struct Report {
    pub offset: int,
    pub line: int,
    pub column: int,
    pub expected: Seq<Rule>,
    pub message: Seq<char>,
}

/// What is told of a failed match: the offset, line and column where it
/// stopped, the productions that could have stood there, in the order of
/// `rank` and each once, and a sentence that names them.
#[derive(Clone, Debug, PartialEq, Eq)]
pub struct Diagnostic {
    pub offset: usize,
    pub line: usize,
    pub column: usize,
    pub expected: Vec<Rule>,
    pub message: String,
}

impl View for Diagnostic {
    type V = Report;

    open spec fn view(&self) -> Report {
        Report {
            offset: self.offset as int,
            line: self.line as int,
            column: self.column as int,
            expected: self.expected@,
            message: self.message@,
        }
    }
}

/// The number of line feeds among the first `n` bytes of `s`.
pub open spec fn newlines(s: Seq<u8>, n: int) -> nat
    decreases n,
{
    if n <= 0 {
        0
    } else if n - 1 < s.len() && s[n - 1] == LINE_FEED {
        newlines(s, n - 1) + 1
    } else {
        newlines(s, n - 1)
    }
}

/// The offset at which the line that holds offset `n` starts.
pub open spec fn line_start(s: Seq<u8>, n: int) -> int
    decreases n,
{
    if n <= 0 {
        0
    } else if n - 1 < s.len() && s[n - 1] == LINE_FEED {
        n
    } else {
        line_start(s, n - 1)
    }
}

/// `n`, or the largest `usize` where `n` is larger.
pub open spec fn saturated(n: int) -> int {
    if n > usize::MAX {
        usize::MAX as int
    } else {
        n
    }
}

/// The place of each production in the order in which diagnostics list them.
pub open spec fn rank(rule: Rule) -> nat {
    match rule {
        Rule::Expr => 0,
        Rule::Union => 1,
        Rule::Apply => 2,
        Rule::Group => 3,
        Rule::Id => 4,
        Rule::LeftBracket => 5,
        Rule::RightBracket => 6,
        Rule::LeftParen => 7,
        Rule::RightParen => 8,
        Rule::Comma => 9,
        Rule::Bar => 10,
        Rule::EndOfInput => 11,
    }
}

/// The production of rank `k`.
pub open spec fn rule_at(k: nat) -> Rule {
    if k == 0 {
        Rule::Expr
    } else if k == 1 {
        Rule::Union
    } else if k == 2 {
        Rule::Apply
    } else if k == 3 {
        Rule::Group
    } else if k == 4 {
        Rule::Id
    } else if k == 5 {
        Rule::LeftBracket
    } else if k == 6 {
        Rule::RightBracket
    } else if k == 7 {
        Rule::LeftParen
    } else if k == 8 {
        Rule::RightParen
    } else if k == 9 {
        Rule::Comma
    } else if k == 10 {
        Rule::Bar
    } else {
        Rule::EndOfInput
    }
}

/// The productions of `e` whose rank is below `n`, by rising rank.
pub open spec fn listed_below(e: Expected, n: nat) -> Seq<Rule>
    decreases n,
{
    if n == 0 {
        Seq::empty()
    } else if e.contains(rule_at((n - 1) as nat)) {
        listed_below(e, (n - 1) as nat).push(rule_at((n - 1) as nat))
    } else {
        listed_below(e, (n - 1) as nat)
    }
}

/// The productions of `e`, by rising rank.
pub open spec fn listed(e: Expected) -> Seq<Rule> {
    listed_below(e, 12)
}

/// The name of a production, as a diagnostic writes it.
pub open spec fn name(rule: Rule) -> Seq<char> {
    match rule {
        Rule::Expr => "Expr"@,
        Rule::Union => "Union"@,
        Rule::Apply => "Apply"@,
        Rule::Group => "Group"@,
        Rule::Id => "Id"@,
        Rule::LeftBracket => "LeftBracket"@,
        Rule::RightBracket => "RightBracket"@,
        Rule::LeftParen => "LeftParen"@,
        Rule::RightParen => "RightParen"@,
        Rule::Comma => "Comma"@,
        Rule::Bar => "Bar"@,
        Rule::EndOfInput => "EndOfInput"@,
    }
}

/// The names of `list`, with a comma and a blank between two of them.
pub open spec fn joined(list: Seq<Rule>) -> Seq<char>
    decreases list.len(),
{
    if list.len() == 0 {
        Seq::empty()
    } else if list.len() == 1 {
        name(list[0])
    } else {
        joined(list.drop_last()) + ", "@ + name(list.last())
    }
}

/// The sentence of a diagnostic that expects `list`.
pub open spec fn message_of(list: Seq<Rule>) -> Seq<char> {
    "expected "@ + joined(list)
}

/// The diagnostic for the failure `f` of a match over `s`.
pub open spec fn diagnosis(f: Failure, s: Seq<u8>) -> Report {
    Report {
        offset: f.pos,
        line: saturated((1 + newlines(s, f.pos)) as int),
        column: saturated(f.pos - line_start(s, f.pos) + 1),
        expected: listed(f.expected),
        message: message_of(listed(f.expected)),
    }
}

/// Whether the ranks of `list` rise strictly: it is sorted and holds nothing
/// twice.
pub open spec fn rising(list: Seq<Rule>) -> bool {
    forall|i: int, j: int| 0 <= i < j < list.len() ==> rank(#[trigger] list[i]) < rank(#[trigger] list[j])
}

/// The list of a set of productions is sorted, holds nothing twice, and
/// holds exactly the productions of the set whose rank is below `n`.
pub proof fn lemma_listed_below(e: Expected, n: nat)
    requires
        n <= 12,
    ensures
        rising(listed_below(e, n)),
        forall|i: int|
            0 <= i < listed_below(e, n).len() ==> rank(#[trigger] listed_below(e, n)[i]) < n
                && e.contains(listed_below(e, n)[i]),
        forall|r: Rule| e.contains(r) && rank(r) < n ==> listed_below(e, n).contains(r),
    decreases n,
{
    if n > 0 {
        let m = (n - 1) as nat;
        lemma_listed_below(e, m);
        let before = listed_below(e, m);
        let now = listed_below(e, n);
        assert(rank(rule_at(m)) == m);
        assert forall|r: Rule| e.contains(r) && rank(r) < n implies now.contains(r) by {
            if rank(r) < m {
                let i = choose|i: int| 0 <= i < before.len() && before[i] == r;
                assert(now[i] == r);
            } else {
                assert(r == rule_at(m));
                assert(now[now.len() - 1] == r);
            }
        }
    }
}

/// The list of a set of productions is sorted, holds nothing twice, and
/// holds a production exactly if the set does.
pub proof fn lemma_listed(e: Expected)
    ensures
        rising(listed(e)),
        forall|r: Rule| listed(e).contains(r) <==> e.contains(r),
{
    lemma_listed_below(e, 12);
    assert forall|r: Rule| listed(e).contains(r) implies e.contains(r) by {
        let i = choose|i: int| 0 <= i < listed(e).len() && listed(e)[i] == r;
        assert(e.contains(listed(e)[i]));
    }
}

fn rule_of(k: usize) -> (rule: Rule)
    ensures
        rule == rule_at(k as nat),
{
    if k == 0 {
        Rule::Expr
    } else if k == 1 {
        Rule::Union
    } else if k == 2 {
        Rule::Apply
    } else if k == 3 {
        Rule::Group
    } else if k == 4 {
        Rule::Id
    } else if k == 5 {
        Rule::LeftBracket
    } else if k == 6 {
        Rule::RightBracket
    } else if k == 7 {
        Rule::LeftParen
    } else if k == 8 {
        Rule::RightParen
    } else if k == 9 {
        Rule::Comma
    } else if k == 10 {
        Rule::Bar
    } else {
        Rule::EndOfInput
    }
}

fn holds(e: Expected, rule: Rule) -> (r: bool)
    ensures
        r == e.contains(rule),
{
    match rule {
        Rule::Id => e.id,
        Rule::LeftBracket => e.left_bracket,
        Rule::RightBracket => e.right_bracket,
        Rule::LeftParen => e.left_paren,
        Rule::RightParen => e.right_paren,
        Rule::Comma => e.comma,
        Rule::Bar => e.bar,
        Rule::EndOfInput => e.end_of_input,
        _ => false,
    }
}

/// The name of a production.
pub fn rule_name(rule: Rule) -> (s: &'static str)
    ensures
        s@ == name(rule),
{
    match rule {
        Rule::Expr => "Expr",
        Rule::Union => "Union",
        Rule::Apply => "Apply",
        Rule::Group => "Group",
        Rule::Id => "Id",
        Rule::LeftBracket => "LeftBracket",
        Rule::RightBracket => "RightBracket",
        Rule::LeftParen => "LeftParen",
        Rule::RightParen => "RightParen",
        Rule::Comma => "Comma",
        Rule::Bar => "Bar",
        Rule::EndOfInput => "EndOfInput",
    }
}

/// The productions of `e`, sorted and each once.
pub fn list(e: Expected) -> (out: Vec<Rule>)
    ensures
        out@ == listed(e),
        rising(out@),
        forall|r: Rule| out@.contains(r) <==> e.contains(r),
{
    let mut out: Vec<Rule> = Vec::new();
    let mut k: usize = 0;
    while k < 12
        invariant
            k <= 12,
            out@ == listed_below(e, k as nat),
        decreases 12 - k,
    {
        let rule = rule_of(k);
        if holds(e, rule) {
            out.push(rule);
        }
        k = k + 1;
    }
    proof {
        lemma_listed(e);
    }
    out
}

/// The sentence that names the productions of `list`.
pub fn render(list: &Vec<Rule>) -> (msg: String)
    ensures
        msg@ == message_of(list@),
{
    let mut msg = String::from_str("expected ");
    let mut k: usize = 0;
    while k < list.len()
        invariant
            k <= list@.len(),
            msg@ == "expected "@ + joined(list@.take(k as int)),
        decreases list@.len() - k,
    {
        let ghost before = list@.take(k as int);
        let ghost now = list@.take(k + 1);
        proof {
            assert(now.drop_last() =~= before);
            assert(now.last() == list@[k as int]);
        }
        if k > 0 {
            msg.append(", ");
        }
        msg.append(rule_name(list[k]));
        proof {
            if k > 0 {
                assert(msg@ =~= "expected "@ + (joined(before) + ", "@ + name(list@[k as int])));
            } else {
                assert(joined(before) =~= Seq::<char>::empty());
                assert(msg@ =~= "expected "@ + name(list@[k as int]));
            }
        }
        k = k + 1;
    }
    proof {
        assert(list@.take(k as int) =~= list@);
    }
    msg
}

/// Tells a failed match over `input` as a diagnostic.
pub fn translate(error: &ParseError, input: &[u8]) -> (d: Diagnostic)
    requires
        error.pos <= input@.len(),
    ensures
        d@ == diagnosis(error@, input@),
        rising(d.expected@),
        forall|r: Rule| d.expected@.contains(r) <==> error.expected.contains(r),
        1 <= d.line,
        1 <= d.column,
{
    let mut count: usize = 0;
    let mut start: usize = 0;
    let mut i: usize = 0;
    while i < error.pos
        invariant
            i <= error.pos <= input@.len(),
            count <= i,
            start <= i,
            count == newlines(input@, i as int),
            start == line_start(input@, i as int),
        decreases error.pos - i,
    {
        if input[i] == LINE_FEED {
            count = count + 1;
            start = i + 1;
        }
        i = i + 1;
    }
    let line: usize = if count == usize::MAX {
        usize::MAX
    } else {
        count + 1
    };
    let width: usize = error.pos - start;
    let column: usize = if width == usize::MAX {
        usize::MAX
    } else {
        width + 1
    };
    let expected = list(error.expected);
    let message = render(&expected);
    Diagnostic { offset: error.pos, line, column, expected, message }
}

} // verus!
