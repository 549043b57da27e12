//! The calculator's operator table: which operator a command-line word names.
use vstd::prelude::*;
use crate::text::same_text;

verus! {

/// An arithmetic operation of the calculator.
#[derive(Debug, Clone, Copy, PartialEq, Eq, Structural)]
pub enum Operation {
    Add,
    Sub,
    Mul,
    Div,
}

/// The operation a word names: its name or its symbol.
pub open spec fn operation_named(word: Seq<char>) -> Option<Operation> {
    if word == seq!['a', 'd', 'd'] || word == seq!['+'] {
        Some(Operation::Add)
    } else if word == seq!['s', 'u', 'b'] || word == seq!['-'] {
        Some(Operation::Sub)
    } else if word == seq!['m', 'u', 'l'] || word == seq!['*'] {
        Some(Operation::Mul)
    } else if word == seq!['d', 'i', 'v'] || word == seq!['/'] {
        Some(Operation::Div)
    } else {
        None
    }
}

/// The operation `word` names (`add` or `+`, `sub` or `-`, `mul` or `*`,
/// `div` or `/`); `None` for any other word.
pub fn parse_operation(word: &str) -> (op: Option<Operation>)
    ensures
        op == operation_named(word@),
{
    proof {
        reveal_strlit("add");
        reveal_strlit("+");
        reveal_strlit("sub");
        reveal_strlit("-");
        reveal_strlit("mul");
        reveal_strlit("*");
        reveal_strlit("div");
        reveal_strlit("/");
    }
    assert("add"@ =~= seq!['a', 'd', 'd']);
    assert("+"@ =~= seq!['+']);
    assert("sub"@ =~= seq!['s', 'u', 'b']);
    assert("-"@ =~= seq!['-']);
    assert("mul"@ =~= seq!['m', 'u', 'l']);
    assert("*"@ =~= seq!['*']);
    assert("div"@ =~= seq!['d', 'i', 'v']);
    assert("/"@ =~= seq!['/']);
    if same_text(word, "add") || same_text(word, "+") {
        Some(Operation::Add)
    } else if same_text(word, "sub") || same_text(word, "-") {
        Some(Operation::Sub)
    } else if same_text(word, "mul") || same_text(word, "*") {
        Some(Operation::Mul)
    } else if same_text(word, "div") || same_text(word, "/") {
        Some(Operation::Div)
    } else {
        None
    }
}


/// Exactly eight words name an operation: `add` and `+` name addition,
/// `sub` and `-` subtraction, `mul` and `*` multiplication, `div` and `/`
/// division; every other word names none.
pub proof fn law_only_eight_operator_words(word: Seq<char>)
    ensures
        (operation_named(word) == Some(Operation::Add)) <==> (word == seq!['a', 'd', 'd'] || word
            == seq!['+']),
        (operation_named(word) == Some(Operation::Sub)) <==> (word == seq!['s', 'u', 'b'] || word
            == seq!['-']),
        (operation_named(word) == Some(Operation::Mul)) <==> (word == seq!['m', 'u', 'l'] || word
            == seq!['*']),
        (operation_named(word) == Some(Operation::Div)) <==> (word == seq!['d', 'i', 'v'] || word
            == seq!['/']),
        operation_named(word) is None <==> !(word == seq!['a', 'd', 'd'] || word == seq!['+'] || word
            == seq!['s', 'u', 'b'] || word == seq!['-'] || word == seq!['m', 'u', 'l'] || word
            == seq!['*'] || word == seq!['d', 'i', 'v'] || word == seq!['/']),
{
    let words = seq![
        seq!['a', 'd', 'd'], seq!['+'], seq!['s', 'u', 'b'], seq!['-'],
        seq!['m', 'u', 'l'], seq!['*'], seq!['d', 'i', 'v'], seq!['/'],
    ];
    assert forall|i: int, j: int| 0 <= i < j < 8 implies words[i] != words[j] by {
        if words[i].len() == words[j].len() {
            assert(words[i][0] != words[j][0]);
        }
    }
}

} // verus!
