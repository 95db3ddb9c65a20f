use vstd::prelude::*;
use vstd::string::StringExecFns;

verus! {

/// The reserved words of the language, which can never name a variable,
/// a function, a parameter, an attribute, a module or a label.
pub open spec fn is_keyword(s: Seq<char>) -> bool {
    ||| s == "fn"@
    ||| s == "import"@
    ||| s == "var"@
    ||| s == "if"@
    ||| s == "elif"@
    ||| s == "else"@
    ||| s == "end"@
    ||| s == "is"@
    ||| s == "not"@
    ||| s == "and"@
    ||| s == "or"@
    ||| s == "in"@
    ||| s == "PRINT"@
    ||| s == "GOTO"@
}

/// Whether `name` spells the word `word`.
pub fn name_is(name: &String, word: &str) -> (b: bool)
    ensures
        b == (name@ == word@),
{
    let w = word.to_owned();
    *name == w
}

/// Whether `name` is a reserved word.
pub fn is_keyword_name(name: &String) -> (b: bool)
    ensures
        b == is_keyword(name@),
{
    name_is(name, "fn") || name_is(name, "import") || name_is(name, "var") || name_is(name, "if")
        || name_is(name, "elif") || name_is(name, "else") || name_is(name, "end") || name_is(
        name,
        "is",
    ) || name_is(name, "not") || name_is(name, "and") || name_is(name, "or") || name_is(name, "in")
        || name_is(name, "PRINT") || name_is(name, "GOTO")
}

/// The decimal digit character for `d < 10`.
pub open spec fn digit_char(d: nat) -> char {
    if d == 0 {
        '0'
    } else if d == 1 {
        '1'
    } else if d == 2 {
        '2'
    } else if d == 3 {
        '3'
    } else if d == 4 {
        '4'
    } else if d == 5 {
        '5'
    } else if d == 6 {
        '6'
    } else if d == 7 {
        '7'
    } else if d == 8 {
        '8'
    } else {
        '9'
    }
}

/// The decimal text of `n`, with no leading zeros.
pub open spec fn decimal(n: nat) -> Seq<char>
    decreases n,
{
    if n < 10 {
        seq![digit_char(n)]
    } else {
        decimal(n / 10).push(digit_char(n % 10))
    }
}

fn digit_str(d: u64) -> (s: &'static str)
    requires
        d < 10,
    ensures
        s@ == seq![digit_char(d as nat)],
{
    proof {
        reveal_strlit("0");
        reveal_strlit("1");
        reveal_strlit("2");
        reveal_strlit("3");
        reveal_strlit("4");
        reveal_strlit("5");
        reveal_strlit("6");
        reveal_strlit("7");
        reveal_strlit("8");
        reveal_strlit("9");
    }
    if d == 0 {
        "0"
    } else if d == 1 {
        "1"
    } else if d == 2 {
        "2"
    } else if d == 3 {
        "3"
    } else if d == 4 {
        "4"
    } else if d == 5 {
        "5"
    } else if d == 6 {
        "6"
    } else if d == 7 {
        "7"
    } else if d == 8 {
        "8"
    } else {
        "9"
    }
}

/// The decimal text of `n`.
pub fn decimal_string(n: u64) -> (s: String)
    ensures
        s@ == decimal(n as nat),
    decreases n,
{
    if n < 10 {
        digit_str(n).to_owned()
    } else {
        let mut s = decimal_string(n / 10);
        s.append(digit_str(n % 10));
        s
    }
}

} // verus!
