use vstd::prelude::*;
use vstd::string::*;

verus! {

/// A token of an attribute's arguments.
#[derive(Debug)]
pub enum ArgToken {
    /// An identifier (or keyword).
    Ident(String),
    /// A punctuation character; `true` when it is joined to a punctuation
    /// character that follows it with no space between (as in `::`).
    Punct(char, bool),
    /// An integer literal, by its digits in base 10 (suffix removed).
    Int(String),
    /// A group delimited by braces.
    BraceGroup,
    /// Any other token: another literal, or a group delimited otherwise.
    Other,
}

/// Why the arguments of an attribute were refused.
#[derive(Clone, Copy, Debug, PartialEq, Eq, Structural)]
pub enum ArgError {
    /// An identifier was expected.
    ExpectedIdent,
    /// `=` was expected.
    ExpectedEq,
    /// An integer literal was expected.
    ExpectedInt,
    /// The integer literal does not fit the field.
    InvalidInt,
    /// The key is not one the attribute takes.
    UnknownAttr,
    /// `scheduler` was not given.
    SchedulerMissing,
    /// `stack_size` was not given.
    StackSizeMissing,
    /// Tokens are left after the arguments.
    UnexpectedToken,
    /// The attribute's arguments are not one delimited group.
    ExpectedParens,
}

/// Whether `c` is an ASCII decimal digit.
pub open spec fn is_digit(c: char) -> bool {
    '0' <= c && c <= '9'
}

/// The value of a string of decimal digits (most significant first).
pub open spec fn digits_value(s: Seq<char>) -> nat
    decreases s.len(),
{
    if s.len() == 0 {
        0
    } else {
        digits_value(s.drop_last()) * 10 + (s.last() as nat - '0' as nat) as nat
    }
}

/// The digits of a decimal number, an optional leading `+` removed.
pub open spec fn unsigned_digits(s: Seq<char>) -> Seq<char> {
    if s.len() > 0 && s[0] == '+' {
        s.drop_first()
    } else {
        s
    }
}

/// The `u32` a string denotes, read as a decimal number: an optional `+`
/// then at least one digit, of a value that fits; `None` otherwise.
pub open spec fn decimal_u32(s: Seq<char>) -> Option<u32> {
    let d = unsigned_digits(s);
    if d.len() > 0 && (forall|i: int| 0 <= i < d.len() ==> is_digit(#[trigger] d[i]))
        && digits_value(d) <= u32::MAX {
        Some(digits_value(d) as u32)
    } else {
        None
    }
}

proof fn lemma_digits_value_prefix(s: Seq<char>, k: int)
    requires
        0 <= k <= s.len(),
        forall|i: int| 0 <= i < s.len() ==> is_digit(#[trigger] s[i]),
    ensures
        digits_value(s.take(k)) <= digits_value(s),
    decreases s.len(),
{
    if k < s.len() {
        assert(s.drop_last().take(k) =~= s.take(k));
        lemma_digits_value_prefix(s.drop_last(), k);
    } else {
        assert(s.take(k) =~= s);
    }
}

/// Reads `s` as a decimal `u32`, as the standard library's `u32::from_str`
/// does (it is what an integer literal's `base10_parse` calls on its
/// digits).
pub fn parse_decimal_u32(s: &String) -> (r: Option<u32>)
    ensures
        r == decimal_u32(s@),
{
    let st = s.as_str();
    let len = st.unicode_len();
    let mut start: usize = 0;
    if len > 0 && st.get_char(0) == '+' {
        start = 1;
    }
    let ghost d = unsigned_digits(s@);
    assert(d =~= s@.subrange(start as int, s@.len() as int));
    if start == len {
        return None;
    }
    let mut value: u64 = 0;
    let mut i: usize = start;
    while i < len
        invariant
            st@ == s@,
            len == s@.len(),
            start <= i <= len,
            d == unsigned_digits(s@),
            d =~= s@.subrange(start as int, s@.len() as int),
            forall|k: int| 0 <= k < i - start ==> is_digit(#[trigger] d[k]),
            value == digits_value(d.take(i - start)),
            value <= u32::MAX,
        decreases len - i,
    {
        let c = st.get_char(i);
        assert(c == d[i - start]);
        if c < '0' || c > '9' {
            assert(!is_digit(d[i - start]));
            return None;
        }
        let digit: u64 = (c as u64) - ('0' as u64);
        assert(d.take(i - start + 1).drop_last() =~= d.take(i - start));
        if value > (u32::MAX as u64 - digit) / 10 {
            proof {
                assert(value * 10 + digit > u32::MAX) by (nonlinear_arith)
                    requires
                        value > (u32::MAX as u64 - digit) / 10,
                        digit <= 9,
                ;
                assert(digits_value(d.take(i - start + 1)) > u32::MAX);
                if forall|k: int| 0 <= k < d.len() ==> is_digit(#[trigger] d[k]) {
                    lemma_digits_value_prefix(d, i - start + 1);
                }
            }
            return None;
        }
        value = value * 10 + digit;
        i = i + 1;
    }
    assert(d.take(len - start) =~= d);
    Some(value as u32)
}

/// Whether `name` is a Rust keyword (or `_`), which does not stand as an
/// identifier.
pub open spec fn is_keyword(name: Seq<char>) -> bool {
    name == "_"@
        || name == "abstract"@
        || name == "as"@
        || name == "become"@
        || name == "box"@
        || name == "break"@
        || name == "const"@
        || name == "continue"@
        || name == "crate"@
        || name == "do"@
        || name == "else"@
        || name == "enum"@
        || name == "extern"@
        || name == "false"@
        || name == "final"@
        || name == "fn"@
        || name == "for"@
        || name == "if"@
        || name == "impl"@
        || name == "in"@
        || name == "let"@
        || name == "loop"@
        || name == "macro"@
        || name == "match"@
        || name == "mod"@
        || name == "move"@
        || name == "mut"@
        || name == "override"@
        || name == "priv"@
        || name == "pub"@
        || name == "ref"@
        || name == "return"@
        || name == "Self"@
        || name == "self"@
        || name == "static"@
        || name == "struct"@
        || name == "super"@
        || name == "trait"@
        || name == "true"@
        || name == "type"@
        || name == "typeof"@
        || name == "unsafe"@
        || name == "unsized"@
        || name == "use"@
        || name == "virtual"@
        || name == "where"@
        || name == "while"@
        || name == "yield"@
}

/// Whether `name` is a keyword that may stand as a path segment.
pub open spec fn is_path_keyword(name: Seq<char>) -> bool {
    name == "self"@ || name == "super"@ || name == "crate"@ || name == "Self"@
}

/// Whether `name` is a Rust keyword (or `_`).
pub fn is_keyword_exec(name: &String) -> (r: bool)
    ensures
        r == is_keyword(name@),
{
    ident_is(name, "_")
        || ident_is(name, "abstract")
        || ident_is(name, "as")
        || ident_is(name, "become")
        || ident_is(name, "box")
        || ident_is(name, "break")
        || ident_is(name, "const")
        || ident_is(name, "continue")
        || ident_is(name, "crate")
        || ident_is(name, "do")
        || ident_is(name, "else")
        || ident_is(name, "enum")
        || ident_is(name, "extern")
        || ident_is(name, "false")
        || ident_is(name, "final")
        || ident_is(name, "fn")
        || ident_is(name, "for")
        || ident_is(name, "if")
        || ident_is(name, "impl")
        || ident_is(name, "in")
        || ident_is(name, "let")
        || ident_is(name, "loop")
        || ident_is(name, "macro")
        || ident_is(name, "match")
        || ident_is(name, "mod")
        || ident_is(name, "move")
        || ident_is(name, "mut")
        || ident_is(name, "override")
        || ident_is(name, "priv")
        || ident_is(name, "pub")
        || ident_is(name, "ref")
        || ident_is(name, "return")
        || ident_is(name, "Self")
        || ident_is(name, "self")
        || ident_is(name, "static")
        || ident_is(name, "struct")
        || ident_is(name, "super")
        || ident_is(name, "trait")
        || ident_is(name, "true")
        || ident_is(name, "type")
        || ident_is(name, "typeof")
        || ident_is(name, "unsafe")
        || ident_is(name, "unsized")
        || ident_is(name, "use")
        || ident_is(name, "virtual")
        || ident_is(name, "where")
        || ident_is(name, "while")
        || ident_is(name, "yield")
}

/// Whether `name` is a keyword that may stand as a path segment.
pub fn is_path_keyword_exec(name: &String) -> (r: bool)
    ensures
        r == is_path_keyword(name@),
{
    ident_is(name, "self") || ident_is(name, "super") || ident_is(name, "crate") || ident_is(name, "Self")
}

/// The name of the identifier at position `i` of `toks`, if there is one
/// there that is not a keyword.
pub open spec fn ident_at(toks: Seq<ArgToken>, i: int) -> Option<Seq<char>> {
    if 0 <= i < toks.len() {
        match toks[i] {
            ArgToken::Ident(name) => if is_keyword(name@) {
                None
            } else {
                Some(name@)
            },
            _ => None,
        }
    } else {
        None
    }
}

/// The name of the path segment at position `i` of `toks`: an identifier
/// that is not a keyword, or one of `self`, `super`, `crate`, `Self`.
pub open spec fn path_ident_at(toks: Seq<ArgToken>, i: int) -> Option<Seq<char>> {
    if 0 <= i < toks.len() {
        match toks[i] {
            ArgToken::Ident(name) => if is_keyword(name@) && !is_path_keyword(name@) {
                None
            } else {
                Some(name@)
            },
            _ => None,
        }
    } else {
        None
    }
}

/// Position `i` of `toks` holds a group delimited by braces.
pub open spec fn brace_at(toks: Seq<ArgToken>, i: int) -> bool {
    0 <= i < toks.len() && toks[i] is BraceGroup
}

/// Position `i` of `toks` holds the punctuation character `c`.
pub open spec fn punct_at(toks: Seq<ArgToken>, i: int, c: char) -> bool {
    &&& 0 <= i < toks.len()
    &&& match toks[i] {
        ArgToken::Punct(ch, _) => ch == c,
        _ => false,
    }
}

/// Positions `i` and `i + 1` of `toks` hold the path separator `::`.
pub open spec fn path_sep_at(toks: Seq<ArgToken>, i: int) -> bool {
    &&& 0 <= i < toks.len()
    &&& toks[i] matches ArgToken::Punct(c, joint) && c == ':' && joint
    &&& punct_at(toks, i + 1, ':')
}

/// No token of `toks` is the identifier `word`.
pub open spec fn never_names(toks: Seq<ArgToken>, word: Seq<char>) -> bool {
    forall|k: int| 0 <= k < toks.len() ==> #[trigger] ident_at(toks, k) != Some(word)
}

/// Some token of `toks` from position `i` on is the identifier `word`.
pub open spec fn names_from(toks: Seq<ArgToken>, i: int, word: Seq<char>) -> bool {
    exists|k: int| i <= k < toks.len() && ident_at(toks, k) == Some(word)
}

/// The `u32` integer literal at position `i` of `toks`, with the position
/// after it.
pub open spec fn int_at(toks: Seq<ArgToken>, i: int) -> Result<(u32, int), ArgError> {
    if 0 <= i < toks.len() {
        match toks[i] {
            ArgToken::Int(digits) => match decimal_u32(digits@) {
                Some(v) => Ok((v, i + 1)),
                None => Err(ArgError::InvalidInt),
            },
            _ => Err(ArgError::ExpectedInt),
        }
    } else {
        Err(ArgError::ExpectedInt)
    }
}

/// The identifier at position `i` of `toks`, if it is not a keyword.
pub fn ident_at_exec(toks: &Vec<ArgToken>, i: usize) -> (r: Option<String>)
    ensures
        match r {
            Some(name) => ident_at(toks@, i as int) == Some(name@),
            None => ident_at(toks@, i as int).is_none(),
        },
{
    if i < toks.len() {
        match &toks[i] {
            ArgToken::Ident(name) => if is_keyword_exec(name) {
                None
            } else {
                Some(name.clone())
            },
            _ => None,
        }
    } else {
        None
    }
}

/// The path segment at position `i` of `toks`.
pub fn path_ident_at_exec(toks: &Vec<ArgToken>, i: usize) -> (r: Option<String>)
    ensures
        match r {
            Some(name) => path_ident_at(toks@, i as int) == Some(name@),
            None => path_ident_at(toks@, i as int).is_none(),
        },
{
    if i < toks.len() {
        match &toks[i] {
            ArgToken::Ident(name) => if is_keyword_exec(name) && !is_path_keyword_exec(name) {
                None
            } else {
                Some(name.clone())
            },
            _ => None,
        }
    } else {
        None
    }
}

/// Whether position `i` of `toks` holds a group delimited by braces.
pub fn brace_at_exec(toks: &Vec<ArgToken>, i: usize) -> (r: bool)
    ensures
        r == brace_at(toks@, i as int),
{
    i < toks.len() && matches!(toks[i], ArgToken::BraceGroup)
}

/// Whether position `i` of `toks` holds the punctuation character `c`.
pub fn punct_at_exec(toks: &Vec<ArgToken>, i: usize, c: char) -> (r: bool)
    ensures
        r == punct_at(toks@, i as int, c),
{
    if i < toks.len() {
        match &toks[i] {
            ArgToken::Punct(ch, _) => *ch == c,
            _ => false,
        }
    } else {
        false
    }
}

/// Whether positions `i` and `i + 1` of `toks` hold `::`.
pub fn path_sep_at_exec(toks: &Vec<ArgToken>, i: usize) -> (r: bool)
    ensures
        r == path_sep_at(toks@, i as int),
{
    if i < toks.len() {
        match &toks[i] {
            ArgToken::Punct(ch, joint) => {
                if *ch == ':' && *joint {
                    i < usize::MAX && punct_at_exec(toks, i + 1, ':')
                } else {
                    false
                }
            },
            _ => false,
        }
    } else {
        false
    }
}

/// The `u32` integer literal at position `i` of `toks`, with the position
/// after it.
pub fn int_at_exec(toks: &Vec<ArgToken>, i: usize) -> (r: Result<(u32, usize), ArgError>)
    ensures
        match r {
            Ok((v, j)) => int_at(toks@, i as int) == Ok::<(u32, int), ArgError>((v, j as int)),
            Err(e) => int_at(toks@, i as int) == Err::<(u32, int), ArgError>(e),
        },
{
    if i < toks.len() {
        match &toks[i] {
            ArgToken::Int(digits) => match parse_decimal_u32(digits) {
                Some(v) => Ok((v, i + 1)),
                None => Err(ArgError::InvalidInt),
            },
            _ => Err(ArgError::ExpectedInt),
        }
    } else {
        Err(ArgError::ExpectedInt)
    }
}

/// Whether the identifier `name` is `word`.
pub fn ident_is(name: &String, word: &str) -> (r: bool)
    ensures
        r == (name@ == word@),
{
    *name == word.to_owned()
}

} // verus!
