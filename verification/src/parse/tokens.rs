use vstd::prelude::*;

verus! {

/// The delimiters of a token group.
#[derive(Clone, Copy, Debug, PartialEq, Eq, Structural)]
pub enum Delimiter {
    Parenthesis,
    Brace,
    Bracket,
    Invisible,
}

/// A token of Rust source: a delimited group, an identifier, a punctuation
/// character (`joint` when the next character belongs to the same operator),
/// or a literal.
#[derive(Debug)]
pub enum TokenTree {
    Group { delim: Delimiter, stream: Vec<TokenTree> },
    Ident(String),
    Punct { ch: char, joint: bool },
    Literal(String),
}

} // verus!
