use vstd::prelude::*;
use vstd::string::StringExecFns;

verus! {

/// The lexical category a scanner attaches to each token.
#[derive(Debug, Clone, Copy, PartialEq, Eq, Structural)]
pub enum TokenType {
    Number,
    Char,
    Bool,
    Text,
    Identifier,
    Symbol,
    Keyword,
    Operator,
    EOL,
    EOF,
}

impl TokenType {
    pub open spec fn spec_name(self) -> Seq<char> {
        match self {
            TokenType::Number => "Number"@,
            TokenType::Text => "Text"@,
            TokenType::Char => "Char"@,
            TokenType::Bool => "Bool"@,
            TokenType::Identifier => "Identifier"@,
            TokenType::Symbol => "Symbol"@,
            TokenType::Keyword => "Keyword"@,
            TokenType::Operator => "Operator"@,
            TokenType::EOL => "EOL"@,
            TokenType::EOF => "EOF"@,
        }
    }

    /// The category's name, as it appears in diagnostics.
    pub fn name(&self) -> (r: String)
        ensures
            r@ == self.spec_name(),
    {
        match self {
            TokenType::Number => String::from_str("Number"),
            TokenType::Text => String::from_str("Text"),
            TokenType::Char => String::from_str("Char"),
            TokenType::Bool => String::from_str("Bool"),
            TokenType::Identifier => String::from_str("Identifier"),
            TokenType::Symbol => String::from_str("Symbol"),
            TokenType::Keyword => String::from_str("Keyword"),
            TokenType::Operator => String::from_str("Operator"),
            TokenType::EOL => String::from_str("EOL"),
            TokenType::EOF => String::from_str("EOF"),
        }
    }
}

/// A classified, positioned unit of lexical text: category, source line
/// (number and original text), 1-based inclusive column range, and lexeme.
#[derive(Debug, PartialEq)]
pub struct Token {
    pub token_type: TokenType,
    pub line: (usize, String),
    pub slice: (usize, usize),
    pub lexeme: String,
}

impl Clone for Token {
    fn clone(&self) -> (t: Self)
        ensures
            t@ == self@,
    {
        Token {
            token_type: self.token_type,
            line: (self.line.0, self.line.1.clone()),
            slice: self.slice,
            lexeme: self.lexeme.clone(),
        }
    }
}

pub ghost struct TokV {
    pub token_type: TokenType,
    pub line_number: int,
    pub line_text: Seq<char>,
    pub start_column: int,
    pub end_column: int,
    pub lexeme: Seq<char>,
}

impl View for Token {
    type V = TokV;

    open spec fn view(&self) -> TokV {
        TokV {
            token_type: self.token_type,
            line_number: self.line.0 as int,
            line_text: self.line.1@,
            start_column: self.slice.0 as int,
            end_column: self.slice.1 as int,
            lexeme: self.lexeme@,
        }
    }
}

impl Token {
    pub fn new(token_type: TokenType, line: (usize, String), slice: (usize, usize), lexeme: &str)
        -> (t: Token)
        ensures
            t@ == (TokV {
                token_type,
                line_number: line.0 as int,
                line_text: line.1@,
                start_column: slice.0 as int,
                end_column: slice.1 as int,
                lexeme: lexeme@,
            }),
    {
        Token { token_type, line, slice, lexeme: lexeme.to_owned() }
    }
}

} // verus!
