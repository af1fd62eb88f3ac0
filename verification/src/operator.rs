//! Operators of the language: their spelling and how tightly they bind.
use crate::assoc::Key;
use vstd::prelude::*;

verus! {

/// A prefix operator.
#[derive(Debug, PartialEq, Eq, Clone, Copy, Structural)]
pub enum UnaryType {
    Minus,
    Ref,
    Not,
    Move,
    Clone,
}

/// The spelling of a prefix operator.
pub open spec fn unary_text(op: UnaryType) -> Seq<char> {
    match op {
        UnaryType::Minus => seq!['-'],
        UnaryType::Ref => seq!['&'],
        UnaryType::Not => seq!['n', 'o', 't'],
        UnaryType::Move => seq!['>'],
        UnaryType::Clone => seq!['c', 'l', 'o', 'n', 'e'],
    }
}

impl UnaryType {
    /// The spelling of the operator.
    pub fn as_static_str(self) -> (text: &'static str)
        ensures
            text@ == unary_text(self),
    {
        match self {
            UnaryType::Minus => {
                proof {
                    reveal_strlit("-");
                }
                "-"
            },
            UnaryType::Ref => {
                proof {
                    reveal_strlit("&");
                }
                "&"
            },
            UnaryType::Not => {
                proof {
                    reveal_strlit("not");
                }
                "not"
            },
            UnaryType::Move => {
                proof {
                    reveal_strlit(">");
                }
                ">"
            },
            UnaryType::Clone => {
                proof {
                    reveal_strlit("clone");
                }
                "clone"
            },
        }
    }
}

/// An infix operator.
#[derive(Debug, PartialEq, Eq, Clone, Copy, Structural)]
pub enum BinaryType {
    Add,
    Sub,
    Multiply,
    Div,
    FloorDiv,
    Mod,
    And,
    Or,
    LazyAnd,
    LazyOr,
    Equal,
    NotEqual,
    Greater,
    GreaterEqual,
    Less,
    LessEqual,
    Concatenate,
}

/// How tightly an infix operator binds: the smaller, the tighter.
pub open spec fn binary_precedence(op: BinaryType) -> u8 {
    match op {
        BinaryType::Multiply | BinaryType::Div | BinaryType::FloorDiv | BinaryType::Mod => 3,
        BinaryType::Add | BinaryType::Sub | BinaryType::Concatenate => 4,
        BinaryType::Equal | BinaryType::NotEqual | BinaryType::Greater | BinaryType::GreaterEqual
        | BinaryType::Less | BinaryType::LessEqual => 5,
        BinaryType::And | BinaryType::LazyAnd => 6,
        BinaryType::Or | BinaryType::LazyOr => 7,
    }
}

/// The spelling of an infix operator.
pub open spec fn binary_text(op: BinaryType) -> Seq<char> {
    match op {
        BinaryType::Add => seq!['+'],
        BinaryType::Sub => seq!['-'],
        BinaryType::Multiply => seq!['*'],
        BinaryType::Div => seq!['/'],
        BinaryType::FloorDiv => seq!['/', '/'],
        BinaryType::Mod => seq!['%'],
        BinaryType::And => seq!['a', 'n', 'd'],
        BinaryType::Or => seq!['o', 'r'],
        BinaryType::LazyAnd => seq!['&', '&'],
        BinaryType::LazyOr => seq!['|', '|'],
        BinaryType::Equal => seq!['=', '='],
        BinaryType::NotEqual => seq!['/', '='],
        BinaryType::Greater => seq!['>'],
        BinaryType::GreaterEqual => seq!['>', '='],
        BinaryType::Less => seq!['<'],
        BinaryType::LessEqual => seq!['<', '='],
        BinaryType::Concatenate => seq!['+', '+'],
    }
}

impl BinaryType {
    /// How tightly the operator binds: the smaller, the tighter.
    pub fn precedence(self) -> (precedence: u8)
        ensures
            precedence == binary_precedence(self),
    {
        match self {
            BinaryType::Multiply | BinaryType::Div | BinaryType::FloorDiv | BinaryType::Mod => 3,
            BinaryType::Add | BinaryType::Sub | BinaryType::Concatenate => 4,
            BinaryType::Equal | BinaryType::NotEqual | BinaryType::Greater
            | BinaryType::GreaterEqual | BinaryType::Less | BinaryType::LessEqual => 5,
            BinaryType::And | BinaryType::LazyAnd => 6,
            BinaryType::Or | BinaryType::LazyOr => 7,
        }
    }

    /// The spelling of the operator.
    pub fn as_static_str(self) -> (text: &'static str)
        ensures
            text@ == binary_text(self),
    {
        let text = match self {
            BinaryType::Add => "+",
            BinaryType::Sub => "-",
            BinaryType::Multiply => "*",
            BinaryType::Div => "/",
            BinaryType::FloorDiv => "//",
            BinaryType::Mod => "%",
            BinaryType::And => "and",
            BinaryType::Or => "or",
            BinaryType::LazyAnd => "&&",
            BinaryType::LazyOr => "||",
            BinaryType::Equal => "==",
            BinaryType::NotEqual => "/=",
            BinaryType::Greater => ">",
            BinaryType::GreaterEqual => ">=",
            BinaryType::Less => "<",
            BinaryType::LessEqual => "<=",
            BinaryType::Concatenate => "++",
        };
        proof {
            reveal_strlit("+");
            reveal_strlit("-");
            reveal_strlit("*");
            reveal_strlit("/");
            reveal_strlit("//");
            reveal_strlit("%");
            reveal_strlit("and");
            reveal_strlit("or");
            reveal_strlit("&&");
            reveal_strlit("||");
            reveal_strlit("==");
            reveal_strlit("/=");
            reveal_strlit(">");
            reveal_strlit(">=");
            reveal_strlit("<");
            reveal_strlit("<=");
            reveal_strlit("++");
        }
        text
    }
}

/// Whether an element of a collection literal is one value or spreads a
/// collection.
#[derive(Debug, PartialEq, Eq, Clone, Copy, Structural)]
pub enum ElementKind {
    Element,
    Splat,
}

/// Whether a bound of a range includes its end.
#[derive(Debug, PartialEq, Eq, Clone, Copy, Structural)]
pub enum BoundType {
    Inclusive,
    Exclusive,
}

/// The precedence of an infix operator token of the expression grammar:
/// the larger, the tighter it binds.
pub open spec fn token_precedence(token: Seq<char>) -> Option<u8> {
    if token == seq!['.'] || token == seq!['['] || token == seq!['?'] || token == seq!['('] {
        Some(8)
    } else if token == seq!['*'] || token == seq!['/'] || token == seq!['/', '/'] || token
        == seq!['%'] {
        Some(7)
    } else if token == seq!['+'] || token == seq!['-'] || token == seq!['+', '+'] {
        Some(6)
    } else if token == seq!['=', '='] || token == seq!['!', '='] || token == seq!['<'] || token
        == seq!['>'] || token == seq!['<', '='] || token == seq!['>', '='] {
        Some(5)
    } else if token == seq!['&', '&'] || token == seq!['&'] {
        Some(4)
    } else if token == seq!['|', '|'] || token == seq!['|'] {
        Some(3)
    } else if token == seq!['?', '?'] {
        Some(2)
    } else if token == seq!['<', '-'] {
        Some(1)
    } else {
        None
    }
}

/// The precedence of an infix operator token: the larger, the tighter it
/// binds; `None` for anything else.
pub fn precedence_of(token: &str) -> (precedence: Option<u8>)
    ensures
        precedence == token_precedence(token@),
{
    let n = token.unicode_len();
    if n == 1 {
        let c = token.get_char(0);
        proof {
            assert(token@ =~= seq![c]);
        }
        if c == '.' || c == '[' || c == '?' || c == '(' {
            Some(8)
        } else if c == '*' || c == '/' || c == '%' {
            Some(7)
        } else if c == '+' || c == '-' {
            Some(6)
        } else if c == '<' || c == '>' {
            Some(5)
        } else if c == '&' {
            Some(4)
        } else if c == '|' {
            Some(3)
        } else {
            None
        }
    } else if n == 2 {
        let (a, b) = (token.get_char(0), token.get_char(1));
        proof {
            assert(token@ =~= seq![a, b]);
        }
        if a == '/' && b == '/' {
            Some(7)
        } else if a == '+' && b == '+' {
            Some(6)
        } else if b == '=' && (a == '=' || a == '!' || a == '<' || a == '>') {
            Some(5)
        } else if a == '&' && b == '&' {
            Some(4)
        } else if a == '|' && b == '|' {
            Some(3)
        } else if a == '?' && b == '?' {
            Some(2)
        } else if a == '<' && b == '-' {
            Some(1)
        } else {
            None
        }
    } else {
        proof {
            assert(token@.len() != 1 && token@.len() != 2);
        }
        None
    }
}

/// Whether no two items are the same.
pub fn all_unique<T: Key>(items: &Vec<T>) -> (unique: bool)
    ensures
        unique == (forall|i: int, j: int|
            0 <= i < j < items@.len() ==> items@[i]@ != items@[j]@),
{
    let mut j: usize = 0;
    while j < items.len()
        invariant
            j <= items@.len(),
            forall|a: int, b: int| 0 <= a < b < j ==> items@[a]@ != items@[b]@,
        decreases items@.len() - j,
    {
        let mut i: usize = 0;
        while i < j
            invariant
                i <= j < items@.len(),
                forall|a: int| 0 <= a < i ==> items@[a]@ != items@[j as int]@,
            decreases j - i,
        {
            if items[i].same_key(&items[j]) {
                return false;
            }
            i = i + 1;
        }
        j = j + 1;
    }
    true
}

} // verus!
