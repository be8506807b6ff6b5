use vstd::prelude::*;

verus! {

/// A 1-based line/column location in the source text.
#[derive(Clone, Copy, Debug, PartialEq, Eq, Structural)]
pub struct Position {
    pub line: usize,
    pub column: usize,
}

impl Position {
    pub fn new(line: usize, column: usize) -> (r: Self)
        ensures
            r.line == line,
            r.column == column,
    {
        Self { line, column }
    }
}

/// The closed set of token kinds.
#[derive(Clone, Copy, Debug, PartialEq, Eq, Structural)]
pub enum TokenType {
    // Keywords
    Let,
    Const,
    Fn,
    If,
    Else,
    For,
    While,
    Break,
    Continue,
    Return,
    Import,
    Export,
    From,
    Class,
    Interface,
    Implements,
    Try,
    Catch,
    Finally,
    Throw,
    In,
    Is,
    As,
    Type,
    Enum,
    Constructor,
    This,
    Super,
    Match,
    Case,
    Default,
    New,
    // Literals
    Identifier,
    NumberLiteral,
    StringLiteral,
    True,
    False,
    Null,
    // Operators
    Plus,
    Minus,
    Star,
    Slash,
    Percent,
    Equal,
    EqualEqual,
    Bang,
    BangEqual,
    Less,
    LessEqual,
    Greater,
    GreaterEqual,
    Arrow,
    Ampersand,
    AmpersandAmpersand,
    Pipe,
    PipePipe,
    // Punctuation
    LeftParen,
    RightParen,
    LeftBrace,
    RightBrace,
    LeftBracket,
    RightBracket,
    Comma,
    Dot,
    Colon,
    // Layout
    Indent,
    Dedent,
    Newline,
    // End of input
    Eof,
}

impl TokenType {
    /// Structural kinds are synthesised from layout rather than scanned from text.
    pub open spec fn is_structural(self) -> bool {
        self is Indent || self is Dedent || self is Newline || self is Eof
    }
}

/// What a token is, mathematically: its kind, its text and where it starts.
pub struct TokenView {
    pub kind: TokenType,
    pub lexeme: Seq<char>,
    pub position: Position,
}

/// A classified lexeme.
#[derive(Clone, Debug)]
pub struct Token {
    pub token_type: TokenType,
    pub lexeme: String,
    pub position: Position,
}

impl View for Token {
    type V = TokenView;

    open spec fn view(&self) -> TokenView {
        TokenView { kind: self.token_type, lexeme: self.lexeme@, position: self.position }
    }
}

impl Token {
    pub fn new(token_type: TokenType, lexeme: &str, position: Position) -> (r: Self)
        ensures
            r@ == (TokenView { kind: token_type, lexeme: lexeme@, position }),
    {
        Self { token_type, lexeme: String::from_str(lexeme), position }
    }
}

} // verus!

verus! {

/// The name of a token kind, as written in its variant.
pub open spec fn kind_name(k: TokenType) -> Seq<char> {
    match k {
        TokenType::Let => "Let"@,
        TokenType::Const => "Const"@,
        TokenType::Fn => "Fn"@,
        TokenType::If => "If"@,
        TokenType::Else => "Else"@,
        TokenType::For => "For"@,
        TokenType::While => "While"@,
        TokenType::Break => "Break"@,
        TokenType::Continue => "Continue"@,
        TokenType::Return => "Return"@,
        TokenType::Import => "Import"@,
        TokenType::Export => "Export"@,
        TokenType::From => "From"@,
        TokenType::Class => "Class"@,
        TokenType::Interface => "Interface"@,
        TokenType::Implements => "Implements"@,
        TokenType::Try => "Try"@,
        TokenType::Catch => "Catch"@,
        TokenType::Finally => "Finally"@,
        TokenType::Throw => "Throw"@,
        TokenType::In => "In"@,
        TokenType::Is => "Is"@,
        TokenType::As => "As"@,
        TokenType::Type => "Type"@,
        TokenType::Enum => "Enum"@,
        TokenType::Constructor => "Constructor"@,
        TokenType::This => "This"@,
        TokenType::Super => "Super"@,
        TokenType::Match => "Match"@,
        TokenType::Case => "Case"@,
        TokenType::Default => "Default"@,
        TokenType::New => "New"@,
        TokenType::Identifier => "Identifier"@,
        TokenType::NumberLiteral => "NumberLiteral"@,
        TokenType::StringLiteral => "StringLiteral"@,
        TokenType::True => "True"@,
        TokenType::False => "False"@,
        TokenType::Null => "Null"@,
        TokenType::Plus => "Plus"@,
        TokenType::Minus => "Minus"@,
        TokenType::Star => "Star"@,
        TokenType::Slash => "Slash"@,
        TokenType::Percent => "Percent"@,
        TokenType::Equal => "Equal"@,
        TokenType::EqualEqual => "EqualEqual"@,
        TokenType::Bang => "Bang"@,
        TokenType::BangEqual => "BangEqual"@,
        TokenType::Less => "Less"@,
        TokenType::LessEqual => "LessEqual"@,
        TokenType::Greater => "Greater"@,
        TokenType::GreaterEqual => "GreaterEqual"@,
        TokenType::Arrow => "Arrow"@,
        TokenType::Ampersand => "Ampersand"@,
        TokenType::AmpersandAmpersand => "AmpersandAmpersand"@,
        TokenType::Pipe => "Pipe"@,
        TokenType::PipePipe => "PipePipe"@,
        TokenType::LeftParen => "LeftParen"@,
        TokenType::RightParen => "RightParen"@,
        TokenType::LeftBrace => "LeftBrace"@,
        TokenType::RightBrace => "RightBrace"@,
        TokenType::LeftBracket => "LeftBracket"@,
        TokenType::RightBracket => "RightBracket"@,
        TokenType::Comma => "Comma"@,
        TokenType::Dot => "Dot"@,
        TokenType::Colon => "Colon"@,
        TokenType::Indent => "Indent"@,
        TokenType::Dedent => "Dedent"@,
        TokenType::Newline => "Newline"@,
        TokenType::Eof => "Eof"@,
    }
}

impl TokenType {
    /// The name of this kind, as written in its variant.
    pub fn name(&self) -> (r: &'static str)
        ensures
            r@ == kind_name(*self),
    {
        match self {
            TokenType::Let => "Let",
            TokenType::Const => "Const",
            TokenType::Fn => "Fn",
            TokenType::If => "If",
            TokenType::Else => "Else",
            TokenType::For => "For",
            TokenType::While => "While",
            TokenType::Break => "Break",
            TokenType::Continue => "Continue",
            TokenType::Return => "Return",
            TokenType::Import => "Import",
            TokenType::Export => "Export",
            TokenType::From => "From",
            TokenType::Class => "Class",
            TokenType::Interface => "Interface",
            TokenType::Implements => "Implements",
            TokenType::Try => "Try",
            TokenType::Catch => "Catch",
            TokenType::Finally => "Finally",
            TokenType::Throw => "Throw",
            TokenType::In => "In",
            TokenType::Is => "Is",
            TokenType::As => "As",
            TokenType::Type => "Type",
            TokenType::Enum => "Enum",
            TokenType::Constructor => "Constructor",
            TokenType::This => "This",
            TokenType::Super => "Super",
            TokenType::Match => "Match",
            TokenType::Case => "Case",
            TokenType::Default => "Default",
            TokenType::New => "New",
            TokenType::Identifier => "Identifier",
            TokenType::NumberLiteral => "NumberLiteral",
            TokenType::StringLiteral => "StringLiteral",
            TokenType::True => "True",
            TokenType::False => "False",
            TokenType::Null => "Null",
            TokenType::Plus => "Plus",
            TokenType::Minus => "Minus",
            TokenType::Star => "Star",
            TokenType::Slash => "Slash",
            TokenType::Percent => "Percent",
            TokenType::Equal => "Equal",
            TokenType::EqualEqual => "EqualEqual",
            TokenType::Bang => "Bang",
            TokenType::BangEqual => "BangEqual",
            TokenType::Less => "Less",
            TokenType::LessEqual => "LessEqual",
            TokenType::Greater => "Greater",
            TokenType::GreaterEqual => "GreaterEqual",
            TokenType::Arrow => "Arrow",
            TokenType::Ampersand => "Ampersand",
            TokenType::AmpersandAmpersand => "AmpersandAmpersand",
            TokenType::Pipe => "Pipe",
            TokenType::PipePipe => "PipePipe",
            TokenType::LeftParen => "LeftParen",
            TokenType::RightParen => "RightParen",
            TokenType::LeftBrace => "LeftBrace",
            TokenType::RightBrace => "RightBrace",
            TokenType::LeftBracket => "LeftBracket",
            TokenType::RightBracket => "RightBracket",
            TokenType::Comma => "Comma",
            TokenType::Dot => "Dot",
            TokenType::Colon => "Colon",
            TokenType::Indent => "Indent",
            TokenType::Dedent => "Dedent",
            TokenType::Newline => "Newline",
            TokenType::Eof => "Eof",
        }
    }
}

/// The decimal digit `d`, for `d < 10`.
pub open spec fn digit_char(d: nat) -> char {
    if d == 0 { '0' } else if d == 1 { '1' } else if d == 2 { '2' } else if d == 3 { '3' }
    else if d == 4 { '4' } else if d == 5 { '5' } else if d == 6 { '6' } else if d == 7 { '7' }
    else if d == 8 { '8' } else { '9' }
}

/// The decimal numeral of `n`, most significant digit first, without leading zeros.
pub open spec fn decimal(n: nat) -> Seq<char>
    decreases n,
{
    if n < 10 {
        seq![digit_char(n)]
    } else {
        decimal(n / 10).push(digit_char(n % 10))
    }
}

fn digit_text(d: usize) -> (r: &'static str)
    requires
        d < 10,
    ensures
        r@ == seq![digit_char(d as nat)],
{
    proof {
        reveal_strlit("0");
        reveal_strlit("1");
        reveal_strlit("2");
        reveal_strlit("3");
        reveal_strlit("4");
        reveal_strlit("5");
        reveal_strlit("6");
        reveal_strlit("7");
        reveal_strlit("8");
        reveal_strlit("9");
    }
    let r = match d {
        0 => "0",
        1 => "1",
        2 => "2",
        3 => "3",
        4 => "4",
        5 => "5",
        6 => "6",
        7 => "7",
        8 => "8",
        9 => "9",
        _ => "9",
    };
    assert(r@ =~= seq![digit_char(d as nat)]);
    r
}

/// The decimal numeral of `n`.
pub fn decimal_text(n: usize) -> (r: String)
    ensures
        r@ == decimal(n as nat),
    decreases n,
{
    if n < 10 {
        String::from_str(digit_text(n))
    } else {
        let mut r = decimal_text(n / 10);
        r.append(digit_text(n % 10));
        proof {
            assert(r@ =~= decimal(n as nat));
        }
        r
    }
}

/// `line:column`.
pub open spec fn position_text(p: Position) -> Seq<char> {
    decimal(p.line as nat) + ":"@ + decimal(p.column as nat)
}

impl Position {
    /// The position written as `line:column`.
    pub fn describe(&self) -> (r: String)
        ensures
            r@ == position_text(*self),
    {
        let mut r = decimal_text(self.line);
        r.append(":");
        let column = decimal_text(self.column);
        r.append(column.as_str());
        r
    }
}

/// `Kind 'lexeme' at line:column`.
pub open spec fn token_text(t: TokenView) -> Seq<char> {
    kind_name(t.kind) + " '"@ + t.lexeme + "' at "@ + position_text(t.position)
}

impl Token {
    /// The token written as its kind, its quoted lexeme and its position.
    pub fn describe(&self) -> (r: String)
        ensures
            r@ == token_text(self@),
    {
        let mut r = String::from_str(self.token_type.name());
        r.append(" '");
        r.append(self.lexeme.as_str());
        r.append("' at ");
        let position = self.position.describe();
        r.append(position.as_str());
        r
    }
}

} // verus!

verus! {

impl PartialEq for Token {
    fn eq(&self, other: &Token) -> (r: bool)
        ensures
            r == (self@ == other@),
    {
        let same_text = self.lexeme == other.lexeme;
        self.token_type == other.token_type && same_text && self.position == other.position
    }
}

impl vstd::std_specs::cmp::PartialEqSpecImpl for Token {
    open spec fn obeys_eq_spec() -> bool {
        true
    }

    open spec fn eq_spec(&self, other: &Token) -> bool {
        self@ == other@
    }
}

} // verus!
