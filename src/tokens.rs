use vstd::prelude::*;

verus! {

/// Number of tab characters that one level of nesting is rendered with.
pub const TAB_MULTIPLIER: usize = 2;

/// Turns the result of an overflowing arithmetic operation, a value and a
/// flag that says whether it wrapped, into an optional value.
pub trait TokonizerTools: Sized {
    spec fn spec_to_option(self) -> Option<usize>;

    fn to_option(self) -> (r: Option<usize>)
        ensures
            r == self.spec_to_option(),
    ;
}

impl TokonizerTools for (usize, bool) {
    /// The value when it did not wrap; nothing when it did.
    open spec fn spec_to_option(self) -> Option<usize> {
        if !self.1 {
            Some(self.0)
        } else {
            None
        }
    }

    fn to_option(self) -> (r: Option<usize>) {
        let (i, b) = self;
        if !b {
            return Some(i);
        }
        None
    }
}

/// A lexical unit of the scripting language.
///
/// `Char` only lives between the classifier and the folder. `Path`,
/// `CommentBlock` and `AttSomething` hold their source text exactly as it is
/// rendered. `DoubleQuoteBlock` and `SingleQuoteBlock` hold the text between
/// the quotes, and whether a closing quote ended it: they render inside their
/// quotes, and an unterminated string renders as it was written, without a
/// closing quote.
#[derive(Debug)]
pub enum Token {
    Char(char),
    Word(String),
    Number(String),
    Tilda,
    Att,
    BraceOpen,
    BraceClose,
    BraceSquareClosed,
    BraceSquareOpen,
    WhiteSpace,
    NewLine,
    Comma,
    Equals,
    Dolar,
    ParenOpen,
    ParenClose,
    Exc,
    LessThen,
    MoreThen,
    Pipe,
    Hash,
    Colon,
    CommentBlock(String),
    Path(String),
    Dash,
    Tag(String),
    TagLong(String),
    AttSomething(String),
    Slash,
    DoubleQuote,
    SingleQuote,
    SingleQuoteBlock(String, bool),
    DoubleQuoteBlock(String, bool),
    Tab(usize),
}

/// The mathematical model of a [`Token`]: text payloads are character sequences.
pub enum TokenView {
    Char(char),
    Word(Seq<char>),
    Number(Seq<char>),
    Tilda,
    Att,
    BraceOpen,
    BraceClose,
    BraceSquareClosed,
    BraceSquareOpen,
    WhiteSpace,
    NewLine,
    Comma,
    Equals,
    Dolar,
    ParenOpen,
    ParenClose,
    Exc,
    LessThen,
    MoreThen,
    Pipe,
    Hash,
    Colon,
    CommentBlock(Seq<char>),
    Path(Seq<char>),
    Dash,
    Tag(Seq<char>),
    TagLong(Seq<char>),
    AttSomething(Seq<char>),
    Slash,
    DoubleQuote,
    SingleQuote,
    SingleQuoteBlock(Seq<char>, bool),
    DoubleQuoteBlock(Seq<char>, bool),
    Tab(nat),
}

impl View for Token {
    type V = TokenView;

    open spec fn view(&self) -> TokenView {
        match self {
            Token::Char(c) => TokenView::Char(*c),
            Token::Word(s) => TokenView::Word(s@),
            Token::Number(s) => TokenView::Number(s@),
            Token::Tilda => TokenView::Tilda,
            Token::Att => TokenView::Att,
            Token::BraceOpen => TokenView::BraceOpen,
            Token::BraceClose => TokenView::BraceClose,
            Token::BraceSquareClosed => TokenView::BraceSquareClosed,
            Token::BraceSquareOpen => TokenView::BraceSquareOpen,
            Token::WhiteSpace => TokenView::WhiteSpace,
            Token::NewLine => TokenView::NewLine,
            Token::Comma => TokenView::Comma,
            Token::Equals => TokenView::Equals,
            Token::Dolar => TokenView::Dolar,
            Token::ParenOpen => TokenView::ParenOpen,
            Token::ParenClose => TokenView::ParenClose,
            Token::Exc => TokenView::Exc,
            Token::LessThen => TokenView::LessThen,
            Token::MoreThen => TokenView::MoreThen,
            Token::Pipe => TokenView::Pipe,
            Token::Hash => TokenView::Hash,
            Token::Colon => TokenView::Colon,
            Token::CommentBlock(s) => TokenView::CommentBlock(s@),
            Token::Path(s) => TokenView::Path(s@),
            Token::Dash => TokenView::Dash,
            Token::Tag(s) => TokenView::Tag(s@),
            Token::TagLong(s) => TokenView::TagLong(s@),
            Token::AttSomething(s) => TokenView::AttSomething(s@),
            Token::Slash => TokenView::Slash,
            Token::DoubleQuote => TokenView::DoubleQuote,
            Token::SingleQuote => TokenView::SingleQuote,
            Token::SingleQuoteBlock(s, c) => TokenView::SingleQuoteBlock(s@, *c),
            Token::DoubleQuoteBlock(s, c) => TokenView::DoubleQuoteBlock(s@, *c),
            Token::Tab(n) => TokenView::Tab(*n as nat),
        }
    }
}

/// `n` tab characters.
pub open spec fn tabs(n: nat) -> Seq<char> {
    Seq::new(n, |_i: int| '\t')
}

/// `s` after the quote `q`, and followed by it when `closed` holds.
pub open spec fn quoted(q: char, s: Seq<char>, closed: bool) -> Seq<char> {
    seq![q] + s + (if closed {
        seq![q]
    } else {
        Seq::empty()
    })
}

impl TokenView {
    /// The text a token stands for in formatted output.
    pub open spec fn text(self) -> Seq<char> {
        match self {
            TokenView::Char(c) => seq![c],
            TokenView::Word(s) => s,
            TokenView::Number(s) => s,
            TokenView::Tilda => seq!['~'],
            TokenView::Att => seq!['@'],
            TokenView::BraceOpen => seq!['{'],
            TokenView::BraceClose => seq!['}'],
            TokenView::BraceSquareClosed => seq![']'],
            TokenView::BraceSquareOpen => seq!['['],
            TokenView::WhiteSpace => seq![' '],
            TokenView::NewLine => seq!['\n'],
            TokenView::Comma => seq![','],
            TokenView::Equals => seq!['='],
            TokenView::Dolar => seq!['$'],
            TokenView::ParenOpen => seq!['('],
            TokenView::ParenClose => seq![')'],
            TokenView::Exc => seq!['!'],
            TokenView::LessThen => seq!['<'],
            TokenView::MoreThen => seq!['>'],
            TokenView::Pipe => seq!['|'],
            TokenView::Hash => seq!['#'],
            TokenView::Colon => seq![':'],
            TokenView::CommentBlock(s) => s,
            TokenView::Path(s) => s,
            TokenView::Dash => seq!['-'],
            TokenView::Tag(s) => s,
            TokenView::TagLong(s) => s,
            TokenView::AttSomething(s) => s,
            TokenView::Slash => seq!['/'],
            TokenView::DoubleQuote => seq!['"'],
            TokenView::SingleQuote => seq!['\''],
            TokenView::SingleQuoteBlock(s, closed) => quoted('\'', s, closed),
            TokenView::DoubleQuoteBlock(s, closed) => quoted('"', s, closed),
            TokenView::Tab(n) => tabs(n * (TAB_MULTIPLIER as nat)),
        }
    }
}

/// The classifier: the token that one character of source text starts as.
pub open spec fn token_for_char(c: char) -> Token {
    if c == '{' {
        Token::BraceOpen
    } else if c == '}' {
        Token::BraceClose
    } else if c == '|' {
        Token::Pipe
    } else if c == '\n' {
        Token::NewLine
    } else if c == ' ' {
        Token::WhiteSpace
    } else if c == '\t' {
        Token::Tab(0)
    } else if c == '[' {
        Token::BraceSquareOpen
    } else if c == ']' {
        Token::BraceSquareClosed
    } else if c == ',' {
        Token::Comma
    } else if c == '(' {
        Token::ParenOpen
    } else if c == ')' {
        Token::ParenClose
    } else if c == '"' {
        Token::DoubleQuote
    } else if c == '\'' {
        Token::SingleQuote
    } else if c == '/' {
        Token::Slash
    } else if c == '$' {
        Token::Dolar
    } else if c == '=' {
        Token::Equals
    } else if c == '!' {
        Token::Exc
    } else if c == '>' {
        Token::MoreThen
    } else if c == '<' {
        Token::LessThen
    } else if c == '#' {
        Token::Hash
    } else if c == ':' {
        Token::Colon
    } else if c == '@' {
        Token::Att
    } else if c == '~' {
        Token::Tilda
    } else if c == '-' {
        Token::Dash
    } else {
        Token::Char(c)
    }
}

/// The model of the token that `c` is classified as.
pub open spec fn char_token(c: char) -> TokenView {
    token_for_char(c)@
}

/// Relies on String::push: the character is appended at the end.
#[verifier::external_body]
pub(crate) fn push_char(s: &mut String, c: char)
    ensures
        final(s)@ == old(s)@.push(c),
{
    s.push(c);
}

/// A string holding one character.
fn single(c: char) -> (r: String)
    ensures
        r@ == seq![c],
{
    let mut s = String::new();
    push_char(&mut s, c);
    s
}

/// `s` inside the quote `q`, without the closing one when `closed` fails.
fn quote_text(q: char, s: &String, closed: bool) -> (r: String)
    ensures
        r@ == quoted(q, s@, closed),
{
    let mut r = single(q);
    r.append(s.as_str());
    if closed {
        push_char(&mut r, q);
    }
    assert(r@ =~= quoted(q, s@, closed));
    r
}

impl Token {
    /// Classifies one character of source text.
    pub fn from_char(c: char) -> (r: Token)
        ensures
            r == token_for_char(c),
            r@ == char_token(c),
    {
        match c {
            '{' => Token::BraceOpen,
            '}' => Token::BraceClose,
            '|' => Token::Pipe,
            '\n' => Token::NewLine,
            ' ' => Token::WhiteSpace,
            '\t' => Token::Tab(0),
            '[' => Token::BraceSquareOpen,
            ']' => Token::BraceSquareClosed,
            ',' => Token::Comma,
            '(' => Token::ParenOpen,
            ')' => Token::ParenClose,
            '"' => Token::DoubleQuote,
            '\'' => Token::SingleQuote,
            '/' => Token::Slash,
            '$' => Token::Dolar,
            '=' => Token::Equals,
            '!' => Token::Exc,
            '>' => Token::MoreThen,
            '<' => Token::LessThen,
            '#' => Token::Hash,
            ':' => Token::Colon,
            '@' => Token::Att,
            '~' => Token::Tilda,
            '-' => Token::Dash,
            _ => Token::Char(c),
        }
    }

    /// The text this token renders as.
    pub fn as_string(&self) -> (r: String)
        ensures
            r@ == self@.text(),
    {
        match self {
            Token::Char(c) => single(*c),
            Token::Word(w) => w.clone(),
            Token::Number(w) => w.clone(),
            Token::BraceOpen => single('{'),
            Token::BraceClose => single('}'),
            Token::WhiteSpace => single(' '),
            Token::NewLine => single('\n'),
            Token::Pipe => single('|'),
            Token::BraceSquareOpen => single('['),
            Token::BraceSquareClosed => single(']'),
            Token::Comma => single(','),
            Token::ParenOpen => single('('),
            Token::ParenClose => single(')'),
            Token::DoubleQuote => single('"'),
            Token::Dolar => single('$'),
            Token::SingleQuote => single('\''),
            Token::Slash => single('/'),
            Token::Hash => single('#'),
            Token::Equals => single('='),
            Token::MoreThen => single('>'),
            Token::LessThen => single('<'),
            Token::Exc => single('!'),
            Token::Colon => single(':'),
            Token::Tilda => single('~'),
            Token::Att => single('@'),
            Token::Dash => single('-'),
            Token::Tag(s) => s.clone(),
            Token::TagLong(s) => s.clone(),
            Token::AttSomething(s) => s.clone(),
            Token::CommentBlock(s) => s.clone(),
            Token::Path(s) => s.clone(),
            Token::DoubleQuoteBlock(s, closed) => quote_text('"', s, *closed),
            Token::SingleQuoteBlock(s, closed) => quote_text('\'', s, *closed),
            Token::Tab(n) => {
                let mut s = String::new();
                let mut i: usize = 0;
                while i < *n
                    invariant
                        i <= *n,
                        s@ == tabs((i * TAB_MULTIPLIER) as nat),
                    decreases *n - i,
                {
                    push_char(&mut s, '\t');
                    push_char(&mut s, '\t');
                    assert(s@ =~= tabs(((i + 1) * TAB_MULTIPLIER) as nat));
                    i = i + 1;
                }
                s
            },
        }
    }
}

impl Clone for Token {
    fn clone(&self) -> (r: Token)
        ensures
            r@ == self@,
    {
        match self {
            Token::Char(c) => Token::Char(*c),
            Token::Word(s) => Token::Word(s.clone()),
            Token::Number(s) => Token::Number(s.clone()),
            Token::Tilda => Token::Tilda,
            Token::Att => Token::Att,
            Token::BraceOpen => Token::BraceOpen,
            Token::BraceClose => Token::BraceClose,
            Token::BraceSquareClosed => Token::BraceSquareClosed,
            Token::BraceSquareOpen => Token::BraceSquareOpen,
            Token::WhiteSpace => Token::WhiteSpace,
            Token::NewLine => Token::NewLine,
            Token::Comma => Token::Comma,
            Token::Equals => Token::Equals,
            Token::Dolar => Token::Dolar,
            Token::ParenOpen => Token::ParenOpen,
            Token::ParenClose => Token::ParenClose,
            Token::Exc => Token::Exc,
            Token::LessThen => Token::LessThen,
            Token::MoreThen => Token::MoreThen,
            Token::Pipe => Token::Pipe,
            Token::Hash => Token::Hash,
            Token::Colon => Token::Colon,
            Token::CommentBlock(s) => Token::CommentBlock(s.clone()),
            Token::Path(s) => Token::Path(s.clone()),
            Token::Dash => Token::Dash,
            Token::Tag(s) => Token::Tag(s.clone()),
            Token::TagLong(s) => Token::TagLong(s.clone()),
            Token::AttSomething(s) => Token::AttSomething(s.clone()),
            Token::Slash => Token::Slash,
            Token::DoubleQuote => Token::DoubleQuote,
            Token::SingleQuote => Token::SingleQuote,
            Token::SingleQuoteBlock(s, c) => Token::SingleQuoteBlock(s.clone(), *c),
            Token::DoubleQuoteBlock(s, c) => Token::DoubleQuoteBlock(s.clone(), *c),
            Token::Tab(n) => Token::Tab(*n),
        }
    }
}

impl PartialEq for Token {
    fn eq(&self, o: &Token) -> (r: bool)
        ensures
            r == (self@ == o@),
    {
        match (self, o) {
            (Token::Char(a), Token::Char(b)) => *a == *b,
            (Token::Word(a), Token::Word(b)) => *a == *b,
            (Token::Number(a), Token::Number(b)) => *a == *b,
            (Token::Tilda, Token::Tilda) => true,
            (Token::Att, Token::Att) => true,
            (Token::BraceOpen, Token::BraceOpen) => true,
            (Token::BraceClose, Token::BraceClose) => true,
            (Token::BraceSquareClosed, Token::BraceSquareClosed) => true,
            (Token::BraceSquareOpen, Token::BraceSquareOpen) => true,
            (Token::WhiteSpace, Token::WhiteSpace) => true,
            (Token::NewLine, Token::NewLine) => true,
            (Token::Comma, Token::Comma) => true,
            (Token::Equals, Token::Equals) => true,
            (Token::Dolar, Token::Dolar) => true,
            (Token::ParenOpen, Token::ParenOpen) => true,
            (Token::ParenClose, Token::ParenClose) => true,
            (Token::Exc, Token::Exc) => true,
            (Token::LessThen, Token::LessThen) => true,
            (Token::MoreThen, Token::MoreThen) => true,
            (Token::Pipe, Token::Pipe) => true,
            (Token::Hash, Token::Hash) => true,
            (Token::Colon, Token::Colon) => true,
            (Token::CommentBlock(a), Token::CommentBlock(b)) => *a == *b,
            (Token::Path(a), Token::Path(b)) => *a == *b,
            (Token::Dash, Token::Dash) => true,
            (Token::Tag(a), Token::Tag(b)) => *a == *b,
            (Token::TagLong(a), Token::TagLong(b)) => *a == *b,
            (Token::AttSomething(a), Token::AttSomething(b)) => *a == *b,
            (Token::Slash, Token::Slash) => true,
            (Token::DoubleQuote, Token::DoubleQuote) => true,
            (Token::SingleQuote, Token::SingleQuote) => true,
            (Token::SingleQuoteBlock(a, x), Token::SingleQuoteBlock(b, y)) => *a == *b && *x == *y,
            (Token::DoubleQuoteBlock(a, x), Token::DoubleQuoteBlock(b, y)) => *a == *b && *x == *y,
            (Token::Tab(a), Token::Tab(b)) => *a == *b,
            _ => false,
        }
    }
}

impl vstd::std_specs::cmp::PartialEqSpecImpl for Token {
    open spec fn obeys_eq_spec() -> bool {
        true
    }

    open spec fn eq_spec(&self, o: &Token) -> bool {
        self@ == o@
    }
}

impl From<char> for Token {
    fn from(value: char) -> (r: Token) {
        Token::from_char(value)
    }
}

impl vstd::std_specs::convert::FromSpecImpl<char> for Token {
    open spec fn obeys_from_spec() -> bool {
        true
    }

    open spec fn from_spec(v: char) -> Token {
        token_for_char(v)
    }
}

} // verus!
