use vstd::prelude::*;
use crate::text::{centered, chars_of, decimal, push_decimal, push_range, push_spaces, spaces};

verus! {

/// A lexical token. Tokens that carry text hold the exact lexeme.
#[derive(Debug, PartialEq)]
pub enum Token {
    Illegal,
    Comment(String),
    // Literals
    Identifier(String),
    Number(String, NumberValue),
    String(String),
    Time(String, TimeValue),
    // Operators
    Plus,
    Minus,
    Asterisk,
    Slash,
    Percent,
    Assign,
    Equals,
    NotEquals,
    GreaterThan,
    GreaterThanOrEquals,
    LessThan,
    LessThanOrEquals,
    // Delimiters
    Dot,
    Comma,
    Colon,
    SemiColon,
    LeftParenthesis,
    RightParenthesis,
    LeftBracket,
    RightBracket,
    LeftBrace,
    RightBrace,
    // Logic keywords
    Not,
    True,
    False,
    And,
    Or,
    Xor,
    // Control flow keywords
    If,
    Then,
    Elsif,
    Else,
    EndIf,
    Case,
    Of,
    EndCase,
    For,
    To,
    By,
    Do,
    EndFor,
    While,
    EndWhile,
    // Program, action, function and function block keywords
    Program,
    EndProgram,
    Exit,
    Action,
    EndAction,
    Function,
    EndFunction,
    FunctionBlock,
    EndFunctionBlock,
    Return,
    // Variable declaration keywords
    Var,
    VarInput,
    VarOutput,
    Constant,
    EndVar,
    // Type declaration keywords
    Type,
    EndType,
    Struct,
    EndStruct,
    Union,
    EndUnion,
    // Addons
    Pragma(String),
}

impl Token {
    /// Pairs the token with the position where it starts.
    pub fn mark<'a>(self, marker: Marker<'a>) -> (r: MarkedToken<'a>)
        ensures
            r.token == self,
            r.marker == marker,
    {
        MarkedToken { token: self, marker }
    }
}

/// The value of a numeral: an unsigned integer, or a floating-point
/// numeral kept as its text.
#[derive(Clone, Debug, PartialEq)]
pub enum NumberValue {
    Int(usize),
    Float(String),
}

/// A duration accumulated from the units of a time literal.
#[derive(Clone, Copy, Debug, PartialEq, Eq)]
pub struct TimeValue {
    pub days: usize,
    pub hours: u8,
    pub minutes: u8,
    pub seconds: u8,
    pub milli_seconds: u16,
}

/// What a marker holds: offset, zero-based line and column, the file name and the source.
pub struct MarkerView {
    pub pos: usize,
    pub line: usize,
    pub col: usize,
    pub file: Seq<char>,
    pub src: Seq<char>,
}

/// A position in a source text.
#[derive(Clone, Copy, Debug, PartialEq)]
pub struct Marker<'a> {
    pos: usize,
    line: usize,
    col: usize,
    src_file: &'a str,
    src: &'a str,
}

impl<'a> View for Marker<'a> {
    type V = MarkerView;

    closed spec fn view(&self) -> MarkerView {
        MarkerView { pos: self.pos, line: self.line, col: self.col, file: self.src_file@, src: self.src@ }
    }
}

impl<'a> Marker<'a> {
    pub fn create(src_file: &'a str, src: &'a str) -> (r: Self)
        ensures
            r@ == (MarkerView { pos: 0, line: 0, col: 0, file: src_file@, src: src@ }),
    {
        Self { pos: 0, line: 0, col: 0, src_file, src }
    }

    pub fn set(&mut self, pos: usize, line: usize, col: usize)
        ensures
            final(self)@ == (MarkerView { pos, line, col, ..old(self)@ }),
    {
        self.pos = pos;
        self.line = line;
        self.col = col;
    }

    /// Steps over one character that is not a line break.
    pub fn advance(&mut self)
        requires
            old(self)@.pos < usize::MAX,
            old(self)@.col < usize::MAX,
        ensures
            final(self)@ == (MarkerView { pos: (old(self)@.pos + 1) as usize, col: (old(self)@.col + 1) as usize, ..old(self)@ }),
    {
        self.pos += 1;
        self.col += 1;
    }

    /// Steps over a line break.
    pub fn advance_new_line(&mut self)
        requires
            old(self)@.pos < usize::MAX,
            old(self)@.line < usize::MAX,
        ensures
            final(self)@ == (MarkerView { pos: (old(self)@.pos + 1) as usize, line: (old(self)@.line + 1) as usize, col: 0, ..old(self)@ }),
    {
        self.pos += 1;
        self.line += 1;
        self.col = 0;
    }
}

/// Where the line holding offset `pos` starts: just after the last line break before `pos`.
pub open spec fn line_start(src: Seq<char>, pos: int) -> int
    decreases pos,
{
    if pos <= 0 {
        0
    } else if src[pos - 1] == '\n' {
        pos
    } else {
        line_start(src, pos - 1)
    }
}

/// Where the line running on from offset `i` ends: at the next line break, or at the end.
pub open spec fn line_end(src: Seq<char>, i: int) -> int
    decreases src.len() - i,
{
    if i >= src.len() {
        src.len() as int
    } else if src[i] == '\n' {
        i
    } else {
        line_end(src, i + 1)
    }
}

/// The source line that holds offset `pos`, without its line break.
pub open spec fn line_at(src: Seq<char>, pos: int) -> Seq<char> {
    src.subrange(line_start(src, pos), line_end(src, line_start(src, pos)))
}

/// The diagnostic header for a position: `file:line:col`, the source line under
/// its one-based number, and a caret under the column.
pub open spec fn printable(m: MarkerView) -> Seq<char> {
    m.file + seq![':'] + decimal((m.line + 1) as nat) + seq![':'] + decimal(m.col as nat)
        + seq!['\n', ' ', ' ', ' ', ' ', '|', '\n'] + centered(decimal((m.line + 1) as nat), 4)
        + seq!['|', ' '] + line_at(m.src, m.pos as int)
        + seq!['\n', ' ', ' ', ' ', ' ', '|', ' '] + spaces(m.col as nat) + seq!['^']
}

proof fn lemma_line_start_bounds(src: Seq<char>, pos: int)
    requires
        0 <= pos <= src.len(),
    ensures
        0 <= line_start(src, pos) <= pos,
    decreases pos,
{
    if pos > 0 && src[pos - 1] != '\n' {
        lemma_line_start_bounds(src, pos - 1);
    }
}

proof fn lemma_line_end_bounds(src: Seq<char>, i: int)
    requires
        0 <= i <= src.len(),
    ensures
        i <= line_end(src, i) <= src.len(),
    decreases src.len() - i,
{
    if i < src.len() && src[i] != '\n' {
        lemma_line_end_bounds(src, i + 1);
    }
}

/// Appends the decimal notation of `n` centred in four columns.
fn push_centered(r: &mut String, n: u128)
    ensures
        final(r)@ == old(r)@ + centered(decimal(n as nat), 4),
{
    let mut number = String::new();
    push_decimal(&mut number, n);
    assert(number@ =~= decimal(n as nat));
    let width: usize = 4;
    let len = number.unicode_len();
    if len < width {
        let pad = width - len;
        push_spaces(r, pad / 2);
        r.push_str(number.as_str());
        push_spaces(r, pad - pad / 2);
    } else {
        r.push_str(number.as_str());
    }
    assert(final(r)@ =~= old(r)@ + centered(decimal(n as nat), 4));
}

/// Appends `col` spaces and a caret, so that the caret stands under column `col`.
fn push_caret(r: &mut String, col: usize)
    ensures
        final(r)@ == old(r)@ + spaces(col as nat) + seq!['^'],
{
    push_spaces(r, col);
    r.push('^');
    assert(final(r)@ =~= old(r)@ + spaces(col as nat) + seq!['^']);
}

impl<'a> Marker<'a> {
    /// Renders the position as the header of a diagnostic.
    pub fn format_as_printable(&self) -> (r: String)
        requires
            self@.pos <= self@.src.len(),
        ensures
            r@ == printable(self@),
    {
        let src = chars_of(self.src);
        let (start, end) = Self::get_line(&src, self.pos);
        let line: u128 = self.line as u128 + 1;
        let mut r = String::new();
        r.push_str(self.src_file);
        r.push(':');
        push_decimal(&mut r, line);
        r.push(':');
        push_decimal(&mut r, self.col as u128);
        r.push('\n');
        push_spaces(&mut r, 4);
        r.push('|');
        r.push('\n');
        let ghost head = r@;
        assert(head =~= self@.file + seq![':'] + decimal(line as nat) + seq![':'] + decimal(self.col as nat)
            + seq!['\n', ' ', ' ', ' ', ' ', '|', '\n']);
        push_centered(&mut r, line);
        assert(r@ =~= head + centered(decimal(line as nat), 4));
        let ghost mid = r@;
        r.push('|');
        r.push(' ');
        push_range(&mut r, &src, start, end);
        assert(r@ =~= mid + seq!['|', ' '] + line_at(self@.src, self@.pos as int));
        let ghost tail = r@;
        r.push('\n');
        push_spaces(&mut r, 4);
        r.push('|');
        r.push(' ');
        assert(r@ =~= tail + seq!['\n', ' ', ' ', ' ', ' ', '|', ' ']);
        push_caret(&mut r, self.col);
        assert(r@ =~= printable(self@));
        r
    }

    /// The bounds of the source line that holds offset `pos`.
    fn get_line(src: &Vec<char>, pos: usize) -> (r: (usize, usize))
        requires
            pos <= src@.len(),
        ensures
            r.0 == line_start(src@, pos as int),
            r.1 == line_end(src@, r.0 as int),
            r.0 <= r.1 <= src@.len(),
    {
        let mut start: usize = pos;
        while start > 0 && src[start - 1] != '\n'
            invariant
                start <= pos <= src@.len(),
                line_start(src@, start as int) == line_start(src@, pos as int),
            decreases start,
        {
            start = start - 1;
        }
        proof {
            lemma_line_start_bounds(src@, pos as int);
        }
        let mut end: usize = start;
        while end < src.len() && src[end] != '\n'
            invariant
                start <= end <= src@.len(),
                line_end(src@, end as int) == line_end(src@, start as int),
            decreases src@.len() - end,
        {
            end = end + 1;
        }
        (start, end)
    }
}

/// A token with the position where it starts.
#[derive(Debug, PartialEq)]
pub struct MarkedToken<'a> {
    pub token: Token,
    pub marker: Marker<'a>,
}

} // verus!
