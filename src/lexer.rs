use vstd::prelude::*;
use crate::numeral::{is_ascii_alphabetic, is_ascii_digit, numeral_at, numeral_len, parse_usize, usize_of};
use crate::text::push_range;
use crate::token::{line_end, MarkedToken, Marker, MarkerView, NumberValue, TimeValue, Token};

verus! {

/// What a recognizer found, apart from the lexeme's text.
pub enum Scan {
    /// A token without text: a keyword, an operator or a delimiter.
    Fixed(Token),
    Comment,
    Identifier,
    /// A numeral; `Some` holds its value when it reads as an unsigned integer.
    Number(Option<usize>),
    Str,
    Time(TimeValue),
    Pragma,
    Illegal,
}

/// `t` is the token that `sc` describes, with lexeme `text`.
pub open spec fn denotes(t: Token, sc: Scan, text: Seq<char>) -> bool {
    match sc {
        Scan::Fixed(k) => t == k,
        Scan::Comment => t matches Token::Comment(x) && x@ == text,
        Scan::Identifier => t matches Token::Identifier(x) && x@ == text,
        Scan::Number(v) => t matches Token::Number(x, value) && x@ == text && match v {
            Some(n) => value == NumberValue::Int(n),
            None => value matches NumberValue::Float(f) && f@ == text,
        },
        Scan::Str => t matches Token::String(x) && x@ == text,
        Scan::Time(tv) => t matches Token::Time(x, value) && x@ == text && value == tv,
        Scan::Pragma => t matches Token::Pragma(x) && x@ == text,
        Scan::Illegal => t == Token::Illegal,
    }
}

/// A recognizer's result `r` on the input `s` at `i` is what the model `m` says.
pub open spec fn agrees(r: Option<(Token, usize)>, m: Option<(Scan, nat)>, s: Seq<char>, i: int) -> bool {
    match m {
        Some((sc, n)) => match r {
            Some((t, k)) => k == n && 1 <= n && i + n <= s.len() && denotes(t, sc, s.subrange(i, i + n)),
            None => false,
        },
        None => r is None,
    }
}

pub open spec fn is_ascii_whitespace(c: char) -> bool {
    c == ' ' || c == '\t' || c == '\n' || c == '\x0C' || c == '\r'
}

/// Unicode's notion of a letter or digit, as `char::is_alphanumeric` tells it.
pub uninterp spec fn alphanumeric(c: char) -> bool;

/// Relies on `char::is_alphanumeric`, whose answer depends on the character alone;
/// among ASCII characters it holds of the letters and digits only.
pub assume_specification[ core::primitive::char::is_alphanumeric ](c: char) -> (r: bool)
    ensures
        r == alphanumeric(c),
        (c as u32) < 128 ==> (r <==> (is_ascii_digit(c) || is_ascii_alphabetic(c))),
;

/// `p` stands in `s` at `i` (its first character is also stated on its own).
pub open spec fn has_prefix_at(s: Seq<char>, i: int, p: Seq<char>) -> bool {
    &&& 0 <= i && i + p.len() <= s.len()
    &&& p.len() > 0 ==> s[i] == p[0]
    &&& forall|k: int| 0 <= k < p.len() ==> s[i + k] == #[trigger] p[k]
}

/// The end of the run of ASCII whitespace from `i`.
pub open spec fn whitespace_end(s: Seq<char>, i: int) -> int
    decreases s.len() - i,
{
    if 0 <= i < s.len() && is_ascii_whitespace(s[i]) {
        whitespace_end(s, i + 1)
    } else {
        i
    }
}

/// The end of the run of characters other than ASCII whitespace from `i`.
pub open spec fn word_end(s: Seq<char>, i: int) -> int
    decreases s.len() - i,
{
    if 0 <= i < s.len() && !is_ascii_whitespace(s[i]) {
        word_end(s, i + 1)
    } else {
        i
    }
}

/// The end of the run of letters, digits and underscores from `i`.
pub open spec fn identifier_end(s: Seq<char>, i: int) -> int
    decreases s.len() - i,
{
    if 0 <= i < s.len() && (alphanumeric(s[i]) || s[i] == '_') {
        identifier_end(s, i + 1)
    } else {
        i
    }
}

/// The first offset from `i` that holds `q`, or the end.
pub open spec fn quote_end(s: Seq<char>, i: int, q: char) -> int
    decreases s.len() - i,
{
    if 0 <= i < s.len() && s[i] != q {
        quote_end(s, i + 1, q)
    } else {
        i
    }
}

/// The first offset from `j` where `*)` stands.
pub open spec fn block_close(s: Seq<char>, j: int) -> Option<int>
    decreases s.len() - j,
{
    if j < 0 || j >= s.len() {
        None
    } else if has_prefix_at(s, j, seq!['*', ')']) {
        Some(j)
    } else {
        block_close(s, j + 1)
    }
}

/// The keyword at `i`: the first reserved word, in table order, that starts there.
pub open spec fn keyword_at(s: Seq<char>, i: int) -> Option<(Scan, nat)> {
    if has_prefix_at(s, i, seq!['N', 'O', 'T']) {
        Some((Scan::Fixed(Token::Not), 3))
    } else if has_prefix_at(s, i, seq!['T', 'R', 'U', 'E']) {
        Some((Scan::Fixed(Token::True), 4))
    } else if has_prefix_at(s, i, seq!['F', 'A', 'L', 'S', 'E']) {
        Some((Scan::Fixed(Token::False), 5))
    } else if has_prefix_at(s, i, seq!['A', 'N', 'D']) {
        Some((Scan::Fixed(Token::And), 3))
    } else if has_prefix_at(s, i, seq!['O', 'R']) {
        Some((Scan::Fixed(Token::Or), 2))
    } else if has_prefix_at(s, i, seq!['X', 'O', 'R']) {
        Some((Scan::Fixed(Token::Xor), 3))
    } else if has_prefix_at(s, i, seq!['I', 'F']) {
        Some((Scan::Fixed(Token::If), 2))
    } else if has_prefix_at(s, i, seq!['T', 'H', 'E', 'N']) {
        Some((Scan::Fixed(Token::Then), 4))
    } else if has_prefix_at(s, i, seq!['E', 'L', 'S', 'I', 'F']) {
        Some((Scan::Fixed(Token::Elsif), 5))
    } else if has_prefix_at(s, i, seq!['E', 'L', 'S', 'E']) {
        Some((Scan::Fixed(Token::Else), 4))
    } else if has_prefix_at(s, i, seq!['E', 'N', 'D', '_', 'I', 'F']) {
        Some((Scan::Fixed(Token::EndIf), 6))
    } else if has_prefix_at(s, i, seq!['C', 'A', 'S', 'E']) {
        Some((Scan::Fixed(Token::Case), 4))
    } else if has_prefix_at(s, i, seq!['O', 'F']) {
        Some((Scan::Fixed(Token::Of), 2))
    } else if has_prefix_at(s, i, seq!['E', 'N', 'D', '_', 'C', 'A', 'S', 'E']) {
        Some((Scan::Fixed(Token::EndCase), 8))
    } else if has_prefix_at(s, i, seq!['F', 'O', 'R']) {
        Some((Scan::Fixed(Token::For), 3))
    } else if has_prefix_at(s, i, seq!['T', 'O']) {
        Some((Scan::Fixed(Token::To), 2))
    } else if has_prefix_at(s, i, seq!['B', 'Y']) {
        Some((Scan::Fixed(Token::By), 2))
    } else if has_prefix_at(s, i, seq!['D', 'O']) {
        Some((Scan::Fixed(Token::Do), 2))
    } else if has_prefix_at(s, i, seq!['E', 'N', 'D', '_', 'F', 'O', 'R']) {
        Some((Scan::Fixed(Token::EndFor), 7))
    } else if has_prefix_at(s, i, seq!['W', 'H', 'I', 'L', 'E']) {
        Some((Scan::Fixed(Token::While), 5))
    } else if has_prefix_at(s, i, seq!['E', 'N', 'D', '_', 'W', 'H', 'I', 'L', 'E']) {
        Some((Scan::Fixed(Token::EndWhile), 9))
    } else if has_prefix_at(s, i, seq!['P', 'R', 'O', 'G', 'R', 'A', 'M']) {
        Some((Scan::Fixed(Token::Program), 7))
    } else if has_prefix_at(s, i, seq!['E', 'N', 'D', '_', 'P', 'R', 'O', 'G', 'R', 'A', 'M']) {
        Some((Scan::Fixed(Token::EndProgram), 11))
    } else if has_prefix_at(s, i, seq!['E', 'X', 'I', 'T']) {
        Some((Scan::Fixed(Token::Exit), 4))
    } else if has_prefix_at(s, i, seq!['A', 'C', 'T', 'I', 'O', 'N']) {
        Some((Scan::Fixed(Token::Action), 6))
    } else if has_prefix_at(s, i, seq!['E', 'N', 'D', '_', 'A', 'C', 'T', 'I', 'O', 'N']) {
        Some((Scan::Fixed(Token::EndAction), 10))
    } else if has_prefix_at(s, i, seq!['F', 'U', 'N', 'C', 'T', 'I', 'O', 'N', '_', 'B', 'L', 'O', 'C', 'K']) {
        Some((Scan::Fixed(Token::FunctionBlock), 14))
    } else if has_prefix_at(s, i, seq!['E', 'N', 'D', '_', 'F', 'U', 'N', 'C', 'T', 'I', 'O', 'N', '_', 'B', 'L', 'O', 'C', 'K']) {
        Some((Scan::Fixed(Token::EndFunctionBlock), 18))
    } else if has_prefix_at(s, i, seq!['F', 'U', 'N', 'C', 'T', 'I', 'O', 'N']) {
        Some((Scan::Fixed(Token::Function), 8))
    } else if has_prefix_at(s, i, seq!['E', 'N', 'D', '_', 'F', 'U', 'N', 'C', 'T', 'I', 'O', 'N']) {
        Some((Scan::Fixed(Token::EndFunction), 12))
    } else if has_prefix_at(s, i, seq!['R', 'E', 'T', 'U', 'R', 'N']) {
        Some((Scan::Fixed(Token::Return), 6))
    } else if has_prefix_at(s, i, seq!['V', 'A', 'R', '_', 'I', 'N', 'P', 'U', 'T']) {
        Some((Scan::Fixed(Token::VarInput), 9))
    } else if has_prefix_at(s, i, seq!['V', 'A', 'R', '_', 'O', 'U', 'T', 'P', 'U', 'T']) {
        Some((Scan::Fixed(Token::VarOutput), 10))
    } else if has_prefix_at(s, i, seq!['V', 'A', 'R']) {
        Some((Scan::Fixed(Token::Var), 3))
    } else if has_prefix_at(s, i, seq!['C', 'O', 'N', 'S', 'T', 'A', 'N', 'T']) {
        Some((Scan::Fixed(Token::Constant), 8))
    } else if has_prefix_at(s, i, seq!['E', 'N', 'D', '_', 'V', 'A', 'R']) {
        Some((Scan::Fixed(Token::EndVar), 7))
    } else if has_prefix_at(s, i, seq!['T', 'Y', 'P', 'E']) {
        Some((Scan::Fixed(Token::Type), 4))
    } else if has_prefix_at(s, i, seq!['E', 'N', 'D', '_', 'T', 'Y', 'P', 'E']) {
        Some((Scan::Fixed(Token::EndType), 8))
    } else if has_prefix_at(s, i, seq!['S', 'T', 'R', 'U', 'C', 'T']) {
        Some((Scan::Fixed(Token::Struct), 6))
    } else if has_prefix_at(s, i, seq!['E', 'N', 'D', '_', 'S', 'T', 'R', 'U', 'C', 'T']) {
        Some((Scan::Fixed(Token::EndStruct), 10))
    } else if has_prefix_at(s, i, seq!['U', 'N', 'I', 'O', 'N']) {
        Some((Scan::Fixed(Token::Union), 5))
    } else if has_prefix_at(s, i, seq!['E', 'N', 'D', '_', 'U', 'N', 'I', 'O', 'N']) {
        Some((Scan::Fixed(Token::EndUnion), 9))
    } else {
        None
    }
}

/// The operator at `i`; a two-character operator is tried before its one-character prefix.
pub open spec fn operator_at(s: Seq<char>, i: int) -> Option<(Scan, nat)> {
    if has_prefix_at(s, i, seq!['+']) {
        Some((Scan::Fixed(Token::Plus), 1))
    } else if has_prefix_at(s, i, seq!['-']) {
        Some((Scan::Fixed(Token::Minus), 1))
    } else if has_prefix_at(s, i, seq!['*']) {
        Some((Scan::Fixed(Token::Asterisk), 1))
    } else if has_prefix_at(s, i, seq!['/']) {
        Some((Scan::Fixed(Token::Slash), 1))
    } else if has_prefix_at(s, i, seq!['%']) {
        Some((Scan::Fixed(Token::Percent), 1))
    } else if has_prefix_at(s, i, seq![':', '=']) {
        Some((Scan::Fixed(Token::Assign), 2))
    } else if has_prefix_at(s, i, seq!['=']) {
        Some((Scan::Fixed(Token::Equals), 1))
    } else if has_prefix_at(s, i, seq!['<', '>']) {
        Some((Scan::Fixed(Token::NotEquals), 2))
    } else if has_prefix_at(s, i, seq!['>', '=']) {
        Some((Scan::Fixed(Token::GreaterThanOrEquals), 2))
    } else if has_prefix_at(s, i, seq!['>']) {
        Some((Scan::Fixed(Token::GreaterThan), 1))
    } else if has_prefix_at(s, i, seq!['<', '=']) {
        Some((Scan::Fixed(Token::LessThanOrEquals), 2))
    } else if has_prefix_at(s, i, seq!['<']) {
        Some((Scan::Fixed(Token::LessThan), 1))
    } else {
        None
    }
}

/// The delimiter at `i`.
pub open spec fn delimiter_at(s: Seq<char>, i: int) -> Option<(Scan, nat)> {
    if has_prefix_at(s, i, seq!['.']) {
        Some((Scan::Fixed(Token::Dot), 1))
    } else if has_prefix_at(s, i, seq![',']) {
        Some((Scan::Fixed(Token::Comma), 1))
    } else if has_prefix_at(s, i, seq![':']) {
        Some((Scan::Fixed(Token::Colon), 1))
    } else if has_prefix_at(s, i, seq![';']) {
        Some((Scan::Fixed(Token::SemiColon), 1))
    } else if has_prefix_at(s, i, seq!['(']) {
        Some((Scan::Fixed(Token::LeftParenthesis), 1))
    } else if has_prefix_at(s, i, seq![')']) {
        Some((Scan::Fixed(Token::RightParenthesis), 1))
    } else if has_prefix_at(s, i, seq!['[']) {
        Some((Scan::Fixed(Token::LeftBracket), 1))
    } else if has_prefix_at(s, i, seq![']']) {
        Some((Scan::Fixed(Token::RightBracket), 1))
    } else if has_prefix_at(s, i, seq!['{']) {
        Some((Scan::Fixed(Token::LeftBrace), 1))
    } else if has_prefix_at(s, i, seq!['}']) {
        Some((Scan::Fixed(Token::RightBrace), 1))
    } else {
        None
    }
}

/// The spelling of a keyword token; empty for every other token.
pub open spec fn keyword_text(t: Token) -> Seq<char> {
    match t {
        Token::Not => seq!['N', 'O', 'T'],
        Token::True => seq!['T', 'R', 'U', 'E'],
        Token::False => seq!['F', 'A', 'L', 'S', 'E'],
        Token::And => seq!['A', 'N', 'D'],
        Token::Or => seq!['O', 'R'],
        Token::Xor => seq!['X', 'O', 'R'],
        Token::If => seq!['I', 'F'],
        Token::Then => seq!['T', 'H', 'E', 'N'],
        Token::Elsif => seq!['E', 'L', 'S', 'I', 'F'],
        Token::Else => seq!['E', 'L', 'S', 'E'],
        Token::EndIf => seq!['E', 'N', 'D', '_', 'I', 'F'],
        Token::Case => seq!['C', 'A', 'S', 'E'],
        Token::Of => seq!['O', 'F'],
        Token::EndCase => seq!['E', 'N', 'D', '_', 'C', 'A', 'S', 'E'],
        Token::For => seq!['F', 'O', 'R'],
        Token::To => seq!['T', 'O'],
        Token::By => seq!['B', 'Y'],
        Token::Do => seq!['D', 'O'],
        Token::EndFor => seq!['E', 'N', 'D', '_', 'F', 'O', 'R'],
        Token::While => seq!['W', 'H', 'I', 'L', 'E'],
        Token::EndWhile => seq!['E', 'N', 'D', '_', 'W', 'H', 'I', 'L', 'E'],
        Token::Program => seq!['P', 'R', 'O', 'G', 'R', 'A', 'M'],
        Token::EndProgram => seq!['E', 'N', 'D', '_', 'P', 'R', 'O', 'G', 'R', 'A', 'M'],
        Token::Exit => seq!['E', 'X', 'I', 'T'],
        Token::Action => seq!['A', 'C', 'T', 'I', 'O', 'N'],
        Token::EndAction => seq!['E', 'N', 'D', '_', 'A', 'C', 'T', 'I', 'O', 'N'],
        Token::FunctionBlock => seq!['F', 'U', 'N', 'C', 'T', 'I', 'O', 'N', '_', 'B', 'L', 'O', 'C', 'K'],
        Token::EndFunctionBlock => seq!['E', 'N', 'D', '_', 'F', 'U', 'N', 'C', 'T', 'I', 'O', 'N', '_', 'B', 'L', 'O', 'C', 'K'],
        Token::Function => seq!['F', 'U', 'N', 'C', 'T', 'I', 'O', 'N'],
        Token::EndFunction => seq!['E', 'N', 'D', '_', 'F', 'U', 'N', 'C', 'T', 'I', 'O', 'N'],
        Token::Return => seq!['R', 'E', 'T', 'U', 'R', 'N'],
        Token::VarInput => seq!['V', 'A', 'R', '_', 'I', 'N', 'P', 'U', 'T'],
        Token::VarOutput => seq!['V', 'A', 'R', '_', 'O', 'U', 'T', 'P', 'U', 'T'],
        Token::Var => seq!['V', 'A', 'R'],
        Token::Constant => seq!['C', 'O', 'N', 'S', 'T', 'A', 'N', 'T'],
        Token::EndVar => seq!['E', 'N', 'D', '_', 'V', 'A', 'R'],
        Token::Type => seq!['T', 'Y', 'P', 'E'],
        Token::EndType => seq!['E', 'N', 'D', '_', 'T', 'Y', 'P', 'E'],
        Token::Struct => seq!['S', 'T', 'R', 'U', 'C', 'T'],
        Token::EndStruct => seq!['E', 'N', 'D', '_', 'S', 'T', 'R', 'U', 'C', 'T'],
        Token::Union => seq!['U', 'N', 'I', 'O', 'N'],
        Token::EndUnion => seq!['E', 'N', 'D', '_', 'U', 'N', 'I', 'O', 'N'],
        _ => Seq::empty(),
    }
}

/// A line comment: `//` up to the next line break.
pub open spec fn line_comment_at(s: Seq<char>, i: int) -> Option<(Scan, nat)> {
    if has_prefix_at(s, i, seq!['/', '/']) {
        Some((Scan::Comment, (line_end(s, i) - i) as nat))
    } else {
        None
    }
}

/// A block comment: `(*` through the first `*)` after it; none where it is not closed.
pub open spec fn block_comment_at(s: Seq<char>, i: int) -> Option<(Scan, nat)> {
    if has_prefix_at(s, i, seq!['(', '*']) {
        match block_close(s, i + 2) {
            Some(j) => Some((Scan::Comment, (j + 2 - i) as nat)),
            None => None,
        }
    } else {
        None
    }
}

/// A pragma: `#` and the characters up to the next whitespace.
pub open spec fn pragma_at(s: Seq<char>, i: int) -> Option<(Scan, nat)> {
    if has_prefix_at(s, i, seq!['#']) {
        Some((Scan::Pragma, (word_end(s, i) - i) as nat))
    } else {
        None
    }
}

/// An identifier: an underscore or an ASCII letter, then letters, digits and underscores.
pub open spec fn identifier_at(s: Seq<char>, i: int) -> Option<(Scan, nat)> {
    if 0 <= i < s.len() && (s[i] == '_' || is_ascii_alphabetic(s[i])) {
        Some((Scan::Identifier, (identifier_end(s, i + 1) - i) as nat))
    } else {
        None
    }
}

/// A string: a quote, through the next occurrence of the same quote; none where it is missing.
pub open spec fn string_at(s: Seq<char>, i: int) -> Option<(Scan, nat)> {
    if 0 <= i < s.len() && (s[i] == '"' || s[i] == '\'') && quote_end(s, i + 1, s[i]) < s.len() {
        Some((Scan::Str, (quote_end(s, i + 1, s[i]) + 1 - i) as nat))
    } else {
        None
    }
}

/// A numeral, with its value where it reads as an unsigned integer.
pub open spec fn number_at(s: Seq<char>, i: int) -> Option<(Scan, nat)> {
    match numeral_len(s, i) {
        Some(n) => Some((Scan::Number(usize_of(s.subrange(i, i + n))), n)),
        None => None,
    }
}

/// The unsigned integer numeral at `j`, with its value and length.
pub open spec fn integer_at(s: Seq<char>, j: int) -> Option<(usize, nat)> {
    match numeral_len(s, j) {
        Some(n) => match usize_of(s.subrange(j, j + n)) {
            Some(v) => Some((v, n)),
            None => None,
        },
        None => None,
    }
}

/// The time units in the order they are read: days, hours, minutes, seconds, milliseconds.
/// Minutes are not read where milliseconds stand.
pub open spec fn unit_at(s: Seq<char>, j: int, u: int) -> bool {
    if u == 0 {
        has_prefix_at(s, j, seq!['d']) || has_prefix_at(s, j, seq!['D'])
    } else if u == 1 {
        has_prefix_at(s, j, seq!['h']) || has_prefix_at(s, j, seq!['H'])
    } else if u == 2 {
        (has_prefix_at(s, j, seq!['m']) || has_prefix_at(s, j, seq!['M']))
            && !(has_prefix_at(s, j, seq!['m', 's']) || has_prefix_at(s, j, seq!['M', 'S']))
    } else if u == 3 {
        has_prefix_at(s, j, seq!['s']) || has_prefix_at(s, j, seq!['S'])
    } else {
        has_prefix_at(s, j, seq!['m', 's']) || has_prefix_at(s, j, seq!['M', 'S'])
    }
}

pub open spec fn unit_len(u: int) -> int {
    if u == 4 { 2 } else { 1 }
}

/// `tv` with unit `u` set to `v`, cut to the field's width.
pub open spec fn with_unit(tv: TimeValue, u: int, v: usize) -> TimeValue {
    if u == 0 {
        TimeValue { days: v, ..tv }
    } else if u == 1 {
        TimeValue { hours: (v % 256) as u8, ..tv }
    } else if u == 2 {
        TimeValue { minutes: (v % 256) as u8, ..tv }
    } else if u == 3 {
        TimeValue { seconds: (v % 256) as u8, ..tv }
    } else {
        TimeValue { milli_seconds: (v % 65536) as u16, ..tv }
    }
}

/// Reads the units from `u` on, at offset `j`, where the literal started at `i`, `tv` holds
/// what was read and `v` is the number that waits for its unit.
pub open spec fn time_units(s: Seq<char>, i: int, j: int, u: int, tv: TimeValue, v: usize) -> Option<(Scan, nat)>
    decreases 5 - u,
{
    if u >= 5 {
        None
    } else if !unit_at(s, j, u) {
        time_units(s, i, j, u + 1, tv, v)
    } else {
        let tv2 = with_unit(tv, u, v);
        let j2 = j + unit_len(u);
        match integer_at(s, j2) {
            Some((w, n)) => time_units(s, i, j2 + n, u + 1, tv2, w),
            None => Some((Scan::Time(tv2), (j2 - i) as nat)),
        }
    }
}

pub open spec fn zero_time() -> TimeValue {
    TimeValue { days: 0, hours: 0, minutes: 0, seconds: 0, milli_seconds: 0 }
}

/// A time literal: `T#`, then numbers each followed by a unit, the units in their order;
/// it ends at the first unit not followed by a number.
pub open spec fn time_at(s: Seq<char>, i: int) -> Option<(Scan, nat)> {
    if has_prefix_at(s, i, seq!['T', '#']) {
        match integer_at(s, i + 2) {
            Some((v, n)) => time_units(s, i, i + 2 + n, 0, zero_time(), v),
            None => None,
        }
    } else {
        None
    }
}

pub open spec fn or_else(a: Option<(Scan, nat)>, b: Option<(Scan, nat)>) -> Option<(Scan, nat)> {
    if a is Some { a } else { b }
}

/// The token that starts at `i`: the first recognizer that matches, in priority order,
/// else an illegal token over the rest of the input.
pub open spec fn scan(s: Seq<char>, i: int) -> (Scan, nat) {
    let found = or_else(keyword_at(s, i), or_else(line_comment_at(s, i), or_else(block_comment_at(s, i),
        or_else(pragma_at(s, i), or_else(time_at(s, i), or_else(identifier_at(s, i), or_else(string_at(s, i),
        or_else(operator_at(s, i), or_else(number_at(s, i), delimiter_at(s, i))))))))));
    match found {
        Some(r) => r,
        None => (Scan::Illegal, (s.len() - i) as nat),
    }
}

/// How many line breaks stand before offset `i`.
pub open spec fn line_count(s: Seq<char>, i: int) -> nat
    decreases i,
{
    if i <= 0 {
        0
    } else {
        line_count(s, i - 1) + if s[i - 1] == '\n' { 1nat } else { 0nat }
    }
}

/// How many characters stand between the last line break before offset `i` and `i`.
pub open spec fn column(s: Seq<char>, i: int) -> nat
    decreases i,
{
    if i <= 0 {
        0
    } else if s[i - 1] == '\n' {
        0
    } else {
        column(s, i - 1) + 1
    }
}

/// The marker of offset `i` of source `s` in file `file`.
pub open spec fn marker_at(file: Seq<char>, s: Seq<char>, i: int) -> MarkerView {
    MarkerView { pos: i as usize, line: line_count(s, i) as usize, col: column(s, i) as usize, file, src: s }
}

pub proof fn lemma_position_bounds(s: Seq<char>, i: int)
    requires
        0 <= i,
    ensures
        line_count(s, i) <= i,
        column(s, i) <= i,
    decreases i,
{
    if i > 0 {
        lemma_position_bounds(s, i - 1);
    }
}

/// `p` stands in `s` at `i`.
fn prefix_at(s: &Vec<char>, i: usize, p: &[char]) -> (r: bool)
    requires
        i <= s@.len(),
    ensures
        r == has_prefix_at(s@, i as int, p@),
{
    let len = s.len();
    if p.len() > len - i {
        return false;
    }
    let mut k: usize = 0;
    while k < p.len()
        invariant
            k <= p@.len(),
            i <= s@.len(),
            i + p@.len() <= s@.len(),
            len == s@.len(),
            forall|m: int| 0 <= m < k ==> s@[i + m] == #[trigger] p@[m],
        decreases p@.len() - k,
    {
        if s[i + k] != p[k] {
            return false;
        }
        k = k + 1;
    }
    true
}

/// `c` stands in `s` at `i`.
fn char_at(s: &Vec<char>, i: usize, c: char) -> (r: bool)
    requires
        i <= s@.len(),
    ensures
        r == has_prefix_at(s@, i as int, seq![c]),
{
    let r = i < s.len() && s[i] == c;
    proof {
        let one = seq![c];
        if r {
            assert forall|k: int| 0 <= k < 1 implies s@[i + k] == #[trigger] one[k] by {
                assert(k == 0);
            }
        } else if i < s@.len() {
            assert(s@[i + 0] != one[0]);
        }
    }
    r
}

/// Whether time unit `u` stands in `s` at `j`.
fn unit_matches(s: &Vec<char>, j: usize, u: usize) -> (r: bool)
    requires
        j <= s@.len(),
        u < 5,
    ensures
        r == unit_at(s@, j as int, u as int),
{
    if u == 0 {
        char_at(s, j, 'd') || char_at(s, j, 'D')
    } else if u == 1 {
        char_at(s, j, 'h') || char_at(s, j, 'H')
    } else if u == 2 {
        (char_at(s, j, 'm') || char_at(s, j, 'M')) && !(prefix_at(s, j, &['m', 's']) || prefix_at(s, j, &['M', 'S']))
    } else if u == 3 {
        char_at(s, j, 's') || char_at(s, j, 'S')
    } else {
        prefix_at(s, j, &['m', 's']) || prefix_at(s, j, &['M', 'S'])
    }
}

/// `tv` with unit `u` set to `v`.
fn set_unit(tv: TimeValue, u: usize, v: usize) -> (r: TimeValue)
    requires
        u < 5,
    ensures
        r == with_unit(tv, u as int, v),
{
    if u == 0 {
        TimeValue { days: v, ..tv }
    } else if u == 1 {
        TimeValue { hours: (v % 256) as u8, ..tv }
    } else if u == 2 {
        TimeValue { minutes: (v % 256) as u8, ..tv }
    } else if u == 3 {
        TimeValue { seconds: (v % 256) as u8, ..tv }
    } else {
        TimeValue { milli_seconds: (v % 65536) as u16, ..tv }
    }
}

/// The unsigned integer numeral at `j`, with its value and length.
fn read_integer(s: &Vec<char>, j: usize) -> (r: Option<(usize, usize)>)
    requires
        j <= s@.len(),
        s@.len() <= usize::MAX,
    ensures
        match integer_at(s@, j as int) {
            Some((v, n)) => r == Some((v, n as usize)) && 1 <= n && j + n <= s@.len(),
            None => r is None,
        },
{
    match numeral_at(s, j) {
        None => None,
        Some(n) => match parse_usize(s, j, j + n) {
            Some(v) => Some((v, n)),
            None => None,
        },
    }
}

/// What one call of `next` does on source `s` from offset `i`: it skips whitespace and
/// yields the token that `scan` finds there, marked with its start, or nothing at the end.
pub open spec fn lexes(file: Seq<char>, s: Seq<char>, i: int, r: Option<MarkedToken>, i2: int) -> bool {
    let j = whitespace_end(s, i);
    if j >= s.len() {
        r is None && i2 == s.len()
    } else {
        let (sc, n) = scan(s, j);
        &&& 1 <= n && j + n <= s.len()
        &&& r matches Some(mt)
        &&& denotes(mt.token, sc, s.subrange(j, j + n))
        &&& mt.marker@ == marker_at(file, s, j)
        &&& i2 == j + n
    }
}

pub proof fn lemma_whitespace_end_bounds(s: Seq<char>, i: int)
    requires
        0 <= i <= s.len(),
    ensures
        i <= whitespace_end(s, i) <= s.len(),
    decreases s.len() - i,
{
    if i < s.len() && is_ascii_whitespace(s[i]) {
        lemma_whitespace_end_bounds(s, i + 1);
    }
}

/// A token the parser never sees.
pub open spec fn is_comment_scan(sc: Scan) -> bool {
    sc is Comment || (sc matches Scan::Fixed(k) && k is Comment)
}

/// `toks` is what the lexer yields from offset `i` of source `s` in file `file`, the comments left out.
#[verifier::opaque]
pub open spec fn stream_from(file: Seq<char>, s: Seq<char>, i: int, toks: Seq<MarkedToken>) -> bool
    decreases s.len() - i,
{
    let j = whitespace_end(s, i);
    if i < 0 || j >= s.len() {
        toks.len() == 0
    } else {
        let (sc, n) = scan(s, j);
        if n == 0 || j < i || j + n > s.len() {
            false
        } else if is_comment_scan(sc) {
            stream_from(file, s, j + n, toks)
        } else {
            &&& toks.len() > 0
            &&& denotes(toks[0].token, sc, s.subrange(j, j + n))
            &&& toks[0].marker@ == marker_at(file, s, j)
            &&& stream_from(file, s, j + n, toks.drop_first())
        }
    }
}

/// What the lexer holds: the source, the offset it has reached and the file name.
pub struct LexerView {
    pub src: Seq<char>,
    pub idx: int,
    pub file: Seq<char>,
}

/// A lexer over one source text: it yields the text's marked tokens one by one.
pub struct Lexer<'a> {
    src: Vec<char>,
    idx: usize,
    marker: Marker<'a>,
}

impl<'a> View for Lexer<'a> {
    type V = LexerView;

    closed spec fn view(&self) -> LexerView {
        LexerView { src: self.src@, idx: self.idx as int, file: self.marker@.file }
    }
}

impl<'a> Lexer<'a> {
    /// The offset, the marker and the source agree.
    pub closed spec fn wf(&self) -> bool {
        &&& self.idx <= self.src@.len()
        &&& self.src@.len() <= usize::MAX
        &&& self.marker@ == marker_at(self.marker@.file, self.src@, self.idx as int)
    }

    pub proof fn lemma_wf_bounds(&self)
        requires
            self.wf(),
        ensures
            0 <= self@.idx <= self@.src.len(),
            self@.src.len() <= usize::MAX,
    {
    }

    pub fn create(src_file: &'a str, src: &'a str) -> (r: Self)
        ensures
            r.wf(),
            r@ == (LexerView { src: src@, idx: 0, file: src_file@ }),
    {
        let chars = crate::text::chars_of(src);
        let len = chars.len();
        assert(len == src@.len());
        let marker = Marker::create(src_file, src);
        Self { src: chars, idx: 0, marker }
    }

    /// The position the lexer has reached.
    pub fn marker(&self) -> (r: Marker<'a>)
        requires
            self.wf(),
        ensures
            r@ == marker_at(self@.file, self@.src, self@.idx),
    {
        self.marker
    }

    fn is_exhausted(&self) -> (r: bool)
        requires
            self.wf(),
        ensures
            r == (self.idx == self.src@.len()),
    {
        self.idx == self.src.len()
    }

    /// Steps over `n` characters, or up to the end, keeping the marker in line.
    fn advance(&mut self, n: usize)
        requires
            old(self).wf(),
        ensures
            final(self).wf(),
            final(self).src == old(self).src,
            final(self).idx == if old(self).idx + n <= old(self).src@.len() {
                old(self).idx + n
            } else {
                old(self).src@.len() as int
            },
            final(self).marker@.file == old(self).marker@.file,
    {
        let len = self.src.len();
        let target: usize = if n <= len - self.idx { self.idx + n } else { len };
        while self.idx < target
            invariant
                self.wf(),
                self.src == old(self).src,
                target <= self.src@.len(),
                len == self.src@.len(),
                old(self).idx <= self.idx <= target,
                self.marker@.file == old(self).marker@.file,
            decreases target - self.idx,
        {
            let c = self.src[self.idx];
            proof {
                lemma_position_bounds(self.src@, self.idx as int);
            }
            if c == '\n' {
                self.marker.advance_new_line();
            } else {
                self.marker.advance();
            }
            self.idx = self.idx + 1;
        }
    }

    /// How much ASCII whitespace follows the offset.
    fn cur_whitespace_len(&self) -> (r: usize)
        requires
            self.wf(),
        ensures
            self.idx + r == whitespace_end(self.src@, self.idx as int),
            self.idx + r <= self.src@.len(),
    {
        let mut j: usize = self.idx;
        while j < self.src.len() && (self.src[j] == ' ' || self.src[j] == '\t' || self.src[j] == '\n'
            || self.src[j] == '\x0C' || self.src[j] == '\r')
            invariant
                self.idx <= j <= self.src@.len(),
                whitespace_end(self.src@, j as int) == whitespace_end(self.src@, self.idx as int),
            decreases self.src@.len() - j,
        {
            j = j + 1;
        }
        j - self.idx
    }

    /// `p` stands at the offset.
    fn starts_with(&self, p: &[char]) -> (r: bool)
        requires
            self.idx <= self.src@.len(),
        ensures
            r == has_prefix_at(self.src@, self.idx as int, p@),
    {
        prefix_at(&self.src, self.idx, p)
    }

    /// `c` stands at the offset.
    fn starts_with_char(&self, c: char) -> (r: bool)
        requires
            self.idx <= self.src@.len(),
        ensures
            r == has_prefix_at(self.src@, self.idx as int, seq![c]),
    {
        char_at(&self.src, self.idx, c)
    }

    /// The characters from `a` up to `b` as a string.
    fn text(&self, a: usize, b: usize) -> (r: String)
        requires
            a <= b <= self.src@.len(),
        ensures
            r@ == self.src@.subrange(a as int, b as int),
    {
        let mut r = String::new();
        push_range(&mut r, &self.src, a, b);
        r
    }

    /// Recognises a keyword.
    fn get_keyword_token(&self) -> (r: Option<(Token, usize)>)
        requires
            self.wf(),
            self.idx < self.src@.len(),
        ensures
            agrees(r, keyword_at(self.src@, self.idx as int), self.src@, self.idx as int),
    {
        if self.starts_with(&['N', 'O', 'T']) {
            Some((Token::Not, 3))
        } else if self.starts_with(&['T', 'R', 'U', 'E']) {
            Some((Token::True, 4))
        } else if self.starts_with(&['F', 'A', 'L', 'S', 'E']) {
            Some((Token::False, 5))
        } else if self.starts_with(&['A', 'N', 'D']) {
            Some((Token::And, 3))
        } else if self.starts_with(&['O', 'R']) {
            Some((Token::Or, 2))
        } else if self.starts_with(&['X', 'O', 'R']) {
            Some((Token::Xor, 3))
        } else if self.starts_with(&['I', 'F']) {
            Some((Token::If, 2))
        } else if self.starts_with(&['T', 'H', 'E', 'N']) {
            Some((Token::Then, 4))
        } else if self.starts_with(&['E', 'L', 'S', 'I', 'F']) {
            Some((Token::Elsif, 5))
        } else if self.starts_with(&['E', 'L', 'S', 'E']) {
            Some((Token::Else, 4))
        } else if self.starts_with(&['E', 'N', 'D', '_', 'I', 'F']) {
            Some((Token::EndIf, 6))
        } else if self.starts_with(&['C', 'A', 'S', 'E']) {
            Some((Token::Case, 4))
        } else if self.starts_with(&['O', 'F']) {
            Some((Token::Of, 2))
        } else if self.starts_with(&['E', 'N', 'D', '_', 'C', 'A', 'S', 'E']) {
            Some((Token::EndCase, 8))
        } else if self.starts_with(&['F', 'O', 'R']) {
            Some((Token::For, 3))
        } else if self.starts_with(&['T', 'O']) {
            Some((Token::To, 2))
        } else if self.starts_with(&['B', 'Y']) {
            Some((Token::By, 2))
        } else if self.starts_with(&['D', 'O']) {
            Some((Token::Do, 2))
        } else if self.starts_with(&['E', 'N', 'D', '_', 'F', 'O', 'R']) {
            Some((Token::EndFor, 7))
        } else if self.starts_with(&['W', 'H', 'I', 'L', 'E']) {
            Some((Token::While, 5))
        } else if self.starts_with(&['E', 'N', 'D', '_', 'W', 'H', 'I', 'L', 'E']) {
            Some((Token::EndWhile, 9))
        } else if self.starts_with(&['P', 'R', 'O', 'G', 'R', 'A', 'M']) {
            Some((Token::Program, 7))
        } else if self.starts_with(&['E', 'N', 'D', '_', 'P', 'R', 'O', 'G', 'R', 'A', 'M']) {
            Some((Token::EndProgram, 11))
        } else if self.starts_with(&['E', 'X', 'I', 'T']) {
            Some((Token::Exit, 4))
        } else if self.starts_with(&['A', 'C', 'T', 'I', 'O', 'N']) {
            Some((Token::Action, 6))
        } else if self.starts_with(&['E', 'N', 'D', '_', 'A', 'C', 'T', 'I', 'O', 'N']) {
            Some((Token::EndAction, 10))
        } else if self.starts_with(&['F', 'U', 'N', 'C', 'T', 'I', 'O', 'N', '_', 'B', 'L', 'O', 'C', 'K']) {
            Some((Token::FunctionBlock, 14))
        } else if self.starts_with(&['E', 'N', 'D', '_', 'F', 'U', 'N', 'C', 'T', 'I', 'O', 'N', '_', 'B', 'L', 'O', 'C', 'K']) {
            Some((Token::EndFunctionBlock, 18))
        } else if self.starts_with(&['F', 'U', 'N', 'C', 'T', 'I', 'O', 'N']) {
            Some((Token::Function, 8))
        } else if self.starts_with(&['E', 'N', 'D', '_', 'F', 'U', 'N', 'C', 'T', 'I', 'O', 'N']) {
            Some((Token::EndFunction, 12))
        } else if self.starts_with(&['R', 'E', 'T', 'U', 'R', 'N']) {
            Some((Token::Return, 6))
        } else if self.starts_with(&['V', 'A', 'R', '_', 'I', 'N', 'P', 'U', 'T']) {
            Some((Token::VarInput, 9))
        } else if self.starts_with(&['V', 'A', 'R', '_', 'O', 'U', 'T', 'P', 'U', 'T']) {
            Some((Token::VarOutput, 10))
        } else if self.starts_with(&['V', 'A', 'R']) {
            Some((Token::Var, 3))
        } else if self.starts_with(&['C', 'O', 'N', 'S', 'T', 'A', 'N', 'T']) {
            Some((Token::Constant, 8))
        } else if self.starts_with(&['E', 'N', 'D', '_', 'V', 'A', 'R']) {
            Some((Token::EndVar, 7))
        } else if self.starts_with(&['T', 'Y', 'P', 'E']) {
            Some((Token::Type, 4))
        } else if self.starts_with(&['E', 'N', 'D', '_', 'T', 'Y', 'P', 'E']) {
            Some((Token::EndType, 8))
        } else if self.starts_with(&['S', 'T', 'R', 'U', 'C', 'T']) {
            Some((Token::Struct, 6))
        } else if self.starts_with(&['E', 'N', 'D', '_', 'S', 'T', 'R', 'U', 'C', 'T']) {
            Some((Token::EndStruct, 10))
        } else if self.starts_with(&['U', 'N', 'I', 'O', 'N']) {
            Some((Token::Union, 5))
        } else if self.starts_with(&['E', 'N', 'D', '_', 'U', 'N', 'I', 'O', 'N']) {
            Some((Token::EndUnion, 9))
        } else {
            None
        }
    }

    /// Recognises an operator.
    fn get_operator_token(&self) -> (r: Option<(Token, usize)>)
        requires
            self.wf(),
            self.idx < self.src@.len(),
        ensures
            agrees(r, operator_at(self.src@, self.idx as int), self.src@, self.idx as int),
    {
        if self.starts_with_char('+') {
            Some((Token::Plus, 1))
        } else if self.starts_with_char('-') {
            Some((Token::Minus, 1))
        } else if self.starts_with_char('*') {
            Some((Token::Asterisk, 1))
        } else if self.starts_with_char('/') {
            Some((Token::Slash, 1))
        } else if self.starts_with_char('%') {
            Some((Token::Percent, 1))
        } else if self.starts_with(&[':', '=']) {
            Some((Token::Assign, 2))
        } else if self.starts_with_char('=') {
            Some((Token::Equals, 1))
        } else if self.starts_with(&['<', '>']) {
            Some((Token::NotEquals, 2))
        } else if self.starts_with(&['>', '=']) {
            Some((Token::GreaterThanOrEquals, 2))
        } else if self.starts_with_char('>') {
            Some((Token::GreaterThan, 1))
        } else if self.starts_with(&['<', '=']) {
            Some((Token::LessThanOrEquals, 2))
        } else if self.starts_with_char('<') {
            Some((Token::LessThan, 1))
        } else {
            None
        }
    }

    /// Recognises a delimiter.
    fn get_delimiter_token(&self) -> (r: Option<(Token, usize)>)
        requires
            self.wf(),
            self.idx < self.src@.len(),
        ensures
            agrees(r, delimiter_at(self.src@, self.idx as int), self.src@, self.idx as int),
    {
        if self.starts_with_char('.') {
            Some((Token::Dot, 1))
        } else if self.starts_with_char(',') {
            Some((Token::Comma, 1))
        } else if self.starts_with_char(':') {
            Some((Token::Colon, 1))
        } else if self.starts_with_char(';') {
            Some((Token::SemiColon, 1))
        } else if self.starts_with_char('(') {
            Some((Token::LeftParenthesis, 1))
        } else if self.starts_with_char(')') {
            Some((Token::RightParenthesis, 1))
        } else if self.starts_with_char('[') {
            Some((Token::LeftBracket, 1))
        } else if self.starts_with_char(']') {
            Some((Token::RightBracket, 1))
        } else if self.starts_with_char('{') {
            Some((Token::LeftBrace, 1))
        } else if self.starts_with_char('}') {
            Some((Token::RightBrace, 1))
        } else {
            None
        }
    }

    /// Recognises a line comment.
    fn get_line_comment_token(&self) -> (r: Option<(Token, usize)>)
        requires
            self.wf(),
            self.idx < self.src@.len(),
        ensures
            agrees(r, line_comment_at(self.src@, self.idx as int), self.src@, self.idx as int),
    {
        if !self.starts_with(&['/', '/']) {
            return None;
        }
        let mut j: usize = self.idx;
        while j < self.src.len() && self.src[j] != '\n'
            invariant
                self.idx <= j <= self.src@.len(),
                line_end(self.src@, j as int) == line_end(self.src@, self.idx as int),
            decreases self.src@.len() - j,
        {
            j = j + 1;
        }
        let ghost slashes = seq!['/', '/'];
        assert(slashes[0] == '/');
        assert(self.src@[self.idx + 0] == slashes[0]);
        Some((Token::Comment(self.text(self.idx, j)), j - self.idx))
    }

    /// Recognises a block comment.
    fn get_block_comment_token(&self) -> (r: Option<(Token, usize)>)
        requires
            self.wf(),
            self.idx < self.src@.len(),
        ensures
            agrees(r, block_comment_at(self.src@, self.idx as int), self.src@, self.idx as int),
    {
        if !self.starts_with(&['(', '*']) {
            return None;
        }
        let len = self.src.len();
        let mut j: usize = self.idx + 2;
        while j < len
            invariant
                self.idx + 2 <= j <= len,
                len == self.src@.len(),
                block_close(self.src@, j as int) == block_close(self.src@, self.idx + 2),
                has_prefix_at(self.src@, self.idx as int, seq!['(', '*']),
            decreases len - j,
        {
            if j + 1 < len && self.src[j] == '*' && self.src[j + 1] == ')' {
                assert(has_prefix_at(self.src@, j as int, seq!['*', ')'])) by {
                    let close = seq!['*', ')'];
                    assert forall|k: int| 0 <= k < 2 implies self.src@[j + k] == #[trigger] close[k] by {
                        if k == 1 {
                            assert(self.src@[j + k] == self.src@[j + 1]);
                        }
                    }
                }
                assert(block_close(self.src@, j as int) == Some(j as int));
                let n = j + 2 - self.idx;
                return Some((Token::Comment(self.text(self.idx, j + 2)), n));
            }
            assert(!has_prefix_at(self.src@, j as int, seq!['*', ')'])) by {
                if has_prefix_at(self.src@, j as int, seq!['*', ')']) {
                    assert(self.src@[j + 0] == seq!['*', ')'][0]);
                    assert(self.src@[j + 1] == seq!['*', ')'][1]);
                }
            }
            j = j + 1;
        }
        None
    }

    /// Recognises a pragma.
    fn get_pragma_token(&self) -> (r: Option<(Token, usize)>)
        requires
            self.wf(),
            self.idx < self.src@.len(),
        ensures
            agrees(r, pragma_at(self.src@, self.idx as int), self.src@, self.idx as int),
    {
        if !self.starts_with_char('#') {
            return None;
        }
        let mut j: usize = self.idx;
        while j < self.src.len() && !(self.src[j] == ' ' || self.src[j] == '\t' || self.src[j] == '\n'
            || self.src[j] == '\x0C' || self.src[j] == '\r')
            invariant
                self.idx <= j <= self.src@.len(),
                word_end(self.src@, j as int) == word_end(self.src@, self.idx as int),
            decreases self.src@.len() - j,
        {
            j = j + 1;
        }
        let ghost hash = seq!['#'];
        assert(hash[0] == '#');
        assert(self.src@[self.idx + 0] == hash[0]);
        Some((Token::Pragma(self.text(self.idx, j)), j - self.idx))
    }

    /// Recognises an identifier.
    fn get_identifier_token(&self) -> (r: Option<(Token, usize)>)
        requires
            self.wf(),
            self.idx < self.src@.len(),
        ensures
            agrees(r, identifier_at(self.src@, self.idx as int), self.src@, self.idx as int),
    {
        let first = self.src[self.idx];
        if first != '_' && !(('a' <= first && first <= 'z') || ('A' <= first && first <= 'Z')) {
            return None;
        }
        let mut j: usize = self.idx + 1;
        while j < self.src.len() && (self.src[j].is_alphanumeric() || self.src[j] == '_')
            invariant
                self.idx < j <= self.src@.len(),
                identifier_end(self.src@, j as int) == identifier_end(self.src@, self.idx + 1),
            decreases self.src@.len() - j,
        {
            j = j + 1;
        }
        Some((Token::Identifier(self.text(self.idx, j)), j - self.idx))
    }

    /// Recognises a string literal.
    fn get_string_token(&self) -> (r: Option<(Token, usize)>)
        requires
            self.wf(),
            self.idx < self.src@.len(),
        ensures
            agrees(r, string_at(self.src@, self.idx as int), self.src@, self.idx as int),
    {
        let quote = self.src[self.idx];
        if quote != '"' && quote != '\'' {
            return None;
        }
        let mut j: usize = self.idx + 1;
        while j < self.src.len() && self.src[j] != quote
            invariant
                self.idx < j <= self.src@.len(),
                quote == self.src@[self.idx as int],
                quote_end(self.src@, j as int, quote) == quote_end(self.src@, self.idx + 1, quote),
            decreases self.src@.len() - j,
        {
            j = j + 1;
        }
        if j < self.src.len() {
            Some((Token::String(self.text(self.idx, j + 1)), j + 1 - self.idx))
        } else {
            None
        }
    }

    /// Recognises a numeral.
    fn get_number_token(&self) -> (r: Option<(Token, usize)>)
        requires
            self.wf(),
            self.idx < self.src@.len(),
        ensures
            agrees(r, number_at(self.src@, self.idx as int), self.src@, self.idx as int),
    {
        match numeral_at(&self.src, self.idx) {
            None => None,
            Some(n) => {
                let end = self.idx + n;
                match parse_usize(&self.src, self.idx, end) {
                    Some(value) => Some((Token::Number(self.text(self.idx, end), NumberValue::Int(value)), n)),
                    None => Some((Token::Number(self.text(self.idx, end), NumberValue::Float(self.text(self.idx, end))), n)),
                }
            },
        }
    }

    /// Recognises a time literal.
    fn get_time_token(&self) -> (r: Option<(Token, usize)>)
        requires
            self.wf(),
            self.idx < self.src@.len(),
        ensures
            agrees(r, time_at(self.src@, self.idx as int), self.src@, self.idx as int),
    {
        if !self.starts_with(&['T', '#']) {
            return None;
        }
        let (first, n) = match read_integer(&self.src, self.idx + 2) {
            Some(x) => x,
            None => return None,
        };
        let mut data = TimeValue { days: 0, hours: 0, minutes: 0, seconds: 0, milli_seconds: 0 };
        let mut cur = first;
        let mut j: usize = self.idx + 2 + n;
        let mut u: usize = 0;
        while u < 5
            invariant
                self.wf(),
                self.idx + 2 < j <= self.src@.len(),
                u <= 5,
                time_units(self.src@, self.idx as int, j as int, u as int, data, cur) == time_at(self.src@, self.idx as int),
            decreases 5 - u,
        {
            if unit_matches(&self.src, j, u) {
                data = set_unit(data, u, cur);
                j = if u == 4 { j + 2 } else { j + 1 };
                match read_integer(&self.src, j) {
                    Some((v, m)) => {
                        cur = v;
                        j = j + m;
                    },
                    None => {
                        return Some((Token::Time(self.text(self.idx, j), data), j - self.idx));
                    },
                }
            }
            u = u + 1;
        }
        None
    }

    /// The token at the offset and its length: the first recognizer that matches, else an
    /// illegal token over the rest of the source.
    fn get_token(&self) -> (r: (Token, usize))
        requires
            self.wf(),
            self.idx < self.src@.len(),
        ensures
            r.1 == scan(self.src@, self.idx as int).1,
            1 <= r.1,
            self.idx + r.1 <= self.src@.len(),
            denotes(r.0, scan(self.src@, self.idx as int).0, self.src@.subrange(self.idx as int, self.idx + r.1)),
    {
        match self.get_keyword_token() {
            Some(x) => return x,
            None => {},
        }
        match self.get_line_comment_token() {
            Some(x) => return x,
            None => {},
        }
        match self.get_block_comment_token() {
            Some(x) => return x,
            None => {},
        }
        match self.get_pragma_token() {
            Some(x) => return x,
            None => {},
        }
        match self.get_time_token() {
            Some(x) => return x,
            None => {},
        }
        match self.get_identifier_token() {
            Some(x) => return x,
            None => {},
        }
        match self.get_string_token() {
            Some(x) => return x,
            None => {},
        }
        match self.get_operator_token() {
            Some(x) => return x,
            None => {},
        }
        match self.get_number_token() {
            Some(x) => return x,
            None => {},
        }
        match self.get_delimiter_token() {
            Some(x) => return x,
            None => {},
        }
        (Token::Illegal, self.src.len() - self.idx)
    }

    /// The next marked token, after any whitespace; `None` once the source is used up.
    pub fn next(&mut self) -> (r: Option<MarkedToken<'a>>)
        requires
            old(self).wf(),
        ensures
            final(self).wf(),
            final(self)@.src == old(self)@.src,
            final(self)@.file == old(self)@.file,
            lexes(old(self)@.file, old(self)@.src, old(self)@.idx, r, final(self)@.idx),
            r is Some ==> old(self)@.idx < final(self)@.idx,
            r is None ==> final(self)@.idx == final(self)@.src.len(),
    {
        let ws = self.cur_whitespace_len();
        self.advance(ws);
        if self.is_exhausted() {
            return None;
        }
        let (token, token_len) = self.get_token();
        let marked_token = token.mark(self.marker);
        self.advance(token_len);
        Some(marked_token)
    }

} // impl

} // verus!
