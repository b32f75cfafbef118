use vstd::prelude::*;
use crate::lexer::{
    lemma_position_bounds,     has_prefix_at, is_ascii_whitespace, keyword_at, keyword_text, lexes, line_count, marker_at, quote_end, scan,
    string_at, whitespace_end, Scan,
};
use crate::parser::{
    adv, blocks, errors_model, lemma_blocks_extends, parse_model, parse_outcome, block, diagnostic, fail, tok, PState, ACTION_UNSUPPORTED, FUNCTION_BLOCK_UNSUPPORTED, FUNCTION_UNSUPPORTED,
    TYPE_UNSUPPORTED, VAR_UNSUPPORTED,
};
use crate::numeral::{numeral_len, numeral_window_end};
use crate::token::{MarkedToken, Token};

verus! {

proof fn lemma_whitespace_run(s: Seq<char>, i: int)
    requires
        0 <= i <= s.len(),
        forall|k: int| 0 <= k < s.len() ==> is_ascii_whitespace(#[trigger] s[k]),
    ensures
        whitespace_end(s, i) == s.len(),
    decreases s.len() - i,
{
    if i < s.len() {
        lemma_whitespace_run(s, i + 1);
    }
}

/// On input made of ASCII whitespace alone the lexer yields no token, and it stops at the
/// end: its position is then the length, its line the number of line breaks.
pub proof fn law_whitespace_yields_no_token(file: Seq<char>, s: Seq<char>, r: Option<MarkedToken>, i2: int)
    requires
        forall|k: int| 0 <= k < s.len() ==> is_ascii_whitespace(#[trigger] s[k]),
        s.len() <= usize::MAX,
        lexes(file, s, 0, r, i2),
    ensures
        r is None,
        i2 == s.len(),
        marker_at(file, s, i2).pos == s.len(),
        marker_at(file, s, i2).line == line_count(s, s.len() as int),
{
    lemma_whitespace_run(s, 0);
    lemma_position_bounds(s, s.len() as int);
}

/// A word with a keyword's spelling is found as that keyword by the keyword recognizer.
pub open spec fn is_keyword(t: Token) -> bool {
    keyword_text(t).len() > 0
}

#[verifier::spinoff_prover]
#[verifier::rlimit(100)]
proof fn lemma_keyword_at_own_text(k: Token)
    requires
        is_keyword(k),
    ensures
        keyword_at(keyword_text(k), 0) == Some((Scan::Fixed(k), keyword_text(k).len())),
{
    match k {
        Token::Not => {},
        Token::True => {},
        Token::False => {},
        Token::And => {},
        Token::Or => {},
        Token::Xor => {},
        Token::If => {},
        Token::Then => {
            assert(seq!['T', 'R', 'U', 'E'][1] == 'R');
        },
        Token::Elsif => {},
        Token::Else => {},
        Token::EndIf => {
            assert(seq!['E', 'L', 'S', 'I', 'F'][1] == 'L');
            assert(seq!['E', 'L', 'S', 'E'][1] == 'L');
        },
        Token::Case => {},
        Token::Of => {
            assert(seq!['O', 'R'][1] == 'R');
        },
        Token::EndCase => {
            assert(seq!['E', 'L', 'S', 'I', 'F'][1] == 'L');
            assert(seq!['E', 'L', 'S', 'E'][1] == 'L');
            assert(seq!['E', 'N', 'D', '_', 'I', 'F'][4] == 'I');
        },
        Token::For => {},
        Token::To => {},
        Token::By => {},
        Token::Do => {},
        Token::EndFor => {
            assert(seq!['E', 'L', 'S', 'I', 'F'][1] == 'L');
            assert(seq!['E', 'L', 'S', 'E'][1] == 'L');
            assert(seq!['E', 'N', 'D', '_', 'I', 'F'][4] == 'I');
        },
        Token::While => {},
        Token::EndWhile => {
            assert(seq!['E', 'L', 'S', 'I', 'F'][1] == 'L');
            assert(seq!['E', 'L', 'S', 'E'][1] == 'L');
            assert(seq!['E', 'N', 'D', '_', 'I', 'F'][4] == 'I');
            assert(seq!['E', 'N', 'D', '_', 'C', 'A', 'S', 'E'][4] == 'C');
            assert(seq!['E', 'N', 'D', '_', 'F', 'O', 'R'][4] == 'F');
        },
        Token::Program => {},
        Token::EndProgram => {
            assert(seq!['E', 'L', 'S', 'I', 'F'][1] == 'L');
            assert(seq!['E', 'L', 'S', 'E'][1] == 'L');
            assert(seq!['E', 'N', 'D', '_', 'I', 'F'][4] == 'I');
            assert(seq!['E', 'N', 'D', '_', 'C', 'A', 'S', 'E'][4] == 'C');
            assert(seq!['E', 'N', 'D', '_', 'F', 'O', 'R'][4] == 'F');
            assert(seq!['E', 'N', 'D', '_', 'W', 'H', 'I', 'L', 'E'][4] == 'W');
        },
        Token::Exit => {
            assert(seq!['E', 'L', 'S', 'E'][1] == 'L');
        },
        Token::Action => {
            assert(seq!['A', 'N', 'D'][1] == 'N');
        },
        Token::EndAction => {
            assert(seq!['E', 'L', 'S', 'I', 'F'][1] == 'L');
            assert(seq!['E', 'L', 'S', 'E'][1] == 'L');
            assert(seq!['E', 'N', 'D', '_', 'I', 'F'][4] == 'I');
            assert(seq!['E', 'N', 'D', '_', 'C', 'A', 'S', 'E'][4] == 'C');
            assert(seq!['E', 'N', 'D', '_', 'F', 'O', 'R'][4] == 'F');
            assert(seq!['E', 'N', 'D', '_', 'W', 'H', 'I', 'L', 'E'][4] == 'W');
            assert(seq!['E', 'X', 'I', 'T'][1] == 'X');
        },
        Token::FunctionBlock => {
            assert(seq!['F', 'A', 'L', 'S', 'E'][1] == 'A');
            assert(seq!['F', 'O', 'R'][1] == 'O');
        },
        Token::EndFunctionBlock => {
            assert(seq!['E', 'L', 'S', 'I', 'F'][1] == 'L');
            assert(seq!['E', 'L', 'S', 'E'][1] == 'L');
            assert(seq!['E', 'N', 'D', '_', 'I', 'F'][4] == 'I');
            assert(seq!['E', 'N', 'D', '_', 'C', 'A', 'S', 'E'][4] == 'C');
            assert(seq!['E', 'N', 'D', '_', 'F', 'O', 'R'][5] == 'O');
            assert(seq!['E', 'N', 'D', '_', 'W', 'H', 'I', 'L', 'E'][4] == 'W');
            assert(seq!['E', 'N', 'D', '_', 'P', 'R', 'O', 'G', 'R', 'A', 'M'][4] == 'P');
            assert(seq!['E', 'X', 'I', 'T'][1] == 'X');
            assert(seq!['E', 'N', 'D', '_', 'A', 'C', 'T', 'I', 'O', 'N'][4] == 'A');
        },
        Token::Function => {
            assert(seq!['F', 'A', 'L', 'S', 'E'][1] == 'A');
            assert(seq!['F', 'O', 'R'][1] == 'O');
        },
        Token::EndFunction => {
            assert(seq!['E', 'L', 'S', 'I', 'F'][1] == 'L');
            assert(seq!['E', 'L', 'S', 'E'][1] == 'L');
            assert(seq!['E', 'N', 'D', '_', 'I', 'F'][4] == 'I');
            assert(seq!['E', 'N', 'D', '_', 'C', 'A', 'S', 'E'][4] == 'C');
            assert(seq!['E', 'N', 'D', '_', 'F', 'O', 'R'][5] == 'O');
            assert(seq!['E', 'N', 'D', '_', 'W', 'H', 'I', 'L', 'E'][4] == 'W');
            assert(seq!['E', 'N', 'D', '_', 'P', 'R', 'O', 'G', 'R', 'A', 'M'][4] == 'P');
            assert(seq!['E', 'X', 'I', 'T'][1] == 'X');
            assert(seq!['E', 'N', 'D', '_', 'A', 'C', 'T', 'I', 'O', 'N'][4] == 'A');
        },
        Token::Return => {},
        Token::VarInput => {},
        Token::VarOutput => {
            assert(seq!['V', 'A', 'R', '_', 'I', 'N', 'P', 'U', 'T'][4] == 'I');
        },
        Token::Var => {},
        Token::Constant => {
            assert(seq!['C', 'A', 'S', 'E'][1] == 'A');
        },
        Token::EndVar => {
            assert(seq!['E', 'L', 'S', 'I', 'F'][1] == 'L');
            assert(seq!['E', 'L', 'S', 'E'][1] == 'L');
            assert(seq!['E', 'N', 'D', '_', 'I', 'F'][4] == 'I');
            assert(seq!['E', 'N', 'D', '_', 'F', 'O', 'R'][4] == 'F');
            assert(seq!['E', 'X', 'I', 'T'][1] == 'X');
        },
        Token::Type => {
            assert(seq!['T', 'R', 'U', 'E'][1] == 'R');
            assert(seq!['T', 'H', 'E', 'N'][1] == 'H');
            assert(seq!['T', 'O'][1] == 'O');
        },
        Token::EndType => {
            assert(seq!['E', 'L', 'S', 'I', 'F'][1] == 'L');
            assert(seq!['E', 'L', 'S', 'E'][1] == 'L');
            assert(seq!['E', 'N', 'D', '_', 'I', 'F'][4] == 'I');
            assert(seq!['E', 'N', 'D', '_', 'C', 'A', 'S', 'E'][4] == 'C');
            assert(seq!['E', 'N', 'D', '_', 'F', 'O', 'R'][4] == 'F');
            assert(seq!['E', 'X', 'I', 'T'][1] == 'X');
            assert(seq!['E', 'N', 'D', '_', 'V', 'A', 'R'][4] == 'V');
        },
        Token::Struct => {},
        Token::EndStruct => {
            assert(seq!['E', 'L', 'S', 'I', 'F'][1] == 'L');
            assert(seq!['E', 'L', 'S', 'E'][1] == 'L');
            assert(seq!['E', 'N', 'D', '_', 'I', 'F'][4] == 'I');
            assert(seq!['E', 'N', 'D', '_', 'C', 'A', 'S', 'E'][4] == 'C');
            assert(seq!['E', 'N', 'D', '_', 'F', 'O', 'R'][4] == 'F');
            assert(seq!['E', 'N', 'D', '_', 'W', 'H', 'I', 'L', 'E'][4] == 'W');
            assert(seq!['E', 'X', 'I', 'T'][1] == 'X');
            assert(seq!['E', 'N', 'D', '_', 'A', 'C', 'T', 'I', 'O', 'N'][4] == 'A');
            assert(seq!['E', 'N', 'D', '_', 'V', 'A', 'R'][4] == 'V');
            assert(seq!['E', 'N', 'D', '_', 'T', 'Y', 'P', 'E'][4] == 'T');
        },
        Token::Union => {},
        Token::EndUnion => {
            assert(seq!['E', 'L', 'S', 'I', 'F'][1] == 'L');
            assert(seq!['E', 'L', 'S', 'E'][1] == 'L');
            assert(seq!['E', 'N', 'D', '_', 'I', 'F'][4] == 'I');
            assert(seq!['E', 'N', 'D', '_', 'C', 'A', 'S', 'E'][4] == 'C');
            assert(seq!['E', 'N', 'D', '_', 'F', 'O', 'R'][4] == 'F');
            assert(seq!['E', 'N', 'D', '_', 'W', 'H', 'I', 'L', 'E'][4] == 'W');
            assert(seq!['E', 'X', 'I', 'T'][1] == 'X');
            assert(seq!['E', 'N', 'D', '_', 'V', 'A', 'R'][4] == 'V');
            assert(seq!['E', 'N', 'D', '_', 'T', 'Y', 'P', 'E'][4] == 'T');
        },
        _ => {},
    }
}

/// Lexing a keyword's spelling yields exactly one token: that keyword, over the whole input.
#[verifier::spinoff_prover]
#[verifier::rlimit(100)]
pub proof fn law_keyword_lexes_alone(
    file: Seq<char>,
    k: Token,
    r: Option<MarkedToken>,
    i2: int,
    r2: Option<MarkedToken>,
    i3: int,
)
    requires
        is_keyword(k),
        lexes(file, keyword_text(k), 0, r, i2),
        lexes(file, keyword_text(k), i2, r2, i3),
    ensures
        r matches Some(mt) && mt.token == k,
        i2 == keyword_text(k).len(),
        r2 is None,
{
    lemma_keyword_at_own_text(k);
    let s = keyword_text(k);
    assert(!is_ascii_whitespace(s[0]));
    assert(whitespace_end(s, 0) == 0);
    assert(scan(s, 0) == (Scan::Fixed(k), s.len())) by {
        assert(keyword_at(s, 0) is Some);
    }
    assert(whitespace_end(s, s.len() as int) == s.len());
}

/// The operator that a pair of characters spells, where it spells one.
pub open spec fn two_char_operator(a: char, b: char) -> Option<Token> {
    if a == ':' && b == '=' {
        Some(Token::Assign)
    } else if a == '<' && b == '>' {
        Some(Token::NotEquals)
    } else if a == '>' && b == '=' {
        Some(Token::GreaterThanOrEquals)
    } else if a == '<' && b == '=' {
        Some(Token::LessThanOrEquals)
    } else {
        None
    }
}

/// A two-character operator wins over the one-character operator or delimiter it starts with.
pub proof fn law_two_char_operators_first(s: Seq<char>, i: int)
    requires
        0 <= i,
        i + 2 <= s.len(),
        two_char_operator(s[i], s[i + 1]) is Some,
    ensures
        scan(s, i) == (Scan::Fixed(two_char_operator(s[i], s[i + 1])->0), 2nat),
{
    assert(has_prefix_at(s, i, seq![s[i], s[i + 1]])) by {
        let p = seq![s[i], s[i + 1]];
        assert forall|k: int| 0 <= k < p.len() implies s[i + k] == #[trigger] p[k] by {
            if k == 1 {
                assert(s[i + k] == s[i + 1]);
            }
        }
    }
}

proof fn lemma_quote_missing(s: Seq<char>, i: int, q: char)
    requires
        0 <= i <= s.len(),
        forall|k: int| i <= k < s.len() ==> #[trigger] s[k] != q,
    ensures
        quote_end(s, i, q) == s.len(),
    decreases s.len() - i,
{
    if i < s.len() {
        lemma_quote_missing(s, i + 1, q);
    }
}

/// A quote with no same quote after it starts no string: the lexer finds nothing else
/// there either, and takes the rest of the input as one illegal token.
pub proof fn law_unterminated_string(s: Seq<char>, i: int)
    requires
        0 <= i < s.len(),
        s[i] == '"' || s[i] == '\'',
        forall|k: int| i < k < s.len() ==> #[trigger] s[k] != s[i],
    ensures
        string_at(s, i) is None,
        scan(s, i) == (Scan::Illegal, (s.len() - i) as nat),
{
    lemma_quote_missing(s, i + 1, s[i]);
    assert(numeral_window_end(s, i) == i);
    assert(s.subrange(i, i) =~= Seq::<char>::empty());
    assert(numeral_len(s, i) is None);
}

/// What `Lexer::next` yields at an unterminated quote: one illegal token that runs to the end.
pub proof fn law_next_at_unterminated_string(
    file: Seq<char>,
    s: Seq<char>,
    i: int,
    r: Option<MarkedToken>,
    i2: int,
)
    requires
        0 <= i <= s.len(),
        whitespace_end(s, i) < s.len(),
        s[whitespace_end(s, i)] == '"' || s[whitespace_end(s, i)] == '\'',
        forall|k: int| whitespace_end(s, i) < k < s.len() ==> #[trigger] s[k] != s[whitespace_end(s, i)],
        lexes(file, s, i, r, i2),
    ensures
        r matches Some(mt) && mt.token == Token::Illegal,
        i2 == s.len(),
{
    crate::lexer::lemma_whitespace_end_bounds(s, i);
    law_unterminated_string(s, whitespace_end(s, i));
}

/// The block keywords whose bodies are not parsed yet, with the diagnostic each one gets.
pub open spec fn unsupported_block_message(t: Token) -> Option<Seq<char>> {
    match t {
        Token::Action => Some(ACTION_UNSUPPORTED@),
        Token::Function => Some(FUNCTION_UNSUPPORTED@),
        Token::FunctionBlock => Some(FUNCTION_BLOCK_UNSUPPORTED@),
        Token::Var => Some(VAR_UNSUPPORTED@),
        Token::Type => Some(TYPE_UNSUPPORTED@),
        _ => None,
    }
}

/// A block that opens with a keyword other than `PROGRAM` yields no block and records
/// exactly one diagnostic at that keyword; the parser stays on it.
pub proof fn law_other_blocks_report(t: Seq<MarkedToken>, st: PState)
    requires
        0 <= st.i < t.len(),
        unsupported_block_message(t[st.i].token) is Some,
    ensures
        block(t, st) == (fail(t, st, unsupported_block_message(t[st.i].token)->0), None::<crate::ast::BlockModel>),
        block(t, st).0.errs.len() == st.errs.len() + 1,
{
    assert(tok(t, st.i) == Some(t[st.i].token));
}

/// In a whole parse, a block that opens with a keyword other than `PROGRAM` leaves its
/// diagnostic among the final ones, right after those recorded before it; in particular
/// such a keyword at the start of the input makes the parse unclean.
pub proof fn law_other_blocks_report_in_parse(t: Seq<MarkedToken>, st: PState, acc: Seq<crate::ast::BlockModel>)
    requires
        0 <= st.i < t.len(),
        unsupported_block_message(t[st.i].token) is Some,
    ensures
        ({
            let errs = blocks(t, st, acc).0.errs;
            &&& errs.len() > st.errs.len()
            &&& errs[st.errs.len() as int] == diagnostic(t, st.i, unsupported_block_message(t[st.i].token)->0)
        }),
        st.i == 0 && st.errs.len() == 0 && acc.len() == 0 ==> parse_model(t).0.errs.len() > 0,
{
    law_other_blocks_report(t, st);
    let st1 = block(t, st).0;
    lemma_blocks_extends(t, adv(t, st1), acc);
    let errs = blocks(t, st, acc).0.errs;
    assert(errs.subrange(0, st1.errs.len() as int)[st.errs.len() as int] == st1.errs[st.errs.len() as int]);
    if st.i == 0 && st.errs.len() == 0 && acc.len() == 0 {
        assert(st.errs =~= Seq::<Seq<char>>::empty());
        assert(acc =~= Seq::<crate::ast::BlockModel>::empty());
        assert(st == PState { i: 0, errs: Seq::empty() });
    }
}

/// What `parse` returns when the input opens with a block keyword other than `PROGRAM`:
/// its first diagnostic is the one for that keyword, so the parse is not clean.
pub proof fn law_parse_reports_other_blocks(t: Seq<MarkedToken>, r: (crate::ast::Ast, Vec<String>))
    requires
        t.len() > 0,
        unsupported_block_message(t[0].token) is Some,
        parse_outcome(t, r),
    ensures
        r.1@.len() > 0,
        r.1@[0]@ == diagnostic(t, 0, unsupported_block_message(t[0].token)->0),
{
    let st = PState { i: 0, errs: Seq::empty() };
    law_other_blocks_report_in_parse(t, st, Seq::empty());
    assert(errors_model(r.1)[0] == r.1@[0]@);
}

/// A diagnostic depends on the marker of its token and on the message alone: rendering
/// it twice from the same marked token gives the same text.
pub proof fn law_diagnostic_is_deterministic(a: MarkedToken, b: MarkedToken, msg: Seq<char>)
    requires
        a.marker@ == b.marker@,
    ensures
        diagnostic(seq![a], 0, msg) == diagnostic(seq![b], 0, msg),
{
}

} // verus!
