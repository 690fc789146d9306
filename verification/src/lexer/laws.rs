//! What holds of every source text and its tokens: spans spell what they
//! stand for, offsets count bytes, and malformed numbers and lone colons are
//! rejected.

use vstd::prelude::*;
use vstd::utf8::{encode_utf8, is_ascii_chars, is_ascii_chars_encode_utf8};
use crate::error::Diagnostic;
use crate::lexer::grammar::{digit_run, lex_from, lex_text, scan, word_run, Scanned};
use crate::text::{
    all_digits, decimal_value, spec_is_blank, spec_is_digit, spec_is_word_char, spec_is_word_start,
};
use crate::token::{Keyword, Literal, Symbol, TokenKind, TokenView};

verus! {

/// Only blanks other than line ends stand in `s` from offset `a` up to
/// offset `b`.
pub open spec fn only_blanks(s: Seq<char>, a: int, b: int) -> bool {
    forall|i: int| a <= i < b ==> spec_is_blank(#[trigger] s[i]) && s[i] != '\n'
}

/// The span of `t` lies in `s` and holds exactly the characters that `t`
/// stands for: the spelling of a keyword or symbol, the name of an
/// identifier, a run of digits with the value of a literal, one line feed
/// for a line end, and nothing at the very end for the end of input.
pub open spec fn spells(s: Seq<char>, t: TokenView) -> bool {
    let span = s.subrange(t.start, t.end);
    &&& 0 <= t.start <= t.end <= s.len()
    &&& match t.kind {
        TokenKind::Keyword(val) => span == val.text(),
        TokenKind::Identifier(val) => {
            &&& span == val
            &&& val.len() > 0
            &&& spec_is_word_start(val[0])
            &&& forall|i: int| 0 <= i < val.len() ==> spec_is_word_char(#[trigger] val[i])
            &&& val != Keyword::Exit.text()
        },
        TokenKind::Literal(Literal::Integer(val)) => {
            &&& span.len() > 0
            &&& all_digits(span)
            &&& decimal_value(span) == val
        },
        TokenKind::Symbol(val) => span == val.text(),
        TokenKind::Newline => span == seq!['\n'],
        TokenKind::EOF => t.start == s.len() && t.end == s.len(),
    }
}

/// A word or a number could not have been longer: no word character stands
/// right behind it.
pub open spec fn longest_match(s: Seq<char>, t: TokenView) -> bool {
    match t.kind {
        TokenKind::Keyword(_) | TokenKind::Identifier(_) | TokenKind::Literal(_) => 0 <= t.end
            < s.len() ==> !spec_is_word_char(s[t.end]),
        _ => true,
    }
}

/// `tokens` is the reading of `s` from offset `from` on: every token spells
/// its span and is as long as it can be, the spans follow each other with
/// nothing but blanks between them, and the one end-of-input token comes
/// last.
pub open spec fn tokenizes(s: Seq<char>, from: int, tokens: Seq<TokenView>) -> bool {
    &&& tokens.len() >= 1
    &&& tokens.last().kind is EOF
    &&& forall|i: int| 0 <= i < tokens.len() - 1 ==> !((#[trigger] tokens[i]).kind is EOF)
    &&& forall|i: int| 0 <= i < tokens.len() ==> spells(s, #[trigger] tokens[i])
    &&& forall|i: int| 0 <= i < tokens.len() ==> longest_match(s, #[trigger] tokens[i])
    &&& from <= tokens[0].start
    &&& only_blanks(s, from, tokens[0].start)
    &&& forall|i: int|
        0 <= i < tokens.len() - 1 ==> {
            &&& (#[trigger] tokens[i]).start < tokens[i].end <= tokens[i + 1].start
            &&& only_blanks(s, tokens[i].end, tokens[i + 1].start)
        }
}

/// A run of digits stays inside the text, holds digits only, and ends where
/// the text ends or a character that is no digit stands.
pub proof fn lemma_digit_run(s: Seq<char>, from: int)
    requires
        0 <= from <= s.len(),
    ensures
        from + digit_run(s, from) <= s.len(),
        forall|i: int| from <= i < from + digit_run(s, from) ==> spec_is_digit(#[trigger] s[i]),
        all_digits(s.subrange(from, from + digit_run(s, from))),
        from + digit_run(s, from) < s.len() ==> !spec_is_digit(s[from + digit_run(s, from)]),
    decreases s.len() - from,
{
    if from < s.len() && spec_is_digit(s[from]) {
        lemma_digit_run(s, from + 1);
    }
}

/// A run of word characters stays inside the text, holds word characters
/// only, and ends where the text ends or a character that is none stands.
pub proof fn lemma_word_run(s: Seq<char>, from: int)
    requires
        0 <= from <= s.len(),
    ensures
        from + word_run(s, from) <= s.len(),
        forall|i: int| from <= i < from + word_run(s, from) ==> spec_is_word_char(#[trigger] s[i]),
        from + word_run(s, from) < s.len() ==> !spec_is_word_char(s[from + word_run(s, from)]),
    decreases s.len() - from,
{
    if from < s.len() && spec_is_word_char(s[from]) {
        lemma_word_run(s, from + 1);
    }
}

/// What `scan` finds inside the text stays inside the text: a token is not
/// empty, ends in the text, spells its span and is as long as it can be; an
/// error lies at or behind the offset that was scanned.
pub proof fn lemma_scan(s: Seq<char>, pos: int)
    requires
        0 <= pos < s.len(),
    ensures
        (match scan(s, pos) {
            Scanned::Blank => spec_is_blank(s[pos]) && s[pos] != '\n',
            Scanned::Token { kind, end } => {
                &&& pos < end <= s.len()
                &&& !(kind is EOF)
                &&& spells(s, TokenView { kind, start: pos, end })
                &&& longest_match(s, TokenView { kind, start: pos, end })
            },
            Scanned::Error(d) => pos <= d.pos < s.len(),
        }),
{
    let c = s[pos];
    reveal_strlit("(");
    reveal_strlit(")");
    reveal_strlit("=");
    reveal_strlit(":=");
    if c == '\n' {
        assert(s.subrange(pos, pos + 1) =~= seq!['\n']);
    } else if spec_is_blank(c) {
    } else if spec_is_digit(c) {
        lemma_digit_run(s, pos);
    } else if spec_is_word_start(c) {
        lemma_word_run(s, pos);
    } else if c == '(' {
        assert(s.subrange(pos, pos + 1) =~= "("@);
    } else if c == ')' {
        assert(s.subrange(pos, pos + 1) =~= ")"@);
    } else if c == ':' {
        if pos + 1 < s.len() && s[pos + 1] == '=' {
            assert(s.subrange(pos, pos + 2) =~= ":="@);
        }
    } else if c == '=' {
        assert(s.subrange(pos, pos + 1) =~= "="@);
    }
}

/// Tokens lexed from offset `pos` on are a reading of the text from there.
pub proof fn lemma_lex_from_tokenizes(s: Seq<char>, pos: int)
    requires
        0 <= pos <= s.len(),
    ensures
        lex_from(s, pos) matches Ok(tokens) ==> tokenizes(s, pos, tokens),
    decreases s.len() - pos,
{
    if pos < s.len() {
        lemma_scan(s, pos);
        match scan(s, pos) {
            Scanned::Blank => {
                lemma_lex_from_tokenizes(s, pos + 1);
            },
            Scanned::Token { kind, end } => {
                lemma_lex_from_tokenizes(s, end);
                if let Ok(rest) = lex_from(s, end) {
                    let t = TokenView { kind, start: pos, end };
                    let tokens = seq![t] + rest;
                    assert(tokens[0] == t);
                    assert(forall|i: int| 1 <= i < tokens.len() ==> tokens[i] == rest[i - 1]);
                    assert(tokens.last() == rest.last());
                    assert forall|i: int| 0 <= i < tokens.len() - 1 implies {
                        &&& (#[trigger] tokens[i]).start < tokens[i].end <= tokens[i + 1].start
                        &&& only_blanks(s, tokens[i].end, tokens[i + 1].start)
                    } by {
                        if i > 0 {
                            assert(tokens[i] == rest[i - 1]);
                            assert(tokens[i + 1] == rest[i]);
                        }
                    }
                }
            },
            Scanned::Error(d) => {},
        }
    }
}

/// A run of digits ends exactly where the digits end.
pub proof fn lemma_digit_run_exact(s: Seq<char>, from: int, to: int)
    requires
        0 <= from <= to <= s.len(),
        forall|i: int| from <= i < to ==> spec_is_digit(#[trigger] s[i]),
        to < s.len() ==> !spec_is_digit(s[to]),
    ensures
        from + digit_run(s, from) == to,
    decreases to - from,
{
    if from < to {
        lemma_digit_run_exact(s, from + 1, to);
    }
}

/// A run of word characters ends exactly where the word characters end.
pub proof fn lemma_word_run_exact(s: Seq<char>, from: int, to: int)
    requires
        0 <= from <= to <= s.len(),
        forall|i: int| from <= i < to ==> spec_is_word_char(#[trigger] s[i]),
        to < s.len() ==> !spec_is_word_char(s[to]),
    ensures
        from + word_run(s, from) == to,
    decreases to - from,
{
    if from < to {
        lemma_word_run_exact(s, from + 1, to);
    }
}

/// A token that spells its span and is as long as it can be is the token
/// that `scan` finds where the span begins.
pub proof fn lemma_scan_finds(s: Seq<char>, t: TokenView)
    requires
        spells(s, t),
        longest_match(s, t),
        !(t.kind is EOF),
    ensures
        t.start < t.end,
        scan(s, t.start) == (Scanned::Token { kind: t.kind, end: t.end }),
{
    let span = s.subrange(t.start, t.end);
    reveal_strlit("(");
    reveal_strlit(")");
    reveal_strlit("=");
    reveal_strlit(":=");
    reveal_strlit("exit");
    match t.kind {
        TokenKind::Keyword(Keyword::Exit) => {
            assert(span.len() == 4);
            assert(span[0] == 'e' && span[1] == 'x' && span[2] == 'i' && span[3] == 't');
            assert forall|i: int| t.start <= i < t.end implies spec_is_word_char(
                #[trigger] s[i],
            ) by {
                assert(s[i] == span[i - t.start]);
            }
            lemma_word_run_exact(s, t.start, t.end);
        },
        TokenKind::Identifier(name) => {
            assert(span[0] == s[t.start]);
            assert forall|i: int| t.start <= i < t.end implies spec_is_word_char(
                #[trigger] s[i],
            ) by {
                assert(s[i] == name[i - t.start]);
            }
            lemma_word_run_exact(s, t.start, t.end);
        },
        TokenKind::Literal(Literal::Integer(value)) => {
            assert(span[0] == s[t.start]);
            assert forall|i: int| t.start <= i < t.end implies spec_is_digit(#[trigger] s[i]) by {
                assert(s[i] == span[i - t.start]);
            }
            lemma_digit_run_exact(s, t.start, t.end);
        },
        TokenKind::Symbol(sym) => {
            assert(span[0] == s[t.start]);
            if sym == Symbol::ColonEquals {
                assert(span[1] == s[t.start + 1]);
            }
        },
        TokenKind::Newline => {
            assert(span[0] == s[t.start]);
        },
        TokenKind::EOF => {},
    }
}

/// The reading of a text is what lexing yields.
pub proof fn lemma_tokenizes_lex_from(s: Seq<char>, pos: int, tokens: Seq<TokenView>)
    requires
        0 <= pos <= s.len(),
        tokenizes(s, pos, tokens),
    ensures
        lex_from(s, pos) == Ok::<Seq<TokenView>, Diagnostic>(tokens),
    decreases s.len() - pos,
{
    let first = tokens[0];
    if pos < first.start {
        assert(spec_is_blank(s[pos]) && s[pos] != '\n');
        lemma_tokenizes_lex_from(s, pos + 1, tokens);
    } else if tokens.len() == 1 {
        assert(tokens =~= seq![first]);
    } else {
        lemma_scan_finds(s, first);
        let rest = tokens.drop_first();
        assert(forall|i: int| 0 <= i < rest.len() ==> rest[i] == tokens[i + 1]);
        assert(rest.last() == tokens.last());
        assert forall|i: int| 0 <= i < rest.len() - 1 implies {
            &&& (#[trigger] rest[i]).start < rest[i].end <= rest[i + 1].start
            &&& only_blanks(s, rest[i].end, rest[i + 1].start)
        } by {
            assert(rest[i] == tokens[i + 1]);
            assert(rest[i + 1] == tokens[i + 2]);
        }
        assert(tokenizes(s, first.end, rest));
        lemma_tokenizes_lex_from(s, first.end, rest);
        assert(seq![first] + rest =~= tokens);
    }
}

/// Lexing succeeds with `tokens` exactly when `tokens` is the reading of
/// the text: the tokens spell their spans, each word and number is as long
/// as it can be, only blanks lie between them, and the end-of-input token
/// closes them. A text has at most one reading.
pub proof fn lemma_lexing_is_the_reading(s: Seq<char>, tokens: Seq<TokenView>)
    ensures
        lex_text(s) == Ok::<Seq<TokenView>, Diagnostic>(tokens) <==> tokenizes(s, 0, tokens),
{
    lemma_lex_from_tokenizes(s, 0);
    if tokenizes(s, 0, tokens) {
        lemma_tokenizes_lex_from(s, 0, tokens);
    }
}

/// Round trip of spans: where lexing succeeds, every token's span, cut out
/// of the source, holds exactly the characters that the token stands for;
/// the spans are in order and only blanks lie between them; and the tokens
/// end with the one end-of-input token.
pub proof fn lemma_lexed_tokens_spell_source(s: Seq<char>)
    ensures
        lex_text(s) matches Ok(tokens) ==> tokenizes(s, 0, tokens),
{
    lemma_lex_from_tokenizes(s, 0);
}

/// Lexing yields at most one token for each character that it reads, and
/// the end of input.
pub proof fn lemma_lex_from_count(s: Seq<char>, pos: int)
    requires
        0 <= pos <= s.len(),
    ensures
        lex_from(s, pos) matches Ok(tokens) ==> tokens.len() <= s.len() - pos + 1,
    decreases s.len() - pos,
{
    if pos < s.len() {
        lemma_scan(s, pos);
        match scan(s, pos) {
            Scanned::Blank => {
                lemma_lex_from_count(s, pos + 1);
            },
            Scanned::Token { kind, end } => {
                lemma_lex_from_count(s, end);
            },
            Scanned::Error(d) => {},
        }
    }
}

/// The number of bytes that the first `i` characters of `s` take in UTF-8:
/// the byte offset of the character at offset `i`.
pub open spec fn byte_offset(s: Seq<char>, i: int) -> int {
    encode_utf8(s.take(i)).len() as int
}

/// Every character of `s` from offset `from` up to offset `to` is ASCII.
pub open spec fn ascii_between(s: Seq<char>, from: int, to: int) -> bool {
    forall|i: int| from <= i < to ==> '\0' <= #[trigger] s[i] <= '\u{7f}'
}

/// Lexing from offset `pos` passes over ASCII characters only: all of the
/// rest where it succeeds, and all before the error where it fails.
pub proof fn lemma_lex_from_ascii(s: Seq<char>, pos: int)
    requires
        0 <= pos <= s.len(),
    ensures
        (match lex_from(s, pos) {
            Ok(_) => ascii_between(s, pos, s.len() as int),
            Err(d) => pos <= d.pos < s.len() && ascii_between(s, pos, d.pos),
        }),
    decreases s.len() - pos,
{
    if pos < s.len() {
        lemma_scan(s, pos);
        lemma_digit_run(s, pos);
        lemma_word_run(s, pos);
        match scan(s, pos) {
            Scanned::Blank => {
                lemma_lex_from_ascii(s, pos + 1);
            },
            Scanned::Token { kind, end } => {
                lemma_lex_from_ascii(s, end);
            },
            Scanned::Error(d) => {},
        }
    }
}

/// Offsets are byte offsets too. Where lexing succeeds, the whole source is
/// ASCII, so that every offset into it counts bytes as well as characters;
/// where it fails, the text before the error is ASCII, so that the error's
/// offset does.
pub proof fn lemma_scanned_text_is_ascii(s: Seq<char>)
    ensures
        (match lex_text(s) {
            Ok(_) => {
                &&& is_ascii_chars(s)
                &&& forall|i: int| 0 <= i <= s.len() ==> #[trigger] byte_offset(s, i) == i
            },
            Err(d) => {
                &&& 0 <= d.pos < s.len()
                &&& is_ascii_chars(s.take(d.pos))
                &&& byte_offset(s, d.pos) == d.pos
            },
        }),
{
    lemma_lex_from_ascii(s, 0);
    match lex_text(s) {
        Ok(_) => {
            assert forall|i: int| 0 <= i <= s.len() implies #[trigger] byte_offset(s, i) == i by {
                is_ascii_chars_encode_utf8(s.take(i));
            }
        },
        Err(d) => {
            is_ascii_chars_encode_utf8(s.take(d.pos));
        },
    }
}

/// No token can hold both the character before offset `i` and the one at
/// `i`: they are not two word characters, nor a colon and an equals sign.
pub open spec fn token_boundary(s: Seq<char>, i: int) -> bool {
    &&& 0 <= i <= s.len()
    &&& 0 < i < s.len() ==> {
        &&& !(spec_is_word_char(s[i - 1]) && spec_is_word_char(s[i]))
        &&& !(s[i - 1] == ':' && s[i] == '=')
    }
}

/// Lexing cannot step over a token boundary: from an offset `pos` before the
/// boundary `i` it either fails before `i` or goes on from `i`. So an error
/// that lexing from `i` finds is an error of lexing from `pos`, unless an
/// earlier one comes first.
pub proof fn lemma_lex_reaches_boundary(s: Seq<char>, pos: int, i: int)
    requires
        0 <= pos <= i <= s.len(),
        token_boundary(s, i),
    ensures
        lex_from(s, i) matches Err(d) ==> (lex_from(s, pos) matches Err(first) && first.pos
            <= d.pos),
    decreases i - pos,
{
    if pos < i {
        lemma_scan(s, pos);
        lemma_digit_run(s, pos);
        lemma_word_run(s, pos);
        lemma_lex_error_position(s, i);
        match scan(s, pos) {
            Scanned::Blank => {
                lemma_lex_reaches_boundary(s, pos + 1, i);
            },
            Scanned::Token { kind, end } => {
                // A token that begins before the boundary has no character
                // behind it.
                if end > i {
                    assert(spec_is_word_char(s[i - 1]) && spec_is_word_char(s[i]) || s[i - 1]
                        == ':' && s[i] == '=');
                }
                lemma_lex_reaches_boundary(s, end, i);
            },
            Scanned::Error(d) => {
                // A number that runs into a word has that word's first
                // character before the boundary.
                if d.pos >= i {
                    assert(spec_is_digit(s[i - 1]));
                }
            },
        }
    }
}

/// An error of lexing from offset `pos` lies at or behind `pos`.
pub proof fn lemma_lex_error_position(s: Seq<char>, pos: int)
    requires
        0 <= pos <= s.len(),
    ensures
        lex_from(s, pos) matches Err(d) ==> pos <= d.pos < s.len(),
    decreases s.len() - pos,
{
    if pos < s.len() {
        lemma_scan(s, pos);
        match scan(s, pos) {
            Scanned::Blank => {
                lemma_lex_error_position(s, pos + 1);
            },
            Scanned::Token { kind, end } => {
                lemma_lex_error_position(s, end);
            },
            Scanned::Error(d) => {},
        }
    }
}

/// A number that runs into a word is rejected: where a run of digits begins
/// outside a word and a letter or an underscore stands right behind it,
/// lexing fails, at that character or before.
pub proof fn lemma_number_then_word_rejected(s: Seq<char>, start: int)
    requires
        0 <= start < s.len(),
        spec_is_digit(s[start]),
        start > 0 ==> !spec_is_word_char(s[start - 1]),
        start + digit_run(s, start) < s.len(),
        spec_is_word_start(s[start + digit_run(s, start)]),
    ensures
        lex_text(s) matches Err(d) && d.pos <= start + digit_run(s, start),
{
    lemma_lex_reaches_boundary(s, 0, start);
}

/// A colon that no equals sign follows is rejected: lexing fails, at the
/// colon or before.
pub proof fn lemma_lone_colon_rejected(s: Seq<char>, at: int)
    requires
        0 <= at < s.len(),
        s[at] == ':',
        at + 1 < s.len() ==> s[at + 1] != '=',
    ensures
        lex_text(s) matches Err(d) && d.pos <= at,
{
    lemma_lex_reaches_boundary(s, 0, at);
}

} // verus!
