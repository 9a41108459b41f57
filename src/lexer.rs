use vstd::prelude::*;
use crate::tokenizer::{
    balanced_end, lemma_texts_head, lemma_texts_push, lemma_balanced_end_bounds, lemma_stop_at_bounds, stop_at, texts, views,
    Tokonizer,
};
use crate::tokens::{char_token, Token, TokenView};

verus! {

/// Unicode's White_Space property.
pub open spec fn white_space(c: char) -> bool {
    ||| '\t' <= c <= '\r'
    ||| c == ' '
    ||| c == '\u{85}'
    ||| c == '\u{a0}'
    ||| c == '\u{1680}'
    ||| '\u{2000}' <= c <= '\u{200a}'
    ||| c == '\u{2028}'
    ||| c == '\u{2029}'
    ||| c == '\u{202f}'
    ||| c == '\u{205f}'
    ||| c == '\u{3000}'
}

/// `s` without its trailing white space.
pub open spec fn trim_end(s: Seq<char>) -> Seq<char>
    decreases s.len(),
{
    if s.len() > 0 && white_space(s.last()) {
        trim_end(s.drop_last())
    } else {
        s
    }
}

/// Relies on str::trim_end: it removes the trailing characters that have
/// Unicode's White_Space property.
#[verifier::external_body]
pub(crate) fn trim_end_str(s: &str) -> (r: &str)
    ensures
        r@ == trim_end(s@),
{
    s.trim_end()
}

pub open spec fn is_digit(c: char) -> bool {
    '0' <= c <= '9'
}

/// What a pending run of characters becomes: nothing when it is empty, a
/// `Number` when it starts with a decimal digit, a `Word` otherwise.
pub open spec fn flushed(temp: Seq<char>) -> Seq<TokenView> {
    if temp.len() == 0 {
        Seq::empty()
    } else if is_digit(temp[0]) {
        seq![TokenView::Number(temp)]
    } else {
        seq![TokenView::Word(temp)]
    }
}

/// The structural tokens that end a pending run of characters and are kept.
pub open spec fn is_separator(t: TokenView) -> bool {
    match t {
        TokenView::NewLine | TokenView::Pipe | TokenView::Comma | TokenView::Equals
        | TokenView::ParenOpen | TokenView::MoreThen | TokenView::LessThen | TokenView::Exc
        | TokenView::ParenClose | TokenView::BraceOpen | TokenView::BraceClose
        | TokenView::BraceSquareOpen | TokenView::BraceSquareClosed | TokenView::Tilda
        | TokenView::Colon => true,
        _ => false,
    }
}

/// The tokens that end a path.
pub open spec fn path_stops() -> Seq<TokenView> {
    seq![TokenView::WhiteSpace, TokenView::BraceClose]
}

/// The token that ends a comment or an attribute line.
pub open spec fn line_stops() -> Seq<TokenView> {
    seq![TokenView::NewLine]
}

/// The block that a quote character opens, holding `s`, closed or not.
pub open spec fn quote_block(q: TokenView, s: Seq<char>, closed: bool) -> TokenView {
    if q == TokenView::DoubleQuote {
        TokenView::DoubleQuoteBlock(s, closed)
    } else {
        TokenView::SingleQuoteBlock(s, closed)
    }
}

/// Where the closing quote of a quoted block that opens at `i` stands: the
/// first quote of the same kind at brace balance zero, or the end of the input.
pub open spec fn quote_close(ts: Seq<TokenView>, i: int) -> int {
    balanced_end(ts, i + 1, 0, seq![ts[i]])
}

/// Where a quoted block that opens at `i` ends (exclusive): just after its
/// closing quote, or at the end of the input.
pub open spec fn quote_end(ts: Seq<TokenView>, i: int) -> int {
    let e = quote_close(ts, i);
    if e < ts.len() {
        e + 1
    } else {
        ts.len() as int
    }
}

/// The folder, from position `i` with the pending run `temp`: the tokens it
/// emits for the rest of the input.
pub open spec fn fold(ts: Seq<TokenView>, i: int, temp: Seq<char>) -> Seq<TokenView>
    decreases ts.len() - i,
{
    if i < 0 || i >= ts.len() {
        flushed(temp)
    } else {
        let t = ts[i];
        match t {
            TokenView::Char(c) => fold(ts, i + 1, temp.push(c)),
            TokenView::WhiteSpace => flushed(temp) + fold(ts, i + 1, Seq::empty()),
            TokenView::Tab(_) => fold(ts, i + 1, temp),
            TokenView::DoubleQuote | TokenView::SingleQuote => {
                let e = quote_close(ts, i);
                let end = quote_end(ts, i);
                proof {
                    lemma_balanced_end_bounds(ts, i + 1, 0, seq![t]);
                }
                seq![quote_block(t, texts(ts.subrange(i + 1, e)), e < ts.len())] + fold(
                    ts,
                    end,
                    temp,
                )
            },
            TokenView::Slash => {
                let j = stop_at(ts, i + 1, path_stops());
                proof {
                    lemma_stop_at_bounds(ts, i + 1, path_stops());
                }
                seq![TokenView::Path(temp + trim_end(texts(ts.subrange(i, j))))] + fold(
                    ts,
                    j,
                    Seq::empty(),
                )
            },
            TokenView::Att => {
                let j = stop_at(ts, i + 1, line_stops());
                proof {
                    lemma_stop_at_bounds(ts, i + 1, line_stops());
                }
                seq![TokenView::AttSomething(temp + trim_end(texts(ts.subrange(i, j))))] + fold(
                    ts,
                    j,
                    Seq::empty(),
                )
            },
            TokenView::Hash => {
                let j = stop_at(ts, i + 1, line_stops());
                proof {
                    lemma_stop_at_bounds(ts, i + 1, line_stops());
                }
                seq![TokenView::CommentBlock(texts(ts.subrange(i, j)))] + fold(ts, j, temp)
            },
            _ => {
                if is_separator(t) {
                    flushed(temp) + seq![t] + fold(ts, i + 1, Seq::empty())
                } else {
                    seq![t] + fold(ts, i + 1, temp)
                }
            },
        }
    }
}

/// The classified characters of `s`.
pub open spec fn classify(s: Seq<char>) -> Seq<TokenView> {
    s.map_values(|c: char| char_token(c))
}

/// The folded token sequence of source text `s`.
pub open spec fn lex(s: Seq<char>) -> Seq<TokenView> {
    fold(classify(s), 0, Seq::empty())
}

impl Tokonizer {
    /// Moves a non-empty pending run onto the stack as a `Number` when it
    /// starts with a decimal digit, as a `Word` otherwise.
    pub fn temp_to_word_or_number(&mut self)
        ensures
            final(self).temp@ == Seq::<char>::empty(),
            views(final(self).stack@) == views(old(self).stack@) + flushed(old(self).temp@),
            final(self).index == old(self).index,
            final(self).tokens == old(self).tokens,
    {
        let ghost before = views(self.stack@);
        if self.temp.as_str().is_empty() {
            self.temp = String::new();
            assert(views(self.stack@) =~= before + flushed(old(self).temp@));
        } else {
            let first = self.temp.as_str().get_char(0);
            let w = self.temp.clone();
            if '0' <= first && first <= '9' {
                self.to_stack(Token::Number(w));
            } else {
                self.to_stack(Token::Word(w));
            }
            self.temp = String::new();
            assert(views(self.stack@) =~= before + flushed(old(self).temp@));
        }
    }
}

/// Classifies every character of `buffer`.
pub fn classify_chars(buffer: &String) -> (r: Vec<Token>)
    ensures
        views(r@) == classify(buffer@),
{
    let mut out: Vec<Token> = Vec::new();
    for c in it: buffer.as_str().chars()
        invariant
            it.seq() == buffer@,
            views(out@) == classify(buffer@.take(it.index() as int)),
            it.index() == buffer@.len() ==> views(out@) == classify(buffer@),
    {
        assert(it.index() < it.seq().len());
        assert(c == it.seq()[it.index() as int]);
        let ghost before = out@;
        out.push(Token::from_char(c));
        assert(views(out@) =~= views(before).push(char_token(c)));
        assert(buffer@.take(it.index() + 1) =~= buffer@.take(it.index() as int).push(c));
        assert(classify(buffer@.take(it.index() + 1)) =~= classify(buffer@.take(it.index() as int)).push(char_token(c)));
        assert(buffer@.take(buffer@.len() as int) =~= buffer@);
    }
    out
}

impl Tokonizer {
    /// Folds the quoted block that opens under the cursor.
    fn fold_quote(&mut self, double: bool)
        requires
            old(self).index < old(self).ts().len(),
            old(self).ts()[old(self).index as int] == (if double {
                TokenView::DoubleQuote
            } else {
                TokenView::SingleQuote
            }),
        ensures
            final(self).tokens == old(self).tokens,
            final(self).temp == old(self).temp,
            final(self).index == quote_end(old(self).ts(), old(self).index as int),
            ({
                let ts = old(self).ts();
                let i = old(self).index as int;
                let e = quote_close(ts, i);
                views(final(self).stack@) == views(old(self).stack@).push(
                    quote_block(ts[i], texts(ts.subrange(i + 1, e)), e < ts.len()),
                )
            }),
    {
        let ghost ts = self.ts();
        let ghost i = self.index as int;
        let ghost before = views(self.stack@);
        let stops = if double {
            [Token::DoubleQuote]
        } else {
            [Token::SingleQuote]
        };
        assert(views(stops@) =~= seq![ts[i]]);
        let block = self.take_upto(&stops, false);
        let ghost e = quote_close(ts, i);
        proof {
            lemma_balanced_end_bounds(ts, i + 1, 0, seq![ts[i]]);
            lemma_texts_head(ts.subrange(i, e));
            assert(ts.subrange(i, e).drop_first() =~= ts.subrange(i + 1, e));
        }
        let n = block.as_str().unicode_len();
        let inner = String::from_str(block.as_str().substring_char(1, n));
        assert(inner@ =~= texts(ts.subrange(i + 1, e)));
        let closed = self.index < self.tokens.len();
        if closed {
            self.next();
            self.next();
        }
        if double {
            self.to_stack(Token::DoubleQuoteBlock(inner, closed));
        } else {
            self.to_stack(Token::SingleQuoteBlock(inner, closed));
        }
        assert(views(self.stack@) =~= before.push(
            quote_block(ts[i], texts(ts.subrange(i + 1, e)), e < ts.len()),
        ));
    }

    /// Folds the path (`line` false) or the attribute line (`line` true)
    /// whose slash or at sign is under the cursor, with the pending run as
    /// its prefix.
    fn fold_prefixed(&mut self, line: bool)
        requires
            old(self).index < old(self).ts().len(),
        ensures
            final(self).tokens == old(self).tokens,
            final(self).temp@ == Seq::<char>::empty(),
            final(self).index == stop_at(
                old(self).ts(),
                old(self).index + 1,
                if line {
                    line_stops()
                } else {
                    path_stops()
                },
            ),
            old(self).index < final(self).index <= old(self).ts().len(),
            views(final(self).stack@) == views(old(self).stack@).push(
                {
                    let v = old(self).temp@ + trim_end(
                        texts(
                            old(self).ts().subrange(
                                old(self).index as int,
                                final(self).index as int,
                            ),
                        ),
                    );
                    if line {
                        TokenView::AttSomething(v)
                    } else {
                        TokenView::Path(v)
                    }
                },
            ),
    {
        let ghost ts = self.ts();
        let ghost i = self.index as int;
        let ghost before = views(self.stack@);
        let ghost stop = if line {
            line_stops()
        } else {
            path_stops()
        };
        let block = if line {
            let stops = [Token::NewLine];
            assert(views(stops@) =~= line_stops());
            self.take_before(&stops)
        } else {
            let stops = [Token::WhiteSpace, Token::BraceClose];
            assert(views(stops@) =~= path_stops());
            self.take_before(&stops)
        };
        proof {
            lemma_stop_at_bounds(ts, i + 1, stop);
        }
        let tail = trim_end_str(block.as_str());
        let mut value = self.temp.clone();
        value.append(tail);
        if line {
            self.to_stack(Token::AttSomething(value));
        } else {
            self.to_stack(Token::Path(value));
        }
        self.temp = String::new();
    }

    /// Folds the comment whose hash is under the cursor.
    fn fold_comment(&mut self)
        requires
            old(self).index < old(self).ts().len(),
        ensures
            final(self).tokens == old(self).tokens,
            final(self).temp == old(self).temp,
            final(self).index == stop_at(old(self).ts(), old(self).index + 1, line_stops()),
            old(self).index < final(self).index <= old(self).ts().len(),
            views(final(self).stack@) == views(old(self).stack@).push(
                TokenView::CommentBlock(
                    texts(
                        old(self).ts().subrange(old(self).index as int, final(self).index as int),
                    ),
                ),
            ),
    {
        let ghost ts = self.ts();
        let ghost i = self.index as int;
        let stops = [Token::NewLine];
        assert(views(stops@) =~= line_stops());
        let block = self.take_before(&stops);
        proof {
            lemma_stop_at_bounds(ts, i + 1, line_stops());
        }
        self.to_stack(Token::CommentBlock(block));
    }

    /// One step of the folder: handles the token under the cursor.
    fn fold_step(&mut self)
        requires
            old(self).index < old(self).ts().len(),
        ensures
            final(self).tokens == old(self).tokens,
            old(self).index < final(self).index <= old(self).ts().len(),
            views(final(self).stack@) + fold(final(self).ts(), final(self).index as int, final(self).temp@)
                == views(old(self).stack@) + fold(old(self).ts(), old(self).index as int, old(self).temp@),
    {
        let ghost ts = self.ts();
        let ghost i = self.index as int;
        let ghost before = views(self.stack@);
        let ghost temp = self.temp@;
        let n = self.tokens.len();
        let token = self.tokens[self.index].clone();
        assert(token@ == ts[i]);
        match token {
            Token::Char(_) => {
                let s = token.as_string();
                self.to_temp(s);
                self.next();
                assert(self.temp@ =~= temp.push(ts[i]->Char_0));
            },
            Token::WhiteSpace => {
                self.temp_to_word_or_number();
                self.next();
                assert(before + fold(ts, i, temp) =~= views(self.stack@) + fold(ts, i + 1, self.temp@));
            },
            Token::Tab(_) => {
                self.next();
            },
            Token::NewLine
            | Token::Pipe
            | Token::Comma
            | Token::Equals
            | Token::ParenOpen
            | Token::MoreThen
            | Token::LessThen
            | Token::Exc
            | Token::ParenClose
            | Token::BraceOpen
            | Token::BraceClose
            | Token::BraceSquareOpen
            | Token::BraceSquareClosed
            | Token::Tilda
            | Token::Colon => {
                self.temp_to_word_or_number();
                let ghost mid = views(self.stack@);
                self.to_stack(token);
                self.next();
                assert(views(self.stack@) =~= mid.push(ts[i]));
                assert(before + fold(ts, i, temp) =~= views(self.stack@) + fold(ts, i + 1, self.temp@));
            },
            Token::DoubleQuote => {
                self.fold_quote(true);
                proof {
                    lemma_balanced_end_bounds(ts, i + 1, 0, seq![ts[i]]);
                }
                assert(before + fold(ts, i, temp) =~= views(self.stack@) + fold(ts, self.index as int, self.temp@));
            },
            Token::SingleQuote => {
                self.fold_quote(false);
                proof {
                    lemma_balanced_end_bounds(ts, i + 1, 0, seq![ts[i]]);
                }
                assert(before + fold(ts, i, temp) =~= views(self.stack@) + fold(ts, self.index as int, self.temp@));
            },
            Token::Slash => {
                self.fold_prefixed(false);
                assert(before + fold(ts, i, temp) =~= views(self.stack@) + fold(ts, self.index as int, self.temp@));
            },
            Token::Att => {
                self.fold_prefixed(true);
                assert(before + fold(ts, i, temp) =~= views(self.stack@) + fold(ts, self.index as int, self.temp@));
            },
            Token::Hash => {
                self.fold_comment();
                assert(before + fold(ts, i, temp) =~= views(self.stack@) + fold(ts, self.index as int, self.temp@));
            },
            _ => {
                self.to_stack(token);
                self.next();
                assert(views(self.stack@) =~= before.push(ts[i]));
                assert(before + fold(ts, i, temp) =~= views(self.stack@) + fold(ts, i + 1, self.temp@));
            },
        }
    }
}

/// The lexer: classifies the characters of `buffer` and folds them into
/// words, numbers, quoted blocks, paths, comments and attribute lines,
/// dropping white space and tabs.
pub fn gen_tokens(buffer: String) -> (r: Vec<Token>)
    ensures
        views(r@) == lex(buffer@),
{
    let tokens = classify_chars(&buffer);
    let ghost ts = classify(buffer@);
    let mut t = Tokonizer::new(tokens);
    assert(views(t.stack@) =~= Seq::<TokenView>::empty());
    assert(views(t.stack@) + fold(ts, 0, t.temp@) =~= lex(buffer@));
    while t.index < t.tokens.len()
        invariant
            t.ts() == ts,
            t.index <= ts.len(),
            views(t.stack@) + fold(ts, t.index as int, t.temp@) == lex(buffer@),
        decreases ts.len() - t.index,
    {
        t.fold_step();
    }
    let ghost before = views(t.stack@);
    let ghost temp = t.temp@;
    t.temp_to_word_or_number();
    assert(fold(ts, t.index as int, temp) == flushed(temp));
    t.stack
}

} // verus!
