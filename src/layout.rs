use vstd::prelude::*;
use crate::lexer::{gen_tokens, lex, trim_end, trim_end_str, white_space};
use crate::tokenizer::{
    lemma_texts_push, next_significant, prev_significant, texts, token_at, views, Tokonizer,
};
use crate::tokens::{Token, TokenView};

verus! {

/// The tokens that open a nesting level: braces, brackets and parens all
/// count towards one depth.
pub open spec fn is_opener(t: TokenView) -> bool {
    t is BraceOpen || t is BraceSquareOpen || t is ParenOpen
}

/// The tokens that close a nesting level; a newline before one of them is
/// back-dented.
pub open spec fn is_closer(t: TokenView) -> bool {
    t is BraceClose || t is BraceSquareClosed || t is ParenClose
}

/// One level less than `depth`, saturating at zero.
pub open spec fn outdent(depth: nat) -> nat {
    if depth == 0 {
        0
    } else {
        (depth - 1) as nat
    }
}

/// The nesting depth after `t`, from `depth` before it; it saturates at zero.
pub open spec fn next_depth(t: TokenView, depth: nat) -> nat {
    if is_opener(t) {
        depth + 1
    } else if is_closer(t) {
        outdent(depth)
    } else {
        depth
    }
}

/// The spacing table: whether no space follows `t`, given the next
/// significant token after it and the last significant token before it.
pub open spec fn suppress_space(
    t: TokenView,
    next: Option<TokenView>,
    prev: Option<TokenView>,
) -> bool {
    match t {
        TokenView::Word(_) => match next {
            None => true,
            Some(n) => match n {
                TokenView::Comma | TokenView::NewLine | TokenView::Colon => true,
                TokenView::LessThen => prev == Some(TokenView::Colon),
                _ => false,
            },
        },
        TokenView::Number(_) => next == Some(TokenView::NewLine),
        TokenView::BraceOpen => match next {
            None => true,
            Some(n) => match n {
                TokenView::BraceOpen | TokenView::BraceSquareOpen | TokenView::ParenOpen
                | TokenView::BraceClose | TokenView::NewLine => true,
                _ => false,
            },
        },
        TokenView::BraceClose | TokenView::BraceSquareClosed => match next {
            None => true,
            Some(n) => match n {
                TokenView::BraceClose | TokenView::BraceSquareClosed | TokenView::ParenClose
                | TokenView::NewLine | TokenView::Comma => true,
                _ => false,
            },
        },
        TokenView::BraceSquareOpen => match next {
            None => true,
            Some(n) => match n {
                TokenView::BraceOpen | TokenView::BraceSquareOpen | TokenView::ParenOpen
                | TokenView::BraceSquareClosed | TokenView::NewLine => true,
                _ => false,
            },
        },
        TokenView::ParenOpen => match next {
            None => true,
            Some(n) => match n {
                TokenView::BraceOpen | TokenView::BraceSquareOpen | TokenView::ParenClose
                | TokenView::NewLine => true,
                _ => false,
            },
        },
        TokenView::ParenClose => match next {
            None => true,
            Some(n) => match n {
                TokenView::BraceClose | TokenView::BraceSquareClosed | TokenView::ParenClose
                | TokenView::Comma | TokenView::Slash | TokenView::NewLine => true,
                _ => false,
            },
        },
        TokenView::DoubleQuoteBlock(..) | TokenView::SingleQuoteBlock(..) => next is None || next
            == Some(TokenView::NewLine),
        TokenView::Equals | TokenView::MoreThen | TokenView::Exc => next == Some(TokenView::Equals)
            || next == Some(TokenView::Tilda),
        TokenView::Comma => next == Some(TokenView::NewLine),
        TokenView::Colon | TokenView::Tilda => next matches Some(TokenView::Path(_)),
        TokenView::LessThen => next == Some(TokenView::Equals) || next matches Some(
            TokenView::Word(_),
        ),
        TokenView::NewLine | TokenView::Dolar | TokenView::Hash | TokenView::CommentBlock(_)
        | TokenView::Slash => true,
        _ => false,
    }
}

/// The space that follows the token at `i`, if any.
pub open spec fn space_after(ts: Seq<TokenView>, i: int) -> Seq<TokenView> {
    if suppress_space(ts[i], next_significant(ts, i + 1), prev_significant(ts, i - 1)) {
        Seq::empty()
    } else {
        seq![TokenView::WhiteSpace]
    }
}

/// The indent after a newline at `i` when the depth is `depth`: one level
/// less when the next token closes a block.
pub open spec fn indent_after(ts: Seq<TokenView>, i: int, depth: nat) -> nat {
    match token_at(ts, i + 1) {
        Some(n) => if is_closer(n) {
            outdent(depth)
        } else {
            depth
        },
        None => depth,
    }
}

/// What the layout engine emits for the token at `i`, entered at `depth`.
pub open spec fn chunk(ts: Seq<TokenView>, i: int, depth: nat) -> Seq<TokenView> {
    let t = ts[i];
    let d = next_depth(t, depth);
    seq![t] + space_after(ts, i) + (if t == TokenView::NewLine {
        seq![TokenView::Tab(indent_after(ts, i, d))]
    } else {
        Seq::empty()
    })
}

/// The layout of the tokens from `i` on, entered at `depth`.
pub open spec fn lay(ts: Seq<TokenView>, i: int, depth: nat) -> Seq<TokenView>
    decreases ts.len() - i,
{
    if i < 0 || i >= ts.len() {
        Seq::empty()
    } else {
        chunk(ts, i, depth) + lay(ts, i + 1, next_depth(ts[i], depth))
    }
}

/// The layout of a folded token sequence.
pub open spec fn layout(ts: Seq<TokenView>) -> Seq<TokenView> {
    lay(ts, 0, 0)
}

/// The formatted form of source text `s`.
pub open spec fn formatted(s: Seq<char>) -> Seq<char> {
    trim_end(texts(layout(lex(s))))
}

/// Updates the nesting depth for `token`: braces, brackets and parens that
/// open add a level, those that close take one away, saturating at zero.
pub fn add_depth(token: &Token, depth: &mut usize)
    requires
        is_opener(token@) ==> *old(depth) < usize::MAX,
    ensures
        *final(depth) == next_depth(token@, *old(depth) as nat),
{
    match token {
        Token::BraceOpen | Token::BraceSquareOpen | Token::ParenOpen => *depth += 1,
        Token::BraceClose | Token::BraceSquareClosed | Token::ParenClose => {
            *depth = depth.checked_sub(1).unwrap_or(0);
        },
        _ => (),
    }
}

/// Whether no space follows `token`, given the next and the previous
/// significant tokens around it.
pub fn suppresses_space(token: &Token, next: &Option<Token>, prev: &Option<Token>) -> (r: bool)
    ensures
        r == suppress_space(
            token@,
            match next {
                Some(n) => Some(n@),
                None => None,
            },
            match prev {
                Some(p) => Some(p@),
                None => None,
            },
        ),
{
    match token {
        Token::Word(_) => match next {
            Some(Token::Comma) | Some(Token::NewLine) | Some(Token::Colon) | None => true,
            Some(Token::LessThen) => match prev {
                Some(Token::Colon) => true,
                _ => false,
            },
            _ => false,
        },
        Token::Number(_) => match next {
            Some(Token::NewLine) => true,
            _ => false,
        },
        Token::BraceOpen => match next {
            Some(Token::BraceOpen) | Some(Token::BraceSquareOpen) | Some(Token::ParenOpen) | Some(
                Token::BraceClose,
            ) | Some(Token::NewLine) | None => true,
            _ => false,
        },
        Token::BraceClose | Token::BraceSquareClosed => match next {
            Some(Token::BraceClose) | Some(Token::BraceSquareClosed) | Some(Token::ParenClose)
            | Some(Token::NewLine) | Some(Token::Comma) | None => true,
            _ => false,
        },
        Token::BraceSquareOpen => match next {
            Some(Token::BraceOpen) | Some(Token::BraceSquareOpen) | Some(Token::ParenOpen) | Some(
                Token::BraceSquareClosed,
            ) | Some(Token::NewLine) | None => true,
            _ => false,
        },
        Token::ParenOpen => match next {
            Some(Token::BraceOpen) | Some(Token::BraceSquareOpen) | Some(Token::ParenClose) | Some(
                Token::NewLine,
            ) | None => true,
            _ => false,
        },
        Token::ParenClose => match next {
            Some(Token::BraceClose) | Some(Token::BraceSquareClosed) | Some(Token::ParenClose)
            | Some(Token::Comma) | Some(Token::Slash) | Some(Token::NewLine) | None => true,
            _ => false,
        },
        Token::DoubleQuoteBlock(..) | Token::SingleQuoteBlock(..) => match next {
            Some(Token::NewLine) | None => true,
            _ => false,
        },
        Token::Equals | Token::MoreThen | Token::Exc => match next {
            Some(Token::Equals) | Some(Token::Tilda) => true,
            _ => false,
        },
        Token::Comma => match next {
            Some(Token::NewLine) => true,
            _ => false,
        },
        Token::Colon | Token::Tilda => match next {
            Some(Token::Path(_)) => true,
            _ => false,
        },
        Token::LessThen => match next {
            Some(Token::Equals) | Some(Token::Word(_)) => true,
            _ => false,
        },
        Token::NewLine | Token::Dolar | Token::Hash | Token::CommentBlock(_) | Token::Slash => true,
        _ => false,
    }
}

/// Pushes the single space that follows `token`, the token under the
/// cursor, unless the spacing table suppresses it.
pub fn add_whitespace(t: &mut Tokonizer, token: &Token)
    requires
        old(t).index < old(t).ts().len(),
        token@ == old(t).ts()[old(t).index as int],
    ensures
        final(t).index == old(t).index,
        final(t).tokens == old(t).tokens,
        final(t).temp == old(t).temp,
        views(final(t).stack@) == views(old(t).stack@) + space_after(
            old(t).ts(),
            old(t).index as int,
        ),
{
    let ghost before = views(t.stack@);
    let next = t.peak_next_non_whitespace();
    let prev = t.peak_prev_non_whitespace();
    if !suppresses_space(token, &next, &prev) {
        t.to_stack(Token::WhiteSpace);
        assert(views(t.stack@) =~= before.push(TokenView::WhiteSpace));
    } else {
        assert(views(t.stack@) =~= before + Seq::empty());
    }
}

/// After a newline, pushes the indent for the token that follows it.
pub fn add_indent(t: &mut Tokonizer, token: &Token, depth: &mut usize)
    ensures
        final(t).index == old(t).index,
        final(t).tokens == old(t).tokens,
        final(t).temp == old(t).temp,
        *final(depth) == *old(depth),
        views(final(t).stack@) == views(old(t).stack@) + (if token@ == TokenView::NewLine {
            seq![TokenView::Tab(indent_after(old(t).ts(), old(t).index as int, *old(depth) as nat))]
        } else {
            Seq::empty()
        }),
{
    let ghost before = views(t.stack@);
    match token {
        Token::NewLine => {
            if t.next_eq(Token::BraceClose) || t.next_eq(Token::BraceSquareClosed) || t.next_eq(
                Token::ParenClose,
            ) {
                t.to_stack(Token::Tab(depth.checked_sub(1).unwrap_or(0)));
            } else {
                t.to_stack(Token::Tab(*depth));
            }
            assert(views(t.stack@) =~= before.push(
                TokenView::Tab(indent_after(old(t).ts(), old(t).index as int, *old(depth) as nat)),
            ));
        },
        _ => {
            assert(views(t.stack@) =~= before + Seq::empty());
        },
    }
}

impl Tokonizer {
    /// The text of the output stack, without trailing white space.
    pub fn to_string(&self) -> (r: String)
        ensures
            r@ == trim_end(texts(views(self.stack@))),
    {
        let mut out = String::new();
        let mut k: usize = 0;
        while k < self.stack.len()
            invariant
                k <= self.stack@.len(),
                out@ == texts(views(self.stack@).take(k as int)),
            decreases self.stack@.len() - k,
        {
            let s = self.stack[k].as_string();
            out.append(s.as_str());
            proof {
                let vs = views(self.stack@);
                lemma_texts_push(vs.take(k as int), vs[k as int]);
                assert(vs.take(k + 1) =~= vs.take(k as int).push(vs[k as int]));
            }
            k = k + 1;
        }
        assert(views(self.stack@).take(k as int) =~= views(self.stack@));
        let trimmed = trim_end_str(out.as_str());
        String::from_str(trimmed)
    }
}

/// Formats source text: folds it into tokens, lays them out with single
/// spaces and tab indentation, and renders the result without trailing white
/// space.
pub fn format_buffer(buffer: String) -> (r: String)
    ensures
        r@ == formatted(buffer@),
        r@.len() == 0 || !white_space(r@.last()),
{
    let ghost src = buffer@;
    let mut depth: usize = 0;
    let mut t = Tokonizer::new(gen_tokens(buffer));
    let ghost ts = t.ts();
    assert(views(t.stack@) =~= Seq::<TokenView>::empty());
    assert(views(t.stack@) + lay(ts, 0, 0) =~= layout(ts));
    while t.index < t.tokens.len()
        invariant
            t.ts() == ts,
            ts == lex(src),
            t.index <= ts.len(),
            depth <= t.index,
            views(t.stack@) + lay(ts, t.index as int, depth as nat) == layout(ts),
        decreases ts.len() - t.index,
    {
        let ghost i = t.index as int;
        let ghost before = views(t.stack@);
        let ghost d0 = depth as nat;
        let n = t.tokens.len();
        let token = t.tokens[t.index].clone();
        t.to_stack(token.clone());
        add_depth(&token, &mut depth);
        add_whitespace(&mut t, &token);
        add_indent(&mut t, &token, &mut depth);
        t.next();
        assert(views(t.stack@) =~= before + chunk(ts, i, d0));
        assert(before + lay(ts, i, d0) =~= views(t.stack@) + lay(ts, i + 1, depth as nat));
    }
    assert(lay(ts, t.index as int, depth as nat) =~= Seq::<TokenView>::empty());
    assert(views(t.stack@) =~= layout(ts));
    let r = t.to_string();
    proof {
        lemma_trim_end_last(texts(layout(ts)));
    }
    r
}

/// Trimming leaves no white space at the end.
pub proof fn lemma_trim_end_last(s: Seq<char>)
    ensures
        trim_end(s).len() == 0 || !white_space(trim_end(s).last()),
    decreases s.len(),
{
    if s.len() > 0 && white_space(s.last()) {
        lemma_trim_end_last(s.drop_last());
    }
}

} // verus!
