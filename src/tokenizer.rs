use vstd::prelude::*;
use crate::tokens::{Token, TokenView};

verus! {

/// The models of a sequence of tokens.
pub open spec fn views(ts: Seq<Token>) -> Seq<TokenView> {
    ts.map_values(|t: Token| t@)
}

/// The model of an optional token.
pub open spec fn opt_view(o: Option<Token>) -> Option<TokenView> {
    match o {
        Some(t) => Some(t@),
        None => None,
    }
}

/// The token at `k`, if there is one.
pub open spec fn token_at(ts: Seq<TokenView>, k: int) -> Option<TokenView> {
    if 0 <= k < ts.len() {
        Some(ts[k])
    } else {
        None
    }
}

/// The concatenated text of a run of tokens.
pub open spec fn texts(ts: Seq<TokenView>) -> Seq<char>
    decreases ts.len(),
{
    if ts.len() == 0 {
        Seq::empty()
    } else {
        texts(ts.drop_last()) + ts.last().text()
    }
}

/// How a token moves the brace balance of a quoted block.
pub open spec fn brace_delta(t: TokenView) -> int {
    match t {
        TokenView::BraceOpen => 1,
        TokenView::BraceClose => -1,
        _ => 0,
    }
}

/// Where a brace-balanced scan stops: the first position from `k` on that
/// holds a token of `stop` at which the balance, counted from `depth` and
/// including that token, is zero; the length of `ts` when there is none.
pub open spec fn balanced_end(ts: Seq<TokenView>, k: int, depth: int, stop: Seq<TokenView>) -> int
    decreases ts.len() - k,
{
    if k >= ts.len() {
        ts.len() as int
    } else {
        let d = depth + brace_delta(ts[k]);
        if stop.contains(ts[k]) && d == 0 {
            k
        } else {
            balanced_end(ts, k + 1, d, stop)
        }
    }
}

/// The first position from `k` on that holds a token of `stop`; the length
/// of `ts` when there is none (and `k` itself when it is already past the end).
pub open spec fn stop_at(ts: Seq<TokenView>, k: int, stop: Seq<TokenView>) -> int
    decreases ts.len() - k,
{
    if k >= ts.len() {
        k
    } else if stop.contains(ts[k]) {
        k
    } else {
        stop_at(ts, k + 1, stop)
    }
}

/// The first token from `k` on that is not a `WhiteSpace`.
pub open spec fn next_significant(ts: Seq<TokenView>, k: int) -> Option<TokenView>
    decreases ts.len() - k,
{
    if k < 0 || k >= ts.len() {
        None
    } else if ts[k] != TokenView::WhiteSpace {
        Some(ts[k])
    } else {
        next_significant(ts, k + 1)
    }
}

/// The last token at or before `k` that is not a `WhiteSpace`.
pub open spec fn prev_significant(ts: Seq<TokenView>, k: int) -> Option<TokenView>
    decreases k + 1,
{
    if k < 0 || k >= ts.len() {
        None
    } else if ts[k] != TokenView::WhiteSpace {
        Some(ts[k])
    } else {
        prev_significant(ts, k - 1)
    }
}

pub proof fn lemma_texts_push(ts: Seq<TokenView>, t: TokenView)
    ensures
        texts(ts.push(t)) == texts(ts) + t.text(),
{
    assert(ts.push(t).drop_last() =~= ts);
}

pub proof fn lemma_texts_add(a: Seq<TokenView>, b: Seq<TokenView>)
    ensures
        texts(a + b) == texts(a) + texts(b),
    decreases b.len(),
{
    if b.len() == 0 {
        assert(a + b =~= a);
        assert(texts(b) =~= Seq::<char>::empty());
        assert(texts(a) + texts(b) =~= texts(a));
    } else {
        lemma_texts_add(a, b.drop_last());
        assert((a + b).drop_last() =~= a + b.drop_last());
        assert((a + b).last() == b.last());
        assert(texts(a) + (texts(b.drop_last()) + b.last().text()) =~= (texts(a) + texts(
            b.drop_last(),
        )) + b.last().text());
    }
}

pub proof fn lemma_texts_head(ts: Seq<TokenView>)
    requires
        ts.len() > 0,
    ensures
        texts(ts) == ts[0].text() + texts(ts.drop_first()),
{
    lemma_texts_add(seq![ts[0]], ts.drop_first());
    assert(seq![ts[0]] + ts.drop_first() =~= ts);
    assert(seq![ts[0]].drop_last() =~= Seq::<TokenView>::empty());
    assert(texts(seq![ts[0]].drop_last()) =~= Seq::<char>::empty());
    assert(seq![ts[0]].last() == ts[0]);
    assert(texts(seq![ts[0]]) =~= ts[0].text());
}

pub proof fn lemma_stop_at_bounds(ts: Seq<TokenView>, k: int, stop: Seq<TokenView>)
    requires
        0 <= k <= ts.len(),
    ensures
        k <= stop_at(ts, k, stop) <= ts.len(),
        stop_at(ts, k, stop) < ts.len() ==> stop.contains(ts[stop_at(ts, k, stop)]),
    decreases ts.len() - k,
{
    if k < ts.len() && !stop.contains(ts[k]) {
        lemma_stop_at_bounds(ts, k + 1, stop);
    }
}

pub proof fn lemma_balanced_end_bounds(ts: Seq<TokenView>, k: int, depth: int, stop: Seq<TokenView>)
    requires
        0 <= k <= ts.len(),
    ensures
        k <= balanced_end(ts, k, depth, stop) <= ts.len(),
    decreases ts.len() - k,
{
    if k < ts.len() {
        let d = depth + brace_delta(ts[k]);
        if !(stop.contains(ts[k]) && d == 0) {
            lemma_balanced_end_bounds(ts, k + 1, d, stop);
        }
    }
}

/// A cursor over a token sequence, with an output stack and a buffer for the
/// characters of a pending word.
pub struct Tokonizer {
    pub index: usize,
    pub tokens: Vec<Token>,
    pub stack: Vec<Token>,
    pub temp: String,
}

/// Whether `t` is one of `set`.
fn contains_token(set: &[Token], t: &Token) -> (r: bool)
    ensures
        r == views(set@).contains(t@),
{
    let mut i: usize = 0;
    while i < set.len()
        invariant
            i <= set@.len(),
            forall|k: int| 0 <= k < i ==> set@[k]@ != t@,
        decreases set@.len() - i,
    {
        if set[i] == *t {
            assert(views(set@)[i as int] == t@);
            return true;
        }
        i = i + 1;
    }
    proof {
        if views(set@).contains(t@) {
            let k = choose|k: int| 0 <= k < views(set@).len() && views(set@)[k] == t@;
            assert(set@[k]@ == t@);
        }
    }
    false
}

impl Tokonizer {
    /// The models of the tokens under the cursor.
    pub open spec fn ts(&self) -> Seq<TokenView> {
        views(self.tokens@)
    }

    /// The models of the tokens on the output stack.
    pub open spec fn out(&self) -> Seq<TokenView> {
        views(self.stack@)
    }

    pub fn new(tokens: Vec<Token>) -> (r: Self)
        ensures
            r.index == 0,
            r.tokens@ == tokens@,
            r.stack@.len() == 0,
            r.temp@ == Seq::<char>::empty(),
    {
        Self { index: 0, tokens, stack: Vec::new(), temp: String::new() }
    }

    pub fn next(&mut self)
        requires
            old(self).index < usize::MAX,
        ensures
            final(self).index == old(self).index + 1,
            final(self).tokens == old(self).tokens,
            final(self).stack == old(self).stack,
            final(self).temp == old(self).temp,
    {
        self.index += 1;
    }

    pub fn prev(&mut self)
        requires
            old(self).index > 0,
        ensures
            final(self).index == old(self).index - 1,
            final(self).tokens == old(self).tokens,
            final(self).stack == old(self).stack,
            final(self).temp == old(self).temp,
    {
        self.index -= 1;
    }

    /// The token under the cursor.
    pub fn get(&self) -> (r: Option<Token>)
        ensures
            opt_view(r) == token_at(self.ts(), self.index as int),
    {
        if self.index < self.tokens.len() {
            Some(self.tokens[self.index].clone())
        } else {
            None
        }
    }

    /// The token after the cursor.
    pub fn peak_next(&self) -> (r: Option<Token>)
        ensures
            opt_view(r) == token_at(self.ts(), self.index + 1),
    {
        if self.index < self.tokens.len() && self.index + 1 < self.tokens.len() {
            Some(self.tokens[self.index + 1].clone())
        } else {
            None
        }
    }

    /// The token before the cursor.
    pub fn peak_prev(&self) -> (r: Option<Token>)
        ensures
            opt_view(r) == token_at(self.ts(), self.index - 1),
    {
        if self.index > 0 && self.index - 1 < self.tokens.len() {
            Some(self.tokens[self.index - 1].clone())
        } else {
            None
        }
    }

    /// Whether the token after the cursor is `token`.
    pub fn next_eq(&self, token: Token) -> (r: bool)
        ensures
            r == (token_at(self.ts(), self.index + 1) == Some(token@)),
    {
        match self.peak_next() {
            Some(t) => t == token,
            None => false,
        }
    }

    /// Whether the token before the cursor is `token`.
    pub fn prev_eq(&self, token: Token) -> (r: bool)
        ensures
            r == (token_at(self.ts(), self.index - 1) == Some(token@)),
    {
        match self.peak_prev() {
            Some(t) => t == token,
            None => false,
        }
    }

    /// Whether the token under the cursor is `token`.
    pub fn is_eq(&self, token: &Token) -> (r: bool)
        ensures
            r == (token_at(self.ts(), self.index as int) == Some(token@)),
    {
        match self.get() {
            Some(t) => t == *token,
            None => false,
        }
    }

    /// Whether the token under the cursor is one of `token`.
    pub fn one_of_is_eq(&self, token: &[Token]) -> (r: bool)
        ensures
            r == (self.index < self.ts().len() && views(token@).contains(
                self.ts()[self.index as int],
            )),
    {
        match self.get() {
            Some(t) => contains_token(token, &t),
            None => false,
        }
    }

    /// The first token after the cursor that is not a `WhiteSpace`.
    pub fn peak_next_non_whitespace(&self) -> (r: Option<Token>)
        ensures
            opt_view(r) == next_significant(self.ts(), self.index + 1),
    {
        if self.index >= self.tokens.len() {
            return None;
        }
        let mut k: usize = self.index + 1;
        while k < self.tokens.len()
            invariant
                self.index < k <= self.tokens@.len(),
                next_significant(self.ts(), self.index + 1) == next_significant(self.ts(), k as int),
            decreases self.tokens@.len() - k,
        {
            if self.tokens[k] != Token::WhiteSpace {
                return Some(self.tokens[k].clone());
            }
            k = k + 1;
        }
        None
    }

    /// The last token before the cursor that is not a `WhiteSpace`.
    pub fn peak_prev_non_whitespace(&self) -> (r: Option<Token>)
        ensures
            opt_view(r) == prev_significant(self.ts(), self.index - 1),
    {
        if self.index == 0 || self.index > self.tokens.len() {
            return None;
        }
        let mut k: usize = self.index;
        while k > 0
            invariant
                0 <= k <= self.index <= self.tokens@.len(),
                prev_significant(self.ts(), self.index - 1) == prev_significant(self.ts(), k - 1),
            decreases k,
        {
            if self.tokens[k - 1] != Token::WhiteSpace {
                return Some(self.tokens[k - 1].clone());
            }
            k = k - 1;
        }
        None
    }

    /// Pushes `token` onto the output stack.
    pub fn to_stack(&mut self, token: Token)
        ensures
            final(self).stack@ == old(self).stack@.push(token),
            final(self).index == old(self).index,
            final(self).tokens == old(self).tokens,
            final(self).temp == old(self).temp,
    {
        self.stack.push(token)
    }

    /// Takes the token under the cursor and those after it up to the first
    /// token of `token` at which the brace balance of what was taken is zero.
    /// That terminator is taken too when `included` holds, and the cursor is
    /// left on it; otherwise the cursor is left just before it. Without a
    /// terminator everything up to the end is taken.
    pub fn take_upto(&mut self, token: &[Token], included: bool) -> (r: String)
        ensures
            final(self).tokens == old(self).tokens,
            final(self).stack == old(self).stack,
            final(self).temp == old(self).temp,
            ({
                let ts = old(self).ts();
                let i = old(self).index as int;
                let e = balanced_end(ts, i + 1, brace_delta(ts[i]), views(token@));
                if i >= ts.len() {
                    r@ == Seq::<char>::empty() && final(self).index == i
                } else if e < ts.len() {
                    &&& r@ == texts(ts.subrange(i, e)) + (if included {
                        ts[e].text()
                    } else {
                        Seq::empty()
                    })
                    &&& final(self).index == (if included {
                        e
                    } else {
                        e - 1
                    })
                } else {
                    r@ == texts(ts.subrange(i, ts.len() as int)) && final(self).index == ts.len()
                }
            }),
    {
        let ghost ts = self.ts();
        let ghost i = self.index as int;
        let ghost stop = views(token@);
        let mut block = String::new();
        if self.index >= self.tokens.len() {
            return block;
        }
        let ghost d0 = brace_delta(ts[i]);
        let mut opens: usize = 0;
        let mut closes: usize = 0;
        let mut first = true;
        proof {
            lemma_balanced_end_bounds(ts, i + 1, d0, stop);
        }
        while self.index < self.tokens.len()
            invariant
                self.ts() == ts,
                self.tokens == old(self).tokens,
                ts == old(self).ts(),
                stop == views(token@),
                0 <= i < ts.len(),
                i == old(self).index,
                d0 == brace_delta(ts[i]),
                i <= self.index <= ts.len(),
                first == (self.index == i),
                opens <= self.index - i,
                closes <= self.index - i,
                block@ == texts(ts.subrange(i, self.index as int)),
                self.stack == old(self).stack,
                self.temp == old(self).temp,
                !first ==> balanced_end(ts, i + 1, d0, stop) == balanced_end(
                    ts,
                    self.index as int,
                    opens - closes,
                    stop,
                ),
            decreases ts.len() - self.index,
        {
            let t = self.tokens[self.index].clone();
            let ghost k = self.index as int;
            proof {
                lemma_texts_push(ts.subrange(i, k), ts[k]);
                assert(ts.subrange(i, k + 1) =~= ts.subrange(i, k).push(ts[k]));
            }
            let ghost d_before = opens - closes;
            match t {
                Token::BraceOpen => {
                    opens = opens + 1;
                },
                Token::BraceClose => {
                    closes = closes + 1;
                },
                _ => {},
            }
            assert(t@ == ts[k]);
            assert(opens - closes == d_before + brace_delta(ts[k]));
            if !first && opens == closes && contains_token(token, &t) {
                assert(balanced_end(ts, k, d_before, stop) == k);
                if included {
                    let s = t.as_string();
                    block.append(s.as_str());
                } else {
                    self.prev();
                }
                return block;
            }
            let s = t.as_string();
            block.append(s.as_str());
            self.next();
            first = false;
        }
        block
    }

    /// Takes the tokens from the cursor on, up to the first one of `token`
    /// (starting with the one under the cursor), and leaves the cursor on
    /// it. Its text is added when it is `if_included`.
    pub fn take_upto_either_included_if(&mut self, token: &[Token], if_included: Token) -> (r:
        String)
        ensures
            final(self).tokens == old(self).tokens,
            final(self).stack == old(self).stack,
            final(self).temp == old(self).temp,
            ({
                let ts = old(self).ts();
                let i = old(self).index as int;
                let j = stop_at(ts, i, views(token@));
                &&& final(self).index == j
                &&& if i >= ts.len() {
                    r@ == Seq::<char>::empty()
                } else if j < ts.len() && ts[j] == if_included@ {
                    r@ == texts(ts.subrange(i, j)) + ts[j].text()
                } else {
                    r@ == texts(ts.subrange(i, j))
                }
            }),
    {
        let ghost ts = self.ts();
        let ghost i = self.index as int;
        let mut block = String::new();
        if self.index >= self.tokens.len() {
            return block;
        }
        let ghost stop = views(token@);
        while self.index < self.tokens.len() && !self.one_of_is_eq(token)
            invariant
                self.ts() == ts,
                self.tokens == old(self).tokens,
                ts == old(self).ts(),
                stop == views(token@),
                0 <= i < ts.len(),
                i == old(self).index,
                i <= self.index <= ts.len(),
                block@ == texts(ts.subrange(i, self.index as int)),
                stop_at(ts, i, stop) == stop_at(ts, self.index as int, stop),
                self.stack == old(self).stack,
                self.temp == old(self).temp,
            decreases ts.len() - self.index,
        {
            let ghost k = self.index as int;
            proof {
                lemma_texts_push(ts.subrange(i, k), ts[k]);
                assert(ts.subrange(i, k + 1) =~= ts.subrange(i, k).push(ts[k]));
            }
            let s = self.tokens[self.index].as_string();
            block.append(s.as_str());
            self.next();
        }
        if self.index < self.tokens.len() {
            if self.tokens[self.index] == if_included {
                let s = self.tokens[self.index].as_string();
                block.append(s.as_str());
            }
        }
        block
    }

    /// Takes the token under the cursor and those after it up to, but not
    /// including, the first later token of `token`, and leaves the cursor on
    /// that token (or at the end).
    pub fn take_before(&mut self, token: &[Token]) -> (r: String)
        ensures
            final(self).tokens == old(self).tokens,
            final(self).stack == old(self).stack,
            final(self).temp == old(self).temp,
            ({
                let ts = old(self).ts();
                let i = old(self).index as int;
                if i >= ts.len() {
                    r@ == Seq::<char>::empty() && final(self).index == i
                } else {
                    let j = stop_at(ts, i + 1, views(token@));
                    r@ == texts(ts.subrange(i, j)) && final(self).index == j
                }
            }),
    {
        let ghost ts = self.ts();
        let ghost i = self.index as int;
        let mut block = String::new();
        if self.index >= self.tokens.len() {
            return block;
        }
        let ghost stop = views(token@);
        let s = self.tokens[self.index].as_string();
        block.append(s.as_str());
        proof {
            lemma_texts_push(ts.subrange(i, i), ts[i]);
            assert(ts.subrange(i, i + 1) =~= ts.subrange(i, i).push(ts[i]));
            assert(ts.subrange(i, i) =~= Seq::<TokenView>::empty());
        }
        self.next();
        while self.index < self.tokens.len() && !self.one_of_is_eq(token)
            invariant
                self.ts() == ts,
                self.tokens == old(self).tokens,
                ts == old(self).ts(),
                stop == views(token@),
                0 <= i < ts.len(),
                i == old(self).index,
                i < self.index <= ts.len(),
                block@ == texts(ts.subrange(i, self.index as int)),
                stop_at(ts, i + 1, stop) == stop_at(ts, self.index as int, stop),
                self.stack == old(self).stack,
                self.temp == old(self).temp,
            decreases ts.len() - self.index,
        {
            let ghost k = self.index as int;
            proof {
                lemma_texts_push(ts.subrange(i, k), ts[k]);
                assert(ts.subrange(i, k + 1) =~= ts.subrange(i, k).push(ts[k]));
            }
            let s = self.tokens[self.index].as_string();
            block.append(s.as_str());
            self.next();
        }
        block
    }

    /// Appends `s` to the pending word.
    pub fn to_temp(&mut self, s: String)
        ensures
            final(self).temp@ == old(self).temp@ + s@,
            final(self).index == old(self).index,
            final(self).tokens == old(self).tokens,
            final(self).stack == old(self).stack,
    {
        self.temp.append(s.as_str());
    }

    /// Moves a non-empty pending word onto the stack as a `Word`.
    pub fn temp_to_word(&mut self)
        ensures
            final(self).temp@ == Seq::<char>::empty(),
            final(self).out() == old(self).out() + (if old(self).temp@.len() == 0 {
                Seq::<TokenView>::empty()
            } else {
                seq![TokenView::Word(old(self).temp@)]
            }),
            final(self).index == old(self).index,
            final(self).tokens == old(self).tokens,
    {
        let ghost before = self.out();
        if self.temp.as_str().is_empty() {
            self.temp = String::new();
        } else {
            let w = self.temp.clone();
            self.to_stack(Token::Word(w));
            self.temp = String::new();
            assert(self.out() =~= before + seq![TokenView::Word(old(self).temp@)]);
        }
        assert(old(self).temp@.len() == 0 ==> self.out() =~= before);
    }
}

} // verus!
