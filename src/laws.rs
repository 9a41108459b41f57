use vstd::prelude::*;
use crate::layout::{
    chunk, indent_after, is_closer, lay, layout, next_depth, outdent, space_after,
};
use crate::lexer::{
    flushed, fold, is_separator, lex, quote_end, line_stops, path_stops,
};
use crate::layout::formatted;
use crate::lexer::{classify, trim_end, white_space};
use crate::tokenizer::{
    lemma_balanced_end_bounds, lemma_stop_at_bounds, lemma_texts_add, lemma_texts_head, stop_at,
    texts,
};
use crate::tokens::{char_token, tabs, TokenView, TAB_MULTIPLIER};

verus! {

/// The nesting depth in force before the token at `k`.
pub open spec fn depth_at(ts: Seq<TokenView>, k: int) -> nat
    decreases k,
{
    if k <= 0 {
        0
    } else {
        next_depth(ts[k - 1], depth_at(ts, k - 1))
    }
}

/// The nesting level of the token at `k`: a closing brace, bracket or paren
/// stands one level out (saturating at zero) from the depth before it.
pub open spec fn level(ts: Seq<TokenView>, k: int) -> nat {
    if 0 <= k < ts.len() && is_closer(ts[k]) {
        outdent(depth_at(ts, k))
    } else {
        depth_at(ts, k)
    }
}

/// What the layout engine emits for the tokens before `k`.
pub open spec fn lay_prefix(ts: Seq<TokenView>, k: int) -> Seq<TokenView>
    decreases k,
{
    if k <= 0 {
        Seq::empty()
    } else {
        lay_prefix(ts, k - 1) + chunk(ts, k - 1, depth_at(ts, k - 1))
    }
}

/// Tokens that the layout engine adds: spaces and indents.
pub open spec fn is_layout(t: TokenView) -> bool {
    t is WhiteSpace || t is Tab
}

/// `ts` without its spaces and indents.
pub open spec fn significant(ts: Seq<TokenView>) -> Seq<TokenView>
    decreases ts.len(),
{
    if ts.len() == 0 {
        Seq::empty()
    } else {
        (if is_layout(ts[0]) {
            Seq::empty()
        } else {
            seq![ts[0]]
        }) + significant(ts.drop_first())
    }
}

/// No two spaces stand side by side in `ts`.
pub open spec fn no_double_space(ts: Seq<TokenView>) -> bool {
    forall|p: int|
        0 <= p < ts.len() - 1 ==> !(#[trigger] ts[p] == TokenView::WhiteSpace && ts[p + 1]
            == TokenView::WhiteSpace)
}

/// No token of `ts` is a space or an indent.
pub open spec fn free_of_layout(ts: Seq<TokenView>) -> bool {
    forall|j: int| 0 <= j < ts.len() ==> !is_layout(#[trigger] ts[j])
}

proof fn lemma_layout_split(ts: Seq<TokenView>, k: int)
    requires
        0 <= k <= ts.len(),
    ensures
        layout(ts) == lay_prefix(ts, k) + lay(ts, k, depth_at(ts, k)),
    decreases k,
{
    if k == 0 {
        assert(lay_prefix(ts, 0) + lay(ts, 0, 0) =~= lay(ts, 0, 0));
    } else {
        lemma_layout_split(ts, k - 1);
        let d = depth_at(ts, k - 1);
        assert(lay(ts, k - 1, d) == chunk(ts, k - 1, d) + lay(ts, k, depth_at(ts, k)));
        assert(lay_prefix(ts, k - 1) + (chunk(ts, k - 1, d) + lay(ts, k, depth_at(ts, k)))
            =~= lay_prefix(ts, k) + lay(ts, k, depth_at(ts, k)));
    }
}

proof fn lemma_indent_token(s: Seq<char>, k: int)
    requires
        0 <= k < lex(s).len(),
        lex(s)[k] == TokenView::NewLine,
    ensures
        ({
            let ts = lex(s);
            let p = lay_prefix(ts, k).len() as int;
            &&& p + 1 < layout(ts).len()
            &&& layout(ts)[p] == TokenView::NewLine
            &&& layout(ts)[p + 1] == TokenView::Tab(level(ts, k + 1))
        }),
{
    let ts = lex(s);
    lemma_layout_split(ts, k);
    let d = depth_at(ts, k);
    assert(space_after(ts, k) =~= Seq::<TokenView>::empty());
    assert(depth_at(ts, k + 1) == d);
    assert(indent_after(ts, k, d) == level(ts, k + 1));
    let c = chunk(ts, k, d);
    assert(c =~= seq![TokenView::NewLine, TokenView::Tab(level(ts, k + 1))]);
    assert(lay(ts, k, d) == c + lay(ts, k + 1, next_depth(ts[k], d)));
    let p = lay_prefix(ts, k).len() as int;
    assert(layout(ts) == lay_prefix(ts, k) + (c + lay(ts, k + 1, next_depth(ts[k], d))));
    assert(layout(ts)[p] == c[0]);
    assert(layout(ts)[p + 1] == c[1]);
}

proof fn lemma_significant_add(a: Seq<TokenView>, b: Seq<TokenView>)
    ensures
        significant(a + b) == significant(a) + significant(b),
    decreases a.len(),
{
    if a.len() == 0 {
        assert(a + b =~= b);
        assert(significant(a) + significant(b) =~= significant(b));
    } else {
        assert((a + b).drop_first() =~= a.drop_first() + b);
        lemma_significant_add(a.drop_first(), b);
        assert((a + b)[0] == a[0]);
        let head = if is_layout(a[0]) {
            Seq::<TokenView>::empty()
        } else {
            seq![a[0]]
        };
        assert(head + (significant(a.drop_first()) + significant(b)) =~= (head + significant(
            a.drop_first(),
        )) + significant(b));
    }
}

proof fn lemma_significant_chunk(ts: Seq<TokenView>, i: int, d: nat)
    requires
        0 <= i < ts.len(),
        !is_layout(ts[i]),
    ensures
        significant(chunk(ts, i, d)) == seq![ts[i]],
{
    let c = chunk(ts, i, d);
    let tail = c.drop_first();
    assert(forall|j: int| 0 <= j < tail.len() ==> is_layout(#[trigger] tail[j]));
    if tail.len() == 0 {
        assert(significant(tail) =~= Seq::<TokenView>::empty());
    } else if tail.len() == 1 {
        assert(tail.drop_first() =~= Seq::<TokenView>::empty());
        assert(significant(tail.drop_first()) =~= Seq::<TokenView>::empty());
        assert(significant(tail) =~= Seq::<TokenView>::empty());
    } else {
        assert(tail.len() == 2);
        assert(tail.drop_first().drop_first() =~= Seq::<TokenView>::empty());
        assert(significant(tail.drop_first()) =~= Seq::<TokenView>::empty());
        assert(significant(tail) =~= Seq::<TokenView>::empty());
    }
    assert(significant(c) =~= seq![ts[i]] + significant(tail));
}

proof fn lemma_significant_lay(ts: Seq<TokenView>, i: int, d: nat)
    requires
        0 <= i <= ts.len(),
        free_of_layout(ts),
    ensures
        significant(lay(ts, i, d)) == ts.subrange(i, ts.len() as int),
    decreases ts.len() - i,
{
    if i == ts.len() {
        assert(significant(lay(ts, i, d)) =~= ts.subrange(i, ts.len() as int));
    } else {
        let d2 = next_depth(ts[i], d);
        lemma_significant_lay(ts, i + 1, d2);
        lemma_significant_add(chunk(ts, i, d), lay(ts, i + 1, d2));
        lemma_significant_chunk(ts, i, d);
        assert(seq![ts[i]] + ts.subrange(i + 1, ts.len() as int) =~= ts.subrange(
            i,
            ts.len() as int,
        ));
    }
}

proof fn lemma_flushed_free(temp: Seq<char>)
    ensures
        free_of_layout(flushed(temp)),
{
}

proof fn lemma_free_add(a: Seq<TokenView>, b: Seq<TokenView>)
    requires
        free_of_layout(a),
        free_of_layout(b),
    ensures
        free_of_layout(a + b),
{
    assert forall|j: int| 0 <= j < (a + b).len() implies !is_layout(#[trigger] (a + b)[j]) by {
        if j < a.len() {
            assert((a + b)[j] == a[j]);
        } else {
            assert((a + b)[j] == b[j - a.len()]);
        }
    }
}

proof fn lemma_fold_free(ts: Seq<TokenView>, i: int, temp: Seq<char>)
    ensures
        free_of_layout(fold(ts, i, temp)),
    decreases ts.len() - i,
{
    if i < 0 || i >= ts.len() {
        lemma_flushed_free(temp);
    } else {
        let t = ts[i];
        match t {
            TokenView::Char(c) => {
                lemma_fold_free(ts, i + 1, temp.push(c));
            },
            TokenView::WhiteSpace => {
                lemma_fold_free(ts, i + 1, Seq::empty());
                lemma_free_add(flushed(temp), fold(ts, i + 1, Seq::empty()));
            },
            TokenView::Tab(_) => {
                lemma_fold_free(ts, i + 1, temp);
            },
            TokenView::DoubleQuote | TokenView::SingleQuote => {
                lemma_balanced_end_bounds(ts, i + 1, 0, seq![t]);
                let end = quote_end(ts, i);
                lemma_fold_free(ts, end, temp);
                let head = seq![fold(ts, i, temp)[0]];
                assert(fold(ts, i, temp) == head + fold(ts, end, temp));
                lemma_free_add(head, fold(ts, end, temp));
            },
            TokenView::Slash => {
                lemma_stop_at_bounds(ts, i + 1, path_stops());
                let j = stop_at(ts, i + 1, path_stops());
                lemma_fold_free(ts, j, Seq::empty());
                let head = seq![fold(ts, i, temp)[0]];
                assert(fold(ts, i, temp) == head + fold(ts, j, Seq::empty()));
                lemma_free_add(head, fold(ts, j, Seq::empty()));
            },
            TokenView::Att => {
                lemma_stop_at_bounds(ts, i + 1, line_stops());
                let j = stop_at(ts, i + 1, line_stops());
                lemma_fold_free(ts, j, Seq::empty());
                let head = seq![fold(ts, i, temp)[0]];
                assert(fold(ts, i, temp) == head + fold(ts, j, Seq::empty()));
                lemma_free_add(head, fold(ts, j, Seq::empty()));
            },
            TokenView::Hash => {
                lemma_stop_at_bounds(ts, i + 1, line_stops());
                let j = stop_at(ts, i + 1, line_stops());
                lemma_fold_free(ts, j, temp);
                let head = seq![fold(ts, i, temp)[0]];
                assert(fold(ts, i, temp) == head + fold(ts, j, temp));
                lemma_free_add(head, fold(ts, j, temp));
            },
            _ => {
                if is_separator(t) {
                    lemma_fold_free(ts, i + 1, Seq::empty());
                    lemma_free_add(flushed(temp), seq![t]);
                    lemma_free_add(flushed(temp) + seq![t], fold(ts, i + 1, Seq::empty()));
                } else {
                    lemma_fold_free(ts, i + 1, temp);
                    lemma_free_add(seq![t], fold(ts, i + 1, temp));
                }
            },
        }
    }
}

/// The folded tokens of any input hold no spaces and no indents.
pub proof fn lemma_lex_free_of_layout(s: Seq<char>)
    ensures
        free_of_layout(lex(s)),
{
    lemma_fold_free(crate::lexer::classify(s), 0, Seq::empty());
}

/// The layout engine only inserts spaces and indents: dropping them from the
/// laid-out tokens of `s` gives back the lexemes of `s` (words, numbers,
/// operators, paths, comments, quoted blocks), in order and unchanged.
pub proof fn lemma_layout_keeps_lexemes(s: Seq<char>)
    ensures
        significant(layout(lex(s))) == lex(s),
{
    let ts = lex(s);
    lemma_lex_free_of_layout(s);
    lemma_significant_lay(ts, 0, 0);
    assert(ts.subrange(0, ts.len() as int) =~= ts);
}

proof fn lemma_no_double_space_add(a: Seq<TokenView>, b: Seq<TokenView>)
    requires
        no_double_space(a),
        no_double_space(b),
        b.len() == 0 || b[0] != TokenView::WhiteSpace,
    ensures
        no_double_space(a + b),
{
    let c = a + b;
    assert forall|p: int| 0 <= p < c.len() - 1 implies !(#[trigger] c[p] == TokenView::WhiteSpace
        && c[p + 1] == TokenView::WhiteSpace) by {
        if p + 1 < a.len() {
            assert(c[p] == a[p] && c[p + 1] == a[p + 1]);
        } else if p + 1 == a.len() {
            assert(c[p + 1] == b[0]);
        } else {
            assert(c[p] == b[p - a.len()] && c[p + 1] == b[p + 1 - a.len()]);
        }
    }
}

proof fn lemma_no_double_space_lay(ts: Seq<TokenView>, i: int, d: nat)
    requires
        0 <= i <= ts.len(),
        free_of_layout(ts),
    ensures
        no_double_space(lay(ts, i, d)),
        i < ts.len() ==> lay(ts, i, d)[0] == ts[i],
    decreases ts.len() - i,
{
    if i < ts.len() {
        let d2 = next_depth(ts[i], d);
        lemma_no_double_space_lay(ts, i + 1, d2);
        let c = chunk(ts, i, d);
        assert(!is_layout(ts[i]));
        assert(no_double_space(c)) by {
            assert forall|p: int| 0 <= p < c.len() - 1 implies !(#[trigger] c[p]
                == TokenView::WhiteSpace && c[p + 1] == TokenView::WhiteSpace) by {
                if p == 0 {
                    assert(c[0] == ts[i]);
                } else {
                    assert(c[p + 1] is Tab);
                }
            }
        }
        lemma_no_double_space_add(c, lay(ts, i + 1, d2));
        assert(lay(ts, i, d) == c + lay(ts, i + 1, d2));
        assert(lay(ts, i, d)[0] == c[0]);
    } else {
        assert(lay(ts, i, d) =~= Seq::<TokenView>::empty());
    }
}

/// The layout of `s` never puts two separator spaces side by side.
pub proof fn lemma_no_double_space(s: Seq<char>)
    ensures
        no_double_space(layout(lex(s))),
{
    lemma_lex_free_of_layout(s);
    lemma_no_double_space_lay(lex(s), 0, 0);
}

/// A token as the classifier makes it: single-character tokens, and
/// `Char` of anything but a tab.
pub open spec fn raw(t: TokenView) -> bool {
    match t {
        TokenView::Char(c) => c != '\t',
        TokenView::Word(_) | TokenView::Number(_) | TokenView::CommentBlock(_) | TokenView::Path(_)
        | TokenView::Tag(_) | TokenView::TagLong(_) | TokenView::AttSomething(_)
        | TokenView::SingleQuoteBlock(..) | TokenView::DoubleQuoteBlock(..) => false,
        _ => true,
    }
}

/// The text of `t` is not empty and does not start with a tab.
pub open spec fn leads_cleanly(t: TokenView) -> bool {
    t.text().len() > 0 && t.text()[0] != '\t'
}

pub open spec fn all_lead_cleanly(ts: Seq<TokenView>) -> bool {
    forall|j: int| 0 <= j < ts.len() ==> leads_cleanly(#[trigger] ts[j])
}

proof fn lemma_trim_end_head(s: Seq<char>)
    requires
        s.len() > 0,
        !white_space(s[0]),
    ensures
        trim_end(s).len() > 0,
        trim_end(s)[0] == s[0],
    decreases s.len(),
{
    if white_space(s.last()) {
        assert(s.len() > 1);
        lemma_trim_end_head(s.drop_last());
    }
}

/// Trimming keeps a prefix.
pub proof fn lemma_trim_end_prefix(s: Seq<char>)
    ensures
        trim_end(s).len() <= s.len(),
        trim_end(s) == s.take(trim_end(s).len() as int),
    decreases s.len(),
{
    if s.len() > 0 && white_space(s.last()) {
        lemma_trim_end_prefix(s.drop_last());
        assert(s.drop_last().take(trim_end(s).len() as int) =~= s.take(trim_end(s).len() as int));
    } else {
        assert(s.take(s.len() as int) =~= s);
    }
}

proof fn lemma_clean_add(a: Seq<TokenView>, b: Seq<TokenView>)
    requires
        all_lead_cleanly(a),
        all_lead_cleanly(b),
    ensures
        all_lead_cleanly(a + b),
{
    assert forall|j: int| 0 <= j < (a + b).len() implies leads_cleanly(#[trigger] (a + b)[j]) by {
        if j < a.len() {
            assert((a + b)[j] == a[j]);
        } else {
            assert((a + b)[j] == b[j - a.len()]);
        }
    }
}

/// The text of a run of tokens that starts with token `t` starts with `t`'s text.
proof fn lemma_run_starts(ts: Seq<TokenView>, i: int, j: int)
    requires
        0 <= i < j <= ts.len(),
    ensures
        texts(ts.subrange(i, j)).len() >= ts[i].text().len(),
        texts(ts.subrange(i, j)).take(ts[i].text().len() as int) == ts[i].text(),
{
    let run = ts.subrange(i, j);
    lemma_texts_head(run);
    assert(run[0] == ts[i]);
    let a = ts[i].text();
    let b = texts(run.drop_first());
    assert((a + b).take(a.len() as int) =~= a);
}

proof fn lemma_fold_clean(ts: Seq<TokenView>, i: int, temp: Seq<char>)
    requires
        forall|j: int| 0 <= j < ts.len() ==> raw(#[trigger] ts[j]),
        forall|j: int| 0 <= j < temp.len() ==> #[trigger] temp[j] != '\t',
    ensures
        all_lead_cleanly(fold(ts, i, temp)),
    decreases ts.len() - i,
{
    let out = fold(ts, i, temp);
    if i < 0 || i >= ts.len() {
    } else {
        let t = ts[i];
        assert(raw(t));
        match t {
            TokenView::Char(c) => {
                let t2 = temp.push(c);
                assert forall|j: int| 0 <= j < t2.len() implies #[trigger] t2[j] != '\t' by {
                    if j < temp.len() {
                        assert(t2[j] == temp[j]);
                    }
                }
                lemma_fold_clean(ts, i + 1, t2);
            },
            TokenView::WhiteSpace => {
                lemma_fold_clean(ts, i + 1, Seq::empty());
                lemma_clean_add(flushed(temp), fold(ts, i + 1, Seq::empty()));
            },
            TokenView::Tab(_) => {
                lemma_fold_clean(ts, i + 1, temp);
            },
            TokenView::DoubleQuote | TokenView::SingleQuote => {
                lemma_balanced_end_bounds(ts, i + 1, 0, seq![t]);
                let end = quote_end(ts, i);
                lemma_fold_clean(ts, end, temp);
                let head = seq![out[0]];
                assert(out == head + fold(ts, end, temp));
                assert(leads_cleanly(out[0]));
                lemma_clean_add(head, fold(ts, end, temp));
            },
            TokenView::Slash => {
                lemma_stop_at_bounds(ts, i + 1, path_stops());
                let j = stop_at(ts, i + 1, path_stops());
                lemma_fold_clean(ts, j, Seq::empty());
                lemma_run_starts(ts, i, j);
                let b = texts(ts.subrange(i, j));
                assert(b[0] == b.take(1)[0]);
                lemma_trim_end_head(b);
                let v = temp + trim_end(b);
                assert(v[0] != '\t');
                let head = seq![TokenView::Path(v)];
                assert(out == head + fold(ts, j, Seq::empty()));
                lemma_clean_add(head, fold(ts, j, Seq::empty()));
            },
            TokenView::Att => {
                lemma_stop_at_bounds(ts, i + 1, line_stops());
                let j = stop_at(ts, i + 1, line_stops());
                lemma_fold_clean(ts, j, Seq::empty());
                lemma_run_starts(ts, i, j);
                let b = texts(ts.subrange(i, j));
                assert(b[0] == b.take(1)[0]);
                lemma_trim_end_head(b);
                let v = temp + trim_end(b);
                assert(v[0] != '\t');
                let head = seq![TokenView::AttSomething(v)];
                assert(out == head + fold(ts, j, Seq::empty()));
                lemma_clean_add(head, fold(ts, j, Seq::empty()));
            },
            TokenView::Hash => {
                lemma_stop_at_bounds(ts, i + 1, line_stops());
                let j = stop_at(ts, i + 1, line_stops());
                lemma_fold_clean(ts, j, temp);
                lemma_run_starts(ts, i, j);
                let b = texts(ts.subrange(i, j));
                assert(b[0] == b.take(1)[0]);
                let head = seq![TokenView::CommentBlock(b)];
                assert(out == head + fold(ts, j, temp));
                lemma_clean_add(head, fold(ts, j, temp));
            },
            _ => {
                if is_separator(t) {
                    lemma_fold_clean(ts, i + 1, Seq::empty());
                    lemma_clean_add(flushed(temp), seq![t]);
                    lemma_clean_add(flushed(temp) + seq![t], fold(ts, i + 1, Seq::empty()));
                } else {
                    lemma_fold_clean(ts, i + 1, temp);
                    lemma_clean_add(seq![t], fold(ts, i + 1, temp));
                }
            },
        }
    }
}

proof fn lemma_lex_clean(s: Seq<char>)
    ensures
        all_lead_cleanly(lex(s)),
{
    let ts = classify(s);
    assert forall|j: int| 0 <= j < ts.len() implies raw(#[trigger] ts[j]) by {
        assert(ts[j] == char_token(s[j]));
    }
    lemma_fold_clean(ts, 0, Seq::empty());
}

/// After each newline token in the rendered layout of `s` come exactly
/// `TAB_MULTIPLIER` tabs per nesting level of the token that follows it, and
/// then a character that is not a tab, or the end. The formatted text is a
/// prefix of that rendering, cut only where trailing white space begins.
pub proof fn lemma_indent_structure(s: Seq<char>, k: int)
    requires
        0 <= k < lex(s).len(),
        lex(s)[k] == TokenView::NewLine,
    ensures
        ({
            let ts = lex(s);
            let r = texts(layout(ts));
            let q = texts(lay_prefix(ts, k)).len() as int;
            let n = level(ts, k + 1) * (TAB_MULTIPLIER as nat);
            &&& q + 1 + n <= r.len()
            &&& r[q] == '\n'
            &&& r.subrange(q + 1, q + 1 + n) == tabs(n)
            &&& (q + 1 + n == r.len() || r[q + 1 + n] != '\t')
            &&& formatted(s) == r.take(formatted(s).len() as int)
        }),
{
    let ts = lex(s);
    lemma_indent_token(s, k);
    lemma_layout_split(ts, k);
    lemma_lex_clean(s);
    let d = depth_at(ts, k);
    let c = chunk(ts, k, d);
    let rest = lay(ts, k + 1, next_depth(ts[k], d));
    assert(c =~= seq![TokenView::NewLine, TokenView::Tab(level(ts, k + 1))]);
    assert(lay(ts, k, d) == c + rest);
    let pre = lay_prefix(ts, k);
    lemma_texts_add(pre, c + rest);
    lemma_texts_add(c, rest);
    let n = level(ts, k + 1) * (TAB_MULTIPLIER as nat);
    lemma_texts_head(c);
    lemma_texts_head(c.drop_first());
    assert(c.drop_first().drop_first() =~= Seq::<TokenView>::empty());
    let ct = seq!['\n'] + tabs(n);
    assert(texts(c) =~= ct);
    let r = texts(layout(ts));
    let q = texts(pre).len() as int;
    assert(r == texts(pre) + (ct + texts(rest)));
    assert(r[q] == '\n');
    assert(r.subrange(q + 1, q + 1 + n) =~= tabs(n));
    if k + 1 < ts.len() {
        let d2 = next_depth(ts[k], d);
        assert(rest == chunk(ts, k + 1, d2) + lay(ts, k + 2, next_depth(ts[k + 1], d2)));
        assert(rest[0] == ts[k + 1]);
        lemma_texts_head(rest);
        assert(leads_cleanly(ts[k + 1]));
        assert(r[q + 1 + n] == texts(rest)[0]);
    } else {
        assert(rest =~= Seq::<TokenView>::empty());
        assert(texts(rest) =~= Seq::<char>::empty());
    }
    lemma_trim_end_prefix(r);
}

} // verus!
