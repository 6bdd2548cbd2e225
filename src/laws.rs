//! Properties of the token stream as a whole, proved over the scanner's
//! specification.
use vstd::prelude::*;

use crate::chars::{identifier_char, numeric, trim_white_space, white_space};
use crate::lexer::{
    lemma_scan_progress, lemma_tokens_of_step, lemma_word_len_bound, lemma_trim_first_not_white_space, punctuation,
    scan, tokens_of, word_len,
};
use crate::token::TokenModel;

verus! {

/// Whether every character of `s` is whitespace.
pub open spec fn all_white_space(s: Seq<char>) -> bool {
    forall|i: int| 0 <= i < s.len() ==> white_space(#[trigger] s[i])
}

/// Scanning ends: every input gives a finite token sequence, with no more
/// tokens than characters.
pub proof fn lemma_tokens_bounded(s: Seq<char>)
    ensures
        tokens_of(s).len() <= s.len(),
    decreases s.len(),
{
    lemma_tokens_of_step(s);
    lemma_scan_progress(s);
    if let Some((_, rest)) = scan(s) {
        lemma_tokens_bounded(rest);
    }
}

proof fn lemma_trim_white_prefix(w: Seq<char>, q: Seq<char>)
    requires
        all_white_space(w),
    ensures
        trim_white_space(w + q) == trim_white_space(q),
    decreases w.len(),
{
    if w.len() > 0 {
        assert((w + q).drop_first() =~= w.drop_first() + q);
        lemma_trim_white_prefix(w.drop_first(), q);
    } else {
        assert(w + q =~= q);
    }
}

proof fn lemma_trim_concat(a: Seq<char>, b: Seq<char>)
    requires
        trim_white_space(a).len() > 0,
    ensures
        trim_white_space(a + b) == trim_white_space(a) + b,
    decreases a.len(),
{
    if a.len() > 0 && white_space(a[0]) {
        assert((a + b).drop_first() =~= a.drop_first() + b);
        lemma_trim_concat(a.drop_first(), b);
    }
}

proof fn lemma_trim_idempotent(s: Seq<char>)
    ensures
        trim_white_space(trim_white_space(s)) == trim_white_space(s),
        scan(trim_white_space(s)) == scan(s),
{
    lemma_trim_first_not_white_space(s);
}

/// Leading whitespace does not change the token sequence.
proof fn lemma_tokens_of_trim(s: Seq<char>)
    ensures
        tokens_of(trim_white_space(s)) == tokens_of(s),
{
    lemma_trim_idempotent(s);
    lemma_tokens_of_step(s);
    lemma_tokens_of_step(trim_white_space(s));
}

/// A word ends where whitespace begins.
proof fn lemma_word_len_concat(a: Seq<char>, b: Seq<char>)
    requires
        b.len() > 0,
        white_space(b[0]),
    ensures
        word_len(a + b) == word_len(a),
    decreases a.len(),
{
    if a.len() > 0 {
        assert((a + b).drop_first() =~= a.drop_first() + b);
        lemma_word_len_concat(a.drop_first(), b);
    } else {
        assert(a + b =~= b);
    }
}

/// An input of whitespace alone has no tokens.
pub proof fn lemma_white_space_only(w: Seq<char>)
    requires
        all_white_space(w),
    ensures
        tokens_of(w) == Seq::<TokenModel>::empty(),
{
    lemma_trim_white_prefix(w, seq![]);
    assert(w + seq![] =~= w);
    lemma_tokens_of_step(w);
}

/// A gap of whitespace splits the input into two parts that are scanned
/// independently: the tokens of `p`, then the tokens of `q`.
pub proof fn lemma_white_space_gap(p: Seq<char>, w: Seq<char>, q: Seq<char>)
    requires
        w.len() > 0,
        all_white_space(w),
    ensures
        tokens_of(p + w + q) == tokens_of(p) + tokens_of(q),
    decreases p.len(),
{
    let s = p + w + q;
    let tp = trim_white_space(p);
    lemma_tokens_of_step(p);
    if tp.len() == 0 {
        lemma_scan_progress(p);
        assert(all_white_space(p + w));
        assert(s =~= (p + w) + q);
        lemma_trim_white_prefix(p + w, q);
        lemma_tokens_of_trim(s);
        lemma_tokens_of_trim(q);
        assert(tokens_of(p) + tokens_of(q) =~= tokens_of(q));
    } else {
        assert(s =~= p + (w + q));
        lemma_trim_concat(p, w + q);
        lemma_trim_first_not_white_space(p);
        let t = tp + (w + q);
        assert(t[0] == tp[0]);
        if punctuation(tp[0]) is Some {
            assert(t.drop_first() =~= tp.drop_first() + w + q);
        } else if identifier_char(tp[0]) {
            lemma_word_len_concat(tp, w + q);
            lemma_word_len_bound(tp);
            let n = word_len(tp) as int;
            assert(t.take(n) =~= tp.take(n));
            assert(t.skip(n) =~= tp.skip(n) + w + q);
        } else {
            assert(t.drop_first() =~= tp.drop_first() + w + q);
        }
        let (tok, rp) = scan(p)->0;
        assert(scan(s) == Some((tok, rp + w + q)));
        lemma_scan_progress(p);
        lemma_white_space_gap(rp, w, q);
        lemma_tokens_of_step(s);
        assert(tokens_of(s) =~= tokens_of(p) + tokens_of(q));
    }
}

/// Whitespace inserted where one token ends and the next begins, or removed
/// from there, leaves the token sequence as it was.
pub proof fn lemma_white_space_invariance(p: Seq<char>, w: Seq<char>, q: Seq<char>)
    requires
        all_white_space(w),
        tokens_of(p + q) == tokens_of(p) + tokens_of(q),
    ensures
        tokens_of(p + w + q) == tokens_of(p + q),
{
    if w.len() == 0 {
        assert(p + w =~= p);
    } else {
        lemma_white_space_gap(p, w, q);
    }
}

/// A word spelled `fn` or `let` is scanned as its keyword, and any other word
/// as an identifier holding exactly its characters.
pub proof fn lemma_keyword_precedence(s: Seq<char>)
    requires
        trim_white_space(s).len() > 0,
        identifier_char(trim_white_space(s)[0]),
        punctuation(trim_white_space(s)[0]) is None,
    ensures
        ({
            let t = trim_white_space(s);
            let word = t.take(word_len(t) as int);
            &&& word.len() > 0
            &&& word == seq!['f', 'n'] ==> (scan(s)->0).0 == TokenModel::Function
            &&& word == seq!['l', 'e', 't'] ==> (scan(s)->0).0 == TokenModel::Let
            &&& word != seq!['f', 'n'] && word != seq!['l', 'e', 't'] ==> (scan(s)->0).0
                == TokenModel::Identifier(word)
        }),
{
    let t = trim_white_space(s);
    lemma_trim_first_not_white_space(s);
    lemma_word_len_bound(t);
}

/// Each of the twelve operator and punctuation characters, after any
/// whitespace, gives its own token and consumes that one character.
pub proof fn lemma_punctuation(w: Seq<char>, c: char, r: Seq<char>)
    requires
        all_white_space(w),
        punctuation(c) is Some,
    ensures
        scan(w + seq![c] + r) == Some((punctuation(c)->0, r)),
        tokens_of(w + seq![c] + r) == seq![punctuation(c)->0] + tokens_of(r),
{
    assert(w + seq![c] + r =~= w + (seq![c] + r));
    lemma_trim_white_prefix(w, seq![c] + r);
    assert((seq![c] + r).drop_first() =~= r);
    lemma_tokens_of_step(w + seq![c] + r);
}

/// A character that is neither whitespace, nor an operator or punctuation
/// mark, nor a start of a word or a number, gives one `Illegal` token: an
/// input of such characters gives one `Illegal` per character.
pub proof fn lemma_fallback(s: Seq<char>)
    requires
        forall|i: int|
            0 <= i < s.len() ==> {
                let c = #[trigger] s[i];
                &&& !white_space(c)
                &&& punctuation(c) is None
                &&& !identifier_char(c)
                &&& !numeric(c)
            },
    ensures
        tokens_of(s) == Seq::new(s.len(), |i: int| TokenModel::Illegal),
    decreases s.len(),
{
    lemma_tokens_of_step(s);
    if s.len() > 0 {
        assert(scan(s) == Some((TokenModel::Illegal, s.drop_first())));
        lemma_fallback(s.drop_first());
        assert(tokens_of(s) =~= Seq::new(s.len(), |i: int| TokenModel::Illegal));
    }
}

} // verus!
