//! Clause fragments: text interleaved with placeholders.
//!
//! A fragment is kept as a sequence of tokens rather than as finished text,
//! so that each placeholder is known by its place and never has to be found
//! again by searching the text. The same sequence gives the text with named
//! placeholders, the text with positional markers, and the placeholder
//! numbers in the order in which they occur.

use crate::placeholder::{placeholder_name, positional_marker, push_placeholder};
use vstd::prelude::*;

verus! {

/// One token of a fragment, as a mathematical value.
pub enum Token {
    /// Literal text.
    Text(Seq<char>),
    /// The placeholder with this number.
    Param(nat),
}

impl Token {
    /// The token as it stands in text with named placeholders.
    pub open spec fn named(self) -> Seq<char> {
        match self {
            Token::Text(t) => t,
            Token::Param(n) => placeholder_name(n),
        }
    }

    /// The token as it stands in text with positional markers.
    pub open spec fn positional(self) -> Seq<char> {
        match self {
            Token::Text(t) => t,
            Token::Param(_) => positional_marker(),
        }
    }

    /// The placeholder numbers that the token holds: one or none.
    pub open spec fn numbers(self) -> Seq<nat> {
        match self {
            Token::Text(_) => Seq::empty(),
            Token::Param(n) => seq![n],
        }
    }
}

/// The text of `ts` with each placeholder written by its name.
pub open spec fn named(ts: Seq<Token>) -> Seq<char>
    decreases ts.len(),
{
    if ts.len() == 0 {
        Seq::empty()
    } else {
        named(ts.drop_last()) + ts.last().named()
    }
}

/// The text of `ts` with each placeholder written as the positional marker.
pub open spec fn positional(ts: Seq<Token>) -> Seq<char>
    decreases ts.len(),
{
    if ts.len() == 0 {
        Seq::empty()
    } else {
        positional(ts.drop_last()) + ts.last().positional()
    }
}

/// The numbers of the placeholders of `ts`, from left to right.
pub open spec fn numbers(ts: Seq<Token>) -> Seq<nat>
    decreases ts.len(),
{
    if ts.len() == 0 {
        Seq::empty()
    } else {
        numbers(ts.drop_last()) + ts.last().numbers()
    }
}

/// Adding one token at the end adds its text and its number at the end.
pub proof fn lemma_push(ts: Seq<Token>, t: Token)
    ensures
        named(ts.push(t)) == named(ts) + t.named(),
        positional(ts.push(t)) == positional(ts) + t.positional(),
        numbers(ts.push(t)) == numbers(ts) + t.numbers(),
{
    assert(ts.push(t).drop_last() =~= ts);
}

/// The three readings of a single token.
pub proof fn lemma_single(t: Token)
    ensures
        named(seq![t]) == t.named(),
        positional(seq![t]) == t.positional(),
        numbers(seq![t]) == t.numbers(),
{
    lemma_push(Seq::empty(), t);
    assert(Seq::<Token>::empty().push(t) =~= seq![t]);
    assert(Seq::<char>::empty() + t.named() =~= t.named());
    assert(Seq::<char>::empty() + t.positional() =~= t.positional());
    assert(Seq::<nat>::empty() + t.numbers() =~= t.numbers());
}

/// Text adds no placeholder; text followed by a placeholder adds that one.
pub proof fn lemma_push_numbers(ts: Seq<Token>, text: Seq<char>, n: nat)
    ensures
        numbers(ts.push(Token::Text(text))) == numbers(ts),
        numbers(ts.push(Token::Text(text)).push(Token::Param(n))) == numbers(ts).push(n),
{
    lemma_push(ts, Token::Text(text));
    lemma_push(ts.push(Token::Text(text)), Token::Param(n));
    assert(numbers(ts) + Seq::<nat>::empty() =~= numbers(ts));
    assert(numbers(ts) + seq![n] =~= numbers(ts).push(n));
}

/// The three readings of a sequence of tokens each distribute over
/// concatenation.
pub proof fn lemma_concat(a: Seq<Token>, b: Seq<Token>)
    ensures
        named(a + b) == named(a) + named(b),
        positional(a + b) == positional(a) + positional(b),
        numbers(a + b) == numbers(a) + numbers(b),
    decreases b.len(),
{
    if b.len() == 0 {
        assert(a + b =~= a);
        assert(named(a) + named(b) =~= named(a));
        assert(positional(a) + positional(b) =~= positional(a));
        assert(numbers(a) + numbers(b) =~= numbers(a));
    } else {
        lemma_concat(a, b.drop_last());
        assert((a + b).drop_last() =~= a + b.drop_last());
        assert((a + b).last() == b.last());
        assert(named(a + b) =~= named(a) + named(b));
        assert(positional(a + b) =~= positional(a) + positional(b));
        assert(numbers(a + b) =~= numbers(a) + numbers(b));
    }
}

/// The number of a placeholder token is among the numbers of its sequence.
pub proof fn lemma_numbers_contains(ts: Seq<Token>, i: int)
    requires
        0 <= i < ts.len(),
        ts[i] is Param,
    ensures
        numbers(ts).contains(ts[i]->Param_0),
    decreases ts.len(),
{
    let front = numbers(ts.drop_last());
    let back = ts.last().numbers();
    if i == ts.len() - 1 {
        assert((front + back)[front.len() as int] == ts[i]->Param_0);
    } else {
        lemma_numbers_contains(ts.drop_last(), i);
        let k = choose|k: int| 0 <= k < front.len() && front[k] == ts[i]->Param_0;
        assert((front + back)[k] == ts[i]->Param_0);
    }
}

/// One token of a fragment.
#[derive(Debug)]
pub enum Piece {
    /// Literal text.
    Text(String),
    /// The placeholder with this number.
    Param(usize),
}

impl View for Piece {
    type V = Token;

    open spec fn view(&self) -> Token {
        match self {
            Piece::Text(t) => Token::Text(t@),
            Piece::Param(n) => Token::Param(*n as nat),
        }
    }
}

/// The accumulated text of one clause, with its placeholders.
#[derive(Debug)]
pub struct Fragment {
    pieces: Vec<Piece>,
}

impl View for Fragment {
    type V = Seq<Token>;

    closed spec fn view(&self) -> Seq<Token> {
        self.pieces@.map_values(|p: Piece| p@)
    }
}

impl Fragment {
    /// The fragment without tokens.
    pub fn new() -> (f: Fragment)
        ensures
            f@ == Seq::<Token>::empty(),
    {
        let f = Fragment { pieces: Vec::new() };
        assert(f@ =~= Seq::<Token>::empty());
        f
    }

    /// The number of tokens.
    pub fn len(&self) -> (n: usize)
        ensures
            n == self@.len(),
    {
        self.pieces.len()
    }

    /// Appends literal text.
    pub fn push_text(&mut self, text: String)
        ensures
            final(self)@ == old(self)@.push(Token::Text(text@)),
    {
        self.pieces.push(Piece::Text(text));
        assert(self@ =~= old(self)@.push(Token::Text(text@)));
    }

    /// Appends the placeholder with number `n`.
    pub fn push_param(&mut self, n: usize)
        ensures
            final(self)@ == old(self)@.push(Token::Param(n as nat)),
    {
        self.pieces.push(Piece::Param(n));
        assert(self@ =~= old(self)@.push(Token::Param(n as nat)));
    }

    /// The number of the placeholder at token `i`, if that token is one.
    pub fn param_at(&self, i: usize) -> (n: Option<usize>)
        requires
            i < self@.len(),
        ensures
            match n {
                Some(n) => self@[i as int] == Token::Param(n as nat),
                None => self@[i as int] is Text,
            },
    {
        match &self.pieces[i] {
            Piece::Text(_) => None,
            Piece::Param(n) => Some(*n),
        }
    }

    /// Appends the fragment's text to `out`, each placeholder by its name.
    pub fn render_named(&self, out: &mut String)
        ensures
            final(out)@ == old(out)@ + named(self@),
    {
        let mut i: usize = 0;
        assert(self@.take(0) =~= Seq::<Token>::empty());
        assert(old(out)@ + named(self@.take(0)) =~= old(out)@);
        while i < self.pieces.len()
            invariant
                i <= self.pieces.len(),
                self.pieces.len() == self@.len(),
                out@ == old(out)@ + named(self@.take(i as int)),
            decreases self.pieces.len() - i,
        {
            proof {
                lemma_push(self@.take(i as int), self@[i as int]);
                assert(self@.take(i as int).push(self@[i as int]) =~= self@.take(i + 1));
            }
            let ghost before = out@;
            match &self.pieces[i] {
                Piece::Text(t) => {
                    out.append(t.as_str());
                },
                Piece::Param(n) => {
                    push_placeholder(out, *n);
                },
            }
            assert(out@ == before + self@[i as int].named());
            assert(out@ =~= old(out)@ + named(self@.take(i + 1)));
            i += 1;
        }
        assert(self@.take(i as int) =~= self@);
    }

    /// Appends the fragment's text to `out`, each placeholder as the
    /// positional marker.
    pub fn render_positional(&self, out: &mut String)
        ensures
            final(out)@ == old(out)@ + positional(self@),
    {
        let mut i: usize = 0;
        assert(self@.take(0) =~= Seq::<Token>::empty());
        assert(old(out)@ + positional(self@.take(0)) =~= old(out)@);
        while i < self.pieces.len()
            invariant
                i <= self.pieces.len(),
                self.pieces.len() == self@.len(),
                out@ == old(out)@ + positional(self@.take(i as int)),
            decreases self.pieces.len() - i,
        {
            proof {
                lemma_push(self@.take(i as int), self@[i as int]);
                assert(self@.take(i as int).push(self@[i as int]) =~= self@.take(i + 1));
            }
            let ghost before = out@;
            match &self.pieces[i] {
                Piece::Text(t) => {
                    out.append(t.as_str());
                },
                Piece::Param(_) => {
                    out.append("?");
                },
            }
            assert(out@ == before + self@[i as int].positional());
            assert(out@ =~= old(out)@ + positional(self@.take(i + 1)));
            i += 1;
        }
        assert(self@.take(i as int) =~= self@);
    }
}

} // verus!
