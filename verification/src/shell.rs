//! How a shell takes a command apart.

use vstd::prelude::*;

verus! {

/// What a command is made of.
pub enum Token {
    Word(Seq<char>),
    Operator(Seq<char>),
}

/// How the next character of a command is meant.
pub enum Quoting {
    Outside,
    /// Behind a backslash.
    Escaped,
    /// Between single quotes.
    Single,
    /// Between double quotes.
    Double,
}

/// A command that has been read up to some character.
#[verifier::ext_equal]
pub struct Reading {
    pub done: Seq<Token>,
    pub current: Option<Token>,
    pub quoting: Quoting,
}

/// Between two tokens.
pub open spec fn between(done: Seq<Token>) -> Reading {
    Reading { done, current: None, quoting: Quoting::Outside }
}

/// The tokens up to here, the one at hand included.
pub open spec fn tokens_so_far(r: Reading) -> Seq<Token> {
    match r.current {
        Some(t) => r.done.push(t),
        None => r.done,
    }
}

/// Whether a character stands for itself outside quotes.
pub open spec fn is_plain(c: char) -> bool {
    ('0' <= c <= '9') || ('a' <= c <= 'z') || ('A' <= c <= 'Z') || c == '-' || c == '_' || c == '.'
        || c == '/'
}

/// Whether a character is an operator, or a part of one.
pub open spec fn is_operator(c: char) -> bool {
    c == '&' || c == '|' || c == '(' || c == ')'
}

/// With a word at hand: the one that has begun, or a new one.
pub open spec fn in_word(r: Reading) -> Reading {
    match r.current {
        Some(Token::Word(w)) => r,
        _ => Reading {
            done: tokens_so_far(r),
            current: Some(Token::Word(Seq::empty())),
            quoting: r.quoting,
        },
    }
}

/// With more in the word at hand.
pub open spec fn with_text(r: Reading, s: Seq<char>) -> Reading {
    let begun = in_word(r);
    match begun.current {
        Some(Token::Word(w)) => Reading { current: Some(Token::Word(w + s)), ..begun },
        _ => begun,
    }
}

/// With a character of an operator; two `&`, or two `|`, are one operator.
pub open spec fn with_operator(r: Reading, c: char) -> Reading {
    if (c == '&' || c == '|') && r.current == Some(Token::Operator(seq![c])) {
        Reading { current: Some(Token::Operator(seq![c, c])), ..r }
    } else {
        Reading { done: tokens_so_far(r), current: Some(Token::Operator(seq![c])), ..r }
    }
}

/// What one more character changes. Characters with a meaning that is not
/// described here, such as those of a pattern or of a variable, give nothing.
pub open spec fn next(r: Reading, c: char) -> Option<Reading> {
    match r.quoting {
        Quoting::Single => if c == '\'' {
            Some(Reading { quoting: Quoting::Outside, ..r })
        } else {
            Some(with_text(r, seq![c]))
        },
        Quoting::Double => if c == '"' {
            Some(Reading { quoting: Quoting::Outside, ..r })
        } else if c == '$' || c == '`' || c == '\\' {
            None
        } else {
            Some(with_text(r, seq![c]))
        },
        Quoting::Escaped => if c == '\n' {
            None
        } else {
            Some(Reading { quoting: Quoting::Outside, ..with_text(r, seq![c]) })
        },
        Quoting::Outside => if c == '\'' {
            Some(Reading { quoting: Quoting::Single, ..in_word(r) })
        } else if c == '"' {
            Some(Reading { quoting: Quoting::Double, ..in_word(r) })
        } else if c == '\\' {
            Some(Reading { quoting: Quoting::Escaped, ..in_word(r) })
        } else if c == ' ' {
            Some(between(tokens_so_far(r)))
        } else if is_operator(c) {
            Some(with_operator(r, c))
        } else if is_plain(c) {
            Some(with_text(r, seq![c]))
        } else {
            None
        },
    }
}

/// What more text changes.
pub open spec fn read(r: Option<Reading>, s: Seq<char>) -> Option<Reading>
    decreases s.len(),
{
    if s.len() == 0 {
        r
    } else {
        match read(r, s.drop_last()) {
            Some(before) => next(before, s.last()),
            None => None,
        }
    }
}

/// The tokens of a command; nothing where a quote is left open.
pub open spec fn tokens(s: Seq<char>) -> Option<Seq<Token>> {
    match read(Some(between(Seq::empty())), s) {
        Some(r) => match r.quoting {
            Quoting::Outside => Some(tokens_so_far(r)),
            _ => None,
        },
        None => None,
    }
}

/// A text is read piece by piece.
pub proof fn lemma_read_pieces(r: Option<Reading>, a: Seq<char>, b: Seq<char>)
    ensures
        read(r, a + b) == read(read(r, a), b),
    decreases b.len(),
{
    if b.len() == 0 {
        assert(a + b =~= a);
    } else {
        assert((a + b).drop_last() =~= a + b.drop_last());
        assert((a + b).last() == b.last());
        lemma_read_pieces(r, a, b.drop_last());
    }
}

/// One character is read as `next` says.
pub proof fn lemma_read_one(r: Reading, c: char)
    ensures
        read(Some(r), seq![c]) == next(r, c),
{
    assert(seq![c].drop_last() =~= Seq::empty());
    assert(read(Some(r), Seq::empty()) == Some(r));
}

/// Plain characters outside quotes become a part of a word.
pub proof fn lemma_read_plain(r: Reading, w: Seq<char>)
    requires
        r.quoting is Outside,
        w.len() > 0,
        forall|i: int| 0 <= i < w.len() ==> is_plain(#[trigger] w[i]),
    ensures
        read(Some(r), w) == Some(with_text(r, w)),
    decreases w.len(),
{
    let front = w.drop_last();
    assert(is_plain(w[w.len() - 1]));
    if front.len() == 0 {
        assert(w =~= seq![w.last()]);
        lemma_read_one(r, w.last());
    } else {
        assert forall|i: int| 0 <= i < front.len() implies is_plain(#[trigger] front[i]) by {
            assert(front[i] == w[i]);
        }
        lemma_read_plain(r, front);
        let begun = in_word(r).current->0->Word_0;
        assert((begun + front) + seq![w.last()] =~= begun + w);
    }
}

/// A plain word and a space behind it.
pub proof fn lemma_read_word(r: Reading, w: Seq<char>)
    requires
        r.quoting is Outside,
        !(r.current matches Some(Token::Word(_))),
        w.len() > 0,
        forall|i: int| 0 <= i < w.len() ==> is_plain(#[trigger] w[i]),
    ensures
        read(Some(r), w + " "@) == Some(between(tokens_so_far(r).push(Token::Word(w)))),
{
    reveal_strlit(" ");
    assert(" "@ =~= seq![' ']);
    lemma_read_pieces(Some(r), w, " "@);
    lemma_read_plain(r, w);
    lemma_read_one(with_text(r, w), ' ');
    assert(Seq::<char>::empty() + w =~= w);
}

/// Words, each with a space behind it.
pub open spec fn spaced(words: Seq<Seq<char>>) -> Seq<char>
    decreases words.len(),
{
    if words.len() == 0 {
        Seq::empty()
    } else {
        spaced(words.drop_last()) + (words.last() + " "@)
    }
}

/// The tokens that a list of words makes.
pub open spec fn as_tokens(words: Seq<Seq<char>>) -> Seq<Token> {
    words.map_values(|w: Seq<char>| Token::Word(w))
}

/// Whether a text is a word that needs no quotes.
pub open spec fn is_plain_word(w: Seq<char>) -> bool {
    w.len() > 0 && forall|i: int| 0 <= i < w.len() ==> is_plain(#[trigger] w[i])
}

/// Plain words with spaces behind them are read as those words.
pub proof fn lemma_read_words(r: Reading, words: Seq<Seq<char>>)
    requires
        r.quoting is Outside,
        !(r.current matches Some(Token::Word(_))),
        words.len() > 0,
        forall|i: int| 0 <= i < words.len() ==> is_plain_word(#[trigger] words[i]),
    ensures
        read(Some(r), spaced(words)) == Some(between(tokens_so_far(r) + as_tokens(words))),
    decreases words.len(),
{
    let front = words.drop_last();
    let last = words.last();
    assert(is_plain_word(words[words.len() - 1]));
    assert(as_tokens(words) =~= as_tokens(front).push(Token::Word(last)));
    if front.len() == 0 {
        assert(spaced(front) =~= Seq::empty());
        assert(spaced(words) =~= last + " "@);
        lemma_read_word(r, last);
        assert(tokens_so_far(r) + as_tokens(words) =~= tokens_so_far(r).push(Token::Word(last)));
    } else {
        assert forall|i: int| 0 <= i < front.len() implies is_plain_word(#[trigger] front[i]) by {
            assert(front[i] == words[i]);
        }
        lemma_read_words(r, front);
        let before = between(tokens_so_far(r) + as_tokens(front));
        lemma_read_word(before, last);
        lemma_read_pieces(Some(r), spaced(front), last + " "@);
        assert((tokens_so_far(r) + as_tokens(front)).push(Token::Word(last)) =~= tokens_so_far(r)
            + as_tokens(words));
    }
}

/// An operator of two equal characters, and a space behind it.
pub proof fn lemma_read_double(done: Seq<Token>, c: char)
    requires
        c == '&' || c == '|',
    ensures
        read(Some(between(done)), seq![c, c, ' ']) == Some(
            between(done.push(Token::Operator(seq![c, c]))),
        ),
{
    let r = between(done);
    let r1 = with_operator(r, c);
    lemma_read_one(r, c);
    lemma_read_one(r1, c);
    lemma_read_one(with_operator(r1, c), ' ');
    lemma_read_pieces(Some(r), seq![c], seq![c]);
    lemma_read_pieces(Some(r), seq![c] + seq![c], seq![' ']);
    assert(seq![c, c, ' '] =~= seq![c] + seq![c] + seq![' ']);
}

} // verus!
