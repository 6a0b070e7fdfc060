use vstd::prelude::*;

verus! {

/// The byte that ends a line.
pub const NEWLINE: u8 = 10;

/// The byte that separates words within a line (ASCII space).
pub const DELIM: u8 = 32;

/// Splits `s` at every occurrence of `sep`, dropping the separators.
/// There is always one more part than there are separators.
pub open spec fn split_on<A>(s: Seq<A>, sep: A) -> Seq<Seq<A>>
    decreases s.len(),
{
    if s.len() == 0 {
        seq![Seq::empty()]
    } else {
        let prev = split_on(s.drop_last(), sep);
        if s.last() == sep {
            prev.push(Seq::empty())
        } else {
            prev.update(prev.len() - 1, prev.last().push(s.last()))
        }
    }
}

/// Joins `parts` with one `sep` between neighbours.
pub open spec fn join_on<A>(parts: Seq<Seq<A>>, sep: A) -> Seq<A>
    decreases parts.len(),
{
    if parts.len() == 0 {
        Seq::empty()
    } else if parts.len() == 1 {
        parts[0]
    } else {
        join_on(parts.drop_last(), sep).push(sep) + parts.last()
    }
}

/// How many times `x` occurs in `s`.
pub open spec fn count_of<A>(s: Seq<A>, x: A) -> nat
    decreases s.len(),
{
    if s.len() == 0 {
        0
    } else {
        count_of(s.drop_last(), x) + if s.last() == x { 1nat } else { 0nat }
    }
}

/// Keeps the non-empty parts, in order.
pub open spec fn drop_empty(parts: Seq<Seq<u8>>) -> Seq<Seq<u8>>
    decreases parts.len(),
{
    if parts.len() == 0 {
        parts
    } else {
        let kept = drop_empty(parts.drop_last());
        if parts.last().len() > 0 {
            kept.push(parts.last())
        } else {
            kept
        }
    }
}

/// The lines of a text: the bytes between newlines, without the newlines.
pub open spec fn lines_of(s: Seq<u8>) -> Seq<Seq<u8>> {
    split_on(s, NEWLINE)
}

/// The words of a line: the non-empty runs of bytes between delimiters.
pub open spec fn words_of(line: Seq<u8>) -> Seq<Seq<u8>> {
    drop_empty(split_on(line, DELIM))
}

/// A line with its words in reverse order, one delimiter between neighbours.
pub open spec fn reversed_line(line: Seq<u8>) -> Seq<u8> {
    join_on(words_of(line).reverse(), DELIM)
}

/// A text with its lines in reverse order and the words of each line reversed.
pub open spec fn reversed_text(s: Seq<u8>) -> Seq<u8> {
    join_on(lines_of(s).map_values(|l: Seq<u8>| reversed_line(l)).reverse(), NEWLINE)
}

/// An item of the token stream of a text: a word, or the end of a line.
pub enum Token {
    Word(Seq<u8>),
    Newline,
}

/// The bytes that a token stands for.
pub open spec fn token_bytes(t: Token) -> Seq<u8> {
    match t {
        Token::Word(w) => w,
        Token::Newline => seq![NEWLINE],
    }
}

/// The words of one line, as tokens.
pub open spec fn word_tokens(line: Seq<u8>) -> Seq<Token> {
    words_of(line).map_values(|w: Seq<u8>| Token::Word(w))
}

/// The token stream of a text: the words of each line, with a newline marker between lines.
pub open spec fn tokens(s: Seq<u8>) -> Seq<Token> {
    join_on(lines_of(s).map_values(|l: Seq<u8>| word_tokens(l)), Token::Newline)
}

/// Writes a token stream back as text: the words between two markers form a line, joined
/// by single delimiters, and the lines are joined by newlines.
pub open spec fn render(ts: Seq<Token>) -> Seq<u8> {
    join_on(
        split_on(ts, Token::Newline).map_values(
            |g: Seq<Token>| join_on(g.map_values(|t: Token| token_bytes(t)), DELIM),
        ),
        NEWLINE,
    )
}

/// A split has one more part than there are separators.
pub proof fn lemma_split_len<A>(s: Seq<A>, sep: A)
    ensures
        split_on(s, sep).len() == count_of(s, sep) + 1,
    decreases s.len(),
{
    if s.len() > 0 {
        lemma_split_len(s.drop_last(), sep);
    }
}

/// A text with `k` newlines has `k + 1` lines.
pub proof fn lemma_line_count(s: Seq<u8>)
    ensures
        lines_of(s).len() == count_of(s, NEWLINE) + 1,
{
    lemma_split_len(s, NEWLINE);
}

/// Appending bytes free of the separator only extends the last part.
pub proof fn lemma_split_extend<A>(a: Seq<A>, b: Seq<A>, sep: A)
    requires
        !b.contains(sep),
    ensures
        split_on(a + b, sep) == split_on(a, sep).update(
            split_on(a, sep).len() - 1,
            split_on(a, sep).last() + b,
        ),
    decreases b.len(),
{
    lemma_split_len(a, sep);
    if b.len() == 0 {
        assert(a + b =~= a);
        assert(split_on(a, sep).last() + b =~= split_on(a, sep).last());
        assert(split_on(a, sep).update(split_on(a, sep).len() - 1, split_on(a, sep).last())
            =~= split_on(a, sep));
    } else {
        let b0 = b.drop_last();
        assert(!b0.contains(sep)) by {
            if b0.contains(sep) {
                let k = choose|k: int| 0 <= k < b0.len() && b0[k] == sep;
                assert(b[k] == sep);
            }
        }
        assert(b.last() != sep) by {
            assert(b[b.len() - 1] == b.last());
        }
        lemma_split_extend(a, b0, sep);
        assert((a + b).drop_last() =~= a + b0);
        assert((a + b).last() == b.last());
        assert((split_on(a, sep).last() + b0).push(b.last()) =~= split_on(a, sep).last() + b);
        assert(split_on(a + b, sep) =~= split_on(a, sep).update(
            split_on(a, sep).len() - 1,
            split_on(a, sep).last() + b,
        ));
    }
}

/// No part of a split holds the separator.
pub proof fn lemma_split_parts_free<A>(s: Seq<A>, sep: A)
    ensures
        forall|i: int|
            0 <= i < split_on(s, sep).len() ==> !(#[trigger] split_on(s, sep)[i]).contains(sep),
    decreases s.len(),
{
    if s.len() > 0 {
        let prev = split_on(s.drop_last(), sep);
        lemma_split_parts_free(s.drop_last(), sep);
        lemma_split_len(s.drop_last(), sep);
        if s.last() != sep {
            let l = prev.last().push(s.last());
            assert(!l.contains(sep)) by {
                if l.contains(sep) {
                    let k = choose|k: int| 0 <= k < l.len() && l[k] == sep;
                    assert(prev.last()[k] == sep);
                    assert(prev[prev.len() - 1].contains(sep));
                }
            }
        } else {
            assert(!Seq::<A>::empty().contains(sep));
        }
    }
}

/// Joining in front of a non-empty list of parts.
pub proof fn lemma_join_prepend<A>(p: Seq<A>, parts: Seq<Seq<A>>, sep: A)
    requires
        parts.len() >= 1,
    ensures
        join_on(seq![p] + parts, sep) == p.push(sep) + join_on(parts, sep),
    decreases parts.len(),
{
    let all = seq![p] + parts;
    if parts.len() == 1 {
        assert(all.drop_last() =~= seq![p]);
        assert(join_on(all.drop_last(), sep) == p);
    } else {
        lemma_join_prepend(p, parts.drop_last(), sep);
        assert(all.drop_last() =~= seq![p] + parts.drop_last());
        assert(all.last() == parts.last());
        assert(join_on(all, sep) =~= p.push(sep) + join_on(parts, sep));
    }
}

/// Splitting what was joined gives the parts back, when no part holds the separator.
pub proof fn lemma_split_join<A>(parts: Seq<Seq<A>>, sep: A)
    requires
        parts.len() >= 1,
        forall|i: int| 0 <= i < parts.len() ==> !(#[trigger] parts[i]).contains(sep),
    ensures
        split_on(join_on(parts, sep), sep) == parts,
    decreases parts.len(),
{
    if parts.len() == 1 {
        lemma_split_extend(Seq::<A>::empty(), parts[0], sep);
        assert(Seq::<A>::empty() + parts[0] =~= parts[0]);
        assert(split_on(Seq::<A>::empty(), sep) == seq![Seq::<A>::empty()]);
        assert(split_on(parts[0], sep) =~= parts);
    } else {
        let front = parts.drop_last();
        let j = join_on(front, sep);
        lemma_split_join(front, sep);
        assert(j.push(sep).drop_last() =~= j);
        assert(split_on(j.push(sep), sep) == front.push(Seq::<A>::empty()));
        lemma_split_extend(j.push(sep), parts.last(), sep);
        assert(Seq::<A>::empty() + parts.last() =~= parts.last());
        assert(front.push(Seq::<A>::empty()).update(front.len() as int, parts.last()) =~= parts);
    }
}

/// Reversing a concatenation.
pub proof fn lemma_reverse_add<A>(a: Seq<A>, b: Seq<A>)
    ensures
        (a + b).reverse() == b.reverse() + a.reverse(),
{
    assert((a + b).reverse() =~= b.reverse() + a.reverse());
}

/// Reversing a joined sequence joins the reversed parts in reverse order.
pub proof fn lemma_join_reverse<A>(parts: Seq<Seq<A>>, sep: A)
    ensures
        join_on(parts, sep).reverse() == join_on(
            parts.reverse().map_values(|p: Seq<A>| p.reverse()),
            sep,
        ),
    decreases parts.len(),
{
    let rp = parts.reverse().map_values(|p: Seq<A>| p.reverse());
    if parts.len() == 0 {
        assert(join_on(parts, sep).reverse() =~= Seq::<A>::empty());
        assert(rp =~= Seq::<Seq<A>>::empty());
    } else if parts.len() == 1 {
        assert(rp =~= seq![parts[0].reverse()]);
    } else {
        let front = parts.drop_last();
        let rf = front.reverse().map_values(|p: Seq<A>| p.reverse());
        lemma_join_reverse(front, sep);
        lemma_reverse_add(join_on(front, sep).push(sep), parts.last());
        lemma_reverse_add(join_on(front, sep), seq![sep]);
        assert(join_on(front, sep).push(sep) =~= join_on(front, sep) + seq![sep]);
        assert(seq![sep].reverse() =~= seq![sep]);
        assert(rp =~= seq![parts.last().reverse()] + rf);
        lemma_join_prepend(parts.last().reverse(), rf, sep);
        assert(join_on(parts, sep).reverse() =~= join_on(rp, sep));
    }
}

/// The parts that `drop_empty` keeps are non-empty, and free of a byte that no part holds.
pub proof fn lemma_drop_empty_parts(parts: Seq<Seq<u8>>, b: u8)
    requires
        forall|i: int| 0 <= i < parts.len() ==> !(#[trigger] parts[i]).contains(b),
    ensures
        forall|i: int|
            0 <= i < drop_empty(parts).len() ==> (#[trigger] drop_empty(parts)[i]).len() > 0
                && !drop_empty(parts)[i].contains(b),
    decreases parts.len(),
{
    if parts.len() > 0 {
        let front = parts.drop_last();
        assert forall|i: int| 0 <= i < front.len() implies !(#[trigger] front[i]).contains(b) by {
            assert(front[i] == parts[i]);
        }
        lemma_drop_empty_parts(front, b);
        assert(parts.last() == parts[parts.len() - 1]);
        let kept = drop_empty(front);
        if parts.last().len() > 0 {
            assert forall|i: int| 0 <= i < kept.len() + 1 implies (#[trigger] kept.push(
                parts.last(),
            )[i]).len() > 0 && !kept.push(parts.last())[i].contains(b) by {
                if i < kept.len() {
                    assert(kept.push(parts.last())[i] == kept[i]);
                }
            }
        }
    }
}

/// `drop_empty` leaves a list of non-empty parts as it is.
pub proof fn lemma_drop_empty_keeps(parts: Seq<Seq<u8>>)
    requires
        forall|i: int| 0 <= i < parts.len() ==> (#[trigger] parts[i]).len() > 0,
    ensures
        drop_empty(parts) == parts,
    decreases parts.len(),
{
    if parts.len() > 0 {
        let front = parts.drop_last();
        assert forall|i: int| 0 <= i < front.len() implies (#[trigger] front[i]).len() > 0 by {
            assert(front[i] == parts[i]);
        }
        lemma_drop_empty_keeps(front);
        assert(parts.last() == parts[parts.len() - 1]);
        assert(front.push(parts.last()) =~= parts);
    }
}

/// The words of a line are non-empty and hold no delimiter.
pub proof fn lemma_words_shape(line: Seq<u8>)
    ensures
        forall|i: int|
            0 <= i < words_of(line).len() ==> (#[trigger] words_of(line)[i]).len() > 0
                && !words_of(line)[i].contains(DELIM),
{
    lemma_split_parts_free(line, DELIM);
    lemma_drop_empty_parts(split_on(line, DELIM), DELIM);
}

/// Words are moved, never split or changed: the words of a reversed line are the words of
/// the line in reverse order. Reversing twice gives the words back in their first order,
/// each pair now separated by exactly one delimiter.
pub proof fn lemma_words_preserved(line: Seq<u8>)
    ensures
        words_of(reversed_line(line)) == words_of(line).reverse(),
        reversed_line(reversed_line(line)) == join_on(words_of(line), DELIM),
{
    let ws = words_of(line);
    let rw = ws.reverse();
    lemma_words_shape(line);
    assert forall|i: int| 0 <= i < rw.len() implies (#[trigger] rw[i]).len() > 0 && !rw[i].contains(
        DELIM,
    ) by {
        assert(rw[i] == ws[ws.len() - 1 - i]);
    }
    if rw.len() == 0 {
        assert(join_on(rw, DELIM) == Seq::<u8>::empty());
        assert(split_on(Seq::<u8>::empty(), DELIM) == seq![Seq::<u8>::empty()]);
        let one = seq![Seq::<u8>::empty()];
        assert(one.drop_last() =~= Seq::<Seq<u8>>::empty());
        assert(drop_empty(one.drop_last()) == Seq::<Seq<u8>>::empty());
        assert(drop_empty(one) == Seq::<Seq<u8>>::empty());
        assert(words_of(reversed_line(line)) =~= rw);
    } else {
        lemma_split_join(rw, DELIM);
        lemma_drop_empty_keeps(rw);
    }
    assert(rw.reverse() =~= ws);
}

/// Reversing the token stream of a text end to end and writing it back gives the text
/// with its lines in reverse order and the words of each line reversed.
pub proof fn lemma_token_stream_reversal(s: Seq<u8>)
    ensures
        render(tokens(s).reverse()) == reversed_text(s),
{
    let ls = lines_of(s);
    let n = ls.len();
    let tl = ls.map_values(|l: Seq<u8>| word_tokens(l));
    let g = tl.reverse().map_values(|p: Seq<Token>| p.reverse());
    lemma_split_len(s, NEWLINE);
    lemma_join_reverse(tl, Token::Newline);
    assert forall|i: int| 0 <= i < g.len() implies !(#[trigger] g[i]).contains(Token::Newline) by {
        let gi = g[i];
        if gi.contains(Token::Newline) {
            let k = choose|k: int| 0 <= k < gi.len() && gi[k] == Token::Newline;
            let l = ls[n - 1 - i];
            assert(gi == word_tokens(l).reverse());
            assert(gi[k] == word_tokens(l)[word_tokens(l).len() - 1 - k]);
        }
    }
    lemma_split_join(g, Token::Newline);
    let f = |grp: Seq<Token>| join_on(grp.map_values(|t: Token| token_bytes(t)), DELIM);
    let rl = ls.map_values(|l: Seq<u8>| reversed_line(l)).reverse();
    assert forall|i: int| 0 <= i < n implies #[trigger] g.map_values(f)[i] == rl[i] by {
        let l = ls[n - 1 - i];
        let ws = words_of(l);
        assert(g[i] == word_tokens(l).reverse());
        assert(g[i].map_values(|t: Token| token_bytes(t)) =~= ws.reverse());
    }
    assert(g.map_values(f) =~= rl);
}

} // verus!
