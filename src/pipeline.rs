use vstd::prelude::*;
use crate::error::{validate_utf8, is_utf8, RevError};
use crate::segment::{segment, views, BUF_SIZE};
use crate::splice::append_tail;
use crate::text::{
    count_of, join_on, lines_of, render, reversed_line, reversed_text, tokens, NEWLINE,
};
use crate::words::WordReverser;

verus! {

/// The reversed artifact of line `index`: the line with its words reversed, followed by a
/// newline unless it is the first line. Emitted last, line 0 needs no separator after it.
pub open spec fn artifact(line: Seq<u8>, index: int) -> Seq<u8> {
    if index > 0 {
        reversed_line(line).push(NEWLINE)
    } else {
        reversed_line(line)
    }
}

/// The artifacts of all lines, in line order.
pub open spec fn artifacts_of(lines: Seq<Seq<u8>>) -> Seq<Seq<u8>> {
    Seq::new(lines.len(), |i: int| artifact(lines[i], i))
}

/// The parts written one after another.
pub open spec fn concat(parts: Seq<Seq<u8>>) -> Seq<u8>
    decreases parts.len(),
{
    if parts.len() == 0 {
        Seq::empty()
    } else {
        parts[0] + concat(parts.skip(1))
    }
}

/// Writing one more part at the end.
pub proof fn lemma_concat_push(parts: Seq<Seq<u8>>, x: Seq<u8>)
    ensures
        concat(parts.push(x)) == concat(parts) + x,
    decreases parts.len(),
{
    if parts.len() == 0 {
        assert(parts.push(x).skip(1) =~= Seq::<Seq<u8>>::empty());
        assert(concat(Seq::<Seq<u8>>::empty()) == Seq::<u8>::empty());
        assert(concat(parts.push(x)) =~= x);
    } else {
        lemma_concat_push(parts.skip(1), x);
        assert(parts.push(x).skip(1) =~= parts.skip(1).push(x));
        assert(concat(parts.push(x)) =~= concat(parts) + x);
    }
}

/// Emitting the artifacts from the last line down to the first gives the reversed text of
/// the lines: each artifact's newline separates it from the one emitted after it.
pub proof fn lemma_descending_artifacts(lines: Seq<Seq<u8>>)
    requires
        lines.len() >= 1,
    ensures
        concat(artifacts_of(lines).reverse()) == join_on(
            lines.map_values(|l: Seq<u8>| reversed_line(l)).reverse(),
            NEWLINE,
        ),
    decreases lines.len(),
{
    let n = lines.len();
    let arts = artifacts_of(lines);
    let rl = lines.map_values(|l: Seq<u8>| reversed_line(l));
    if n == 1 {
        assert(arts.reverse().skip(1) =~= Seq::<Seq<u8>>::empty());
        assert(concat(Seq::<Seq<u8>>::empty()) == Seq::<u8>::empty());
        assert(arts.reverse()[0] == artifact(lines[0], 0));
        assert(concat(arts.reverse()) =~= reversed_line(lines[0]));
        assert(rl.reverse() =~= seq![reversed_line(lines[0])]);
    } else {
        let front = lines.drop_last();
        let rf = front.map_values(|l: Seq<u8>| reversed_line(l));
        lemma_descending_artifacts(front);
        assert(arts.reverse().skip(1) =~= artifacts_of(front).reverse());
        assert(arts.reverse()[0] == artifact(lines[n - 1], n - 1));
        assert(rl.reverse() =~= seq![reversed_line(lines[n - 1])] + rf.reverse());
        crate::text::lemma_join_prepend(reversed_line(lines[n - 1]), rf.reverse(), NEWLINE);
        assert(concat(arts.reverse()) =~= join_on(rl.reverse(), NEWLINE));
    }
}

/// A text with `k` newlines is reversed through exactly `k + 1` line artifacts, and
/// emitting them from the last down gives what reversing the text's token stream (its words
/// and newline markers) end to end and writing it back as lines gives.
pub proof fn lemma_artifacts_reverse_token_stream(s: Seq<u8>)
    ensures
        artifacts_of(lines_of(s)).len() == count_of(s, NEWLINE) + 1,
        concat(artifacts_of(lines_of(s)).reverse()) == render(tokens(s).reverse()),
{
    crate::text::lemma_line_count(s);
    lemma_descending_artifacts(lines_of(s));
    crate::text::lemma_token_stream_reversal(s);
}

/// Reverses the word order of one line, reading it in chunks of `BUF_SIZE` bytes.
pub fn reverse_line(line: &[u8]) -> (r: Vec<u8>)
    ensures
        r@ == reversed_line(line@),
{
    let mut rev = WordReverser::new();
    let mut start: usize = 0;
    while start < line.len()
        invariant
            start <= line@.len(),
            rev.wf(),
            rev.text() == line@.take(start as int),
        decreases line@.len() - start,
    {
        let end = if line.len() - start < BUF_SIZE {
            line.len()
        } else {
            start + BUF_SIZE
        };
        let chunk = vstd::slice::slice_subrange(line, start, end);
        rev.feed(chunk);
        assert(line@.take(start as int) + line@.subrange(start as int, end as int)
            =~= line@.take(end as int));
        start = end;
    }
    assert(line@.take(start as int) =~= line@);
    rev.finish()
}

/// Builds the reversed artifact of line `index`.
pub fn reversed_artifact(line: &[u8], index: usize) -> (r: Vec<u8>)
    ensures
        r@ == artifact(line@, index as int),
{
    let mut r = reverse_line(line);
    if index > 0 {
        r.push(NEWLINE);
    }
    r
}

/// The order in which the artifacts of `n` lines are emitted: `n - 1` down to `0`.
pub fn emission_order(n: usize) -> (r: Vec<usize>)
    ensures
        r@ == Seq::new(n as nat, |i: int| (n - 1 - i) as usize),
{
    let mut r: Vec<usize> = Vec::new();
    let mut k: usize = n;
    while k > 0
        invariant
            k <= n,
            r@ == Seq::new((n - k) as nat, |i: int| (n - 1 - i) as usize),
        decreases k,
    {
        k = k - 1;
        r.push(k);
        assert(r@ =~= Seq::new((n - k) as nat, |i: int| (n - 1 - i) as usize));
    }
    r
}

/// Writes the artifacts one after another, from the last down to the first.
pub fn concat_descending(arts: &Vec<Vec<u8>>) -> (r: Vec<u8>)
    ensures
        r@ == concat(views(arts@).reverse()),
{
    let ghost parts = views(arts@).reverse();
    let n = arts.len();
    let mut out: Vec<u8> = Vec::new();
    let mut k: usize = n;
    assert(parts.take(0) =~= Seq::<Seq<u8>>::empty());
    while k > 0
        invariant
            k <= n == arts@.len(),
            parts == views(arts@).reverse(),
            out@ == concat(parts.take(n - k)),
        decreases k,
    {
        k = k - 1;
        let ghost before = out@;
        append_tail(&mut out, arts[k].as_slice(), 0);
        assert(arts[k as int]@.skip(0) =~= arts[k as int]@);
        proof {
            assert(parts[n - 1 - k] == arts[k as int]@);
            assert(parts.take(n - k) =~= parts.take(n - 1 - k).push(arts[k as int]@));
            lemma_concat_push(parts.take(n - 1 - k), arts[k as int]@);
        }
    }
    assert(parts.take(n as int) =~= parts);
    out
}

/// Reverses a whole text: every line's words are reversed, and the lines come out from
/// the last to the first.
///
/// The text is split into line artifacts, each artifact is reversed and, for every line
/// but the first, given a newline, and the artifacts are written from the last down.
pub fn reverse_text(input: &[u8]) -> (r: Vec<u8>)
    ensures
        r@ == reversed_text(input@),
{
    let lines = segment(input);
    let ghost ls = lines_of(input@);
    let n = lines.len();
    let mut arts: Vec<Vec<u8>> = Vec::new();
    let mut i: usize = 0;
    while i < n
        invariant
            i <= n == lines@.len() == ls.len(),
            views(lines@) == ls,
            views(arts@) == artifacts_of(ls).take(i as int),
        decreases n - i,
    {
        assert(lines[i as int]@ == ls[i as int]);
        let a = reversed_artifact(lines[i].as_slice(), i);
        let ghost av = a@;
        let ghost prev = arts@;
        assert(views(prev).len() == i);
        arts.push(a);
        assert(arts@ == prev.push(a));
        assert(views(arts@) =~= views(prev).push(av));
        assert(av == artifacts_of(ls)[i as int]);
        i = i + 1;
        assert(views(arts@) =~= artifacts_of(ls).take(i as int));
    }
    assert(artifacts_of(ls).take(n as int) =~= artifacts_of(ls));
    proof {
        crate::text::lemma_split_len(input@, NEWLINE);
        lemma_descending_artifacts(ls);
    }
    concat_descending(&arts)
}

/// Accepts a text only if its bytes are well-formed UTF-8.
pub fn validate_encoding(src: &[u8]) -> (r: Result<(), RevError>)
    ensures
        r.is_ok() == is_utf8(src@),
        src@.len() == 0 ==> r.is_ok(),
        r matches Err(e) ==> e is EncodingError,
{
    match validate_utf8(src) {
        Ok(()) => Ok(()),
        Err(e) => Err(RevError::EncodingError(e)),
    }
}

/// Reverses a text whose bytes must be UTF-8: an input that is not well-formed UTF-8 gives
/// an encoding error, and any other input its reversed text.
pub fn reverse_data(src: &[u8]) -> (r: Result<Vec<u8>, RevError>)
    ensures
        r.is_ok() == is_utf8(src@),
        src@.len() == 0 ==> r.is_ok(),
        r matches Ok(v) ==> v@ == reversed_text(src@),
        r matches Err(e) ==> e is EncodingError,
{
    match validate_encoding(src) {
        Ok(()) => Ok(reverse_text(src)),
        Err(e) => Err(e),
    }
}

} // verus!
