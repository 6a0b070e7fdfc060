use vstd::prelude::*;
use crate::splice::splice;
use crate::text::{drop_empty, join_on, reversed_line, split_on, words_of, DELIM};

verus! {

/// The words of `t` that are complete: each is followed by a delimiter within `t`.
pub open spec fn completed_words(t: Seq<u8>) -> Seq<Seq<u8>> {
    drop_empty(split_on(t, DELIM).drop_last())
}

/// Reverses the word order of one line artifact, read in chunks of any size.
///
/// A word that is still arriving sits in the workspace. When a delimiter completes it, the
/// word is prepended to the reversed artifact, followed by one delimiter unless it is the
/// first word committed; the workspace is then emptied. Since each commit prepends, the
/// artifact reads in the reverse of the order in which words were met.
pub struct WordReverser {
    workspace: Vec<u8>,
    reversed: Vec<u8>,
    first_word: bool,
    consumed: Ghost<Seq<u8>>,
}

impl WordReverser {
    /// The bytes of the line fed so far.
    pub closed spec fn text(&self) -> Seq<u8> {
        self.consumed@
    }

    /// The workspace holds the word still being assembled, the artifact holds the completed
    /// words in reverse order.
    pub closed spec fn wf(&self) -> bool {
        let t = self.consumed@;
        &&& self.workspace@ == split_on(t, DELIM).last()
        &&& self.reversed@ == join_on(completed_words(t).reverse(), DELIM)
        &&& self.first_word == (completed_words(t).len() == 0)
        &&& self.reversed@.len() + self.workspace@.len() + (if self.first_word {
            0int
        } else {
            1int
        }) <= t.len()
        &&& t.len() <= usize::MAX
    }

    /// A reverser that has read nothing.
    pub fn new() -> (r: WordReverser)
        ensures
            r.wf(),
            r.text() == Seq::<u8>::empty(),
    {
        let r = WordReverser {
            workspace: Vec::new(),
            reversed: Vec::new(),
            first_word: true,
            consumed: Ghost(Seq::empty()),
        };
        assert(split_on(Seq::<u8>::empty(), DELIM).drop_last() =~= Seq::<Seq<u8>>::empty());
        assert(r.reversed@ =~= join_on(completed_words(r.consumed@).reverse(), DELIM));
        r
    }

    /// Prepends the workspace, which holds a non-empty word that `t` has completed, to the
    /// reversed artifact, and empties the workspace.
    fn commit(&mut self, Ghost(t): Ghost<Seq<u8>>)
        requires
            old(self).workspace@.len() > 0,
            old(self).reversed@ == join_on(completed_words(t).reverse(), DELIM),
            old(self).first_word == (completed_words(t).len() == 0),
            old(self).reversed@.len() + old(self).workspace@.len() + (if old(self).first_word {
                0int
            } else {
                1int
            }) <= usize::MAX,
        ensures
            final(self).workspace@ == Seq::<u8>::empty(),
            final(self).reversed@ == join_on(
                completed_words(t).push(old(self).workspace@).reverse(),
                DELIM,
            ),
            final(self).reversed@.len() == old(self).reversed@.len() + old(self).workspace@.len()
                + (if old(self).first_word {
                0int
            } else {
                1int
            }),
            !final(self).first_word,
            final(self).consumed == old(self).consumed,
    {
        let ghost done = completed_words(t);
        let ghost word = self.workspace@;
        let mut data: Vec<u8> = self.workspace.clone();
        if !self.first_word {
            data.push(DELIM);
        }
        splice(&mut self.reversed, data.as_slice(), 0);
        self.first_word = false;
        self.workspace.clear();
        assert(done.push(word).reverse() =~= seq![word] + done.reverse());
        proof {
            if done.len() > 0 {
                crate::text::lemma_join_prepend(word, done.reverse(), DELIM);
            } else {
                assert(done.reverse() =~= Seq::<Seq<u8>>::empty());
            }
        }
        assert(self.reversed@ =~= join_on(done.push(word).reverse(), DELIM));
    }

    /// Consumes the next chunk of the line.
    pub fn feed(&mut self, chunk: &[u8])
        requires
            old(self).wf(),
            old(self).text().len() + chunk@.len() <= usize::MAX,
        ensures
            final(self).wf(),
            final(self).text() == old(self).text() + chunk@,
    {
        let mut i: usize = 0;
        while i < chunk.len()
            invariant
                0 <= i <= chunk@.len(),
                self.wf(),
                self.text() == old(self).text() + chunk@.take(i as int),
                old(self).text().len() + chunk@.len() <= usize::MAX,
            decreases chunk@.len() - i,
        {
            let b = chunk[i];
            let ghost t = self.consumed@;
            let ghost parts = split_on(t, DELIM);
            let ghost t2 = t.push(b);
            proof {
                crate::text::lemma_split_len(t, DELIM);
            }
            assert(t2.drop_last() =~= t);
            if b == DELIM {
                assert(split_on(t2, DELIM) == parts.push(Seq::<u8>::empty()));
                assert(split_on(t2, DELIM).drop_last() =~= parts);
                assert(parts.drop_last() == split_on(t, DELIM).drop_last());
                if self.workspace.len() > 0 {
                    self.commit(Ghost(t));
                    assert(completed_words(t2) == completed_words(t).push(parts.last()));
                } else {
                    self.workspace.clear();
                    assert(completed_words(t2) == completed_words(t));
                }
            } else {
                self.workspace.push(b);
                assert(split_on(t2, DELIM) == parts.update(parts.len() - 1, parts.last().push(b)));
                assert(split_on(t2, DELIM).drop_last() =~= parts.drop_last());
            }
            self.consumed = Ghost(t2);
            i = i + 1;
            assert(chunk@.take(i as int) =~= chunk@.take(i - 1).push(b));
        }
        assert(chunk@.take(i as int) =~= chunk@);
    }

    /// Commits the line's last word, if any, and hands out the reversed artifact.
    pub fn finish(self) -> (r: Vec<u8>)
        requires
            self.wf(),
        ensures
            r@ == reversed_line(self.text()),
    {
        let mut me = self;
        let ghost t = me.consumed@;
        let ghost parts = split_on(t, DELIM);
        proof {
            crate::text::lemma_split_len(t, DELIM);
        }
        assert(words_of(t) == drop_empty(parts));
        if me.workspace.len() > 0 {
            me.commit(Ghost(t));
            assert(drop_empty(parts) == completed_words(t).push(parts.last()));
        } else {
            assert(drop_empty(parts) == completed_words(t));
        }
        me.reversed
    }
}

} // verus!
