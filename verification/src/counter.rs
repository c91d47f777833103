//! The word counter: it tallies the words of the texts it is sent, and says
//! after each message what is to be saved and whether to go on.

use crate::message::Message;
use crate::text::{lowercase_words, split_lowercase};
use vstd::prelude::*;

verus! {

/// Whether the counter goes on after a message.
#[derive(Debug, Clone, Copy, PartialEq, Eq, Structural)]
pub enum Progress {
    Continue,
    Terminate,
}

/// What is to be done after a message was handled: save a checkpoint or
/// not, with or without a new version number, and go on or stop.
#[derive(Debug, Clone, Copy, PartialEq, Eq, Structural)]
pub struct Step {
    /// `Some(inc_count)` where a checkpoint is due.
    pub checkpoint: Option<bool>,
    pub progress: Progress,
}

/// A count has reached `usize::MAX` and cannot grow: that of the word
/// numbered `word` among the words of the text.
#[derive(Debug, Clone, Copy, PartialEq, Eq, Structural)]
pub struct CountOverflow {
    pub word: usize,
}

/// What a checkpoint saves.
#[derive(Debug)]
pub struct Checkpoint {
    /// The words and their counts, where there are any.
    pub store: Option<Vec<(String, usize)>>,
    /// Whether the version number is to be raised by one.
    pub increment: bool,
}

/// The counts that a list of words with their counts stands for.
pub open spec fn entry_counts(entries: Seq<(String, usize)>) -> Map<Seq<char>, nat>
    decreases entries.len(),
{
    if entries.len() == 0 {
        Map::empty()
    } else {
        entry_counts(entries.drop_last()).insert(entries.last().0@, entries.last().1 as nat)
    }
}

/// No word stands twice in the list.
pub open spec fn distinct_words(entries: Seq<(String, usize)>) -> bool {
    forall|i: int, j: int| 0 <= i < j < entries.len() ==> entries[i].0@ != entries[j].0@
}

/// The counts after one more occurrence of `word`.
pub open spec fn tally_word(counts: Map<Seq<char>, nat>, word: Seq<char>) -> Map<Seq<char>, nat> {
    if counts.dom().contains(word) {
        counts.insert(word, counts[word] + 1)
    } else {
        counts.insert(word, 1)
    }
}

/// The counts after one more occurrence of each of `words`.
pub open spec fn tally(counts: Map<Seq<char>, nat>, words: Seq<Seq<char>>) -> Map<Seq<char>, nat>
    decreases words.len(),
{
    if words.len() == 0 {
        counts
    } else {
        tally_word(tally(counts, words.drop_last()), words.last())
    }
}

/// A word is counted exactly when it stands in the list.
pub proof fn lemma_entry_counts_dom(entries: Seq<(String, usize)>, word: Seq<char>)
    ensures
        entry_counts(entries).dom().contains(word) <==> exists|i: int|
            0 <= i < entries.len() && (#[trigger] entries[i]).0@ == word,
    decreases entries.len(),
{
    if entries.len() > 0 {
        let front = entries.drop_last();
        lemma_entry_counts_dom(front, word);
        if entry_counts(entries).dom().contains(word) {
            if entries.last().0@ == word {
                assert(entries[entries.len() - 1].0@ == word);
            } else {
                let i = choose|i: int| 0 <= i < front.len() && (#[trigger] front[i]).0@ == word;
                assert(entries[i].0@ == word);
            }
        }
        if exists|i: int| 0 <= i < entries.len() && (#[trigger] entries[i]).0@ == word {
            let i = choose|i: int| 0 <= i < entries.len() && (#[trigger] entries[i]).0@ == word;
            if i < front.len() {
                assert(front[i].0@ == word);
            }
        }
    }
}

/// In a list without repeated words, each word has the count that stands
/// beside it.
pub proof fn lemma_entry_counts_at(entries: Seq<(String, usize)>, i: int)
    requires
        distinct_words(entries),
        0 <= i < entries.len(),
    ensures
        entry_counts(entries).dom().contains(entries[i].0@),
        entry_counts(entries)[entries[i].0@] == entries[i].1,
    decreases entries.len(),
{
    let front = entries.drop_last();
    if i < entries.len() - 1 {
        assert(distinct_words(front)) by {
            assert forall|a: int, b: int| 0 <= a < b < front.len() implies front[a].0@
                != front[b].0@ by {
                assert(entries[a].0@ != entries[b].0@);
            }
        }
        assert(front[i] == entries[i]);
        lemma_entry_counts_at(front, i);
        assert(entries[i].0@ != entries[entries.len() - 1].0@);
    }
}

/// In a list without repeated words, a new count beside a word changes the
/// count of that word and of no other.
pub proof fn lemma_entry_counts_update(entries: Seq<(String, usize)>, i: int, count: usize)
    requires
        distinct_words(entries),
        0 <= i < entries.len(),
    ensures
        distinct_words(entries.update(i, (entries[i].0, count))),
        entry_counts(entries.update(i, (entries[i].0, count))) == entry_counts(entries).insert(
            entries[i].0@,
            count as nat,
        ),
    decreases entries.len(),
{
    let after = entries.update(i, (entries[i].0, count));
    let front = entries.drop_last();
    assert(distinct_words(after)) by {
        assert forall|a: int, b: int| 0 <= a < b < after.len() implies after[a].0@
            != after[b].0@ by {
            assert(entries[a].0@ != entries[b].0@);
        }
    }
    if i == entries.len() - 1 {
        assert(after.drop_last() == front);
        assert(entry_counts(after) =~= entry_counts(entries).insert(entries[i].0@, count as nat));
    } else {
        assert(distinct_words(front)) by {
            assert forall|a: int, b: int| 0 <= a < b < front.len() implies front[a].0@
                != front[b].0@ by {
                assert(entries[a].0@ != entries[b].0@);
            }
        }
        assert(front[i] == entries[i]);
        assert(after.drop_last() == front.update(i, (front[i].0, count)));
        lemma_entry_counts_update(front, i, count);
        assert(entries[i].0@ != entries[entries.len() - 1].0@);
        assert(entry_counts(after) =~= entry_counts(entries).insert(entries[i].0@, count as nat));
    }
}

/// The counts of the words seen so far.
///
/// Its view maps each word that was counted to the number of times it was
/// seen.
#[derive(Debug)]
pub struct Counter {
    state: Vec<(String, usize)>,
}

impl View for Counter {
    type V = Map<Seq<char>, nat>;

    closed spec fn view(&self) -> Map<Seq<char>, nat> {
        entry_counts(self.state@)
    }
}

impl Counter {
    /// No word stands twice in the list of counts.
    #[verifier::type_invariant]
    spec fn well_formed(&self) -> bool {
        distinct_words(self.state@)
    }

    /// A counter that has seen no word yet.
    pub fn new() -> (counter: Self)
        ensures
            counter@ == Map::<Seq<char>, nat>::empty(),
    {
        Counter { state: Vec::new() }
    }

    /// The words with their counts, each word once.
    pub fn state(&self) -> (entries: &Vec<(String, usize)>)
        ensures
            distinct_words(entries@),
            entry_counts(entries@) == self@,
    {
        proof {
            use_type_invariant(self);
        }
        &self.state
    }

    /// A copy of the words with their counts, each word once.
    pub fn as_checkpoint(&self) -> (entries: Vec<(String, usize)>)
        ensures
            distinct_words(entries@),
            entry_counts(entries@) == self@,
    {
        proof {
            use_type_invariant(self);
        }
        let mut entries: Vec<(String, usize)> = Vec::with_capacity(self.state.len());
        let mut i: usize = 0;
        while i < self.state.len()
            invariant
                i <= self.state@.len(),
                entries@.len() == i,
                forall|j: int|
                    0 <= j < i ==> (#[trigger] entries@[j]).0@ == self.state@[j].0@ && entries@[j].1
                        == self.state@[j].1,
            decreases self.state.len() - i,
        {
            let word = self.state[i].0.clone();
            entries.push((word, self.state[i].1));
            i += 1;
        }
        proof {
            lemma_same_entries(entries@, self.state@);
        }
        entries
    }

    /// Counts one more occurrence of `word`, unless its count is at
    /// `usize::MAX` already; returns whether it was counted.
    pub fn count_word(&mut self, word: String) -> (counted: bool)
        ensures
            counted <==> !(old(self)@.dom().contains(word@) && old(self)@[word@] == usize::MAX),
            counted ==> final(self)@ == tally_word(old(self)@, word@),
            !counted ==> final(self)@ == old(self)@,
    {
        // The list is taken out, changed, and put back, so that the counter
        // never holds a list that is half changed.
        let mut taken = Counter::new();
        core::mem::swap(self, &mut taken);
        let mut state = taken.into_state();
        let mut counted = true;
        let mut i: usize = 0;
        while i < state.len() && state[i].0 != word
            invariant
                i <= state@.len(),
                forall|j: int| 0 <= j < i ==> (#[trigger] state@[j]).0@ != word@,
            decreases state.len() - i,
        {
            i += 1;
        }
        proof {
            lemma_entry_counts_dom(state@, word@);
        }
        if i < state.len() {
            proof {
                lemma_entry_counts_at(state@, i as int);
            }
            let count = state[i].1;
            if count == usize::MAX {
                counted = false;
            } else {
                proof {
                    lemma_entry_counts_update(state@, i as int, (count + 1) as usize);
                }
                let ghost before = state@;
                state[i].1 = count + 1;
                assert(state@ == before.update(i as int, (before[i as int].0, (count + 1) as usize)));
            }
        } else {
            let ghost before = state@;
            state.push((word, 1));
            assert(state@.drop_last() == before);
        }
        *self = Counter { state };
        counted
    }

    /// Counts the words of `data`: it is split at white space, and each
    /// word is counted in lower case. Counting stops at the first word whose
    /// count cannot grow; the error names it.
    pub fn update(&mut self, data: String) -> (done: Result<(), CountOverflow>)
        ensures
            match done {
                Ok(()) => final(self)@ == tally(old(self)@, lowercase_words(data@)),
                Err(stopped) => {
                    let found = lowercase_words(data@);
                    &&& stopped.word < found.len()
                    &&& final(self)@ == tally(old(self)@, found.take(stopped.word as int))
                    &&& final(self)@.dom().contains(found[stopped.word as int])
                    &&& final(self)@[found[stopped.word as int]] == usize::MAX
                },
            },
    {
        let found = split_lowercase(data.as_str());
        let ghost views = found@.map_values(|word: String| word@);
        let mut k: usize = 0;
        while k < found.len()
            invariant
                k <= found@.len(),
                views == found@.map_values(|word: String| word@),
                views == lowercase_words(data@),
                self@ == tally(old(self)@, views.take(k as int)),
            decreases found.len() - k,
        {
            let word = found[k].clone();
            assert(word@ == views[k as int]);
            assert(views.take(k + 1).drop_last() == views.take(k as int));
            if !self.count_word(word) {
                return Err(CountOverflow { word: k });
            }
            k += 1;
        }
        assert(views.take(k as int) == views);
        Ok(())
    }

    /// Handles one message: a text is counted; a client that leaves has the
    /// counts saved under a new version number; the order to stop has them
    /// saved under the old one.
    pub fn handle(&mut self, msg: Message) -> (done: Result<Step, CountOverflow>)
        ensures
            match msg {
                Message::Count { client_id, data } => match done {
                    Ok(step) => step == (Step { checkpoint: None, progress: Progress::Continue })
                        && final(self)@ == tally(old(self)@, lowercase_words(data@)),
                    Err(stopped) => {
                        let found = lowercase_words(data@);
                        &&& stopped.word < found.len()
                        &&& final(self)@ == tally(old(self)@, found.take(stopped.word as int))
                        &&& final(self)@.dom().contains(found[stopped.word as int])
                        &&& final(self)@[found[stopped.word as int]] == usize::MAX
                    },
                },
                Message::Disconnect { client_id } => final(self)@ == old(self)@ && done == Ok::<
                    Step,
                    CountOverflow,
                >(Step { checkpoint: Some(true), progress: Progress::Continue }),
                Message::Terminate => final(self)@ == old(self)@ && done == Ok::<
                    Step,
                    CountOverflow,
                >(Step { checkpoint: Some(false), progress: Progress::Terminate }),
            },
    {
        match msg {
            Message::Count { client_id, data } => {
                match self.update(data) {
                    Ok(()) => Ok(Step { checkpoint: None, progress: Progress::Continue }),
                    Err(stopped) => Err(stopped),
                }
            },
            Message::Disconnect { client_id } => Ok(
                Step { checkpoint: Some(true), progress: Progress::Continue },
            ),
            Message::Terminate => Ok(
                Step { checkpoint: Some(false), progress: Progress::Terminate },
            ),
        }
    }

    /// What a checkpoint saves: the words with their counts, unless there
    /// are none, and a new version number where `inc_count` asks for it.
    pub fn checkpoint(&self, inc_count: bool) -> (plan: Checkpoint)
        ensures
            plan.increment == inc_count,
            plan.store is Some <==> self@.dom().len() > 0,
            plan.store matches Some(entries) ==> distinct_words(entries@) && entry_counts(entries@)
                == self@,
    {
        let entries = self.as_checkpoint();
        proof {
            lemma_entry_counts_nonempty(entries@);
        }
        if entries.len() > 0 {
            Checkpoint { store: Some(entries), increment: inc_count }
        } else {
            Checkpoint { store: None, increment: inc_count }
        }
    }

    /// Takes the list of counts out of the counter.
    fn into_state(self) -> (state: Vec<(String, usize)>)
        ensures
            distinct_words(state@),
            entry_counts(state@) == self@,
    {
        proof {
            use_type_invariant(&self);
        }
        self.state
    }
}

/// Two lists with the same words and counts stand for the same counts.
proof fn lemma_same_entries(a: Seq<(String, usize)>, b: Seq<(String, usize)>)
    requires
        a.len() == b.len(),
        forall|j: int| 0 <= j < a.len() ==> (#[trigger] a[j]).0@ == b[j].0@ && a[j].1 == b[j].1,
    ensures
        entry_counts(a) == entry_counts(b),
        distinct_words(b) ==> distinct_words(a),
    decreases a.len(),
{
    if a.len() > 0 {
        assert forall|j: int| 0 <= j < a.drop_last().len() implies (#[trigger] a.drop_last()[j]).0@
            == b.drop_last()[j].0@ && a.drop_last()[j].1 == b.drop_last()[j].1 by {
            assert(a[j].0@ == b[j].0@);
        }
        lemma_same_entries(a.drop_last(), b.drop_last());
        assert(a[a.len() - 1].0@ == b[a.len() - 1].0@);
    }
    if distinct_words(b) {
        assert forall|i: int, j: int| 0 <= i < j < a.len() implies a[i].0@ != a[j].0@ by {
            assert(a[i].0@ == b[i].0@);
            assert(a[j].0@ == b[j].0@);
        }
    }
}

/// A list stands for no counts at all exactly when it is empty.
proof fn lemma_entry_counts_nonempty(entries: Seq<(String, usize)>)
    ensures
        entry_counts(entries).dom().finite(),
        entry_counts(entries).dom().len() > 0 <==> entries.len() > 0,
    decreases entries.len(),
{
    if entries.len() > 0 {
        lemma_entry_counts_nonempty(entries.drop_last());
        assert(entry_counts(entries).dom().contains(entries.last().0@));
    }
}

} // verus!
