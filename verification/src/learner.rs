//! An adaptive record of which words a reader has met.
//!
//! The learner counts the words it is shown and remembers, for each word,
//! when it was last seen, how often, and for how long it may stay unseen
//! before the reader is taken to have forgotten it. A word needs help until it
//! was seen often enough, and again once it has stayed away for too long.

use vstd::hash_map::StringHashMap;
use vstd::prelude::*;
use vstd::string::StringExecFns;

verus! {

/// The distance that a word may stay unseen when it is first met.
pub const MIN_MAX_DISTANCE: usize = 100;

/// The longest distance that a word may ever stay unseen.
pub const MAX_MAX_DISTANCE: usize = 10000;

/// What the learner remembers of a word.
#[derive(Debug, Copy, Clone)]
pub struct WordStats {
    /// The number of words that had been recorded when this one was last
    /// seen.
    pub last_seen_at: usize,
    /// How many times the word has been seen.
    pub times_seen: usize,
    /// How many words may pass before help is needed again.
    pub max_distance: usize,
}

/// What the learner remembers of a word, as contracts speak of it.
pub struct WordStatsView {
    pub last_seen_at: nat,
    pub times_seen: nat,
    pub max_distance: nat,
}

impl View for WordStats {
    type V = WordStatsView;

    open spec fn view(&self) -> WordStatsView {
        WordStatsView {
            last_seen_at: self.last_seen_at as nat,
            times_seen: self.times_seen as nat,
            max_distance: self.max_distance as nat,
        }
    }
}

/// The state of a learner, as contracts speak of it.
pub struct LearnerView {
    /// What is remembered of each word that was recorded.
    pub stats: Map<Seq<char>, WordStatsView>,
    /// The number of words recorded so far.
    pub words_processed: nat,
    /// A word seen no more often than this always needs help.
    pub times_seen_threshold: nat,
}

/// The smaller of two numbers.
pub open spec fn min(a: nat, b: nat) -> nat {
    if a <= b {
        a
    } else {
        b
    }
}

impl WordStatsView {
    /// What is remembered of a word that is seen for the first time, after
    /// `now` words.
    pub open spec fn first_seen(now: nat) -> WordStatsView {
        WordStatsView {
            last_seen_at: now,
            times_seen: 1,
            max_distance: MIN_MAX_DISTANCE as nat,
        }
    }

    /// What is remembered of the word once it is seen again, after `now`
    /// words. Once the word was seen more than `threshold` times, a return
    /// within its distance lets the distance grow, by the gap since it was
    /// last seen but by no more than half the distance, and up to
    /// `MAX_MAX_DISTANCE`.
    pub open spec fn seen_again(self, now: nat, threshold: nat) -> WordStatsView {
        let distance = (now - self.last_seen_at) as nat;
        let times_seen = self.times_seen + 1;
        let grown = if distance < self.max_distance {
            self.max_distance + min(distance, self.max_distance / 2)
        } else {
            self.max_distance
        };
        let max_distance = if times_seen <= threshold {
            self.max_distance
        } else {
            min(grown, MAX_MAX_DISTANCE as nat)
        };
        WordStatsView { last_seen_at: now, times_seen, max_distance }
    }

    /// The word was seen before `now`, at least once and no more often than
    /// words were recorded up to then, and its distance is within bounds.
    pub open spec fn wf(self, now: nat) -> bool {
        &&& self.last_seen_at < now
        &&& 1 <= self.times_seen <= self.last_seen_at + 1
        &&& MIN_MAX_DISTANCE <= self.max_distance <= MAX_MAX_DISTANCE
    }
}

impl LearnerView {
    /// Every word that is remembered was recorded in the past.
    pub open spec fn wf(self) -> bool {
        forall|word: Seq<char>| #[trigger]
            self.stats.contains_key(word) ==> self.stats[word].wf(self.words_processed)
    }

    /// The state after `word` is recorded.
    pub open spec fn recorded(self, word: Seq<char>) -> LearnerView {
        let stats = if self.stats.contains_key(word) {
            self.stats[word].seen_again(self.words_processed, self.times_seen_threshold)
        } else {
            WordStatsView::first_seen(self.words_processed)
        };
        LearnerView {
            stats: self.stats.insert(word, stats),
            words_processed: self.words_processed + 1,
            times_seen_threshold: self.times_seen_threshold,
        }
    }

    /// The state after the words are recorded, from the first to the last.
    pub open spec fn recorded_all(self, words: Seq<Seq<char>>) -> LearnerView
        decreases words.len(),
    {
        if words.len() == 0 {
            self
        } else {
            self.recorded_all(words.drop_last()).recorded(words.last())
        }
    }

    /// Whether `word` needs help: it was never recorded, or seen no more
    /// often than the threshold, or more words have passed since it was last
    /// seen than its distance allows.
    pub open spec fn needs_help(self, word: Seq<char>) -> bool {
        !self.stats.contains_key(word) || {
            let stats = self.stats[word];
            stats.times_seen <= self.times_seen_threshold || self.words_processed
                - stats.last_seen_at > stats.max_distance
        }
    }
}

/// `times` occurrences of `word`, one after the other.
pub open spec fn repeated(word: Seq<char>, times: nat) -> Seq<Seq<char>> {
    Seq::new(times, |i: int| word)
}

/// Recording a word keeps the state well formed, leaves the threshold and
/// what is remembered of the other words as they are, and never shortens the
/// distance of the word itself.
pub proof fn lemma_recorded(state: LearnerView, word: Seq<char>)
    requires
        state.wf(),
    ensures
        state.recorded(word).wf(),
        state.recorded(word).words_processed == state.words_processed + 1,
        state.recorded(word).times_seen_threshold == state.times_seen_threshold,
        state.recorded(word).stats.contains_key(word),
        state.recorded(word).stats[word].last_seen_at == state.words_processed,
        forall|other: Seq<char>|
            other != word ==> state.recorded(word).stats.contains_key(other)
                == state.stats.contains_key(other) && (state.stats.contains_key(other)
                ==> state.recorded(word).stats[other] == state.stats[other]),
        state.stats.contains_key(word) ==> state.recorded(word).stats[word].times_seen
            == state.stats[word].times_seen + 1 && state.recorded(word).stats[word].max_distance
            >= state.stats[word].max_distance,
{
    let after = state.recorded(word);
    assert forall|other: Seq<char>| #[trigger] after.stats.contains_key(other) implies after.stats[other].wf(
        after.words_processed,
    ) by {
        if other != word {
            assert(state.stats.contains_key(other));
        }
    }
}

/// A word that was never recorded needs help.
pub proof fn lemma_unseen_needs_help(state: LearnerView, word: Seq<char>)
    requires
        !state.stats.contains_key(word),
    ensures
        state.needs_help(word),
{
}

/// A word that was seen more often than the threshold needs no help while no
/// more words have passed since than the shortest distance allows.
pub proof fn lemma_seen_lately_needs_no_help(state: LearnerView, word: Seq<char>)
    requires
        state.wf(),
        state.stats.contains_key(word),
        state.stats[word].times_seen > state.times_seen_threshold,
        state.words_processed - state.stats[word].last_seen_at <= MIN_MAX_DISTANCE,
    ensures
        !state.needs_help(word),
{
}

/// Recording words keeps the state well formed.
pub proof fn lemma_recorded_all(state: LearnerView, words: Seq<Seq<char>>)
    requires
        state.wf(),
    ensures
        state.recorded_all(words).wf(),
        state.recorded_all(words).words_processed == state.words_processed + words.len(),
        state.recorded_all(words).times_seen_threshold == state.times_seen_threshold,
    decreases words.len(),
{
    if words.len() > 0 {
        lemma_recorded_all(state, words.drop_last());
        lemma_recorded(state.recorded_all(words.drop_last()), words.last());
    }
}

/// After a word was recorded `times` times in a row, it was seen at least
/// that often, and last of all.
proof fn lemma_repeated(state: LearnerView, word: Seq<char>, times: nat)
    requires
        state.wf(),
        times >= 1,
    ensures
        state.recorded_all(repeated(word, times)).stats.contains_key(word),
        state.recorded_all(repeated(word, times)).stats[word].times_seen >= times,
        state.recorded_all(repeated(word, times)).stats[word].last_seen_at + 1
            == state.recorded_all(repeated(word, times)).words_processed,
    decreases times,
{
    let words = repeated(word, times);
    let earlier = repeated(word, (times - 1) as nat);
    assert(words.drop_last() == earlier);
    assert(words.last() == word);
    lemma_recorded_all(state, earlier);
    lemma_recorded(state.recorded_all(earlier), word);
    if times > 1 {
        lemma_repeated(state, word, (times - 1) as nat);
    }
}

/// A word that is recorded more times in a row than the threshold asks for
/// needs no help afterwards, whatever was recorded before.
pub proof fn lemma_repetition_teaches(state: LearnerView, word: Seq<char>, times: nat)
    requires
        state.wf(),
        times > state.times_seen_threshold,
    ensures
        !state.recorded_all(repeated(word, times)).needs_help(word),
{
    lemma_repeated(state, word, times);
    lemma_recorded_all(state, repeated(word, times));
}

/// Recording other words leaves what is remembered of `word` as it is.
pub proof fn lemma_others_leave_word(state: LearnerView, word: Seq<char>, others: Seq<Seq<char>>)
    requires
        state.wf(),
        state.stats.contains_key(word),
        forall|i: int| 0 <= i < others.len() ==> #[trigger] others[i] != word,
    ensures
        state.recorded_all(others).stats.contains_key(word),
        state.recorded_all(others).stats[word] == state.stats[word],
    decreases others.len(),
{
    if others.len() > 0 {
        lemma_others_leave_word(state, word, others.drop_last());
        lemma_recorded_all(state, others.drop_last());
        lemma_recorded(state.recorded_all(others.drop_last()), others.last());
    }
}

/// A word needs help again once more other words were recorded since it was
/// last seen than its distance allows. No distance is longer than
/// `MAX_MAX_DISTANCE`, so that many other words are always enough.
pub proof fn lemma_gap_forgets(state: LearnerView, word: Seq<char>, others: Seq<Seq<char>>)
    requires
        state.wf(),
        state.stats.contains_key(word),
        forall|i: int| 0 <= i < others.len() ==> #[trigger] others[i] != word,
        others.len() >= MAX_MAX_DISTANCE || state.words_processed - state.stats[word].last_seen_at
            + others.len() > state.stats[word].max_distance,
    ensures
        state.recorded_all(others).needs_help(word),
{
    lemma_others_leave_word(state, word, others);
    lemma_recorded_all(state, others);
}

/// The learner.
pub struct Learner {
    stats: StringHashMap<WordStats>,
    words_processed: usize,
    times_seen_threshold: usize,
}

impl View for Learner {
    type V = LearnerView;

    closed spec fn view(&self) -> LearnerView {
        LearnerView {
            stats: self.stats@.map_values(|stats: WordStats| stats@),
            words_processed: self.words_processed as nat,
            times_seen_threshold: self.times_seen_threshold as nat,
        }
    }
}

impl Learner {
    #[verifier::type_invariant]
    spec fn well_formed(self) -> bool {
        self@.wf()
    }

    /// Makes a learner that has recorded nothing. A word will need help
    /// until it was seen more than `times_seen_threshold` times.
    pub fn new(times_seen_threshold: usize) -> (learner: Learner)
        ensures
            learner@ == (LearnerView {
                stats: Map::empty(),
                words_processed: 0,
                times_seen_threshold: times_seen_threshold as nat,
            }),
    {
        let learner = Learner {
            stats: StringHashMap::new(),
            words_processed: 0,
            times_seen_threshold,
        };
        assert(learner@.stats == Map::<Seq<char>, WordStatsView>::empty());
        learner
    }

    /// The number of words recorded so far.
    pub fn words_processed(&self) -> (count: usize)
        ensures
            count == self@.words_processed,
    {
        self.words_processed
    }

    /// Records one more occurrence of `word`. The learner counts the words
    /// in a `usize`, so it must not have counted `usize::MAX` of them yet.
    pub fn record(&mut self, word: &str)
        requires
            old(self)@.words_processed < usize::MAX,
        ensures
            final(self)@ == old(self)@.recorded(word@),
            final(self)@.wf(),
    {
        proof {
            use_type_invariant(&*self);
        }
        let now = self.words_processed;
        let stats = match self.stats.get(word) {
            Some(stats) => {
                assert(self@.stats.contains_key(word@));
                assert(self@.stats[word@] == stats@);
                let distance = now - stats.last_seen_at;
                let times_seen = stats.times_seen + 1;
                let mut max_distance = stats.max_distance;
                if times_seen > self.times_seen_threshold {
                    if distance < max_distance {
                        let half = max_distance / 2;
                        max_distance += if distance < half {
                            distance
                        } else {
                            half
                        };
                    }
                    if max_distance > MAX_MAX_DISTANCE {
                        max_distance = MAX_MAX_DISTANCE;
                    }
                }
                WordStats { last_seen_at: now, times_seen, max_distance }
            },
            None => WordStats { last_seen_at: now, times_seen: 1, max_distance: MIN_MAX_DISTANCE },
        };
        let ghost before = self@;
        assert(stats@ == before.recorded(word@).stats[word@]);
        let mut map = StringHashMap::new();
        std::mem::swap(&mut map, &mut self.stats);
        self.words_processed = now + 1;
        map.insert(String::from_str(word), stats);
        assert(map@.map_values(|stats: WordStats| stats@) == before.recorded(word@).stats);
        self.stats = map;
    }

    /// Tells whether `word` needs help: whether it was never recorded, or
    /// seen no more often than the threshold, or not seen for longer than its
    /// distance allows.
    pub fn needs_help(&self, word: &str) -> (help: bool)
        ensures
            help == self@.needs_help(word@),
    {
        proof {
            use_type_invariant(self);
        }
        match self.stats.get(word) {
            Some(stats) => {
                assert(self@.stats.contains_key(word@));
                assert(self@.stats[word@] == stats@);
                let distance = self.words_processed - stats.last_seen_at;
                stats.times_seen <= self.times_seen_threshold || distance > stats.max_distance
            },
            None => true,
        }
    }
}

} // verus!
