//! The dictionary: learned sentences and the word index over them.
//!
//! Sentences are learned from chat lines, lower-cased, split on
//! sentence-terminator boundaries and stored uniquely; each sentence's words
//! are indexed by the positions of the sentences they occur in. Learning is
//! an incremental append that does not re-sort; [`Dictionary::rebuild_indices`]
//! sorts the sentences (case-insensitively) and re-derives the whole index,
//! and is the only operation that reorders them.

use vstd::prelude::*;

use crate::text::{lemma_vec_deep_view_index, lex_le, lex_lt, push_str, str_eq, str_lt};

verus! {

/// The whitespace characters the splitting rules recognize: space, tab,
/// line feed, vertical tab, form feed, carriage return.
pub open spec fn is_whitespace_char(c: char) -> bool {
    c == ' ' || c == '\t' || c == '\n' || c == '\x0b' || c == '\x0c' || c == '\r'
}

/// Word separators: `,` `.` `!` `?` `:` and whitespace.
pub open spec fn is_word_sep_char(c: char) -> bool {
    c == ',' || c == '.' || c == '!' || c == '?' || c == ':' || is_whitespace_char(c)
}

/// Sentence terminators: `.` `!` `?`.
pub open spec fn is_terminator_char(c: char) -> bool {
    c == '.' || c == '!' || c == '?'
}

fn whitespace_char(c: char) -> (b: bool)
    ensures
        b == is_whitespace_char(c),
{
    c == ' ' || c == '\t' || c == '\n' || c == '\x0b' || c == '\x0c' || c == '\r'
}

fn word_sep_char(c: char) -> (b: bool)
    ensures
        b == is_word_sep_char(c),
{
    c == ',' || c == '.' || c == '!' || c == '?' || c == ':' || whitespace_char(c)
}

fn terminator_char(c: char) -> (b: bool)
    ensures
        b == is_terminator_char(c),
{
    c == '.' || c == '!' || c == '?'
}

/// Scanner for [`words_of`]: walks the remaining characters with the word
/// built so far (`cur`) and the words already finished (`done`).
pub open spec fn words_acc(s: Seq<char>, cur: Seq<char>, done: Seq<Seq<char>>) -> Seq<Seq<char>>
    decreases s.len(),
{
    if s.len() == 0 {
        if cur.len() > 0 {
            done.push(cur)
        } else {
            done
        }
    } else if is_word_sep_char(s[0]) {
        if cur.len() > 0 {
            words_acc(s.drop_first(), Seq::empty(), done.push(cur))
        } else {
            words_acc(s.drop_first(), Seq::empty(), done)
        }
    } else {
        words_acc(s.drop_first(), cur.push(s[0]), done)
    }
}

/// The words of `s`: the maximal runs of non-separator characters, in
/// order, empty runs discarded.
pub open spec fn words_of(s: Seq<char>) -> Seq<Seq<char>> {
    words_acc(s, Seq::empty(), Seq::empty())
}

/// Scanner for [`sentences_of`]: `in_sep` says whether a separating
/// whitespace run is being consumed.
pub open spec fn sentences_acc(
    s: Seq<char>,
    cur: Seq<char>,
    in_sep: bool,
    done: Seq<Seq<char>>,
) -> Seq<Seq<char>>
    decreases s.len(),
{
    if s.len() == 0 {
        if cur.len() > 0 {
            done.push(cur)
        } else {
            done
        }
    } else if in_sep {
        if is_whitespace_char(s[0]) {
            sentences_acc(s.drop_first(), cur, true, done)
        } else {
            sentences_acc(s.drop_first(), cur.push(s[0]), false, done)
        }
    } else if is_whitespace_char(s[0]) && cur.len() > 0 && is_terminator_char(cur.last()) {
        sentences_acc(s.drop_first(), Seq::empty(), true, done.push(cur))
    } else {
        sentences_acc(s.drop_first(), cur.push(s[0]), false, done)
    }
}

/// The sentences of `s`: `s` is split at each whitespace run that directly
/// follows a sentence terminator; the whitespace run is dropped, empty
/// pieces are discarded.
pub open spec fn sentences_of(s: Seq<char>) -> Seq<Seq<char>> {
    sentences_acc(s, Seq::empty(), false, Seq::empty())
}

/// Splits `s` into words on runs of `[,.!?:\s]`, discarding empty tokens.
pub fn split_words(s: &str) -> (r: Vec<String>)
    ensures
        r.deep_view() == words_of(s@),
{
    let n = s.unicode_len();
    let mut result: Vec<String> = Vec::new();
    let mut start: usize = 0;
    let mut i: usize = 0;
    proof {
        assert(s@.skip(0) =~= s@);
        assert(s@.subrange(0, 0) =~= Seq::<char>::empty());
        assert(result.deep_view() =~= Seq::<Seq<char>>::empty());
    }
    while i < n
        invariant
            n == s@.len(),
            start <= i <= n,
            words_of(s@) == words_acc(
                s@.skip(i as int),
                s@.subrange(start as int, i as int),
                result.deep_view(),
            ),
        decreases n - i,
    {
        let c = s.get_char(i);
        proof {
            assert(s@.skip(i as int)[0] == s@[i as int]);
            assert(s@.skip(i as int).drop_first() =~= s@.skip(i as int + 1));
        }
        if word_sep_char(c) {
            if start < i {
                push_str(&mut result, s.substring_char(start, i).to_owned());
            }
            start = i + 1;
            proof {
                assert(s@.subrange(i as int + 1, i as int + 1) =~= Seq::<char>::empty());
            }
        } else {
            proof {
                assert(s@.subrange(start as int, i as int).push(s@[i as int]) =~= s@.subrange(
                    start as int,
                    i as int + 1,
                ));
            }
        }
        i += 1;
    }
    if start < n {
        push_str(&mut result, s.substring_char(start, n).to_owned());
    }
    proof {
        assert(s@.skip(n as int) =~= Seq::<char>::empty());
    }
    result
}

/// Splits `s` into sentences: a split happens at each whitespace run that
/// directly follows `.`, `!` or `?`; the whitespace is dropped, empty
/// pieces are discarded.
pub fn split_sentences(s: &str) -> (r: Vec<String>)
    ensures
        r.deep_view() == sentences_of(s@),
{
    let n = s.unicode_len();
    let mut result: Vec<String> = Vec::new();
    let mut start: usize = 0;
    let mut in_sep: bool = false;
    let mut i: usize = 0;
    proof {
        assert(s@.skip(0) =~= s@);
        assert(s@.subrange(0, 0) =~= Seq::<char>::empty());
        assert(result.deep_view() =~= Seq::<Seq<char>>::empty());
    }
    while i < n
        invariant
            n == s@.len(),
            start <= i <= n,
            in_sep ==> start == i,
            sentences_of(s@) == sentences_acc(
                s@.skip(i as int),
                s@.subrange(start as int, i as int),
                in_sep,
                result.deep_view(),
            ),
        decreases n - i,
    {
        let c = s.get_char(i);
        proof {
            assert(s@.skip(i as int)[0] == s@[i as int]);
            assert(s@.skip(i as int).drop_first() =~= s@.skip(i as int + 1));
        }
        if in_sep {
            if whitespace_char(c) {
                start = i + 1;
                proof {
                    assert(s@.subrange(i as int, i as int) =~= Seq::<char>::empty());
                    assert(s@.subrange(i as int + 1, i as int + 1) =~= Seq::<char>::empty());
                }
            } else {
                in_sep = false;
                proof {
                    assert(s@.subrange(i as int, i as int).push(s@[i as int]) =~= s@.subrange(
                        i as int,
                        i as int + 1,
                    ));
                }
                start = i;
            }
        } else {
            let cur_nonempty = start < i;
            proof {
                if start < i {
                    assert(s@.subrange(start as int, i as int).last() == s@[i as int - 1]);
                }
            }
            if whitespace_char(c) && cur_nonempty && terminator_char(s.get_char(i - 1)) {
                push_str(&mut result, s.substring_char(start, i).to_owned());
                in_sep = true;
                start = i + 1;
                proof {
                    assert(s@.subrange(i as int + 1, i as int + 1) =~= Seq::<char>::empty());
                }
            } else {
                proof {
                    assert(s@.subrange(start as int, i as int).push(s@[i as int]) =~= s@.subrange(
                        start as int,
                        i as int + 1,
                    ));
                }
            }
        }
        i += 1;
    }
    if start < n {
        push_str(&mut result, s.substring_char(start, n).to_owned());
    }
    proof {
        assert(s@.skip(n as int) =~= Seq::<char>::empty());
    }
    result
}

/// The lower-case form of a character sequence.
///
/// Names the result of `str::to_lowercase`; it depends on the characters
/// alone.
pub uninterp spec fn lower_of(s: Seq<char>) -> Seq<char>;

/// Relies on `str::to_lowercase`: the result depends on the characters
/// alone, an empty string stays empty, and lower-casing is idempotent
/// (the result is its own lower-case form).
#[verifier::external_body]
fn to_lowercase(s: &str) -> (r: String)
    ensures
        r@ == lower_of(s@),
        s@.len() == 0 ==> r@.len() == 0,
        lower_of(r@) == r@,
{
    s.to_lowercase()
}

/// The word index: for each word, the positions of the sentences it
/// occurs in, keyed in first-insertion order.
pub type Indices = Vec<(String, Vec<usize>)>;

/// The position of the first index entry whose word is `w`.
pub open spec fn idx_pos(ind: Seq<(Seq<char>, Seq<usize>)>, w: Seq<char>) -> Option<int>
    decreases ind.len(),
{
    if ind.len() == 0 {
        None
    } else if ind[0].0 == w {
        Some(0)
    } else {
        match idx_pos(ind.drop_first(), w) {
            Some(i) => Some(i + 1),
            None => None,
        }
    }
}

/// The index after recording that word `w` occurs in sentence `p`: a new
/// entry for an unknown word, the position appended for a known word, and
/// no change when the position is already recorded.
pub open spec fn spec_insert_word(
    ind: Seq<(Seq<char>, Seq<usize>)>,
    w: Seq<char>,
    p: usize,
) -> Seq<(Seq<char>, Seq<usize>)> {
    match idx_pos(ind, w) {
        Some(q) => if ind[q].1.contains(p) {
            ind
        } else {
            ind.update(q, (ind[q].0, ind[q].1.push(p)))
        },
        None => ind.push((w, seq![p])),
    }
}

/// Position of the first entry for `word`, if the word is indexed.
fn find_word_entry(indices: &Indices, word: &str) -> (r: Option<usize>)
    ensures
        match r {
            Some(q) => idx_pos(indices.deep_view(), word@) == Some(q as int),
            None => idx_pos(indices.deep_view(), word@) is None,
        },
        r matches Some(q) ==> q < indices@.len(),
{
    let ghost all: Seq<(Seq<char>, Seq<usize>)> = indices.deep_view();
    proof {
        lemma_vec_deep_view_index(*indices);
        assert(all.skip(0) =~= all);
    }
    let mut i: usize = 0;
    while i < indices.len()
        invariant
            i <= all.len(),
            all == indices.deep_view(),
            all.len() == indices@.len(),
            (idx_pos(all, word@) is Some) == (idx_pos(all.skip(i as int), word@) is Some),
            idx_pos(all.skip(i as int), word@) matches Some(j) ==> Some(j + i) == idx_pos(
                all,
                word@,
            ),
        decreases all.len() - i,
    {
        proof {
            lemma_vec_deep_view_index(*indices);
            assert(all.skip(i as int).drop_first() =~= all.skip(i as int + 1));
            assert(all.skip(i as int)[0] == all[i as int]);
        }
        if str_eq(indices[i].0.as_str(), word) {
            return Some(i);
        }
        i += 1;
    }
    proof {
        assert(all.skip(all.len() as int) =~= Seq::<(Seq<char>, Seq<usize>)>::empty());
    }
    None
}

/// Records that word `word` occurs in sentence `sentence_index`, without
/// ever recording the same position twice for one word.
pub fn insert_word_into_indices(indices: &mut Indices, word: &str, sentence_index: usize)
    ensures
        final(indices).deep_view() == spec_insert_word(
            old(indices).deep_view(),
            word@,
            sentence_index,
        ),
{
    let ghost orig: Seq<(Seq<char>, Seq<usize>)> = old(indices).deep_view();
    match find_word_entry(indices, word) {
        Some(q) => {
            proof {
                lemma_vec_deep_view_index(*indices);
            }
            let mut entry: (String, Vec<usize>) = indices.remove(q);
            let ghost entry0: (Seq<char>, Seq<usize>) = orig[q as int];
            let mut k: usize = 0;
            let mut present: bool = false;
            while k < entry.1.len()
                invariant
                    k <= entry.1@.len(),
                    entry.1@ == entry0.1,
                    present == exists|j: int| 0 <= j < k && entry.1@[j] == sentence_index,
                decreases entry.1@.len() - k,
            {
                if entry.1[k] == sentence_index {
                    present = true;
                }
                k += 1;
            }
            if !present {
                proof {
                    assert(!entry0.1.contains(sentence_index));
                }
                entry.1.push(sentence_index);
            } else {
                proof {
                    assert(entry0.1.contains(sentence_index));
                }
            }
            indices.insert(q, entry);
            proof {
                lemma_vec_deep_view_index(*indices);
                assert(indices@ =~= old(indices)@.remove(q as int).insert(
                    q as int,
                    indices@[q as int],
                ));
                assert forall|j: int|
                    0 <= j < orig.len() implies #[trigger] indices.deep_view()[j]
                    == spec_insert_word(orig, word@, sentence_index)[j] by {
                    assert(indices.deep_view()[j] == indices@[j].deep_view());
                    if j != q {
                        assert(indices@[j] == old(indices)@[j]);
                        assert(orig[j] == old(indices)@[j].deep_view());
                    }
                }
                assert(indices.deep_view() =~= spec_insert_word(orig, word@, sentence_index));
            }
        },
        None => {
            proof {
                lemma_vec_deep_view_index(*indices);
            }
            let mut positions: Vec<usize> = Vec::new();
            positions.push(sentence_index);
            proof {
                assert(positions@ =~= seq![sentence_index]);
                assert(positions.deep_view() =~= seq![sentence_index]);
            }
            indices.push((word.to_owned(), positions));
            proof {
                lemma_vec_deep_view_index(*indices);
                assert(indices.deep_view() =~= orig.push((word@, seq![sentence_index])));
            }
        },
    }
}

/// Stores learned sentences and the word index over them. Any state is
/// representable (a dictionary may be loaded from storage with a stale or
/// even absent index); the operations say exactly what they do on each.
#[derive(Debug)]
pub struct Dictionary {
    pub sentences: Vec<String>,
    pub indices: Indices,
}

impl Dictionary {
    /// The sentences, as character sequences.
    pub open spec fn sents(&self) -> Seq<Seq<char>> {
        self.sentences.deep_view()
    }

    /// The word index, as character sequences and position sequences.
    pub open spec fn index(&self) -> Seq<(Seq<char>, Seq<usize>)> {
        self.indices.deep_view()
    }

    /// Every recorded position points at a stored sentence.
    pub open spec fn index_positions_in_bounds(&self) -> bool {
        forall|j: int, k: int|
            0 <= j < self.index().len() && 0 <= k < self.index()[j].1.len() ==> (
            self.index()[j].1[k] as int) < self.sents().len()
    }

    /// Every index entry records at least one position.
    pub open spec fn index_entries_nonempty(&self) -> bool {
        idx_entries_nonempty(self.index())
    }

    /// No two index entries carry the same word.
    pub open spec fn index_keys_unique(&self) -> bool {
        idx_keys_unique(self.index())
    }

    /// No word records the same position twice.
    pub open spec fn index_nodup(&self) -> bool {
        forall|j: int, a: int, b: int|
            0 <= j < self.index().len() && 0 <= a < b < self.index()[j].1.len()
                ==> self.index()[j].1[a] != self.index()[j].1[b]
    }

    /// A dictionary with no sentences and no index entries.
    pub fn new_empty() -> (d: Dictionary)
        ensures
            d.sents() == Seq::<Seq<char>>::empty(),
            d.index() == Seq::<(Seq<char>, Seq<usize>)>::empty(),
    {
        let d = Dictionary { sentences: Vec::new(), indices: Vec::new() };
        proof {
            assert(d.sents() =~= Seq::<Seq<char>>::empty());
            assert(d.index() =~= Seq::<(Seq<char>, Seq<usize>)>::empty());
        }
        d
    }

    /// Drops the whole index, leaving the sentences alone.
    pub fn reset_indices(&mut self)
        ensures
            final(self).sentences == old(self).sentences,
            final(self).index() == Seq::<(Seq<char>, Seq<usize>)>::empty(),
    {
        self.indices = Vec::new();
        proof {
            assert(self.index() =~= Seq::<(Seq<char>, Seq<usize>)>::empty());
        }
    }

    /// True exactly when there are sentences but no index entries: the
    /// stale-index state a persisted dictionary without an index loads
    /// into. It does not detect a partially stale index.
    pub fn needs_to_build_indices(&self) -> (r: bool)
        ensures
            r == (self.sents().len() > 0 && self.index().len() == 0),
    {
        self.sentences.len() > 0 && self.indices.len() == 0
    }

    /// Whether `word` is in the index, exactly as given (no case folding,
    /// no trimming): whether some entry carries `word`, and since indexes
    /// this crate builds never carry a word twice, whether its one entry
    /// exists.
    pub fn knows_word(&self, word: &str) -> (r: bool)
        ensures
            r == (idx_pos(self.index(), word@) is Some),
    {
        find_word_entry(&self.indices, word).is_some()
    }
}

/// Sorted ascending in strict character order (the order `knows_sentence`'s
/// binary search probes by).
pub open spec fn sorted_lex(s: Seq<Seq<char>>) -> bool {
    forall|i: int, j: int| 0 <= i < j < s.len() ==> lex_lt(s[i], s[j]) || s[i] == s[j]
}

/// Sorted ascending case-insensitively: by the lower-case forms.
pub open spec fn sorted_by_lower(s: Seq<Seq<char>>) -> bool {
    forall|i: int, j: int|
        0 <= i < j < s.len() ==> lex_lt(lower_of(s[i]), lower_of(s[j])) || lower_of(s[i])
            == lower_of(s[j])
}

/// What a binary search for `x` over `s[lo..hi]` (probing in strict
/// character order) reports. On a list that is not sorted this is still a
/// well-defined probe sequence, just not a membership test.
pub open spec fn spec_bsearch(s: Seq<Seq<char>>, x: Seq<char>, lo: int, hi: int) -> bool
    decreases hi - lo,
{
    if lo >= hi {
        false
    } else {
        let mid = lo + (hi - lo) / 2;
        if s[mid] == x {
            true
        } else if lex_lt(s[mid], x) {
            spec_bsearch(s, x, mid + 1, hi)
        } else {
            spec_bsearch(s, x, lo, mid)
        }
    }
}

/// A found result is a real occurrence, sorted or not.
pub proof fn lemma_bsearch_sound(s: Seq<Seq<char>>, x: Seq<char>, lo: int, hi: int)
    requires
        0 <= lo <= hi <= s.len(),
    ensures
        spec_bsearch(s, x, lo, hi) ==> exists|k: int| lo <= k < hi && s[k] == x,
    decreases hi - lo,
{
    if lo < hi {
        let mid = lo + (hi - lo) / 2;
        if s[mid] == x {
            assert(lo <= mid < hi && s[mid] == x);
        } else if lex_lt(s[mid], x) {
            lemma_bsearch_sound(s, x, mid + 1, hi);
        } else {
            lemma_bsearch_sound(s, x, lo, mid);
        }
    }
}

/// On a sorted range, the search finds every element that is present.
pub proof fn lemma_bsearch_complete(s: Seq<Seq<char>>, x: Seq<char>, lo: int, hi: int)
    requires
        0 <= lo <= hi <= s.len(),
        sorted_lex(s),
        exists|k: int| lo <= k < hi && s[k] == x,
    ensures
        spec_bsearch(s, x, lo, hi),
    decreases hi - lo,
{
    let k = choose|k: int| lo <= k < hi && s[k] == x;
    let mid = lo + (hi - lo) / 2;
    if s[mid] == x {
    } else if lex_lt(s[mid], x) {
        if k <= mid {
            if k < mid {
                assert(lex_lt(s[k], s[mid]) || s[k] == s[mid]);
            }
            crate::text::lemma_lex_lt_asym(s[mid], x);
            crate::text::lemma_lex_lt_irrefl(x);
            assert(false);
        }
        lemma_bsearch_complete(s, x, mid + 1, hi);
    } else {
        crate::text::lemma_lex_lt_connex(s[mid], x);
        if k >= mid {
            if k > mid {
                assert(lex_lt(s[mid], s[k]) || s[mid] == s[k]);
            }
            crate::text::lemma_lex_lt_asym(s[mid], x);
            crate::text::lemma_lex_lt_irrefl(x);
            assert(false);
        }
        lemma_bsearch_complete(s, x, lo, mid);
    }
}

impl Dictionary {
    /// Whether `sentence` is stored, looked up by binary search in strict
    /// character order. On a sorted sentence list this is exact membership;
    /// on an unsorted one (sentences appended since the last rebuild) a
    /// `true` still means the sentence is present, but a present sentence
    /// can be missed.
    pub fn knows_sentence(&self, sentence: &str) -> (r: bool)
        ensures
            r == spec_bsearch(self.sents(), sentence@, 0, self.sents().len() as int),
            r ==> exists|k: int| 0 <= k < self.sents().len() && self.sents()[k] == sentence@,
            sorted_lex(self.sents()) ==> r == exists|k: int|
                0 <= k < self.sents().len() && self.sents()[k] == sentence@,
    {
        proof {
            lemma_vec_deep_view_index(self.sentences);
        }
        let ghost all: Seq<Seq<char>> = self.sents();
        let mut lo: usize = 0;
        let mut hi: usize = self.sentences.len();
        let mut found: bool = false;
        while lo < hi && !found
            invariant
                all == self.sents(),
                all.len() == self.sentences@.len(),
                lo <= hi <= all.len(),
                found ==> exists|k: int|
                    0 <= k < all.len() && all[k] == sentence@,
                !found ==> spec_bsearch(all, sentence@, 0, all.len() as int) == spec_bsearch(
                    all,
                    sentence@,
                    lo as int,
                    hi as int,
                ),
                found ==> spec_bsearch(all, sentence@, 0, all.len() as int),
            decreases hi - lo + (if found { 0int } else { 1int }),
        {
            let mid = lo + (hi - lo) / 2;
            proof {
                lemma_vec_deep_view_index(self.sentences);
                assert(all[mid as int] == self.sentences@[mid as int]@);
            }
            if str_eq(self.sentences[mid].as_str(), sentence) {
                found = true;
            } else if str_lt(self.sentences[mid].as_str(), sentence) {
                lo = mid + 1;
            } else {
                hi = mid;
            }
        }
        proof {
            if sorted_lex(all) && !found {
                if exists|k: int| 0 <= k < all.len() && all[k] == sentence@ {
                    lemma_bsearch_complete(all, sentence@, 0, all.len() as int);
                }
            }
        }
        found
    }
}

/// Compares two sentences by their lower-case forms, the order
/// `sort_sentences` sorts in.
fn lower_lt(a: &str, b: &str) -> (r: bool)
    ensures
        r == lex_lt(lower_of(a@), lower_of(b@)),
{
    let la = to_lowercase(a);
    let lb = to_lowercase(b);
    str_lt(la.as_str(), lb.as_str())
}

/// The position of a sentence whose lower-case form sorts no later than
/// any sentence's.
fn min_lower_index(sentences: &Vec<String>) -> (m: usize)
    requires
        sentences@.len() > 0,
    ensures
        m < sentences@.len(),
        forall|k: int|
            0 <= k < sentences.deep_view().len() ==> lex_le(
                lower_of(sentences.deep_view()[m as int]),
                lower_of(#[trigger] sentences.deep_view()[k]),
            ),
        forall|k: int|
            0 <= k < m ==> lex_lt(
                lower_of(sentences.deep_view()[m as int]),
                lower_of(#[trigger] sentences.deep_view()[k]),
            ),
{
    proof {
        lemma_vec_deep_view_index(*sentences);
    }
    let ghost all: Seq<Seq<char>> = sentences.deep_view();
    let mut m: usize = 0;
    let mut j: usize = 1;
    while j < sentences.len()
        invariant
            all == sentences.deep_view(),
            all.len() == sentences@.len(),
            m < j <= all.len(),
            forall|k: int|
                0 <= k < j ==> lex_le(lower_of(all[m as int]), lower_of(#[trigger] all[k])),
            forall|k: int|
                0 <= k < m ==> lex_lt(lower_of(all[m as int]), lower_of(#[trigger] all[k])),
        decreases all.len() - j,
    {
        proof {
            lemma_vec_deep_view_index(*sentences);
        }
        if lower_lt(sentences[j].as_str(), sentences[m].as_str()) {
            proof {
                assert forall|k: int|
                    0 <= k < j implies lex_lt(
                    lower_of(all[j as int]),
                    lower_of(#[trigger] all[k]),
                ) by {
                    assert(lex_le(lower_of(all[m as int]), lower_of(all[k])));
                    if lex_lt(lower_of(all[m as int]), lower_of(all[k])) {
                        crate::text::lemma_lex_lt_trans(
                            lower_of(all[j as int]),
                            lower_of(all[m as int]),
                            lower_of(all[k]),
                        );
                    }
                }
            }
            m = j;
        } else {
            proof {
                crate::text::lemma_lex_lt_connex(
                    lower_of(all[m as int]),
                    lower_of(all[j as int]),
                );
            }
        }
        j += 1;
    }
    m
}

/// Sorts the sentences ascending by their lower-case forms, keeping
/// exactly the same sentences (as a multiset).
pub fn sort_sentences(sentences: &mut Vec<String>)
    ensures
        sorted_by_lower(final(sentences).deep_view()),
        final(sentences).deep_view().to_multiset() == old(sentences).deep_view().to_multiset(),
        sorted_by_lower(old(sentences).deep_view()) ==> final(sentences).deep_view() == old(
            sentences,
        ).deep_view(),
{
    broadcast use vstd::seq_lib::group_to_multiset_ensures;

    let ghost orig: Seq<Seq<char>> = old(sentences).deep_view();
    let mut out: Vec<String> = Vec::new();
    proof {
        assert(out.deep_view() =~= Seq::<Seq<char>>::empty());
        assert(out.deep_view().to_multiset().add(sentences.deep_view().to_multiset())
            =~= orig.to_multiset());
        assert(orig.take(0) =~= Seq::<Seq<char>>::empty());
        assert(orig.skip(0) =~= orig);
    }
    while sentences.len() > 0
        invariant
            out.deep_view().to_multiset().add(sentences.deep_view().to_multiset())
                == orig.to_multiset(),
            sorted_by_lower(out.deep_view()),
            sorted_by_lower(orig) ==> out.deep_view().len() <= orig.len()
                && out.deep_view() == orig.take(out.deep_view().len() as int)
                && sentences.deep_view() == orig.skip(out.deep_view().len() as int),
            forall|a: int, b: int|
                0 <= a < out.deep_view().len() && 0 <= b < sentences.deep_view().len() ==> lex_le(
                    lower_of(#[trigger] out.deep_view()[a]),
                    lower_of(#[trigger] sentences.deep_view()[b]),
                ),
        decreases sentences@.len(),
    {
        let ghost pre: Seq<Seq<char>> = sentences.deep_view();
        let m = min_lower_index(sentences);
        let picked: String = crate::text::remove_str(sentences, m);
        let ghost outpre: Seq<Seq<char>> = out.deep_view();
        push_str(&mut out, picked);
        proof {
            let outs = out.deep_view();
            let rems = sentences.deep_view();
            broadcast use vstd::multiset::group_multiset_axioms;
            broadcast use vstd::seq_lib::group_to_multiset_ensures;

            assert(outs == outpre.push(pre[m as int]));
            assert(rems == pre.remove(m as int));
            assert(pre.contains(pre[m as int]));
            assert(pre.to_multiset().count(pre[m as int]) > 0);
            assert(outs.to_multiset() =~= outpre.to_multiset().insert(pre[m as int]));
            assert(rems.to_multiset() =~= pre.to_multiset().remove(pre[m as int]));
            assert forall|y: Seq<char>|
                outs.to_multiset().add(rems.to_multiset()).count(y) == orig.to_multiset().count(
                    y,
                ) by {
                assert(outpre.to_multiset().add(pre.to_multiset()).count(y) == orig.to_multiset()
                    .count(y));
            }
            assert(outs.to_multiset().add(rems.to_multiset()) =~= orig.to_multiset());
            assert forall|a: int, b: int|
                0 <= a < b < outs.len() implies lex_le(
                lower_of(#[trigger] outs[a]),
                lower_of(#[trigger] outs[b]),
            ) by {
                assert(outs[a] == outpre[a]);
                if b < outs.len() - 1 {
                    assert(outs[b] == outpre[b]);
                } else {
                    assert(outs[b] == pre[m as int]);
                    assert(lex_le(lower_of(outpre[a]), lower_of(pre[m as int])));
                }
            }
            assert forall|a: int, b: int|
                0 <= a < outs.len() && 0 <= b < rems.len() implies lex_le(
                lower_of(#[trigger] outs[a]),
                lower_of(#[trigger] rems[b]),
            ) by {
                let x: Seq<char> = if b < m { pre[b] } else { pre[b + 1] };
                assert(rems[b] == x);
                if a < outs.len() - 1 {
                    assert(outs[a] == outpre[a]);
                    assert(lex_le(lower_of(outpre[a]), lower_of(x)));
                } else {
                    assert(outs[a] == pre[m as int]);
                    assert(lex_le(lower_of(pre[m as int]), lower_of(x)));
                }
            }
            if sorted_by_lower(orig) {
                let c = outpre.len() as int;
                assert(pre == orig.skip(c));
                if m > 0 {
                    assert(pre[0] == orig[c]);
                    assert(pre[m as int] == orig[c + m]);
                    assert(lex_lt(lower_of(pre[m as int]), lower_of(pre[0])));
                    assert(lex_lt(lower_of(orig[c]), lower_of(orig[c + m])) || lower_of(orig[c])
                        == lower_of(orig[c + m]));
                    crate::text::lemma_lex_lt_asym(lower_of(pre[m as int]), lower_of(pre[0]));
                    crate::text::lemma_lex_lt_irrefl(lower_of(pre[0]));
                    assert(false);
                }
                assert(outs =~= orig.take(c + 1));
                assert(rems =~= orig.skip(c + 1));
            }
        }
    }
    proof {
        assert(sentences.deep_view() =~= Seq::<Seq<char>>::empty());
        assert(sentences.deep_view().to_multiset() =~= vstd::multiset::Multiset::<
            Seq<char>,
        >::empty());
        assert(out.deep_view().to_multiset().add(
            vstd::multiset::Multiset::<Seq<char>>::empty(),
        ) =~= out.deep_view().to_multiset());
        if sorted_by_lower(orig) {
            assert(out.deep_view().len() == orig.len());
            assert(orig.take(orig.len() as int) =~= orig);
        }
    }
    *sentences = out;
}

/// The index after recording every word of `ws` (in order) at position `p`.
pub open spec fn index_add_words(
    ind: Seq<(Seq<char>, Seq<usize>)>,
    ws: Seq<Seq<char>>,
    p: usize,
) -> Seq<(Seq<char>, Seq<usize>)>
    decreases ws.len(),
{
    if ws.len() == 0 {
        ind
    } else {
        index_add_words(spec_insert_word(ind, ws[0], p), ws.drop_first(), p)
    }
}

/// The index derived from scratch for the first `n` of `sents`: for each
/// position in order, the words of the sentence's lower-case form.
pub open spec fn index_of_sentences(sents: Seq<Seq<char>>, n: int) -> Seq<(Seq<char>, Seq<usize>)>
    decreases n,
{
    if n <= 0 {
        Seq::empty()
    } else {
        index_add_words(
            index_of_sentences(sents, n - 1),
            words_of(lower_of(sents[n - 1])),
            (n - 1) as usize,
        )
    }
}

/// What learning a single (already lower-cased) sentence does: nothing if
/// the binary search finds it, otherwise it is appended and each of its
/// words is indexed at its new position.
pub open spec fn learn_sentence(
    sents: Seq<Seq<char>>,
    ind: Seq<(Seq<char>, Seq<usize>)>,
    s: Seq<char>,
) -> (Seq<Seq<char>>, Seq<(Seq<char>, Seq<usize>)>, bool) {
    if spec_bsearch(sents, s, 0, sents.len() as int) {
        (sents, ind, false)
    } else {
        (sents.push(s), index_add_words(ind, words_of(s), sents.len() as usize), true)
    }
}

/// What learning a line does: each sentence of the line in order, with a
/// flag saying whether anything new was stored.
pub open spec fn learn_line(
    sents: Seq<Seq<char>>,
    ind: Seq<(Seq<char>, Seq<usize>)>,
    pieces: Seq<Seq<char>>,
    learned: bool,
) -> (Seq<Seq<char>>, Seq<(Seq<char>, Seq<usize>)>, bool)
    decreases pieces.len(),
{
    if pieces.len() == 0 {
        (sents, ind, learned)
    } else {
        let step = learn_sentence(sents, ind, pieces[0]);
        learn_line(step.0, step.1, pieces.drop_first(), learned || step.2)
    }
}

impl Dictionary {
    /// Clears the index, sorts all sentences case-insensitively, and
    /// re-derives the full index from scratch in sentence order. The only
    /// operation that reorders `sentences`, so positions recorded before a
    /// rebuild are invalidated by it.
    pub fn rebuild_indices(&mut self)
        ensures
            sorted_by_lower(final(self).sents()),
            final(self).sents().to_multiset() == old(self).sents().to_multiset(),
            final(self).index() == index_of_sentences(
                final(self).sents(),
                final(self).sents().len() as int,
            ),
            idx_nodup(final(self).index()),
            final(self).index_positions_in_bounds(),
            final(self).index_entries_nonempty(),
            final(self).index_keys_unique(),
            sorted_by_lower(old(self).sents()) ==> final(self).sents() == old(self).sents(),
    {
        self.reset_indices();
        sort_sentences(&mut self.sentences);
        let ghost sents0: Seq<Seq<char>> = self.sents();
        let mut indices: Indices = Vec::new();
        proof {
            assert(indices.deep_view() =~= Seq::<(Seq<char>, Seq<usize>)>::empty());
        }
        let mut i: usize = 0;
        while i < self.sentences.len()
            invariant
                i <= self.sentences@.len(),
                sents0 == self.sents(),
                sents0.len() == self.sentences@.len(),
                indices.deep_view() == index_of_sentences(sents0, i as int),
            decreases self.sentences@.len() - i,
        {
            proof {
                lemma_vec_deep_view_index(self.sentences);
            }
            let lower: String = to_lowercase(self.sentences[i].as_str());
            let ws: Vec<String> = split_words(lower.as_str());
            let ghost wsv: Seq<Seq<char>> = ws.deep_view();
            let ghost ind_i: Seq<(Seq<char>, Seq<usize>)> = indices.deep_view();
            proof {
                assert(wsv == words_of(lower_of(sents0[i as int])));
                assert(wsv.skip(0) =~= wsv);
            }
            let mut k: usize = 0;
            while k < ws.len()
                invariant
                    k <= wsv.len(),
                    wsv == ws.deep_view(),
                    wsv.len() == ws@.len(),
                    index_add_words(indices.deep_view(), wsv.skip(k as int), i as usize)
                        == index_add_words(ind_i, wsv, i as usize),
                decreases wsv.len() - k,
            {
                proof {
                    lemma_vec_deep_view_index(ws);
                    assert(wsv.skip(k as int)[0] == wsv[k as int]);
                    assert(wsv.skip(k as int).drop_first() =~= wsv.skip(k as int + 1));
                }
                insert_word_into_indices(&mut indices, ws[k].as_str(), i);
                k += 1;
            }
            proof {
                assert(wsv.skip(wsv.len() as int) =~= Seq::<Seq<char>>::empty());
            }
            i += 1;
        }
        self.indices = indices;
        proof {
            lemma_index_of_sentences_nodup(sents0, sents0.len() as int);
            lemma_index_of_sentences_bounds(sents0, sents0.len() as int);
            lemma_index_of_sentences_shape(sents0, sents0.len() as int);
        }
    }

    /// Learns a line: lower-cases it, splits it into sentences, and appends
    /// each sentence the binary search does not already find, indexing its
    /// words at the appended position. Returns whether anything new was
    /// stored. The sentence list is not re-sorted, so the search can miss
    /// sentences appended since the last rebuild.
    pub fn learn(&mut self, line: &str) -> (r: bool)
        ensures
            ({
                let step = learn_line(
                    old(self).sents(),
                    old(self).index(),
                    sentences_of(lower_of(line@)),
                    false,
                );
                final(self).sents() == step.0 && final(self).index() == step.1 && r == step.2
            }),
            idx_nodup(old(self).index()) ==> idx_nodup(final(self).index()),
            idx_entries_nonempty(old(self).index()) ==> idx_entries_nonempty(final(self).index()),
            idx_keys_unique(old(self).index()) ==> idx_keys_unique(final(self).index()),
    {
        let lower: String = to_lowercase(line);
        let pieces: Vec<String> = split_sentences(lower.as_str());
        let ghost piecesv: Seq<Seq<char>> = pieces.deep_view();
        proof {
            assert(piecesv.skip(0) =~= piecesv);
        }
        let mut learned: bool = false;
        let mut i: usize = 0;
        while i < pieces.len()
            invariant
                i <= piecesv.len(),
                piecesv == pieces.deep_view(),
                piecesv.len() == pieces@.len(),
                learn_line(self.sents(), self.index(), piecesv.skip(i as int), learned)
                    == learn_line(
                    old(self).sents(),
                    old(self).index(),
                    piecesv,
                    false,
                ),
            decreases piecesv.len() - i,
        {
            proof {
                lemma_vec_deep_view_index(pieces);
                assert(piecesv.skip(i as int)[0] == piecesv[i as int]);
                assert(piecesv.skip(i as int).drop_first() =~= piecesv.skip(i as int + 1));
            }
            let piece: &String = &pieces[i];
            if !self.knows_sentence(piece.as_str()) {
                let ghost sents_pre: Seq<Seq<char>> = self.sents();
                let ghost ind_pre: Seq<(Seq<char>, Seq<usize>)> = self.index();
                let sentence_index: usize = self.sentences.len();
                push_str(&mut self.sentences, piece.clone());
                let ws: Vec<String> = split_words(piece.as_str());
                let ghost wsv: Seq<Seq<char>> = ws.deep_view();
                proof {
                    assert(wsv.skip(0) =~= wsv);
                }
                let mut k: usize = 0;
                while k < ws.len()
                    invariant
                        k <= wsv.len(),
                        wsv == ws.deep_view(),
                        wsv.len() == ws@.len(),
                        index_add_words(self.index(), wsv.skip(k as int), sentence_index)
                            == index_add_words(ind_pre, wsv, sentence_index),
                        self.sents() == sents_pre.push(piecesv[i as int]),
                    decreases wsv.len() - k,
                {
                    proof {
                        lemma_vec_deep_view_index(ws);
                        assert(wsv.skip(k as int)[0] == wsv[k as int]);
                        assert(wsv.skip(k as int).drop_first() =~= wsv.skip(k as int + 1));
                    }
                    insert_word_into_indices(&mut self.indices, ws[k].as_str(), sentence_index);
                    k += 1;
                }
                proof {
                    assert(wsv.skip(wsv.len() as int) =~= Seq::<Seq<char>>::empty());
                }
                learned = true;
            }
            i += 1;
        }
        proof {
            assert(piecesv.skip(piecesv.len() as int) =~= Seq::<Seq<char>>::empty());
            if idx_nodup(old(self).index()) {
                lemma_learn_line_nodup(
                    old(self).sents(),
                    old(self).index(),
                    sentences_of(lower_of(line@)),
                    false,
                );
            }
            if idx_entries_nonempty(old(self).index()) {
                lemma_learn_line_nonempty(
                    old(self).sents(),
                    old(self).index(),
                    sentences_of(lower_of(line@)),
                    false,
                );
            }
            if idx_keys_unique(old(self).index()) {
                lemma_learn_line_keys_unique(
                    old(self).sents(),
                    old(self).index(),
                    sentences_of(lower_of(line@)),
                    false,
                );
            }
        }
        learned
    }
}

/// The words of `ws` that the index knows, in order.
pub open spec fn known_filter(
    ind: Seq<(Seq<char>, Seq<usize>)>,
    ws: Seq<Seq<char>>,
) -> Seq<Seq<char>>
    decreases ws.len(),
{
    if ws.len() == 0 {
        Seq::empty()
    } else {
        let rest = known_filter(ind, ws.drop_last());
        if idx_pos(ind, ws.last()) is Some {
            rest.push(ws.last())
        } else {
            rest
        }
    }
}

/// The words of `line` (lower-cased and tokenized) that the index knows.
pub open spec fn spec_known_words(
    ind: Seq<(Seq<char>, Seq<usize>)>,
    line: Seq<char>,
) -> Seq<Seq<char>> {
    known_filter(ind, words_of(lower_of(line)))
}

/// The distinct members of `ws`, each kept at its first occurrence.
pub open spec fn dedup_keep_first(ws: Seq<Seq<char>>) -> Seq<Seq<char>>
    decreases ws.len(),
{
    if ws.len() == 0 {
        Seq::empty()
    } else {
        let rest = dedup_keep_first(ws.drop_last());
        if ws.drop_last().contains(ws.last()) {
            rest
        } else {
            rest.push(ws.last())
        }
    }
}

/// Deduplication keeps exactly the members.
pub proof fn lemma_dedup_contains(ws: Seq<Seq<char>>, x: Seq<char>)
    ensures
        dedup_keep_first(ws).contains(x) == ws.contains(x),
    decreases ws.len(),
{
    if ws.len() > 0 {
        lemma_dedup_contains(ws.drop_last(), x);
        crate::text::lemma_seq_contains_drop_last(ws, x);
        let rest = dedup_keep_first(ws.drop_last());
        if !ws.drop_last().contains(ws.last()) {
            crate::text::lemma_seq_contains_push(rest, ws.last(), x);
        }
    }
}

/// What `respond_to` answers for the given draws: nothing when no word of
/// the line is known; otherwise the word draw picks a pivot among the
/// distinct known words, and the sentence draw picks one of the sentences
/// recorded for that pivot, returned verbatim.
pub open spec fn spec_respond(
    d: Dictionary,
    line: Seq<char>,
    word_draw: u64,
    sentence_draw: u64,
) -> Option<Seq<char>> {
    let known = dedup_keep_first(spec_known_words(d.index(), line));
    if known.len() == 0 {
        None
    } else {
        let pivot = known[word_draw as int % known.len() as int];
        match idx_pos(d.index(), pivot) {
            Some(q) => {
                let positions = d.index()[q].1;
                if positions.len() == 0 {
                    None
                } else {
                    Some(
                        d.sents()[positions[sentence_draw as int % positions.len() as int] as int],
                    )
                }
            },
            None => None,
        }
    }
}

/// Whether some string of `v` holds the characters of `w`.
fn contains_str(v: &Vec<String>, w: &str) -> (r: bool)
    ensures
        r == v.deep_view().contains(w@),
{
    proof {
        lemma_vec_deep_view_index(*v);
    }
    let mut i: usize = 0;
    while i < v.len()
        invariant
            i <= v@.len(),
            v.deep_view().len() == v@.len(),
            forall|j: int| 0 <= j < i ==> v.deep_view()[j] != w@,
        decreases v@.len() - i,
    {
        proof {
            lemma_vec_deep_view_index(*v);
        }
        if str_eq(v[i].as_str(), w) {
            proof {
                assert(v.deep_view()[i as int] == w@);
            }
            return true;
        }
        i += 1;
    }
    proof {
        if v.deep_view().contains(w@) {
            let j = choose|j: int| 0 <= j < v.deep_view().len() && v.deep_view()[j] == w@;
            assert(v.deep_view()[j] != w@);
        }
    }
    false
}

/// The distinct strings of `v`, each kept at its first occurrence.
fn dedup_strings(v: &Vec<String>) -> (r: Vec<String>)
    ensures
        r.deep_view() == dedup_keep_first(v.deep_view()),
{
    proof {
        lemma_vec_deep_view_index(*v);
    }
    let ghost all: Seq<Seq<char>> = v.deep_view();
    let mut result: Vec<String> = Vec::new();
    proof {
        assert(all.take(0) =~= Seq::<Seq<char>>::empty());
        assert(result.deep_view() =~= Seq::<Seq<char>>::empty());
    }
    let mut i: usize = 0;
    while i < v.len()
        invariant
            i <= all.len(),
            all == v.deep_view(),
            all.len() == v@.len(),
            result.deep_view() == dedup_keep_first(all.take(i as int)),
        decreases all.len() - i,
    {
        proof {
            lemma_vec_deep_view_index(*v);
            assert(all.take(i as int + 1).drop_last() =~= all.take(i as int));
            assert(all.take(i as int + 1).last() == all[i as int]);
            lemma_dedup_contains(all.take(i as int), all[i as int]);
        }
        if !contains_str(&result, v[i].as_str()) {
            push_str(&mut result, v[i].clone());
        }
        i += 1;
    }
    proof {
        assert(all.take(all.len() as int) =~= all);
    }
    result
}

impl Dictionary {
    /// The distinct occurrences, in order, of words of `line` (lower-cased,
    /// punctuation-stripped) that the index knows.
    pub fn known_words(&self, line: &str) -> (r: Vec<String>)
        ensures
            r.deep_view() == spec_known_words(self.index(), line@),
    {
        let lower: String = to_lowercase(line);
        let ws: Vec<String> = split_words(lower.as_str());
        let ghost wsv: Seq<Seq<char>> = ws.deep_view();
        let mut result: Vec<String> = Vec::new();
        proof {
            assert(wsv.take(0) =~= Seq::<Seq<char>>::empty());
            assert(result.deep_view() =~= Seq::<Seq<char>>::empty());
        }
        let mut k: usize = 0;
        while k < ws.len()
            invariant
                k <= wsv.len(),
                wsv == ws.deep_view(),
                wsv.len() == ws@.len(),
                result.deep_view() == known_filter(self.index(), wsv.take(k as int)),
                self.index() == self.indices.deep_view(),
            decreases wsv.len() - k,
        {
            proof {
                lemma_vec_deep_view_index(ws);
                assert(wsv.take(k as int + 1).drop_last() =~= wsv.take(k as int));
                assert(wsv.take(k as int + 1).last() == wsv[k as int]);
            }
            if self.knows_word(ws[k].as_str()) {
                push_str(&mut result, ws[k].clone());
            }
            k += 1;
        }
        proof {
            assert(wsv.take(wsv.len() as int) =~= wsv);
        }
        result
    }

    /// The sentences recorded for `word`, in recorded order; empty for an
    /// unknown word.
    pub fn sentences_with_word(&self, word: &str) -> (r: Vec<String>)
        requires
            self.index_positions_in_bounds(),
        ensures
            ({
                let expected = match idx_pos(self.index(), word@) {
                    Some(q) => self.index()[q].1.map_values(|p: usize| self.sents()[p as int]),
                    None => Seq::<Seq<char>>::empty(),
                };
                r.deep_view() == expected
            }),
    {
        let mut result: Vec<String> = Vec::new();
        proof {
            assert(result.deep_view() =~= Seq::<Seq<char>>::empty());
        }
        match find_word_entry(&self.indices, word) {
            Some(q) => {
                proof {
                    lemma_vec_deep_view_index(self.indices);
                    lemma_vec_deep_view_index(self.sentences);
                    crate::text::lemma_vec_usize_deep_view(self.indices@[q as int].1);
                }
                let ghost positions: Seq<usize> = self.index()[q as int].1;
                let mut k: usize = 0;
                while k < self.indices[q].1.len()
                    invariant
                        q < self.indices@.len(),
                        positions == self.index()[q as int].1,
                        positions == self.indices@[q as int].1@,
                        self.index_positions_in_bounds(),
                        self.index() == self.indices.deep_view(),
                        k <= positions.len(),
                        result.deep_view() == positions.take(k as int).map_values(
                            |p: usize| self.sents()[p as int],
                        ),
                    decreases positions.len() - k,
                {
                    proof {
                        lemma_vec_deep_view_index(self.sentences);
                    }
                    let p: usize = self.indices[q].1[k];
                    push_str(&mut result, self.sentences[p].clone());
                    proof {
                        assert(positions.take(k as int + 1) =~= positions.take(k as int).push(
                            positions[k as int],
                        ));
                        assert(result.deep_view() =~= positions.take(k as int + 1).map_values(
                            |pp: usize| self.sents()[pp as int],
                        ));
                    }
                    k += 1;
                }
                proof {
                    assert(positions.take(positions.len() as int) =~= positions);
                }
            },
            None => {},
        }
        result
    }

    /// Picks a response for `line`, fully determined by the dictionary
    /// state and the two draws: the word draw picks a pivot among the
    /// distinct known words of the line, the sentence draw picks one of
    /// the sentences recorded for the pivot, and that sentence is returned
    /// verbatim. No known word is a normal "nothing to say", not an error.
    pub fn respond_to(&self, line: &str, word_draw: u64, sentence_draw: u64) -> (r: Option<String>)
        requires
            self.index_positions_in_bounds(),
            self.index_entries_nonempty(),
        ensures
            r is Some <==> spec_respond(*self, line@, word_draw, sentence_draw) is Some,
            r matches Some(s) ==> Some(s@) == spec_respond(*self, line@, word_draw, sentence_draw),
            r is Some <==> dedup_keep_first(spec_known_words(self.index(), line@)).len() > 0,
    {
        let all_known: Vec<String> = self.known_words(line);
        let known: Vec<String> = dedup_strings(&all_known);
        let ghost knownv: Seq<Seq<char>> = known.deep_view();
        proof {
            assert(knownv == dedup_keep_first(spec_known_words(self.index(), line@)));
        }
        if known.len() == 0 {
            proof {
                assert(knownv.len() == 0);
            }
            return None;
        }
        proof {
            lemma_vec_deep_view_index(known);
        }
        let wi: usize = (word_draw % (known.len() as u64)) as usize;
        let pivot: &String = &known[wi];
        proof {
            assert(pivot@ == knownv[wi as int]);
            assert(wi as int == word_draw as int % knownv.len() as int);
        }
        match find_word_entry(&self.indices, pivot.as_str()) {
            Some(q) => {
                proof {
                    lemma_vec_deep_view_index(self.indices);
                    crate::text::lemma_vec_usize_deep_view(self.indices@[q as int].1);
                    lemma_vec_deep_view_index(self.sentences);
                }
                let npos: usize = self.indices[q].1.len();
                proof {
                    assert(self.index()[q as int].1.len() > 0);
                    assert(npos > 0);
                }
                let si: usize = (sentence_draw % (npos as u64)) as usize;
                let p: usize = self.indices[q].1[si];
                proof {
                    assert(self.index()[q as int].1[si as int] == p);
                    assert(si as int == sentence_draw as int % self.index()[q as int].1.len() as int);
                }
                Some(self.sentences[p].clone())
            },
            None => {
                proof {
                    assert(knownv[wi as int] == pivot@);
                    assert(knownv.contains(pivot@));
                    lemma_dedup_contains(spec_known_words(self.index(), line@), pivot@);
                    lemma_known_filter_indexed(self.index(), words_of(lower_of(line@)), pivot@);
                    assert(false);
                }
                None
            },
        }
    }
}

/// Every position of every entry of `ind` is below `bound`.
pub open spec fn idx_in_bounds(ind: Seq<(Seq<char>, Seq<usize>)>, bound: int) -> bool {
    forall|j: int, k: int|
        0 <= j < ind.len() && 0 <= k < ind[j].1.len() ==> (ind[j].1[k] as int) < bound
}

/// Every entry of `ind` records at least one position: an indexed word
/// occurs somewhere.
pub open spec fn idx_entries_nonempty(ind: Seq<(Seq<char>, Seq<usize>)>) -> bool {
    forall|j: int| 0 <= j < ind.len() ==> ind[j].1.len() > 0
}

/// No two entries of `ind` carry the same word.
pub open spec fn idx_keys_unique(ind: Seq<(Seq<char>, Seq<usize>)>) -> bool {
    forall|a: int, b: int| 0 <= a < b < ind.len() ==> ind[a].0 != ind[b].0
}

/// No entry of `ind` records the same position twice.
pub open spec fn idx_nodup(ind: Seq<(Seq<char>, Seq<usize>)>) -> bool {
    forall|j: int, a: int, b: int|
        0 <= j < ind.len() && 0 <= a < b < ind[j].1.len() ==> ind[j].1[a] != ind[j].1[b]
}

/// Whether the index records position `p` for word `w`.
pub open spec fn idx_contains_pos(
    ind: Seq<(Seq<char>, Seq<usize>)>,
    w: Seq<char>,
    p: usize,
) -> bool {
    match idx_pos(ind, w) {
        Some(q) => ind[q].1.contains(p),
        None => false,
    }
}

/// A found entry position is in range and carries the word searched for; a
/// miss means no entry carries it.
pub proof fn lemma_idx_pos_properties(ind: Seq<(Seq<char>, Seq<usize>)>, w: Seq<char>)
    ensures
        idx_pos(ind, w) matches Some(q) ==> 0 <= q < ind.len() && ind[q].0 == w,
        idx_pos(ind, w) is None ==> forall|j: int| 0 <= j < ind.len() ==> ind[j].0 != w,
    decreases ind.len(),
{
    if ind.len() > 0 && ind[0].0 != w {
        lemma_idx_pos_properties(ind.drop_first(), w);
        assert forall|j: int| 1 <= j < ind.len() implies ind[j] == ind.drop_first()[j - 1] by {}
    }
}

/// Replacing an entry with one under the same word moves no lookup.
pub proof fn lemma_idx_pos_update_same_key(
    ind: Seq<(Seq<char>, Seq<usize>)>,
    q: int,
    e: (Seq<char>, Seq<usize>),
    w: Seq<char>,
)
    requires
        0 <= q < ind.len(),
        e.0 == ind[q].0,
    ensures
        idx_pos(ind.update(q, e), w) == idx_pos(ind, w),
    decreases ind.len(),
{
    let u = ind.update(q, e);
    if q == 0 {
        assert(u.drop_first() =~= ind.drop_first());
    } else {
        assert(u[0] == ind[0]);
        assert(u.drop_first() =~= ind.drop_first().update(q - 1, e));
        lemma_idx_pos_update_same_key(ind.drop_first(), q - 1, e, w);
    }
}

/// Appending an entry changes a lookup only for its own, previously
/// unknown, word, which it sends to the appended position.
pub proof fn lemma_idx_pos_push(
    ind: Seq<(Seq<char>, Seq<usize>)>,
    e: (Seq<char>, Seq<usize>),
    w: Seq<char>,
)
    ensures
        idx_pos(ind, w) matches Some(q) ==> idx_pos(ind.push(e), w) == Some(q),
        idx_pos(ind, w) is None && e.0 == w ==> idx_pos(ind.push(e), w) == Some(
            ind.len() as int,
        ),
        idx_pos(ind, w) is None && e.0 != w ==> idx_pos(ind.push(e), w) is None,
    decreases ind.len(),
{
    let u = ind.push(e);
    if ind.len() == 0 {
        assert(u[0] == e);
        assert(u.drop_first() =~= Seq::<(Seq<char>, Seq<usize>)>::empty());
        assert(idx_pos(Seq::<(Seq<char>, Seq<usize>)>::empty(), w) is None);
    } else {
        assert(u[0] == ind[0]);
        assert(u.drop_first() =~= ind.drop_first().push(e));
        lemma_idx_pos_push(ind.drop_first(), e, w);
    }
}

/// A pushed position is recorded, everything else is untouched: recording
/// `p` for `w` makes `(w, p)` present and leaves every other word-position
/// pair exactly as it was.
pub proof fn lemma_insert_word_membership(
    ind: Seq<(Seq<char>, Seq<usize>)>,
    w: Seq<char>,
    p: usize,
    w2: Seq<char>,
    p2: usize,
)
    ensures
        idx_contains_pos(spec_insert_word(ind, w, p), w2, p2) == (idx_contains_pos(ind, w2, p2)
            || (w2 == w && p2 == p)),
{
    lemma_idx_pos_properties(ind, w);
    lemma_idx_pos_properties(ind, w2);
    match idx_pos(ind, w) {
        Some(q) => {
            if ind[q].1.contains(p) {
            } else {
                let e = (ind[q].0, ind[q].1.push(p));
                let u = ind.update(q, e);
                lemma_idx_pos_update_same_key(ind, q, e, w2);
                lemma_idx_pos_properties(u, w2);
                match idx_pos(ind, w2) {
                    Some(q2) => {
                        if q2 == q {
                            assert(w2 == w);
                            assert(u[q].1 == ind[q].1.push(p));
                            assert forall|x: usize| #[trigger]
                                u[q].1.contains(x) == (ind[q].1.contains(x) || x == p) by {
                                if ind[q].1.contains(x) {
                                    let i = choose|i: int|
                                        0 <= i < ind[q].1.len() && ind[q].1[i] == x;
                                    assert(u[q].1[i] == x);
                                } else if x == p {
                                    assert(u[q].1[ind[q].1.len() as int] == x);
                                } else if u[q].1.contains(x) {
                                    let i = choose|i: int|
                                        0 <= i < u[q].1.len() && u[q].1[i] == x;
                                    if i < ind[q].1.len() {
                                        assert(ind[q].1[i] == x);
                                    }
                                }
                            }
                        } else {
                            assert(u[q2] == ind[q2]);
                            assert(ind[q2].0 == w2);
                            assert(ind[q].0 == w);
                        }
                    },
                    None => {},
                }
            }
        },
        None => {
            let e = (w, seq![p]);
            let u = ind.push(e);
            lemma_idx_pos_push(ind, e, w2);
            match idx_pos(ind, w2) {
                Some(q2) => {
                    assert(u[q2] == ind[q2]);
                },
                None => {
                    if w2 == w {
                        assert(u[ind.len() as int].1 == seq![p]);
                        assert forall|x: usize| #[trigger]
                            seq![p].contains(x) == (x == p) by {
                            if seq![p].contains(x) {
                                let i = choose|i: int| 0 <= i < seq![p].len() && seq![p][i] == x;
                                assert(i == 0);
                            } else if x == p {
                                assert(seq![p][0] == x);
                            }
                        }
                    }
                },
            }
        },
    }
}

/// Recording a word list at position `p` records exactly those words at
/// `p`, on top of what was already recorded.
pub proof fn lemma_index_add_words_membership(
    ind: Seq<(Seq<char>, Seq<usize>)>,
    ws: Seq<Seq<char>>,
    p: usize,
    w2: Seq<char>,
    p2: usize,
)
    ensures
        idx_contains_pos(index_add_words(ind, ws, p), w2, p2) == (idx_contains_pos(ind, w2, p2)
            || (ws.contains(w2) && p2 == p)),
    decreases ws.len(),
{
    if ws.len() == 0 {
    } else {
        lemma_insert_word_membership(ind, ws[0], p, w2, p2);
        lemma_index_add_words_membership(spec_insert_word(ind, ws[0], p), ws.drop_first(), p, w2, p2);
        assert(ws.contains(w2) == (ws[0] == w2 || ws.drop_first().contains(w2))) by {
            if ws.contains(w2) {
                let i = choose|i: int| 0 <= i < ws.len() && ws[i] == w2;
                if i > 0 {
                    assert(ws.drop_first()[i - 1] == w2);
                }
            } else {
                if ws.drop_first().contains(w2) {
                    let i = choose|i: int|
                        0 <= i < ws.drop_first().len() && ws.drop_first()[i] == w2;
                    assert(ws[i + 1] == w2);
                }
            }
        }
    }
}

/// The index derived for the first `n` sentences records a pair `(w, p)`
/// exactly when `p` is below `n` and `w` is a token of sentence `p`'s
/// lower-case form.
pub proof fn lemma_index_of_sentences_membership(
    sents: Seq<Seq<char>>,
    n: int,
    w: Seq<char>,
    p: usize,
)
    requires
        0 <= n <= usize::MAX,
    ensures
        idx_contains_pos(index_of_sentences(sents, n), w, p) == ((p as int) < n && words_of(
            lower_of(sents[p as int]),
        ).contains(w)),
    decreases n,
{
    if n > 0 {
        lemma_index_of_sentences_membership(sents, n - 1, w, p);
        lemma_index_add_words_membership(
            index_of_sentences(sents, n - 1),
            words_of(lower_of(sents[n - 1])),
            (n - 1) as usize,
            w,
            p,
        );
    } else {
        assert(idx_pos(Seq::<(Seq<char>, Seq<usize>)>::empty(), w) is None);
    }
}

/// Recording a position never duplicates one: the no-duplicate invariant
/// of the index survives every insertion.
pub proof fn lemma_insert_word_nodup(ind: Seq<(Seq<char>, Seq<usize>)>, w: Seq<char>, p: usize)
    requires
        idx_nodup(ind),
    ensures
        idx_nodup(spec_insert_word(ind, w, p)),
{
    lemma_idx_pos_properties(ind, w);
    match idx_pos(ind, w) {
        Some(q) => {
            if ind[q].1.contains(p) {
            } else {
                let u = ind.update(q, (ind[q].0, ind[q].1.push(p)));
                assert forall|j: int, a: int, b: int|
                    0 <= j < u.len() && 0 <= a < b < u[j].1.len() implies u[j].1[a] != u[j].1[b] by {
                    if j == q {
                        if b == ind[q].1.len() {
                            assert(u[j].1[b] == p);
                            assert(u[j].1[a] == ind[q].1[a]);
                            if ind[q].1[a] == p {
                                assert(ind[q].1.contains(p));
                            }
                        } else {
                            assert(u[j].1[a] == ind[q].1[a]);
                            assert(u[j].1[b] == ind[q].1[b]);
                        }
                    } else {
                        assert(u[j] == ind[j]);
                    }
                }
            }
        },
        None => {
            let u = ind.push((w, seq![p]));
            assert forall|j: int, a: int, b: int|
                0 <= j < u.len() && 0 <= a < b < u[j].1.len() implies u[j].1[a] != u[j].1[b] by {
                if j < ind.len() {
                    assert(u[j] == ind[j]);
                } else {
                    assert(u[j].1.len() == 1);
                }
            }
        },
    }
}

/// Recording a word list keeps the index free of duplicate positions.
pub proof fn lemma_index_add_words_nodup(
    ind: Seq<(Seq<char>, Seq<usize>)>,
    ws: Seq<Seq<char>>,
    p: usize,
)
    requires
        idx_nodup(ind),
    ensures
        idx_nodup(index_add_words(ind, ws, p)),
    decreases ws.len(),
{
    if ws.len() > 0 {
        lemma_insert_word_nodup(ind, ws[0], p);
        lemma_index_add_words_nodup(spec_insert_word(ind, ws[0], p), ws.drop_first(), p);
    }
}

/// A derived index never records a duplicate position for a word.
pub proof fn lemma_index_of_sentences_nodup(sents: Seq<Seq<char>>, n: int)
    ensures
        idx_nodup(index_of_sentences(sents, n)),
    decreases n,
{
    if n > 0 {
        lemma_index_of_sentences_nodup(sents, n - 1);
        lemma_index_add_words_nodup(
            index_of_sentences(sents, n - 1),
            words_of(lower_of(sents[n - 1])),
            (n - 1) as usize,
        );
    }
}

/// Recording a position never creates an empty entry.
pub proof fn lemma_insert_word_nonempty(ind: Seq<(Seq<char>, Seq<usize>)>, w: Seq<char>, p: usize)
    requires
        idx_entries_nonempty(ind),
    ensures
        idx_entries_nonempty(spec_insert_word(ind, w, p)),
{
    lemma_idx_pos_properties(ind, w);
    match idx_pos(ind, w) {
        Some(q) => {
            if !ind[q].1.contains(p) {
                let u = ind.update(q, (ind[q].0, ind[q].1.push(p)));
                assert forall|j: int| 0 <= j < u.len() implies u[j].1.len() > 0 by {
                    if j != q {
                        assert(u[j] == ind[j]);
                    }
                }
            }
        },
        None => {
            let u = ind.push((w, seq![p]));
            assert forall|j: int| 0 <= j < u.len() implies u[j].1.len() > 0 by {
                if j < ind.len() {
                    assert(u[j] == ind[j]);
                } else {
                    assert(u[j].1 == seq![p]);
                }
            }
        },
    }
}

/// Recording a position never duplicates a word's entry.
pub proof fn lemma_insert_word_keys_unique(
    ind: Seq<(Seq<char>, Seq<usize>)>,
    w: Seq<char>,
    p: usize,
)
    requires
        idx_keys_unique(ind),
    ensures
        idx_keys_unique(spec_insert_word(ind, w, p)),
{
    lemma_idx_pos_properties(ind, w);
    match idx_pos(ind, w) {
        Some(q) => {
            if !ind[q].1.contains(p) {
                let u = ind.update(q, (ind[q].0, ind[q].1.push(p)));
                assert forall|a: int, b: int| 0 <= a < b < u.len() implies u[a].0 != u[b].0 by {
                    assert(u[a].0 == ind[a].0);
                    assert(u[b].0 == ind[b].0);
                }
            }
        },
        None => {
            let u = ind.push((w, seq![p]));
            assert forall|a: int, b: int| 0 <= a < b < u.len() implies u[a].0 != u[b].0 by {
                if b < ind.len() {
                    assert(u[a] == ind[a]);
                    assert(u[b] == ind[b]);
                } else {
                    assert(u[a] == ind[a]);
                    assert(u[b].0 == w);
                    assert(ind[a].0 != w);
                }
            }
        },
    }
}

/// Recording a word list keeps entries nonempty and words unduplicated.
pub proof fn lemma_index_add_words_shape(
    ind: Seq<(Seq<char>, Seq<usize>)>,
    ws: Seq<Seq<char>>,
    p: usize,
)
    requires
        idx_entries_nonempty(ind),
        idx_keys_unique(ind),
    ensures
        idx_entries_nonempty(index_add_words(ind, ws, p)),
        idx_keys_unique(index_add_words(ind, ws, p)),
    decreases ws.len(),
{
    if ws.len() > 0 {
        lemma_insert_word_nonempty(ind, ws[0], p);
        lemma_insert_word_keys_unique(ind, ws[0], p);
        lemma_index_add_words_shape(spec_insert_word(ind, ws[0], p), ws.drop_first(), p);
    }
}

/// A derived index has no empty entry and no duplicate word.
pub proof fn lemma_index_of_sentences_shape(sents: Seq<Seq<char>>, n: int)
    ensures
        idx_entries_nonempty(index_of_sentences(sents, n)),
        idx_keys_unique(index_of_sentences(sents, n)),
    decreases n,
{
    if n > 0 {
        lemma_index_of_sentences_shape(sents, n - 1);
        lemma_index_add_words_shape(
            index_of_sentences(sents, n - 1),
            words_of(lower_of(sents[n - 1])),
            (n - 1) as usize,
        );
    }
}

/// Learning keeps index entries nonempty and words unduplicated.
pub proof fn lemma_learn_line_nonempty(
    sents: Seq<Seq<char>>,
    ind: Seq<(Seq<char>, Seq<usize>)>,
    pieces: Seq<Seq<char>>,
    learned: bool,
)
    requires
        idx_entries_nonempty(ind),
    ensures
        idx_entries_nonempty(learn_line(sents, ind, pieces, learned).1),
    decreases pieces.len(),
{
    if pieces.len() > 0 {
        let step = learn_sentence(sents, ind, pieces[0]);
        if !spec_bsearch(sents, pieces[0], 0, sents.len() as int) {
            lemma_learn_nonempty_helper(ind, words_of(pieces[0]), sents.len() as usize);
        }
        lemma_learn_line_nonempty(step.0, step.1, pieces.drop_first(), learned || step.2);
    }
}

/// Helper: recording a word list preserves nonempty entries alone.
proof fn lemma_learn_nonempty_helper(
    ind: Seq<(Seq<char>, Seq<usize>)>,
    ws: Seq<Seq<char>>,
    p: usize,
)
    requires
        idx_entries_nonempty(ind),
    ensures
        idx_entries_nonempty(index_add_words(ind, ws, p)),
    decreases ws.len(),
{
    if ws.len() > 0 {
        lemma_insert_word_nonempty(ind, ws[0], p);
        lemma_learn_nonempty_helper(spec_insert_word(ind, ws[0], p), ws.drop_first(), p);
    }
}

/// Learning never duplicates a word's entry.
pub proof fn lemma_learn_line_keys_unique(
    sents: Seq<Seq<char>>,
    ind: Seq<(Seq<char>, Seq<usize>)>,
    pieces: Seq<Seq<char>>,
    learned: bool,
)
    requires
        idx_keys_unique(ind),
    ensures
        idx_keys_unique(learn_line(sents, ind, pieces, learned).1),
    decreases pieces.len(),
{
    if pieces.len() > 0 {
        let step = learn_sentence(sents, ind, pieces[0]);
        if !spec_bsearch(sents, pieces[0], 0, sents.len() as int) {
            lemma_learn_unique_helper(ind, words_of(pieces[0]), sents.len() as usize);
        }
        lemma_learn_line_keys_unique(step.0, step.1, pieces.drop_first(), learned || step.2);
    }
}

/// Helper: recording a word list preserves unduplicated words alone.
proof fn lemma_learn_unique_helper(
    ind: Seq<(Seq<char>, Seq<usize>)>,
    ws: Seq<Seq<char>>,
    p: usize,
)
    requires
        idx_keys_unique(ind),
    ensures
        idx_keys_unique(index_add_words(ind, ws, p)),
    decreases ws.len(),
{
    if ws.len() > 0 {
        lemma_insert_word_keys_unique(ind, ws[0], p);
        lemma_learn_unique_helper(spec_insert_word(ind, ws[0], p), ws.drop_first(), p);
    }
}

/// Every word the filter keeps is indexed.
pub proof fn lemma_known_filter_indexed(
    ind: Seq<(Seq<char>, Seq<usize>)>,
    ws: Seq<Seq<char>>,
    x: Seq<char>,
)
    requires
        known_filter(ind, ws).contains(x),
    ensures
        idx_pos(ind, x) is Some,
    decreases ws.len(),
{
    if ws.len() > 0 {
        let rest = known_filter(ind, ws.drop_last());
        if idx_pos(ind, ws.last()) is Some {
            crate::text::lemma_seq_contains_push(rest, ws.last(), x);
            if x != ws.last() {
                lemma_known_filter_indexed(ind, ws.drop_last(), x);
            }
        } else {
            lemma_known_filter_indexed(ind, ws.drop_last(), x);
        }
    }
}

/// A word list deduplicates to something exactly when it has something.
pub proof fn lemma_dedup_nonempty(ws: Seq<Seq<char>>)
    ensures
        (dedup_keep_first(ws).len() > 0) == (ws.len() > 0),
{
    if ws.len() > 0 {
        lemma_dedup_contains(ws, ws[0]);
        assert(ws.contains(ws[0]));
        assert(dedup_keep_first(ws).contains(ws[0]));
    }
}

/// Recording a position below `bound` keeps all positions below `bound`.
pub proof fn lemma_insert_word_bounds(
    ind: Seq<(Seq<char>, Seq<usize>)>,
    w: Seq<char>,
    p: usize,
    bound: int,
)
    requires
        idx_in_bounds(ind, bound),
        (p as int) < bound,
    ensures
        idx_in_bounds(spec_insert_word(ind, w, p), bound),
{
    lemma_idx_pos_properties(ind, w);
    match idx_pos(ind, w) {
        Some(q) => {
            if !ind[q].1.contains(p) {
                let u = ind.update(q, (ind[q].0, ind[q].1.push(p)));
                assert forall|j: int, k: int|
                    0 <= j < u.len() && 0 <= k < u[j].1.len() implies (u[j].1[k] as int)
                    < bound by {
                    if j == q {
                        if k < ind[q].1.len() {
                            assert(u[j].1[k] == ind[q].1[k]);
                        } else {
                            assert(u[j].1[k] == p);
                        }
                    } else {
                        assert(u[j] == ind[j]);
                    }
                }
            }
        },
        None => {
            let u = ind.push((w, seq![p]));
            assert forall|j: int, k: int|
                0 <= j < u.len() && 0 <= k < u[j].1.len() implies (u[j].1[k] as int) < bound by {
                if j < ind.len() {
                    assert(u[j] == ind[j]);
                } else {
                    assert(u[j].1[k] == p);
                }
            }
        },
    }
}

/// Recording a word list at a position below `bound` keeps all positions
/// below `bound`.
pub proof fn lemma_index_add_words_bounds(
    ind: Seq<(Seq<char>, Seq<usize>)>,
    ws: Seq<Seq<char>>,
    p: usize,
    bound: int,
)
    requires
        idx_in_bounds(ind, bound),
        (p as int) < bound,
    ensures
        idx_in_bounds(index_add_words(ind, ws, p), bound),
    decreases ws.len(),
{
    if ws.len() > 0 {
        lemma_insert_word_bounds(ind, ws[0], p, bound);
        lemma_index_add_words_bounds(spec_insert_word(ind, ws[0], p), ws.drop_first(), p, bound);
    }
}

/// A derived index only points at the sentences it was derived from.
pub proof fn lemma_index_of_sentences_bounds(sents: Seq<Seq<char>>, n: int)
    ensures
        idx_in_bounds(index_of_sentences(sents, n), n),
    decreases n,
{
    if n > 0 {
        lemma_index_of_sentences_bounds(sents, n - 1);
        assert(idx_in_bounds(index_of_sentences(sents, n - 1), n));
        lemma_index_add_words_bounds(
            index_of_sentences(sents, n - 1),
            words_of(lower_of(sents[n - 1])),
            (n - 1) as usize,
            n,
        );
    }
}

/// Learning only ever appends sentences.
pub proof fn lemma_learn_line_len(
    sents: Seq<Seq<char>>,
    ind: Seq<(Seq<char>, Seq<usize>)>,
    pieces: Seq<Seq<char>>,
    learned: bool,
)
    ensures
        learn_line(sents, ind, pieces, learned).0.len() >= sents.len(),
    decreases pieces.len(),
{
    if pieces.len() > 0 {
        let step = learn_sentence(sents, ind, pieces[0]);
        lemma_learn_line_len(step.0, step.1, pieces.drop_first(), learned || step.2);
    }
}

/// Learning keeps every position pointing at a stored sentence.
pub proof fn lemma_learn_line_bounds(
    sents: Seq<Seq<char>>,
    ind: Seq<(Seq<char>, Seq<usize>)>,
    pieces: Seq<Seq<char>>,
    learned: bool,
)
    requires
        idx_in_bounds(ind, sents.len() as int),
        learn_line(sents, ind, pieces, learned).0.len() <= usize::MAX,
    ensures
        ({
            let r = learn_line(sents, ind, pieces, learned);
            idx_in_bounds(r.1, r.0.len() as int)
        }),
    decreases pieces.len(),
{
    if pieces.len() > 0 {
        let step = learn_sentence(sents, ind, pieces[0]);
        lemma_learn_line_len(step.0, step.1, pieces.drop_first(), learned || step.2);
        if spec_bsearch(sents, pieces[0], 0, sents.len() as int) {
            lemma_learn_line_bounds(sents, ind, pieces.drop_first(), learned || step.2);
        } else {
            lemma_index_add_words_bounds(
                ind,
                words_of(pieces[0]),
                sents.len() as usize,
                sents.len() as int + 1,
            );
            lemma_learn_line_bounds(step.0, step.1, pieces.drop_first(), learned || step.2);
        }
    }
}

/// Learning keeps the index free of duplicate positions: the second half
/// of the idempotent-learning property.
pub proof fn lemma_learn_line_nodup(
    sents: Seq<Seq<char>>,
    ind: Seq<(Seq<char>, Seq<usize>)>,
    pieces: Seq<Seq<char>>,
    learned: bool,
)
    requires
        idx_nodup(ind),
    ensures
        idx_nodup(learn_line(sents, ind, pieces, learned).1),
    decreases pieces.len(),
{
    if pieces.len() > 0 {
        let step = learn_sentence(sents, ind, pieces[0]);
        if !spec_bsearch(sents, pieces[0], 0, sents.len() as int) {
            lemma_index_add_words_nodup(ind, words_of(pieces[0]), sents.len() as usize);
        }
        lemma_learn_line_nodup(step.0, step.1, pieces.drop_first(), learned || step.2);
    }
}

/// Learning never removes a sentence.
pub proof fn lemma_learn_line_monotone(
    sents: Seq<Seq<char>>,
    ind: Seq<(Seq<char>, Seq<usize>)>,
    pieces: Seq<Seq<char>>,
    learned: bool,
    x: Seq<char>,
)
    requires
        sents.contains(x),
    ensures
        learn_line(sents, ind, pieces, learned).0.contains(x),
    decreases pieces.len(),
{
    if pieces.len() > 0 {
        let step = learn_sentence(sents, ind, pieces[0]);
        if !spec_bsearch(sents, pieces[0], 0, sents.len() as int) {
            let i = choose|i: int| 0 <= i < sents.len() && sents[i] == x;
            assert(step.0[i] == x);
        }
        lemma_learn_line_monotone(step.0, step.1, pieces.drop_first(), learned || step.2, x);
    }
}

/// After learning, every sentence of the line is stored.
pub proof fn lemma_learn_line_pieces_contained(
    sents: Seq<Seq<char>>,
    ind: Seq<(Seq<char>, Seq<usize>)>,
    pieces: Seq<Seq<char>>,
    learned: bool,
    j: int,
)
    requires
        0 <= j < pieces.len(),
    ensures
        learn_line(sents, ind, pieces, learned).0.contains(pieces[j]),
    decreases pieces.len(),
{
    let step = learn_sentence(sents, ind, pieces[0]);
    if j == 0 {
        if spec_bsearch(sents, pieces[0], 0, sents.len() as int) {
            lemma_bsearch_sound(sents, pieces[0], 0, sents.len() as int);
            lemma_learn_line_monotone(
                step.0,
                step.1,
                pieces.drop_first(),
                learned || step.2,
                pieces[0],
            );
        } else {
            assert(step.0[sents.len() as int] == pieces[0]);
            lemma_learn_line_monotone(
                step.0,
                step.1,
                pieces.drop_first(),
                learned || step.2,
                pieces[0],
            );
        }
    } else {
        lemma_learn_line_pieces_contained(
            step.0,
            step.1,
            pieces.drop_first(),
            learned || step.2,
            j - 1,
        );
        assert(pieces.drop_first()[j - 1] == pieces[j]);
    }
}

/// Learning sentences that are all already stored, on a sorted list,
/// changes nothing and reports nothing learned.
proof fn lemma_relearn(
    sents: Seq<Seq<char>>,
    ind: Seq<(Seq<char>, Seq<usize>)>,
    pieces: Seq<Seq<char>>,
)
    requires
        sorted_lex(sents),
        forall|j: int| 0 <= j < pieces.len() ==> sents.contains(#[trigger] pieces[j]),
    ensures
        learn_line(sents, ind, pieces, false) == (sents, ind, false),
    decreases pieces.len(),
{
    if pieces.len() > 0 {
        assert(sents.contains(pieces[0]));
        let k = choose|k: int| 0 <= k < sents.len() && sents[k] == pieces[0];
        lemma_bsearch_complete(sents, pieces[0], 0, sents.len() as int);
        assert forall|j: int| 0 <= j < pieces.drop_first().len() implies sents.contains(
            #[trigger] pieces.drop_first()[j],
        ) by {
            assert(pieces.drop_first()[j] == pieces[j + 1]);
        }
        lemma_relearn(sents, ind, pieces.drop_first());
    }
}

/// Idempotent learning: learning the same line twice stores each of its
/// sentences only once. If the sentence list is sorted after the first
/// learning (it always is when the first learning changed nothing, and
/// whenever what it appended kept the list sorted), the second learning
/// finds every sentence already stored, changes nothing, and reports
/// nothing learned.
pub proof fn lemma_idempotent_learning(
    sents: Seq<Seq<char>>,
    ind: Seq<(Seq<char>, Seq<usize>)>,
    line: Seq<char>,
)
    requires
        sorted_lex(learn_line(sents, ind, sentences_of(lower_of(line)), false).0),
    ensures
        ({
            let once = learn_line(sents, ind, sentences_of(lower_of(line)), false);
            learn_line(once.0, once.1, sentences_of(lower_of(line)), false) == (
                once.0,
                once.1,
                false,
            )
        }),
{
    let pieces = sentences_of(lower_of(line));
    let once = learn_line(sents, ind, pieces, false);
    assert forall|j: int| 0 <= j < pieces.len() implies once.0.contains(#[trigger] pieces[j]) by {
        lemma_learn_line_pieces_contained(sents, ind, pieces, false, j);
    }
    lemma_relearn(once.0, once.1, pieces);
}

/// Index consistency: when the index is the one derived from the sentences
/// (as `rebuild_indices` leaves it), a position is recorded for a word
/// exactly when the word is a token of the sentence at that position, in
/// both directions.
pub proof fn lemma_index_consistency(d: Dictionary, w: Seq<char>, p: usize)
    requires
        d.index() == index_of_sentences(d.sents(), d.sents().len() as int),
    ensures
        idx_contains_pos(d.index(), w, p) <==> (p as int) < d.sents().len() && words_of(
            lower_of(d.sents()[p as int]),
        ).contains(w),
{
    assert(d.sentences@.len() == d.sentences.len());
    lemma_vec_deep_view_index(d.sentences);
    lemma_index_of_sentences_membership(d.sents(), d.sents().len() as int, w, p);
}

/// Determinism: what `respond_to` answers depends on nothing but the
/// dictionary's sentences and index, the line, and the two draws; two
/// dictionaries in the same state answer the same.
pub proof fn lemma_respond_deterministic(
    d1: Dictionary,
    d2: Dictionary,
    line: Seq<char>,
    word_draw: u64,
    sentence_draw: u64,
)
    requires
        d1.sents() == d2.sents(),
        d1.index() == d2.index(),
    ensures
        spec_respond(d1, line, word_draw, sentence_draw) == spec_respond(
            d2,
            line,
            word_draw,
            sentence_draw,
        ),
{
}

impl Dictionary {
    /// Checks, by scanning the index, that every recorded position points
    /// at a stored sentence and that no entry is empty: a loaded
    /// dictionary that fails this check is malformed.
    pub fn index_well_formed_check(&self) -> (r: bool)
        ensures
            r == (self.index_positions_in_bounds() && self.index_entries_nonempty()),
    {
        proof {
            lemma_vec_deep_view_index(self.indices);
        }
        let mut j: usize = 0;
        while j < self.indices.len()
            invariant
                j <= self.indices@.len(),
                self.index().len() == self.indices@.len(),
                forall|jj: int, k: int|
                    0 <= jj < j && 0 <= k < self.index()[jj].1.len()
                        ==> (self.index()[jj].1[k] as int) < self.sents().len(),
                forall|jj: int| 0 <= jj < j ==> (#[trigger] self.index()[jj]).1.len() > 0,
            decreases self.indices@.len() - j,
        {
            proof {
                lemma_vec_deep_view_index(self.indices);
                crate::text::lemma_vec_usize_deep_view(self.indices@[j as int].1);
            }
            if self.indices[j].1.len() == 0 {
                proof {
                    assert(self.index()[j as int].1.len() == 0);
                }
                return false;
            }
            let mut k: usize = 0;
            while k < self.indices[j].1.len()
                invariant
                    j < self.indices@.len(),
                    self.index().len() == self.indices@.len(),
                    k <= self.index()[j as int].1.len(),
                    self.index()[j as int].1 == self.indices@[j as int].1@,
                    forall|kk: int|
                        0 <= kk < k ==> (self.index()[j as int].1[kk] as int)
                            < self.sents().len(),
                decreases self.index()[j as int].1.len() - k,
            {
                proof {
                    lemma_vec_deep_view_index(self.sentences);
                }
                if self.indices[j].1[k] >= self.sentences.len() {
                    return false;
                }
                k += 1;
            }
            j += 1;
        }
        true
    }
}

} // verus!
