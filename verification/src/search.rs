//! Fuzzy topic matching and content search over a notebook.
use crate::book::{Note, NoteV, Notebook};
use crate::distance::{
    edit_distance_similarity, lemma_frac_le_lt, lemma_similarity_exact, lemma_similarity_self,
    lemma_threshold_gap, meets_threshold, sim_den, sim_le, sim_lt, sim_num, Similarity,
};
use crate::errors::NotebookError;
use vstd::prelude::*;

verus! {

/// Whether the regex engine accepts `p` as a pattern (compiled
/// case-insensitively); a function of the pattern text alone.
pub uninterp spec fn regex_ci_valid(p: Seq<char>) -> bool;

/// Whether the case-insensitive regular expression `p` matches anywhere
/// in `text`; a function of the two texts alone.
pub uninterp spec fn regex_ci_matches(p: Seq<char>, text: Seq<char>) -> bool;

#[verifier::external_type_specification]
#[verifier::external_body]
pub struct ExRegex(regex::Regex);

/// A compiled case-insensitive search pattern paired with the pattern
/// text it was compiled from; the only constructor compiles the regex
/// from that same text, so the two fields always agree.
struct Pattern {
    re: regex::Regex,
    pat: String,
}

impl Pattern {
    /// Relies on regex::RegexBuilder: `new(pattern).case_insensitive(true)
    /// .build()` compiles `pattern` as a case-insensitive regular
    /// expression and returns Ok exactly on syntactically valid patterns.
    #[verifier::external_body]
    fn compile(pattern: &str) -> (r: Result<Pattern, regex::Error>)
        ensures
            r is Ok <==> regex_ci_valid(pattern@),
            r matches Ok(p) ==> p.pat@ == pattern@,
    {
        match regex::RegexBuilder::new(pattern).case_insensitive(true).build() {
            Ok(re) => Ok(Pattern { re, pat: pattern.to_string() }),
            Err(e) => Err(e),
        }
    }

    /// Relies on regex::Regex::is_match: whether the compiled pattern
    /// matches anywhere in `text`.  The result is a function of the
    /// pattern text and `text` alone.
    #[verifier::external_body]
    fn is_match(&self, text: &str) -> (r: bool)
        ensures
            r == regex_ci_matches(self.pat@, text@),
    {
        self.re.is_match(text)
    }
}

/// Whether two string slices hold the same characters.
fn str_eq(a: &str, b: &str) -> (r: bool)
    ensures
        r == (a@ == b@),
{
    let la = a.unicode_len();
    let lb = b.unicode_len();
    if la != lb {
        return false;
    }
    let mut k: usize = 0;
    while k < la
        invariant
            la == a@.len(),
            la == b@.len(),
            k <= la,
            forall|m: int| 0 <= m < k ==> a@[m] == b@[m],
        decreases la - k,
    {
        if a.get_char(k) != b.get_char(k) {
            return false;
        }
        k += 1;
    }
    proof {
        assert(a@ =~= b@);
    }
    true
}

/// The outcome of resolving a user-supplied topic string against the
/// topics of a notebook.
#[derive(PartialEq, Debug)]
pub enum PossibleTopic<'a> {
    /// Topic matches exactly.
    Exact,
    /// Possible match: probably a typo for the named topic.
    CloseMatch { topic: &'a str, distance: Similarity },
    /// No match found.
    Nothing,
}

/// The (topic, note) pairs a content search returned, in notebook order.
pub struct SearchResults<'a>(pub Vec<(&'a str, &'a Note)>);

/// Index `i` holds the topic the matcher reports for query `q`: it
/// clears the typo threshold, no topic scores higher, and no earlier
/// topic scores as high (ties go to the first topic enumerated).
pub open spec fn is_best_match(v: Seq<(Seq<char>, Seq<NoteV>)>, q: Seq<char>, i: int) -> bool {
    &&& 0 <= i < v.len()
    &&& meets_threshold(q, v[i].0)
    &&& forall|j: int| 0 <= j < v.len() ==> sim_le(q, v[j].0, q, v[i].0)
    &&& forall|j: int| 0 <= j < i ==> sim_lt(q, v[j].0, q, v[i].0)
}

/// The topic filter as a character sequence, if one was supplied.
pub open spec fn spec_filter(o: Option<&str>) -> Option<Seq<char>> {
    match o {
        Option::Some(s) => Option::Some(s@),
        Option::None => Option::None,
    }
}

/// The (topic, note) pairs of one topic whose note content matches the
/// case-insensitive pattern `p`, in note order.
pub open spec fn spec_matching_notes(name: Seq<char>, notes: Seq<NoteV>, p: Seq<char>) -> Seq<
    (Seq<char>, NoteV),
>
    decreases notes.len(),
{
    if notes.len() == 0 {
        Seq::empty()
    } else {
        (if regex_ci_matches(p, notes[0].content) {
            seq![(name, notes[0])]
        } else {
            Seq::empty()
        }) + spec_matching_notes(name, notes.drop_first(), p)
    }
}

/// Every (topic, note) pair of the notebook whose note content matches
/// `p`, restricted to the named topic if a filter is given, in notebook
/// order and, within a topic, in note order.
pub open spec fn spec_search(
    v: Seq<(Seq<char>, Seq<NoteV>)>,
    p: Seq<char>,
    filter: Option<Seq<char>>,
) -> Seq<(Seq<char>, NoteV)>
    decreases v.len(),
{
    if v.len() == 0 {
        Seq::empty()
    } else {
        (if filter matches Some(f) && f != v[0].0 {
            Seq::empty()
        } else {
            spec_matching_notes(v[0].0, v[0].1, p)
        }) + spec_search(v.drop_first(), p, filter)
    }
}

/// Matching notes of the bucket `notes` (from index `j` on) under the
/// topic `name`.
fn scan_topic_rec<'a>(p: &Pattern, name: &'a String, notes: &'a Vec<Note>, j: usize) -> (r: Vec<
    (&'a str, &'a Note),
>)
    requires
        j <= notes.len(),
    ensures
        r.deep_view() == spec_matching_notes(name@, notes.deep_view().skip(j as int), p.pat@),
    decreases notes.len() - j,
{
    let ghost s = notes.deep_view().skip(j as int);
    if j == notes.len() {
        let r: Vec<(&'a str, &'a Note)> = Vec::new();
        proof {
            assert(s =~~= Seq::<NoteV>::empty());
            assert(r.deep_view() =~~= spec_matching_notes(name@, s, p.pat@));
        }
        r
    } else {
        let note: &Note = &notes[j];
        let m = p.is_match(note.content.as_str());
        let mut rest = scan_topic_rec(p, name, notes, j + 1);
        proof {
            assert(s[0] == notes.deep_view()[j as int]);
            assert(s[0].content == note.content@);
            assert(s.drop_first() =~~= notes.deep_view().skip(j as int + 1));
        }
        if m {
            rest.insert(0, (name.as_str(), note));
            proof {
                assert(rest.deep_view() =~~= seq![(name@, s[0])] + spec_matching_notes(
                    name@,
                    s.drop_first(),
                    p.pat@,
                ));
            }
            rest
        } else {
            proof {
                assert(rest.deep_view() =~~= Seq::<(Seq<char>, NoteV)>::empty()
                    + spec_matching_notes(name@, s.drop_first(), p.pat@));
            }
            rest
        }
    }
}

/// Matching (topic, note) pairs of the notebook from topic index `i` on.
fn scan_book_rec<'a>(p: &Pattern, book: &'a Notebook, filter: Option<&str>, i: usize) -> (r: Vec<
    (&'a str, &'a Note),
>)
    requires
        i <= book.topics.len(),
    ensures
        r.deep_view() == spec_search(book@.skip(i as int), p.pat@, spec_filter(filter)),
    decreases book.topics.len() - i,
{
    let ghost s = book@.skip(i as int);
    if i == book.topics.len() {
        let r: Vec<(&'a str, &'a Note)> = Vec::new();
        proof {
            assert(s =~~= Seq::<(Seq<char>, Seq<NoteV>)>::empty());
            assert(r.deep_view() =~~= spec_search(s, p.pat@, spec_filter(filter)));
        }
        r
    } else {
        let pair: &(String, Vec<Note>) = &book.topics[i];
        proof {
            assert(s[0] == book@[i as int]);
            assert(s[0].0 == pair.0@ && s[0].1 == pair.1.deep_view());
            assert(s.drop_first() =~~= book@.skip(i as int + 1));
        }
        let wanted = match filter {
            Some(f) => str_eq(f, pair.0.as_str()),
            None => true,
        };
        let mut head = if wanted {
            let h = scan_topic_rec(p, &pair.0, &pair.1, 0);
            proof {
                assert(pair.1.deep_view().skip(0) =~~= s[0].1);
            }
            h
        } else {
            let h: Vec<(&'a str, &'a Note)> = Vec::new();
            proof {
                assert(h.deep_view() =~~= Seq::<(Seq<char>, NoteV)>::empty());
            }
            h
        };
        let mut tail = scan_book_rec(p, book, filter, i + 1);
        let ghost headv = head.deep_view();
        let ghost tailv = tail.deep_view();
        head.append(&mut tail);
        proof {
            assert(head.deep_view() =~~= headv + tailv);
        }
        head
    }
}

/// The search engine over in-memory notebooks.
pub struct NotebookSearch;

impl NotebookSearch {
    pub fn new() -> NotebookSearch {
        NotebookSearch
    }

    /// Scans a notebook to find an exact or close match of a topic name.
    ///
    /// Every stored topic is scored against `topic` by normalized edit
    /// distance.  An identical topic gives `Exact`; otherwise the
    /// highest-scoring topic at or above the 7/10 threshold gives
    /// `CloseMatch` (first topic in notebook order on a tie); if no
    /// topic clears the threshold — in particular on an empty notebook —
    /// the answer is `Nothing`.
    pub fn match_topic<'a>(&self, topic: &str, book: &'a Notebook) -> (r: PossibleTopic<'a>)
        ensures
            (r is Exact) <==> (exists|i: int| 0 <= i < book@.len() && book@[i].0 == topic@),
            (r is Nothing) <==> (forall|i: int|
                0 <= i < book@.len() ==> !meets_threshold(topic@, book@[i].0)),
            book@.len() == 0 ==> r is Nothing,
            r matches PossibleTopic::CloseMatch { topic: t, distance: d } ==> exists|i: int|
                is_best_match(book@, topic@, i) && t@ == book@[i].0 && d.num == sim_num(
                    topic@,
                    book@[i].0,
                ) && d.den == sim_den(topic@, book@[i].0) && book@[i].0 != topic@,
    {
        let ghost q = topic@;
        let ghost v = book@;
        let n = book.topics.len();
        let mut best_idx: usize = 0;
        let mut has_best: bool = false;
        let mut best = Similarity { num: 0, den: 1 };
        let mut i: usize = 0;
        while i < n
            invariant
                n == book.topics.len(),
                q == topic@,
                v == book@,
                i <= n,
                forall|j: int| 0 <= j < i ==> v[j].0 != q,
                !has_best ==> forall|j: int| 0 <= j < i ==> !meets_threshold(q, v[j].0),
                has_best ==> (best_idx as int) < i && meets_threshold(q, v[best_idx as int].0),
                has_best ==> best.num == sim_num(q, v[best_idx as int].0) && best.den == sim_den(
                    q,
                    v[best_idx as int].0,
                ),
                has_best ==> forall|j: int|
                    0 <= j < i ==> sim_le(q, v[j].0, q, v[best_idx as int].0),
                has_best ==> forall|j: int|
                    0 <= j < best_idx ==> sim_lt(q, v[j].0, q, v[best_idx as int].0),
            decreases n - i,
        {
            let name: &String = &book.topics[i].0;
            proof {
                assert(name@ == v[i as int].0);
            }
            let s = edit_distance_similarity(topic, name.as_str());
            if s.is_exact() {
                proof {
                    lemma_similarity_exact(q, name@);
                    lemma_similarity_self(q);
                    assert(meets_threshold(q, v[i as int].0));
                }
                return PossibleTopic::Exact;
            }
            proof {
                lemma_similarity_exact(q, name@);
            }
            if s.meets_threshold() {
                if !has_best {
                    proof {
                        assert forall|j: int| 0 <= j < i implies sim_lt(
                            q,
                            v[j].0,
                            q,
                            v[i as int].0,
                        ) by {
                            lemma_threshold_gap(
                                sim_num(q, v[j].0),
                                sim_den(q, v[j].0),
                                sim_num(q, v[i as int].0),
                                sim_den(q, v[i as int].0),
                            );
                        }
                    }
                    has_best = true;
                    best_idx = i;
                    best = s;
                } else if s.exceeds(&best) {
                    let ghost b = best_idx as int;
                    proof {
                        assert forall|j: int| 0 <= j < i implies sim_lt(
                            q,
                            v[j].0,
                            q,
                            v[i as int].0,
                        ) by {
                            lemma_frac_le_lt(
                                sim_num(q, v[j].0),
                                sim_den(q, v[j].0),
                                sim_num(q, v[b].0),
                                sim_den(q, v[b].0),
                                sim_num(q, v[i as int].0),
                                sim_den(q, v[i as int].0),
                            );
                        }
                    }
                    has_best = true;
                    best_idx = i;
                    best = s;
                }
            } else {
                proof {
                    if has_best {
                        lemma_threshold_gap(
                            sim_num(q, v[i as int].0),
                            sim_den(q, v[i as int].0),
                            sim_num(q, v[best_idx as int].0),
                            sim_den(q, v[best_idx as int].0),
                        );
                    }
                }
            }
            i += 1;
        }
        if has_best {
            let t: &String = &book.topics[best_idx].0;
            proof {
                assert(t@ == v[best_idx as int].0);
                assert(is_best_match(v, q, best_idx as int));
            }
            PossibleTopic::CloseMatch { topic: t.as_str(), distance: best }
        } else {
            PossibleTopic::Nothing
        }
    }

    /// Searches the notebook's note contents with a case-insensitive
    /// regular expression, optionally restricted to one exact topic name.
    ///
    /// An invalid pattern fails immediately, before any scanning, with a
    /// pattern-syntax error; the notebook is never mutated.  On success
    /// the result holds every matching (topic, note) pair, topics in
    /// notebook order and notes in insertion order.
    pub fn scan_notes<'a>(
        &self,
        pattern: &str,
        topic_name: Option<&str>,
        book: &'a Notebook,
    ) -> (r: Result<SearchResults<'a>, NotebookError>)
        ensures
            r is Ok <==> regex_ci_valid(pattern@),
            r matches Ok(res) ==> res.0.deep_view() == spec_search(
                book@,
                pattern@,
                spec_filter(topic_name),
            ),
    {
        match Pattern::compile(pattern) {
            Err(e) => Err(NotebookError::Pattern(e)),
            Ok(p) => {
                let v = scan_book_rec(&p, book, topic_name, 0);
                proof {
                    assert(book@.skip(0) =~~= book@);
                }
                Ok(SearchResults(v))
            },
        }
    }
}

} // verus!
