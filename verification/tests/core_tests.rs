use vnote::book::{Note, Notebook};
use vnote::distance::{edit_distance_similarity, Similarity};
use vnote::search::{NotebookSearch, PossibleTopic};

fn sim_f64(a: &str, b: &str) -> f64 {
    let s = edit_distance_similarity(a, b);
    s.num as f64 / s.den as f64
}

#[test]
fn test_edit_distance() {
    assert_eq!(1.0, sim_f64("javascript", "javascript"));
    assert_eq!(0.5, sim_f64("javascript", "javasxxxxx"));
    assert_eq!(0.0, sim_f64("javascript", "xxxxxxxxxx"));
    assert_eq!(0.9, sim_f64("javascript", "javscript"));
    assert_eq!(0.8, sim_f64("javascript", "javscriptt"));
    assert_eq!(0.8, sim_f64("javascript", "jaavscript"));
}

#[test]
fn test_match_topic() {
    // Assume
    let mut book = Notebook::new();
    book.add_topic("csharp");
    book.add_topic("rust");
    book.add_topic("javascript");
    let searcher = NotebookSearch::new();

    // Act
    let exact = searcher.match_topic("javascript", &book);
    let close_1 = searcher.match_topic("javscriptt", &book);
    let close_2 = searcher.match_topic("rust1", &book);
    let nothing = searcher.match_topic("sharrp", &book);

    // Assert
    assert_eq!(PossibleTopic::Exact, exact);
    assert_eq!(
        PossibleTopic::CloseMatch {
            topic: "javascript",
            distance: Similarity { num: 8, den: 10 }
        },
        close_1
    );
    assert_eq!(
        PossibleTopic::CloseMatch {
            topic: "rust",
            distance: Similarity { num: 4, den: 5 }
        },
        close_2
    );
    assert_eq!(PossibleTopic::Nothing, nothing);
    // The close-match scores are the 0.8 the fractions stand for.
    match close_1 {
        PossibleTopic::CloseMatch { distance, .. } => {
            assert_eq!(0.8, distance.num as f64 / distance.den as f64)
        }
        _ => unreachable!(),
    }
}

#[test]
fn similarity_of_identical_strings_is_one() {
    assert_eq!(1.0, sim_f64("rust", "rust"));
    assert_eq!(1.0, sim_f64("", ""));
    assert_eq!(1.0, sim_f64("h\u{e9}llo w\u{f6}rld", "h\u{e9}llo w\u{f6}rld"));
}

#[test]
fn similarity_counts_unicode_scalars() {
    // One substitution among five characters, even though the changed
    // character is two bytes long in UTF-8.
    assert_eq!(0.8, sim_f64("h\u{e9}llo", "hello"));
}

#[test]
fn similarity_of_one_substitution_is_len_minus_one_over_len() {
    assert_eq!(2.0 / 3.0, sim_f64("abc", "axc"));
    assert_eq!(0.9, sim_f64("aaaaaaaaaa", "aaaaabaaaa"));
}

#[test]
fn threshold_is_inclusive_at_seven_tenths() {
    assert!(Similarity { num: 7, den: 10 }.meets_threshold());
    assert!(!Similarity { num: 6999, den: 10000 }.meets_threshold());
}

#[test]
fn match_topic_includes_score_exactly_at_threshold() {
    let mut book = Notebook::new();
    book.add_topic("aaaaaaaaaa");
    // Three substitutions in ten characters: similarity exactly 0.7.
    let r = NotebookSearch::new().match_topic("aaaaaaabbb", &book);
    assert_eq!(
        PossibleTopic::CloseMatch {
            topic: "aaaaaaaaaa",
            distance: Similarity { num: 7, den: 10 }
        },
        r
    );
}

#[test]
fn match_topic_excludes_score_below_threshold() {
    let mut book = Notebook::new();
    book.add_topic("aaaaaaaaaaaaa");
    // Four substitutions in thirteen characters: similarity 9/13, just
    // below 0.7.
    let r = NotebookSearch::new().match_topic("aaaaaaaaabbbb", &book);
    assert_eq!(PossibleTopic::Nothing, r);
}

#[test]
fn match_topic_on_empty_notebook_is_nothing() {
    let book = Notebook::new();
    let searcher = NotebookSearch::new();
    assert_eq!(PossibleTopic::Nothing, searcher.match_topic("anything", &book));
    assert_eq!(PossibleTopic::Nothing, searcher.match_topic("", &book));
}

#[test]
fn add_note_creates_then_appends_in_order() {
    let mut book = Notebook::new();
    let n1 = Note::new("first".to_string());
    let id1 = n1.id().clone();
    book.add_note("rust", n1);
    assert_eq!(1, book.topics.len());
    assert_eq!("rust", book.topics[0].0);
    assert_eq!(1, book.topics[0].1.len());
    assert_eq!("first", book.topics[0].1[0].content());

    let n2 = Note::new("second".to_string());
    book.add_note("rust", n2);
    assert_eq!(1, book.topics.len());
    assert_eq!("rust", book.topics[0].0);
    assert_eq!(2, book.topics[0].1.len());
    assert_eq!("first", book.topics[0].1[0].content());
    assert_eq!("second", book.topics[0].1[1].content());
    assert_eq!(id1, *book.topics[0].1[0].id());
}

#[test]
fn note_new_takes_content_verbatim_with_fresh_id_and_date() {
    let n = Note::new("  spaces kept  ".to_string());
    assert_eq!("  spaces kept  ", n.content());
    assert_eq!(36, n.id().chars().count());
    assert!(!n.date().is_empty());
    let m = Note::new("other".to_string());
    assert_ne!(n.id(), m.id());
}
