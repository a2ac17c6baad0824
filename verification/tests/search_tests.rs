use vnote::book::{Note, Notebook};
use vnote::errors::NotebookError;
use vnote::search::NotebookSearch;

#[test]
fn search_is_case_insensitive_and_partial() {
    let mut book = Notebook::new();
    book.add_note("tech", Note::new("I love JavaScript".to_string()));
    book.add_note("tech", Note::new("Python rocks".to_string()));

    let results = NotebookSearch::new()
        .scan_notes("java", None, &book)
        .expect("pattern is valid");
    assert_eq!(1, results.0.len());
    assert_eq!("tech", results.0[0].0);
    assert_eq!("I love JavaScript", results.0[0].1.content());
}

#[test]
fn search_with_invalid_pattern_fails_up_front() {
    let mut book = Notebook::new();
    book.add_note("tech", Note::new("something".to_string()));

    let r = NotebookSearch::new().scan_notes("(", None, &book);
    assert!(matches!(r, Err(NotebookError::Pattern(_))));
}

#[test]
fn search_respects_topic_filter() {
    let mut book = Notebook::new();
    book.add_note("rust", Note::new("memory safety".to_string()));
    book.add_note("python", Note::new("memory is managed".to_string()));

    let searcher = NotebookSearch::new();
    let all = searcher.scan_notes("memory", None, &book).unwrap();
    assert_eq!(2, all.0.len());

    let only_rust = searcher.scan_notes("memory", Some("rust"), &book).unwrap();
    assert_eq!(1, only_rust.0.len());
    assert_eq!("rust", only_rust.0[0].0);
    assert_eq!("memory safety", only_rust.0[0].1.content());

    let other = searcher.scan_notes("memory", Some("haskell"), &book).unwrap();
    assert_eq!(0, other.0.len());
}

#[test]
fn search_keeps_note_order_within_a_topic() {
    let mut book = Notebook::new();
    book.add_note("t", Note::new("match one".to_string()));
    book.add_note("t", Note::new("no hit".to_string()));
    book.add_note("t", Note::new("match two".to_string()));

    let results = NotebookSearch::new().scan_notes("match", None, &book).unwrap();
    assert_eq!(2, results.0.len());
    assert_eq!("match one", results.0[0].1.content());
    assert_eq!("match two", results.0[1].1.content());
}

#[test]
fn search_supports_anchors_and_classes() {
    let mut book = Notebook::new();
    book.add_note("t", Note::new("Error: disk full".to_string()));
    book.add_note("t", Note::new("no error here".to_string()));

    let anchored = NotebookSearch::new().scan_notes("^error", None, &book).unwrap();
    assert_eq!(1, anchored.0.len());
    assert_eq!("Error: disk full", anchored.0[0].1.content());
}
