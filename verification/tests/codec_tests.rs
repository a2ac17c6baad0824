use vnote::book::{Note, Notebook};
use vnote::codec::{encode_book, load_book_from, parse_book};
use vnote::errors::NotebookError;

fn note(id: &str, content: &str, date: &str) -> Note {
    Note {
        id: id.to_string(),
        content: content.to_string(),
        date: date.to_string(),
    }
}

#[test]
fn encode_writes_tagged_escaped_lines() {
    let mut book = Notebook::new();
    book.add_note("a", note("x", "C", "D"));
    assert_eq!("ta\nix\ndD\ncC\n", encode_book(&book));
}

#[test]
fn encode_escapes_newlines_and_backslashes() {
    let mut book = Notebook::new();
    book.add_note("a", note("x", "line1\nline2\\end", "d"));
    assert_eq!("ta\nix\ndd\ncline1\\nline2\\\\end\n", encode_book(&book));
}

#[test]
fn round_trip_restores_topics_and_notes_in_order() {
    let mut book = Notebook::new();
    book.add_note("rust", note("id-1", "hello\nworld \\ with backslash", "2019-01-01T10:00:00+02:00"));
    book.add_note("c#", note("id-2", "notes: a, b", "2019-01-02T10:00:00+02:00"));
    book.add_note("rust", note("id-3", "", "2019-01-03T10:00:00+02:00"));
    book.add_topic("empty topic");

    let text = encode_book(&book);
    let back = parse_book(&text).expect("round trip must parse");

    assert_eq!(book.topics.len(), back.topics.len());
    for (orig, parsed) in book.topics.iter().zip(back.topics.iter()) {
        assert_eq!(orig.0, parsed.0);
        assert_eq!(orig.1.len(), parsed.1.len());
        for (a, b) in orig.1.iter().zip(parsed.1.iter()) {
            assert_eq!(a.id(), b.id());
            assert_eq!(a.content(), b.content());
            assert_eq!(a.date(), b.date());
        }
    }
}

#[test]
fn round_trip_of_generated_notes() {
    let mut book = Notebook::new();
    book.add_note("tips", Note::new("first tip".to_string()));
    book.add_note("tips", Note::new("second tip".to_string()));
    let text = encode_book(&book);
    let back = parse_book(&text).expect("round trip must parse");
    assert_eq!(1, back.topics.len());
    assert_eq!("tips", back.topics[0].0);
    assert_eq!(2, back.topics[0].1.len());
    assert_eq!(book.topics[0].1[0].id(), back.topics[0].1[0].id());
    assert_eq!("first tip", back.topics[0].1[0].content());
    assert_eq!("second tip", back.topics[0].1[1].content());
}

#[test]
fn empty_text_parses_to_empty_notebook() {
    let book = parse_book("").expect("empty text is an empty notebook");
    assert_eq!(0, book.topics.len());
}

#[test]
fn parse_rejects_foreign_text() {
    assert!(matches!(parse_book("not a notebook"), Err(NotebookError::Corrupt)));
    assert!(matches!(parse_book("x\n"), Err(NotebookError::Corrupt)));
}

#[test]
fn parse_rejects_note_records_before_a_topic() {
    assert!(matches!(parse_book("ix\ndd\ncc\n"), Err(NotebookError::Corrupt)));
}

#[test]
fn parse_rejects_incomplete_note_record() {
    assert!(matches!(parse_book("ta\nix\n"), Err(NotebookError::Corrupt)));
    assert!(matches!(parse_book("ta\nix\ndd\n"), Err(NotebookError::Corrupt)));
}

#[test]
fn parse_rejects_unterminated_line() {
    assert!(matches!(parse_book("ta"), Err(NotebookError::Corrupt)));
}

#[test]
fn parse_rejects_unknown_escape() {
    assert!(matches!(parse_book("ta\\q\n"), Err(NotebookError::Corrupt)));
    assert!(matches!(parse_book("ta\\\n"), Err(NotebookError::Corrupt)));
}

#[test]
fn parse_rejects_duplicate_topic_names() {
    assert!(matches!(parse_book("ta\nta\n"), Err(NotebookError::Corrupt)));
}

#[test]
fn loading_without_a_file_gives_an_empty_notebook() {
    let book = load_book_from(None).expect("a missing file is not an error");
    assert_eq!(0, book.topics.len());
}

#[test]
fn loading_existing_text_parses_it() {
    let book = load_book_from(Some("ta\nix\ndD\ncC\n")).expect("valid stored text");
    assert_eq!(1, book.topics.len());
    assert_eq!("a", book.topics[0].0);
    assert_eq!("C", book.topics[0].1[0].content());
    assert!(matches!(load_book_from(Some("junk")), Err(NotebookError::Corrupt)));
}
