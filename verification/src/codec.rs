//! Textual codec for durable notebook storage.
//!
//! A notebook is stored as a sequence of lines, each a one-character tag
//! followed by an escaped payload:
//!
//! * `t` — a topic name; the notes that follow belong to it;
//! * `i`, `d`, `c` — a note's identifier, date and content, always in
//!   this order.
//!
//! Backslashes and newlines in payloads are escaped (`\\` and `\n`), so
//! every line break in the file is a record boundary.  Parsing rejects
//! anything else, including duplicate topic names.  Encoding then
//! parsing restores the notebook exactly; see
//! [`lemma_encode_parse_round_trip`].
use crate::book::{Note, NoteV, Notebook};
use crate::errors::NotebookError;
use vstd::prelude::*;

verus! {

/// How one character is written in a payload.
pub open spec fn esc_char(c: char) -> Seq<char> {
    if c == '\\' {
        seq!['\\', '\\']
    } else if c == '\n' {
        seq!['\\', 'n']
    } else {
        seq![c]
    }
}

/// A payload as written: every character escaped.
pub open spec fn esc(s: Seq<char>) -> Seq<char>
    decreases s.len(),
{
    if s.len() == 0 {
        Seq::empty()
    } else {
        esc_char(s[0]) + esc(s.drop_first())
    }
}

/// A written payload read back, if well formed.
pub open spec fn unesc(s: Seq<char>) -> Option<Seq<char>>
    decreases s.len(),
{
    if s.len() == 0 {
        Some(Seq::empty())
    } else if s[0] == '\\' {
        if s.len() == 1 {
            None
        } else if s[1] == '\\' || s[1] == 'n' {
            let d = if s[1] == '\\' {
                '\\'
            } else {
                '\n'
            };
            match unesc(s.skip(2)) {
                Some(r) => Some(seq![d] + r),
                None => None,
            }
        } else {
            None
        }
    } else {
        match unesc(s.drop_first()) {
            Some(r) => Some(seq![s[0]] + r),
            None => None,
        }
    }
}

/// The length of the first line of `s`: the index of the first newline,
/// if there is one.
pub open spec fn line_len(s: Seq<char>) -> Option<nat>
    decreases s.len(),
{
    if s.len() == 0 {
        None
    } else if s[0] == '\n' {
        Some(0)
    } else {
        match line_len(s.drop_first()) {
            Some(n) => Some(n + 1),
            None => None,
        }
    }
}

/// Reads the first stored line of `s`: its tag character, its payload
/// read back from escaping, and the text after the line's newline.
pub open spec fn parse_line(s: Seq<char>) -> Option<(char, Seq<char>, Seq<char>)> {
    match line_len(s) {
        None => None,
        Some(n) => if n < 1 || n + 1 > s.len() {
            None
        } else {
            match unesc(s.take(n as int).drop_first()) {
                None => None,
                Some(payload) => Some((s[0], payload, s.skip(n as int + 1))),
            }
        },
    }
}

/// One stored line: tag, escaped payload, newline.
pub open spec fn enc_line(tag: char, payload: Seq<char>) -> Seq<char> {
    seq![tag] + esc(payload) + seq!['\n']
}

/// One stored note: its identifier, date and content lines.
pub open spec fn enc_note(n: NoteV) -> Seq<char> {
    enc_line('i', n.id) + enc_line('d', n.date) + enc_line('c', n.content)
}

/// A topic's notes, one after the other.
pub open spec fn enc_notes(ns: Seq<NoteV>) -> Seq<char>
    decreases ns.len(),
{
    if ns.len() == 0 {
        Seq::empty()
    } else {
        enc_note(ns[0]) + enc_notes(ns.drop_first())
    }
}

/// One stored topic: its name line, then its notes.
pub open spec fn enc_topic(t: (Seq<char>, Seq<NoteV>)) -> Seq<char> {
    enc_line('t', t.0) + enc_notes(t.1)
}

/// The whole notebook as stored text, topics in notebook order.
pub open spec fn spec_encode_book(v: Seq<(Seq<char>, Seq<NoteV>)>) -> Seq<char>
    decreases v.len(),
{
    if v.len() == 0 {
        Seq::empty()
    } else {
        enc_topic(v[0]) + spec_encode_book(v.drop_first())
    }
}

/// Reads note records (`i`, `d`, `c` line triples) until the text ends
/// or the next topic line begins; yields the notes and the unread rest.
pub open spec fn spec_parse_notes(s: Seq<char>) -> Option<(Seq<NoteV>, Seq<char>)>
    decreases s.len(),
{
    if s.len() == 0 {
        Some((Seq::empty(), s))
    } else {
        match parse_line(s) {
            None => None,
            Some((tag1, id, r1)) => if tag1 == 't' {
                Some((Seq::empty(), s))
            } else if tag1 != 'i' {
                None
            } else {
                match parse_line(r1) {
                    None => None,
                    Some((tag2, date, r2)) => if tag2 != 'd' {
                        None
                    } else {
                        match parse_line(r2) {
                            None => None,
                            Some((tag3, content, r3)) => if tag3 != 'c' {
                                None
                            } else {
                                match spec_parse_notes(r3) {
                                    None => None,
                                    Some((more, rest)) => Some(
                                        (seq![NoteV { id, content, date }] + more, rest),
                                    ),
                                }
                            },
                        }
                    },
                }
            },
        }
    }
}

/// Reads the whole text as topic records, each a `t` line followed by
/// its note records.
pub open spec fn spec_parse_topics(s: Seq<char>) -> Option<Seq<(Seq<char>, Seq<NoteV>)>>
    decreases s.len(),
{
    if s.len() == 0 {
        Some(Seq::empty())
    } else {
        match parse_line(s) {
            None => None,
            Some((tag, name, r1)) => if tag != 't' {
                None
            } else {
                match spec_parse_notes(r1) {
                    None => None,
                    // The note reader never leaves more unread text than it
                    // was given, so this guard only carries that bound for
                    // the termination of the recursion; it never rejects.
                    Some((notes, rest)) => if rest.len() >= s.len() {
                        None
                    } else {
                        match spec_parse_topics(rest) {
                            None => None,
                            Some(more) => Some(seq![(name, notes)] + more),
                        }
                    },
                }
            },
        }
    }
}

/// Topic names are pairwise distinct.
pub open spec fn distinct_topic_names(v: Seq<(Seq<char>, Seq<NoteV>)>) -> bool {
    forall|i: int, j: int| 0 <= i < j < v.len() ==> v[i].0 != v[j].0
}

/// The stored text read back as a notebook: topic records with pairwise
/// distinct names.
pub open spec fn spec_parse_book(s: Seq<char>) -> Option<Seq<(Seq<char>, Seq<NoteV>)>> {
    match spec_parse_topics(s) {
        None => None,
        Some(v) => if distinct_topic_names(v) {
            Some(v)
        } else {
            None
        },
    }
}

/// Escaped text never holds a raw newline.
proof fn lemma_esc_no_newline(s: Seq<char>)
    ensures
        forall|k: int| 0 <= k < esc(s).len() ==> esc(s)[k] != '\n',
    decreases s.len(),
{
    if s.len() != 0 {
        lemma_esc_no_newline(s.drop_first());
        assert forall|k: int| 0 <= k < esc(s).len() implies esc(s)[k] != '\n' by {
            let e0 = esc_char(s[0]);
            if k < e0.len() {
                assert(esc(s)[k] == e0[k]);
            } else {
                assert(esc(s)[k] == esc(s.drop_first())[k - e0.len()]);
            }
        }
    }
}

/// Reading back what was written restores the payload.
proof fn lemma_unesc_esc(s: Seq<char>)
    ensures
        unesc(esc(s)) == Some(s),
    decreases s.len(),
{
    if s.len() != 0 {
        lemma_unesc_esc(s.drop_first());
        let e = esc(s);
        if s[0] == '\\' || s[0] == '\n' {
            assert(e.skip(2) =~= esc(s.drop_first()));
            assert(seq![s[0]] + s.drop_first() =~= s);
        } else {
            assert(e.drop_first() =~= esc(s.drop_first()));
            assert(seq![s[0]] + s.drop_first() =~= s);
        }
    }
}

/// The first line of `u` ends at the first newline.
proof fn lemma_line_len_first(u: Seq<char>, d: int)
    requires
        0 <= d < u.len(),
        u[d] == '\n',
        forall|k: int| 0 <= k < d ==> u[k] != '\n',
    ensures
        line_len(u) == Some(d as nat),
    decreases d,
{
    if d > 0 {
        lemma_line_len_first(u.drop_first(), d - 1);
    }
}

/// Text without a newline has no first line.
proof fn lemma_line_len_none(u: Seq<char>)
    requires
        forall|k: int| 0 <= k < u.len() ==> u[k] != '\n',
    ensures
        line_len(u) is None,
    decreases u.len(),
{
    if u.len() != 0 {
        lemma_line_len_none(u.drop_first());
    }
}

/// A stored line at the front of the text reads back as its tag, its
/// payload, and the rest.
proof fn lemma_parse_line_enc(tag: char, payload: Seq<char>, rest: Seq<char>)
    requires
        tag != '\n',
    ensures
        parse_line(enc_line(tag, payload) + rest) == Some((tag, payload, rest)),
{
    let s = enc_line(tag, payload) + rest;
    let n: int = 1 + esc(payload).len() as int;
    lemma_esc_no_newline(payload);
    assert(s[n] == '\n');
    assert forall|k: int| 0 <= k < n implies s[k] != '\n' by {
        if k > 0 {
            assert(s[k] == esc(payload)[k - 1]);
        }
    }
    lemma_line_len_first(s, n);
    assert(s.take(n).drop_first() =~= esc(payload));
    lemma_unesc_esc(payload);
    assert(s.skip(n + 1) =~= rest);
    assert(s[0] == tag);
}

/// Whether the text begins with a stored topic line.
pub open spec fn starts_with_topic(t: Seq<char>) -> bool {
    match parse_line(t) {
        Some((tag, name, rest)) => tag == 't',
        None => false,
    }
}

/// Note records parse back to the notes they were written from, leaving
/// whatever followed them (nothing, or the next topic) unread.
#[verifier::rlimit(60)]
proof fn lemma_parse_notes_of_enc(ns: Seq<NoteV>, tail: Seq<char>)
    requires
        tail.len() == 0 || starts_with_topic(tail),
    ensures
        spec_parse_notes(enc_notes(ns) + tail) == Some((ns, tail)),
    decreases ns.len(),
{
    let s = enc_notes(ns) + tail;
    if ns.len() == 0 {
        assert(s =~= tail);
    } else {
        let n0 = ns[0];
        let s2 = enc_line('d', n0.date) + (enc_line('c', n0.content) + (enc_notes(ns.drop_first())
            + tail));
        let s3 = enc_line('c', n0.content) + (enc_notes(ns.drop_first()) + tail);
        let s4 = enc_notes(ns.drop_first()) + tail;
        assert(s =~= enc_line('i', n0.id) + s2);
        lemma_parse_line_enc('i', n0.id, s2);
        assert(s2 =~= enc_line('d', n0.date) + s3);
        lemma_parse_line_enc('d', n0.date, s3);
        assert(s3 =~= enc_line('c', n0.content) + s4);
        lemma_parse_line_enc('c', n0.content, s4);
        lemma_parse_notes_of_enc(ns.drop_first(), tail);
        assert(seq![NoteV { id: n0.id, content: n0.content, date: n0.date }] + ns.drop_first()
            =~= ns);
        assert(spec_parse_notes(s) == Some((ns, tail)));
    }
}

/// A non-empty encoded notebook begins with a stored topic line.
proof fn lemma_enc_starts_with_topic(v: Seq<(Seq<char>, Seq<NoteV>)>)
    requires
        v.len() > 0,
    ensures
        starts_with_topic(spec_encode_book(v)),
{
    let s = spec_encode_book(v);
    let rest = enc_notes(v[0].1) + spec_encode_book(v.drop_first());
    assert(s =~= enc_line('t', v[0].0) + rest);
    lemma_parse_line_enc('t', v[0].0, rest);
}

/// An encoded notebook parses back to exactly the topic records it was
/// written from.
proof fn lemma_parse_topics_of_enc(v: Seq<(Seq<char>, Seq<NoteV>)>)
    ensures
        spec_parse_topics(spec_encode_book(v)) == Some(v),
    decreases v.len(),
{
    let s = spec_encode_book(v);
    if v.len() == 0 {
        assert(s =~= Seq::<char>::empty());
    } else {
        let tail = spec_encode_book(v.drop_first());
        let r1 = enc_notes(v[0].1) + tail;
        assert(s =~= enc_line('t', v[0].0) + r1);
        lemma_parse_line_enc('t', v[0].0, r1);
        if v.drop_first().len() > 0 {
            lemma_enc_starts_with_topic(v.drop_first());
        }
        lemma_parse_notes_of_enc(v[0].1, tail);
        assert(tail.len() < s.len());
        lemma_parse_topics_of_enc(v.drop_first());
        assert(seq![(v[0].0, v[0].1)] + v.drop_first() =~= v);
        assert(spec_parse_topics(s) == Some(v));
    }
}

/// Law: saving then loading restores the notebook.  Encoding a notebook
/// whose topic names are unique (every notebook the crate builds is such)
/// and parsing the text back yields the same topics, in the same order,
/// each with the same notes in the same order, with identical ids,
/// contents and timestamps.
pub proof fn lemma_encode_parse_round_trip(v: Seq<(Seq<char>, Seq<NoteV>)>)
    requires
        distinct_topic_names(v),
    ensures
        spec_parse_book(spec_encode_book(v)) == Some(v),
{
    lemma_parse_topics_of_enc(v);
}

/// Relies on std's String::push: appends one character at the end.
#[verifier::external_body]
fn push_char(s: &mut String, c: char)
    ensures
        final(s)@ == old(s)@.push(c),
{
    s.push(c);
}

/// Escaping one character more appends its written form.
proof fn lemma_esc_snoc(s: Seq<char>, c: char)
    ensures
        esc(s.push(c)) == esc(s) + esc_char(c),
    decreases s.len(),
{
    if s.len() == 0 {
        assert(s.push(c)[0] == c);
        assert(s.push(c).drop_first() =~= s);
        assert(esc(s.push(c)) =~= esc(s) + esc_char(c));
    } else {
        assert(s.push(c)[0] == s[0]);
        assert(s.push(c).drop_first() =~= s.drop_first().push(c));
        lemma_esc_snoc(s.drop_first(), c);
        assert(esc(s.push(c)) =~= esc(s) + esc_char(c));
    }
}

/// Encoding one note more appends its lines.
proof fn lemma_enc_notes_snoc(ns: Seq<NoteV>, n: NoteV)
    ensures
        enc_notes(ns.push(n)) == enc_notes(ns) + enc_note(n),
    decreases ns.len(),
{
    if ns.len() == 0 {
        assert(ns.push(n)[0] == n);
        assert(ns.push(n).drop_first() =~= ns);
        assert(enc_notes(ns.push(n)) =~= enc_notes(ns) + enc_note(n));
    } else {
        assert(ns.push(n)[0] == ns[0]);
        assert(ns.push(n).drop_first() =~= ns.drop_first().push(n));
        lemma_enc_notes_snoc(ns.drop_first(), n);
        assert(enc_notes(ns.push(n)) =~= enc_notes(ns) + enc_note(n));
    }
}

/// Encoding one topic more appends its record.
proof fn lemma_enc_book_snoc(v: Seq<(Seq<char>, Seq<NoteV>)>, t: (Seq<char>, Seq<NoteV>))
    ensures
        spec_encode_book(v.push(t)) == spec_encode_book(v) + enc_topic(t),
    decreases v.len(),
{
    if v.len() == 0 {
        assert(v.push(t)[0] == t);
        assert(v.push(t).drop_first() =~= v);
        assert(spec_encode_book(v.push(t)) =~= spec_encode_book(v) + enc_topic(t));
    } else {
        assert(v.push(t)[0] == v[0]);
        assert(v.push(t).drop_first() =~= v.drop_first().push(t));
        lemma_enc_book_snoc(v.drop_first(), t);
        assert(spec_encode_book(v.push(t)) =~= spec_encode_book(v) + enc_topic(t));
    }
}

/// Appends the escaped form of `src` to `out`.
fn escape_onto(src: &str, out: &mut String)
    ensures
        final(out)@ == old(out)@ + esc(src@),
{
    let len = src.unicode_len();
    let mut k: usize = 0;
    while k < len
        invariant
            len == src@.len(),
            k <= len,
            out@ == old(out)@ + esc(src@.take(k as int)),
        decreases len - k,
    {
        let c = src.get_char(k);
        proof {
            lemma_esc_snoc(src@.take(k as int), c);
            assert(src@.take(k as int).push(c) =~= src@.take(k as int + 1));
        }
        if c == '\\' {
            push_char(out, '\\');
            push_char(out, '\\');
            proof {
                assert(out@ =~= old(out)@ + esc(src@.take(k as int + 1)));
            }
        } else if c == '\n' {
            push_char(out, '\\');
            push_char(out, 'n');
            proof {
                assert(out@ =~= old(out)@ + esc(src@.take(k as int + 1)));
            }
        } else {
            push_char(out, c);
            proof {
                assert(out@ =~= old(out)@ + esc(src@.take(k as int + 1)));
            }
        }
        k += 1;
    }
    proof {
        assert(src@.take(len as int) =~= src@);
    }
}

/// Appends one stored line to `out`.
fn encode_line(tag: char, payload: &str, out: &mut String)
    ensures
        final(out)@ == old(out)@ + enc_line(tag, payload@),
{
    push_char(out, tag);
    escape_onto(payload, out);
    push_char(out, '\n');
    proof {
        assert(out@ =~= old(out)@ + enc_line(tag, payload@));
    }
}

/// Serializes the whole notebook as stored text.
pub fn encode_book(book: &Notebook) -> (text: String)
    ensures
        text@ == spec_encode_book(book@),
{
    let mut out = String::new();
    let n = book.topics.len();
    let mut i: usize = 0;
    while i < n
        invariant
            n == book.topics.len(),
            i <= n,
            out@ == spec_encode_book(book@.take(i as int)),
        decreases n - i,
    {
        let ghost before = out@;
        let pair: &(String, Vec<Note>) = &book.topics[i];
        proof {
            assert(book@[i as int].0 == pair.0@ && book@[i as int].1 == pair.1.deep_view());
        }
        encode_line('t', pair.0.as_str(), &mut out);
        let m = pair.1.len();
        let mut j: usize = 0;
        while j < m
            invariant
                n == book.topics.len(),
                i < n,
                m == pair.1.len(),
                j <= m,
                book@[i as int].0 == pair.0@ && book@[i as int].1 == pair.1.deep_view(),
                before == spec_encode_book(book@.take(i as int)),
                out@ == before + enc_line('t', pair.0@) + enc_notes(
                    pair.1.deep_view().take(j as int),
                ),
            decreases m - j,
        {
            let note: &Note = &pair.1[j];
            proof {
                assert(pair.1.deep_view()[j as int] == note.deep_view());
            }
            encode_line('i', note.id.as_str(), &mut out);
            encode_line('d', note.date.as_str(), &mut out);
            encode_line('c', note.content.as_str(), &mut out);
            proof {
                lemma_enc_notes_snoc(pair.1.deep_view().take(j as int), note.deep_view());
                assert(pair.1.deep_view().take(j as int).push(note.deep_view())
                    =~= pair.1.deep_view().take(j as int + 1));
                assert(out@ =~= before + enc_line('t', pair.0@) + enc_notes(
                    pair.1.deep_view().take(j as int + 1),
                ));
            }
            j += 1;
        }
        proof {
            assert(pair.1.deep_view().take(m as int) =~= pair.1.deep_view());
            lemma_enc_book_snoc(book@.take(i as int), book@[i as int]);
            assert(book@.take(i as int).push(book@[i as int]) =~= book@.take(i as int + 1));
            assert(out@ =~= spec_encode_book(book@.take(i as int + 1)));
        }
        i += 1;
    }
    proof {
        assert(book@.take(n as int) =~= book@);
    }
    out
}

/// Finds the length of the line that starts at `pos`.
fn find_line_len(s: &str, pos: usize) -> (r: Option<usize>)
    requires
        pos <= s@.len(),
    ensures
        r matches Some(n) ==> pos + n < s@.len() && line_len(s@.skip(pos as int)) == Some(n as nat),
        r is None ==> line_len(s@.skip(pos as int)) is None,
{
    let len = s.unicode_len();
    let mut k: usize = pos;
    while k < len
        invariant
            pos <= k <= len,
            len == s@.len(),
            forall|m: int| pos <= m < k ==> s@[m] != '\n',
        decreases len - k,
    {
        if s.get_char(k) == '\n' {
            proof {
                let u = s@.skip(pos as int);
                assert(u[k - pos as int] == s@[k as int]);
                assert forall|q: int| 0 <= q < k - pos as int implies u[q] != '\n' by {
                    assert(u[q] == s@[q + pos]);
                }
                lemma_line_len_first(u, k - pos as int);
            }
            return Some(k - pos);
        }
        k += 1;
    }
    proof {
        let u = s@.skip(pos as int);
        assert forall|q: int| 0 <= q < u.len() implies u[q] != '\n' by {
            assert(u[q] == s@[q + pos]);
        }
        lemma_line_len_none(u);
    }
    None
}

/// Reads the payload characters `s[from..to]` back from escaping.
fn unescape_range(s: &str, from: usize, to: usize) -> (r: Option<String>)
    requires
        from <= to <= s@.len(),
    ensures
        r matches Some(p) ==> unesc(s@.subrange(from as int, to as int)) == Some(p@),
        r is None ==> unesc(s@.subrange(from as int, to as int)) is None,
{
    let ghost u = s@.subrange(from as int, to as int);
    let mut out = String::new();
    let mut k: usize = from;
    while k < to
        invariant
            from <= k <= to,
            to <= s@.len(),
            u == s@.subrange(from as int, to as int),
            (match unesc(s@.subrange(k as int, to as int)) {
                Some(rm) => unesc(u) == Some(out@ + rm),
                None => unesc(u) is None,
            }),
        decreases to - k,
    {
        let ghost w = s@.subrange(k as int, to as int);
        let ghost out_pre = out@;
        let c = s.get_char(k);
        proof {
            assert(w[0] == s@[k as int]);
        }
        if c == '\\' {
            if k + 1 == to {
                proof {
                    assert(w.len() == 1);
                }
                return None;
            }
            let c2 = s.get_char(k + 1);
            proof {
                assert(w[1] == s@[k as int + 1]);
            }
            if c2 == '\\' || c2 == 'n' {
                let d = if c2 == '\\' {
                    '\\'
                } else {
                    '\n'
                };
                push_char(&mut out, d);
                proof {
                    let w2 = s@.subrange(k as int + 2, to as int);
                    assert(w.skip(2) =~= w2);
                    if unesc(w2) is Some {
                        let rm2 = unesc(w2)->Some_0;
                        assert(unesc(w) == Some(seq![d] + rm2));
                        assert(out_pre + (seq![d] + rm2) =~= out@ + rm2);
                    }
                }
                k += 2;
            } else {
                return None;
            }
        } else {
            push_char(&mut out, c);
            proof {
                let w1 = s@.subrange(k as int + 1, to as int);
                assert(w.drop_first() =~= w1);
                if unesc(w1) is Some {
                    let rm1 = unesc(w1)->Some_0;
                    assert(unesc(w) == Some(seq![c] + rm1));
                    assert(out_pre + (seq![c] + rm1) =~= out@ + rm1);
                }
            }
            k += 1;
        }
    }
    proof {
        assert(s@.subrange(k as int, to as int).len() == 0);
        let rm = unesc(s@.subrange(k as int, to as int))->Some_0;
        assert(out@ + rm =~= out@);
    }
    Some(out)
}

/// Reads the stored line that starts at `pos`: its tag, its payload, and
/// the position just past its newline.
fn parse_line_at(s: &str, pos: usize) -> (r: Option<(char, String, usize)>)
    requires
        pos <= s@.len(),
    ensures
        r matches Some(x) ==> pos < x.2 <= s@.len() && parse_line(s@.skip(pos as int)) == Some(
            (x.0, x.1@, s@.skip(x.2 as int)),
        ),
        r is None ==> parse_line(s@.skip(pos as int)) is None,
{
    let ghost u = s@.skip(pos as int);
    let len = s.unicode_len();
    match find_line_len(s, pos) {
        None => None,
        Some(n) => {
            if n == 0 {
                return None;
            }
            assert(pos + n < len);
            let tag = s.get_char(pos);
            proof {
                assert(u[0] == s@[pos as int]);
                assert(u.take(n as int).drop_first() =~= s@.subrange(
                    pos as int + 1,
                    pos as int + n,
                ));
            }
            match unescape_range(s, pos + 1, pos + n) {
                None => None,
                Some(p) => {
                    proof {
                        assert(u.skip(n as int + 1) =~= s@.skip(pos as int + n + 1));
                    }
                    Some((tag, p, pos + n + 1))
                },
            }
        },
    }
}

/// Reads note records from `pos` until the text ends or the next topic
/// line begins; yields the notes and the position of the unread rest.
fn parse_notes_rec(s: &str, pos: usize) -> (r: Option<(Vec<Note>, usize)>)
    requires
        pos <= s@.len(),
    ensures
        r matches Some(x) ==> pos <= x.1 <= s@.len() && spec_parse_notes(s@.skip(pos as int))
            == Some((x.0.deep_view(), s@.skip(x.1 as int))),
        r is None ==> spec_parse_notes(s@.skip(pos as int)) is None,
    decreases s@.len() - pos,
{
    let ghost u = s@.skip(pos as int);
    let len = s.unicode_len();
    if pos == len {
        let notes: Vec<Note> = Vec::new();
        proof {
            assert(u.len() == 0);
            assert(notes.deep_view() =~~= Seq::<NoteV>::empty());
        }
        return Some((notes, pos));
    }
    match parse_line_at(s, pos) {
        None => None,
        Some((tag1, id, p1)) => {
            if tag1 == 't' {
                let notes: Vec<Note> = Vec::new();
                proof {
                    assert(notes.deep_view() =~~= Seq::<NoteV>::empty());
                }
                return Some((notes, pos));
            }
            if tag1 != 'i' {
                return None;
            }
            match parse_line_at(s, p1) {
                None => None,
                Some((tag2, date, p2)) => {
                    if tag2 != 'd' {
                        return None;
                    }
                    match parse_line_at(s, p2) {
                        None => None,
                        Some((tag3, content, p3)) => {
                            if tag3 != 'c' {
                                return None;
                            }
                            match parse_notes_rec(s, p3) {
                                None => None,
                                Some((mut notes, newpos)) => {
                                    let ghost more = notes.deep_view();
                                    let note = Note { id, content, date };
                                    notes.insert(0, note);
                                    proof {
                                        assert(notes.deep_view() =~~= seq![
                                            NoteV {
                                                id: id@,
                                                content: content@,
                                                date: date@,
                                            },
                                        ] + more);
                                    }
                                    Some((notes, newpos))
                                },
                            }
                        },
                    }
                },
            }
        },
    }
}

/// Reads the whole text from `pos` as topic records.
fn parse_topics_rec(s: &str, pos: usize) -> (r: Option<Vec<(String, Vec<Note>)>>)
    requires
        pos <= s@.len(),
    ensures
        r matches Some(v) ==> spec_parse_topics(s@.skip(pos as int)) == Some(v.deep_view()),
        r is None ==> spec_parse_topics(s@.skip(pos as int)) is None,
    decreases s@.len() - pos,
{
    let ghost u = s@.skip(pos as int);
    let len = s.unicode_len();
    if pos == len {
        let v: Vec<(String, Vec<Note>)> = Vec::new();
        proof {
            assert(u.len() == 0);
            assert(v.deep_view() =~~= Seq::<(Seq<char>, Seq<NoteV>)>::empty());
        }
        return Some(v);
    }
    match parse_line_at(s, pos) {
        None => None,
        Some((tag, name, p1)) => {
            if tag != 't' {
                return None;
            }
            match parse_notes_rec(s, p1) {
                None => None,
                Some((notes, p2)) => {
                    proof {
                        assert(s@.skip(p2 as int).len() < u.len());
                    }
                    match parse_topics_rec(s, p2) {
                        None => None,
                        Some(mut v) => {
                            let ghost more = v.deep_view();
                            let ghost nm = name@;
                            let ghost ns = notes.deep_view();
                            v.insert(0, (name, notes));
                            proof {
                                assert(v.deep_view() =~~= seq![(nm, ns)] + more);
                            }
                            Some(v)
                        },
                    }
                },
            }
        },
    }
}

/// Whether the notebook's topic names are pairwise distinct.
fn names_distinct(v: &Vec<(String, Vec<Note>)>) -> (r: bool)
    ensures
        r == distinct_topic_names(v.deep_view()),
{
    let n = v.len();
    let mut i: usize = 0;
    while i < n
        invariant
            n == v.len(),
            i <= n,
            forall|a: int, b: int| 0 <= a < b < i ==> v.deep_view()[a].0 != v.deep_view()[b].0,
        decreases n - i,
    {
        let mut j: usize = 0;
        while j < i
            invariant
                n == v.len(),
                i < n,
                j <= i,
                forall|a: int, b: int| 0 <= a < b < i ==> v.deep_view()[a].0 != v.deep_view()[b].0,
                forall|a: int| 0 <= a < j ==> v.deep_view()[a].0 != v.deep_view()[i as int].0,
            decreases i - j,
        {
            if v[j].0 == v[i].0 {
                proof {
                    assert(v.deep_view()[j as int].0 == v.deep_view()[i as int].0);
                }
                return false;
            }
            j += 1;
        }
        i += 1;
    }
    true
}

/// Reads stored notebook text back into a notebook.  Fails with
/// `Corrupt` exactly on text that is not a valid stored notebook (bad
/// framing, records out of order, an unknown escape, or duplicate topic
/// names); on success the notebook is exactly what the text encodes,
/// with unique topic names.
pub fn parse_book(text: &str) -> (r: Result<Notebook, NotebookError>)
    ensures
        r is Ok <==> spec_parse_book(text@) is Some,
        r matches Ok(b) ==> spec_parse_book(text@) == Some(b@) && b.wf(),
        r is Err ==> r matches Err(NotebookError::Corrupt),
{
    proof {
        assert(text@.skip(0) =~= text@);
    }
    match parse_topics_rec(text, 0) {
        None => Err(NotebookError::Corrupt),
        Some(v) => {
            if names_distinct(&v) {
                let b = Notebook { topics: v };
                Ok(b)
            } else {
                Err(NotebookError::Corrupt)
            }
        },
    }
}

/// The compute part of a store's load: takes the text its backend read
/// from the notebook's file, or `None` where no such file exists.  A
/// missing file is not an error — first use is expected — and yields an
/// empty notebook; existing text is parsed as [`parse_book`] does.
pub fn load_book_from(contents: Option<&str>) -> (r: Result<Notebook, NotebookError>)
    ensures
        contents is None ==> (r matches Ok(b) && b@ == Seq::<(Seq<char>, Seq<NoteV>)>::empty()
            && b.wf()),
        contents matches Some(text) ==> ((r is Ok <==> spec_parse_book(text@) is Some) && (
        r matches Ok(b) ==> spec_parse_book(text@) == Some(b@) && b.wf())),
        r is Err ==> r matches Err(NotebookError::Corrupt),
{
    match contents {
        None => Ok(Notebook::new()),
        Some(text) => parse_book(text),
    }
}

} // verus!
