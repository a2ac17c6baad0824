//! The notebook data model: notes filed in order under named topics.
use crate::errors::NotebookError;
use vstd::prelude::*;

verus! {

/// Name of the dot-directory that holds notebook files by default.
pub const DEFAULT_DIR_NAME: &'static str = ".vnote";

/// Name of the notebook used when the caller specifies none.
pub const DEFAULT_BOOK_NAME: &'static str = "vnote";

/// The mathematical value of a note: its three text fields as character
/// sequences.
pub ghost struct NoteV {
    pub id: Seq<char>,
    pub content: Seq<char>,
    pub date: Seq<char>,
}

/// A single note: unique identifier, text content and creation timestamp,
/// all fixed at creation.
#[derive(Clone)]
pub struct Note {
    pub id: String,
    pub content: String,
    pub date: String,
}

impl DeepView for Note {
    type V = NoteV;

    open spec fn deep_view(&self) -> NoteV {
        NoteV { id: self.id@, content: self.content@, date: self.date@ }
    }
}

/// Relies on uuid::Uuid::new_v4 and its hyphenated display form: a fresh
/// random identifier rendered as 36 characters.  Nothing more is assumed
/// of the random value.
#[verifier::external_body]
fn fresh_note_id() -> (r: String)
    ensures
        r@.len() == 36,
{
    uuid::Uuid::new_v4().to_string()
}

/// Relies on chrono::Local::now and DateTime::to_rfc3339: the current
/// local time rendered as a non-empty RFC 3339 timestamp.  Nothing more
/// is assumed of the clock reading.
#[verifier::external_body]
fn local_timestamp() -> (r: String)
    ensures
        r@.len() > 0,
{
    chrono::Local::now().to_rfc3339()
}

impl Note {
    /// Creates a new Note with a fresh unique id and the current local
    /// timestamp; the content is taken verbatim.
    pub fn new(content: String) -> (n: Note)
        ensures
            n.content@ == content@,
            n.id@.len() == 36,
            n.date@.len() > 0,
    {
        Note { id: fresh_note_id(), content, date: local_timestamp() }
    }

    pub fn id(&self) -> (r: &String)
        ensures
            r@ == self.id@,
    {
        &self.id
    }

    pub fn content(&self) -> (r: &str)
        ensures
            r@ == self.content@,
    {
        self.content.as_str()
    }

    pub fn date(&self) -> (r: &str)
        ensures
            r@ == self.date@,
    {
        self.date.as_str()
    }
}

/// Represents the contents of a notebook: a mapping from topic name to
/// the notes filed under it, in the order they were added.  Topics keep
/// their insertion order, which makes enumeration deterministic.
pub struct Notebook {
    pub topics: Vec<(String, Vec<Note>)>,
}

impl View for Notebook {
    type V = Seq<(Seq<char>, Seq<NoteV>)>;

    open spec fn view(&self) -> Seq<(Seq<char>, Seq<NoteV>)> {
        self.topics.deep_view()
    }
}

impl Notebook {
    /// Topic names are unique keys.
    pub open spec fn wf(self) -> bool {
        forall|i: int, j: int| 0 <= i < j < self@.len() ==> self@[i].0 != self@[j].0
    }

    /// Creates an empty notebook.
    pub fn new() -> (b: Notebook)
        ensures
            b@ == Seq::<(Seq<char>, Seq<NoteV>)>::empty(),
            b.wf(),
    {
        let b = Notebook { topics: Vec::new() };
        proof {
            assert(b@ =~= Seq::<(Seq<char>, Seq<NoteV>)>::empty());
        }
        b
    }

    /// Appends `note` to the bucket for `topic`, creating the bucket at
    /// the end of the notebook if the topic is new.
    pub fn add_note(&mut self, topic: &str, note: Note)
        ensures
            old(self).wf() ==> final(self).wf(),
            (forall|j: int| 0 <= j < old(self)@.len() ==> old(self)@[j].0 != topic@) ==> final(self)@ == old(self)@.push((topic@, seq![note.deep_view()])),
            forall|i: int|
                0 <= i < old(self)@.len() && old(self)@[i].0 == topic@ && (forall|j: int|
                    0 <= j < i ==> old(self)@[j].0 != topic@) ==> final(self)@ == old(self)@.update(
                    i,
                    (old(self)@[i].0, old(self)@[i].1.push(note.deep_view())),
                ),
    {
        let owned: String = topic.to_owned();
        let n = self.topics.len();
        let mut i: usize = 0;
        while i < n
            invariant
                n == self.topics.len(),
                *self == *old(self),
                owned@ == topic@,
                i <= n,
                forall|j: int| 0 <= j < i ==> self@[j].0 != topic@,
            decreases n - i,
        {
            if self.topics[i].0 == owned {
                assert(self@[i as int].0 == topic@);
                let (name, mut notes) = self.topics.remove(i);
                notes.push(note);
                self.topics.insert(i, (name, notes));
                proof {
                    let ghost o = old(self)@;
                    assert(self@ =~~= o.update(
                        i as int,
                        (o[i as int].0, o[i as int].1.push(note.deep_view())),
                    ));
                    assert forall|k: int|
                        0 <= k < o.len() && o[k].0 == topic@ && (forall|j: int|
                            0 <= j < k ==> o[j].0 != topic@) implies k == i as int by {}
                }
                return ;
            }
            i += 1;
        }
        self.topics.push((owned, vec![note]));
        proof {
            assert(self@ =~~= old(self)@.push((topic@, seq![note.deep_view()])));
        }
    }

    /// Ensures a bucket for `topic` exists, without adding a note to it:
    /// a new empty bucket is appended if the topic is absent, and an
    /// existing bucket is left as it is.
    pub fn add_topic(&mut self, topic: &str)
        ensures
            old(self).wf() ==> final(self).wf(),
            (forall|j: int| 0 <= j < old(self)@.len() ==> old(self)@[j].0 != topic@) ==> final(self)@ == old(self)@.push((topic@, Seq::<NoteV>::empty())),
            (exists|j: int| 0 <= j < old(self)@.len() && old(self)@[j].0 == topic@) ==> final(self)@ == old(self)@,
    {
        let owned: String = topic.to_owned();
        let n = self.topics.len();
        let mut i: usize = 0;
        while i < n
            invariant
                n == self.topics.len(),
                *self == *old(self),
                owned@ == topic@,
                i <= n,
                forall|j: int| 0 <= j < i ==> self@[j].0 != topic@,
            decreases n - i,
        {
            if self.topics[i].0 == owned {
                assert(self@[i as int].0 == topic@);
                return ;
            }
            i += 1;
        }
        self.topics.push((owned, Vec::new()));
        proof {
            assert(self@ =~~= old(self)@.push((topic@, Seq::<NoteV>::empty())));
        }
    }
}

impl Default for Notebook {
    fn default() -> (b: Notebook)
        ensures
            b@ == Seq::<(Seq<char>, Seq<NoteV>)>::empty(),
            b.wf(),
    {
        Notebook::new()
    }
}

/// Interface of a durable store that keeps one notebook per name.  A
/// storage backend outside this crate implements it; no contract is
/// assumed of such an implementation.
pub trait NotebookStore {
    /// Ensures the underlying storage exists and is ready to use.
    fn setup(&self) -> Result<(), NotebookError>;

    /// Adds a note to a book, and commits it to storage.
    fn add_note(&self, topic: &str, note: Note, book_name: Option<&str>) -> Result<(), NotebookError>;

    /// Loads the named notebook, or an empty one if none was saved yet.
    fn load_book(&self, book_name: &str) -> Result<Notebook, NotebookError>;

    /// Serializes the whole notebook and overwrites the file for its name.
    fn save_book(&self, book_name: &str, book: Notebook) -> Result<(), NotebookError>;
}

/// Where a file-backed notebook store keeps its data: the directory that
/// holds one file per notebook, and the name of the default notebook.
pub struct NotebookFileStorage {
    pub dir_path: String,
    /// The name of the default notebook.
    pub book_name: String,
}

impl NotebookFileStorage {
    /// Creates a new filestorage instance.
    pub fn new(dir_path: &str, book_name: &str) -> (s: NotebookFileStorage)
        ensures
            s.dir_path@ == dir_path@,
            s.book_name@ == book_name@,
    {
        NotebookFileStorage { dir_path: dir_path.to_owned(), book_name: book_name.to_owned() }
    }
}

} // verus!
