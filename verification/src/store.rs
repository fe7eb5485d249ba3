//! The save/read side of the note backend, stated over a functional model
//! of the filesystem: a map from a file's path to its content. Saving a
//! note overwrites whatever the path held; reading returns the content
//! exactly when the path holds a file. `NoteStore` is an in-memory store
//! verified against that model, so the round-trip laws proved here can
//! also be exercised by running code.

use vstd::prelude::*;

verus! {

/// The filesystem after a note is saved: the path now holds exactly the
/// given content, created if absent, overwritten otherwise; every other
/// path is untouched.
pub open spec fn spec_save(
    fs: Map<Seq<char>, Seq<char>>,
    path: Seq<char>,
    content: Seq<char>,
) -> Map<Seq<char>, Seq<char>> {
    fs.insert(path, content)
}

/// What reading a note returns: the full content when the path holds a
/// file, and nothing at all otherwise — never a default in place of a
/// missing file.
pub open spec fn spec_read(fs: Map<Seq<char>, Seq<char>>, path: Seq<char>) -> Option<Seq<char>> {
    if fs.contains_key(path) {
        Some(fs[path])
    } else {
        None
    }
}

/// Round-trip law: on any filesystem, reading a note right after saving
/// it returns exactly the content that was saved.
pub proof fn lemma_read_after_save(
    fs: Map<Seq<char>, Seq<char>>,
    path: Seq<char>,
    content: Seq<char>,
)
    ensures
        spec_read(spec_save(fs, path, content), path) == Some(content),
{
}

/// Overwrite law: saving twice to one path and then reading returns the
/// second content; the first save leaves no trace and nothing is merged.
pub proof fn lemma_second_save_wins(
    fs: Map<Seq<char>, Seq<char>>,
    path: Seq<char>,
    first: Seq<char>,
    second: Seq<char>,
)
    ensures
        spec_read(spec_save(spec_save(fs, path, first), path, second), path) == Some(second),
{
}

/// The filesystem that a sequence of (path, content) writes builds up,
/// later writes overwriting earlier ones.
pub open spec fn notes_map(writes: Seq<(String, String)>) -> Map<Seq<char>, Seq<char>>
    decreases writes.len(),
{
    if writes.len() == 0 {
        Map::empty()
    } else {
        notes_map(writes.drop_last()).insert(writes.last().0@, writes.last().1@)
    }
}

/// An in-memory note store verified against the filesystem model: it
/// keeps the log of saves and answers reads from it, the latest save to a
/// path winning.
pub struct NoteStore {
    writes: Vec<(String, String)>,
}

impl View for NoteStore {
    type V = Map<Seq<char>, Seq<char>>;

    closed spec fn view(&self) -> Map<Seq<char>, Seq<char>> {
        notes_map(self.writes@)
    }
}

impl NoteStore {
    /// A store with no notes at all.
    pub fn new() -> (store: NoteStore)
        ensures
            store@ == Map::<Seq<char>, Seq<char>>::empty(),
    {
        NoteStore { writes: Vec::new() }
    }

    /// Saves a note: the path now holds exactly `content`, whether or not
    /// it held anything before; no other path changes.
    pub fn save_note(&mut self, path: String, content: String)
        ensures
            final(self)@ == spec_save(old(self)@, path@, content@),
    {
        let ghost prior = self.writes@;
        self.writes.push((path, content));
        proof {
            assert(self.writes@.drop_last() =~= prior);
        }
    }

    /// Reads a note: the content last saved at the path, or nothing when
    /// the path holds no note.
    pub fn read_note(&self, path: &String) -> (r: Option<String>)
        ensures
            match r {
                Some(content) => spec_read(self@, path@) == Some(content@),
                None => spec_read(self@, path@) is None,
            },
    {
        let mut i: usize = self.writes.len();
        proof {
            assert(self.writes@.take(i as int) =~= self.writes@);
        }
        while i > 0
            invariant
                i <= self.writes@.len(),
                notes_map(self.writes@).contains_key(path@) == notes_map(
                    self.writes@.take(i as int),
                ).contains_key(path@),
                notes_map(self.writes@).contains_key(path@) ==> notes_map(self.writes@)[path@]
                    == notes_map(self.writes@.take(i as int))[path@],
            decreases i,
        {
            i = i - 1;
            proof {
                let taken = self.writes@.take(i + 1);
                assert(taken.drop_last() =~= self.writes@.take(i as int));
                assert(taken.last() == self.writes@[i as int]);
            }
            if self.writes[i].0 == *path {
                return Some(self.writes[i].1.clone());
            }
        }
        proof {
            assert(self.writes@.take(0) =~= Seq::<(String, String)>::empty());
        }
        None
    }
}

} // verus!
