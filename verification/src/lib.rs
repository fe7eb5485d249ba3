//! Backend of a markdown note-taking application: saving, reading and
//! listing notes, stated and verified over a functional model of the
//! filesystem.

mod listing;
mod store;

pub use listing::DirEntry;
pub use listing::filter_md_entries;
pub use listing::is_md_name;
pub use listing::lemma_is_md_name_suffix;
pub use listing::lemma_md_paths_complete;
pub use listing::lemma_md_paths_sound;
pub use listing::list_notes;
pub use listing::md_paths;
pub use listing::name_is_md;
pub use store::NoteStore;
pub use store::lemma_read_after_save;
pub use store::lemma_second_save_wins;
pub use store::spec_read;
pub use store::spec_save;
