use vstd::prelude::*;
use crate::package::opt_text;
use crate::xml::same_text;

verus! {

/// One file of a book's archive: its archive-internal name, its bytes, and its text
/// when the bytes are valid UTF-8.
pub struct ArchiveEntry {
    pub name: String,
    pub text: Option<String>,
    pub data: Vec<u8>,
}

/// The files of a book's archive, as read from disk.
pub struct Archive {
    pub entries: Vec<ArchiveEntry>,
}

/// The text of the first file named `path`, if it has one.
pub open spec fn text_in(files: Seq<ArchiveEntry>, path: Seq<char>) -> Option<Seq<char>>
    decreases files.len(),
{
    if files.len() == 0 {
        None
    } else if files[0].name@ == path {
        opt_text(files[0].text)
    } else {
        text_in(files.drop_first(), path)
    }
}

/// The bytes of the first file named `path`, if there is one.
pub open spec fn bytes_in(files: Seq<ArchiveEntry>, path: Seq<char>) -> Option<Seq<u8>>
    decreases files.len(),
{
    if files.len() == 0 {
        None
    } else if files[0].name@ == path {
        Some(files[0].data@)
    } else {
        bytes_in(files.drop_first(), path)
    }
}

impl Archive {
    pub fn new(entries: Vec<ArchiveEntry>) -> (r: Archive)
        ensures
            r.entries@ == entries@,
    {
        Archive { entries }
    }

    /// The text of the file `path`.
    pub fn read_text(&self, path: &str) -> (r: Option<&String>)
        ensures
            r matches Some(s) ==> text_in(self.entries@, path@) == Some(s@),
            r is None ==> text_in(self.entries@, path@) is None,
    {
        let mut i: usize = 0;
        assert(self.entries@.skip(0) =~= self.entries@);
        while i < self.entries.len()
            invariant
                i <= self.entries@.len(),
                text_in(self.entries@.skip(i as int), path@) == text_in(self.entries@, path@),
            decreases self.entries.len() - i,
        {
            assert(self.entries@.skip(i as int).drop_first() =~= self.entries@.skip(i + 1));
            if same_text(self.entries[i].name.as_str(), path) {
                return match &self.entries[i].text {
                    Some(t) => Some(t),
                    None => None,
                };
            }
            i = i + 1;
        }
        None
    }

    /// The bytes of the file `path`.
    pub fn read_bytes(&self, path: &str) -> (r: Option<&Vec<u8>>)
        ensures
            r matches Some(b) ==> bytes_in(self.entries@, path@) == Some(b@),
            r is None ==> bytes_in(self.entries@, path@) is None,
    {
        let mut i: usize = 0;
        assert(self.entries@.skip(0) =~= self.entries@);
        while i < self.entries.len()
            invariant
                i <= self.entries@.len(),
                bytes_in(self.entries@.skip(i as int), path@) == bytes_in(self.entries@, path@),
            decreases self.entries.len() - i,
        {
            assert(self.entries@.skip(i as int).drop_first() =~= self.entries@.skip(i + 1));
            if same_text(self.entries[i].name.as_str(), path) {
                return Some(&self.entries[i].data);
            }
            i = i + 1;
        }
        None
    }
}

} // verus!
