//! The source files of the configuration, kept for diagnostics.

use std::collections::HashMap;
use std::path::PathBuf;
use vstd::prelude::*;
use vstd::string::StringSliceAdditionalSpecFns;
use vstd::utf8::encode_utf8;
use crate::files::{FileError, line_index_in, line_range_in, line_start_in, line_starts_of, line_starts_spec, line_starts_wf};

verus! {

/// Where the text of a file comes from.
#[derive(Debug)]
pub enum CodeSource {
    /// A file on disk, read again when its text is needed.
    File(PathBuf),
    /// A text given directly.
    Literal(String),
}

/// A file of the database: its name, where each of its lines starts, and
/// its length in bytes.
#[derive(Debug)]
pub struct CodeFile {
    pub name: String,
    pub line_starts: Vec<usize>,
    pub source: CodeSource,
    pub source_len_bytes: usize,
}

impl CodeFile {
    /// Return the starting byte index of the line with the specified line
    /// index; for the line just past the last one, the length of the file.
    pub fn line_start(&self, line_index: usize) -> (r: Result<usize, FileError>)
        requires
            self.line_starts@.len() >= 1,
        ensures
            line_index < self.line_starts@.len() ==> r == Ok::<usize, FileError>(self.line_starts@[line_index as int]),
            line_index == self.line_starts@.len() ==> r == Ok::<usize, FileError>(self.source_len_bytes),
            line_index > self.line_starts@.len() ==> r == Err::<usize, FileError>(FileError::LineTooLarge {
                given: line_index,
                max: (self.line_starts@.len() - 1) as usize,
            }),
    {
        line_start_in(&self.line_starts, self.source_len_bytes, line_index)
    }
}

/// The files of the configuration, by id. Ids are handed out in order and
/// not reused.
#[derive(Debug)]
pub struct FileDatabase {
    files: HashMap<usize, CodeFile>,
    latest_id: usize,
}

impl FileDatabase {
    /// The files by id.
    pub closed spec fn files(&self) -> Map<usize, CodeFile> {
        self.files@
    }

    /// The id the next file gets.
    pub closed spec fn next_id(&self) -> usize {
        self.latest_id
    }

    /// Every file has an id below the next one, and well-formed line starts.
    pub closed spec fn wf(&self) -> bool {
        forall|id: usize| #[trigger] self.files@.contains_key(id) ==> id < self.latest_id
            && line_starts_wf(self.files@[id].line_starts@, self.files@[id].source_len_bytes)
    }

    /// An empty database.
    pub fn new() -> (db: Self)
        ensures
            db.wf(),
            db.files() == Map::<usize, CodeFile>::empty(),
            db.next_id() == 0,
    {
        FileDatabase { files: HashMap::new(), latest_id: 0 }
    }

    /// The file `id`.
    pub fn get_file(&self, id: usize) -> (r: Result<&CodeFile, FileError>)
        ensures
            match r {
                Ok(f) => self.files().contains_key(id) && *f == self.files()[id],
                Err(e) => !self.files().contains_key(id) && e == FileError::FileMissing,
            },
    {
        match self.files.get(&id) {
            Some(f) => Ok(f),
            None => Err(FileError::FileMissing),
        }
    }

    /// Adds `file` under the next id, which it returns.
    fn insert_code_file(&mut self, file: CodeFile) -> (id: usize)
        requires
            old(self).wf(),
            old(self).next_id() < usize::MAX,
            line_starts_wf(file.line_starts@, file.source_len_bytes),
        ensures
            final(self).wf(),
            id == old(self).next_id(),
            final(self).next_id() == old(self).next_id() + 1,
            final(self).files() == old(self).files().insert(id, file),
    {
        let file_id = self.latest_id;
        self.files.insert(file_id, file);
        self.latest_id = self.latest_id + 1;
        file_id
    }

    /// A file for the text `content`, under the name `name`.
    fn code_file(name: String, content: &str, source: CodeSource) -> (f: CodeFile)
        ensures
            f.name == name,
            f.line_starts@ == line_starts_spec(content.spec_bytes()),
            f.source_len_bytes == content.spec_bytes().len(),
            f.source == source,
            line_starts_wf(f.line_starts@, f.source_len_bytes),
    {
        let (line_starts, len) = line_starts_of(content);
        CodeFile { name, line_starts, source, source_len_bytes: len }
    }

    /// Adds a file whose text is `content`, named `name`, and returns its id.
    pub fn insert_string(&mut self, name: String, content: String) -> (id: usize)
        requires
            old(self).wf(),
            old(self).next_id() < usize::MAX,
        ensures
            final(self).wf(),
            id == old(self).next_id(),
            final(self).next_id() == old(self).next_id() + 1,
            final(self).files().dom() == old(self).files().dom().insert(id),
            forall|k: usize| k != id && #[trigger] old(self).files().contains_key(k) ==> final(self).files()[k] == old(self).files()[k],
            final(self).files()[id].name == name,
            final(self).files()[id].line_starts@ == line_starts_spec(encode_utf8(content@)),
            final(self).files()[id].source_len_bytes == encode_utf8(content@).len(),
            final(self).files()[id].source == CodeSource::Literal(content),
    {
        let ghost text = content;
        let file = Self::code_file(name, content.as_str(), CodeSource::Literal(content.clone()));
        let id = self.insert_code_file(file);
        proof {
            assert(self.files().dom() =~= old(self).files().dom().insert(id));
        }
        id
    }

    /// Adds the file at `path`, named `name`, whose text was read as
    /// `content`, and returns its id. Its text is read again from `path`
    /// when it is needed.
    pub fn insert_file(&mut self, path: PathBuf, name: String, content: &str) -> (id: usize)
        requires
            old(self).wf(),
            old(self).next_id() < usize::MAX,
        ensures
            final(self).wf(),
            id == old(self).next_id(),
            final(self).next_id() == old(self).next_id() + 1,
            final(self).files().dom() == old(self).files().dom().insert(id),
            forall|k: usize| k != id && #[trigger] old(self).files().contains_key(k) ==> final(self).files()[k] == old(self).files()[k],
            final(self).files()[id].name == name,
            final(self).files()[id].line_starts@ == line_starts_spec(content.spec_bytes()),
            final(self).files()[id].source_len_bytes == content.spec_bytes().len(),
            final(self).files()[id].source == CodeSource::File(path),
    {
        let file = Self::code_file(name, content, CodeSource::File(path));
        let id = self.insert_code_file(file);
        proof {
            assert(self.files().dom() =~= old(self).files().dom().insert(id));
        }
        id
    }

    /// Forgets the file `id`.
    pub fn unload(&mut self, id: usize)
        requires
            old(self).wf(),
        ensures
            final(self).wf(),
            final(self).next_id() == old(self).next_id(),
            final(self).files() == old(self).files().remove(id),
    {
        self.files.remove(&id);
    }

    /// The name of the file `id`.
    pub fn name(&self, id: usize) -> (r: Result<&String, FileError>)
        ensures
            match r {
                Ok(n) => self.files().contains_key(id) && *n == self.files()[id].name,
                Err(e) => !self.files().contains_key(id) && e == FileError::FileMissing,
            },
    {
        match self.get_file(id) {
            Ok(f) => Ok(&f.name),
            Err(e) => Err(e),
        }
    }

    /// Where the text of the file `id` comes from.
    pub fn source(&self, id: usize) -> (r: Result<&CodeSource, FileError>)
        ensures
            match r {
                Ok(s) => self.files().contains_key(id) && *s == self.files()[id].source,
                Err(e) => !self.files().contains_key(id) && e == FileError::FileMissing,
            },
    {
        match self.get_file(id) {
            Ok(f) => Ok(&f.source),
            Err(e) => Err(e),
        }
    }

    /// The index of the line of file `id` that byte `byte_index` lies on: the
    /// last line that starts at or before it.
    pub fn line_index(&self, id: usize, byte_index: usize) -> (r: Result<usize, FileError>)
        requires
            self.wf(),
        ensures
            match r {
                Ok(l) => {
                    &&& self.files().contains_key(id)
                    &&& l < self.files()[id].line_starts@.len()
                    &&& self.files()[id].line_starts@[l as int] <= byte_index
                    &&& (l + 1 == self.files()[id].line_starts@.len() || self.files()[id].line_starts@[l + 1] > byte_index)
                },
                Err(e) => !self.files().contains_key(id) && e == FileError::FileMissing,
            },
    {
        match self.get_file(id) {
            Ok(f) => Ok(line_index_in(&f.line_starts, byte_index)),
            Err(e) => Err(e),
        }
    }

    /// The bytes of file `id` from the start of line `line_index` to the
    /// start of the next line, or to its end for the last line.
    pub fn line_range(&self, id: usize, line_index: usize) -> (r: Result<std::ops::Range<usize>, FileError>)
        requires
            self.wf(),
            line_index < usize::MAX,
        ensures
            !self.files().contains_key(id) ==> r == Err::<std::ops::Range<usize>, FileError>(FileError::FileMissing),
            self.files().contains_key(id) ==> {
                let ls = self.files()[id].line_starts@;
                let max = (ls.len() - 1) as usize;
                &&& line_index < ls.len() ==> (r matches Ok(range) && range.start == ls[line_index as int]
                    && range.end == if line_index + 1 < ls.len() { ls[line_index + 1] } else { self.files()[id].source_len_bytes })
                &&& line_index == ls.len() ==> r == Err::<std::ops::Range<usize>, FileError>(FileError::LineTooLarge {
                    given: (line_index + 1) as usize,
                    max,
                })
                &&& line_index > ls.len() ==> r == Err::<std::ops::Range<usize>, FileError>(FileError::LineTooLarge {
                    given: line_index,
                    max,
                })
            },
    {
        match self.get_file(id) {
            Ok(f) => line_range_in(&f.line_starts, f.source_len_bytes, line_index),
            Err(e) => Err(e),
        }
    }
}

impl Default for FileDatabase {
    fn default() -> (db: Self)
        ensures
            db.wf(),
            db.files() == Map::<usize, CodeFile>::empty(),
            db.next_id() == 0,
    {
        FileDatabase::new()
    }
}

} // verus!
