use vstd::prelude::*;

use crate::text::{spec_strip_prefix, str_eq, strip_prefix};

verus! {

/// Tells Verus of the error type std's input and output functions return.
#[verifier::external_type_specification]
#[verifier::external_body]
pub struct ExIoError(std::io::Error);

/// Why a save file could not be read or written.
#[derive(Debug)]
pub enum FileError {
    Unavailable,
    Io(std::io::Error),
    Other(String),
}

/// Calls `ToString::to_string` on an `std::io::Error`, which writes the
/// error's own description. Nothing is claimed of the text.
#[verifier::external_body]
fn io_error_text(e: &std::io::Error) -> String {
    e.to_string()
}

impl FileError {
    /// The text shown for the error; an I/O error shows its own text.
    pub fn message(&self) -> (r: String)
        ensures
            *self is Unavailable ==> r@ == "storage is unavailable"@,
            *self matches FileError::Other(s) ==> r@ == s@,
    {
        match self {
            FileError::Unavailable => "storage is unavailable".to_owned(),
            FileError::Io(e) => io_error_text(e),
            FileError::Other(s) => s.clone(),
        }
    }
}

/// Where the game keeps its save files.
pub trait FileStorage {
    /// The bytes of the file `name`, or nothing when there is no such file.
    fn load(&self, name: &str) -> Result<Option<Vec<u8>>, FileError>;

    /// Writes `bytes` as the file `name`.
    fn save(&mut self, name: &str, bytes: &[u8]) -> Result<(), FileError>;
}

/// The bytes stored last under `name`.
pub open spec fn files_lookup(files: Seq<(String, Vec<u8>)>, name: Seq<char>) -> Option<Seq<u8>>
    decreases files.len(),
{
    if files.len() == 0 {
        None
    } else if files.last().0@ == name {
        Some(files.last().1@)
    } else {
        files_lookup(files.drop_last(), name)
    }
}

/// Save files kept in memory only, for builds with nowhere else to keep
/// them: they last while the game runs.
pub struct MemoryFileStorage {
    files: Vec<(String, Vec<u8>)>,
}

impl View for MemoryFileStorage {
    type V = Map<Seq<char>, Seq<u8>>;

    closed spec fn view(&self) -> Map<Seq<char>, Seq<u8>> {
        Map::new(|k: Seq<char>| files_lookup(self.files@, k) is Some, |k: Seq<char>| files_lookup(self.files@, k)->0)
    }
}

proof fn lemma_files_lookup_none(files: Seq<(String, Vec<u8>)>, name: Seq<char>)
    requires
        forall|i: int| 0 <= i < files.len() ==> (#[trigger] files[i]).0@ != name,
    ensures
        files_lookup(files, name) is None,
    decreases files.len(),
{
    if files.len() > 0 {
        let rest = files.drop_last();
        assert(files.last() == files[files.len() - 1]);
        assert forall|i: int| 0 <= i < rest.len() implies (#[trigger] rest[i]).0@ != name by {
            assert(rest[i] == files[i]);
        }
        lemma_files_lookup_none(rest, name);
    }
}

proof fn lemma_files_lookup_found(files: Seq<(String, Vec<u8>)>, i: int)
    requires
        0 <= i < files.len(),
        forall|j: int| i < j < files.len() ==> (#[trigger] files[j]).0@ != files[i].0@,
    ensures
        files_lookup(files, files[i].0@) == Some(files[i].1@),
    decreases files.len(),
{
    if i < files.len() - 1 {
        let rest = files.drop_last();
        assert(files.last() == files[files.len() - 1]);
        assert(rest[i] == files[i]);
        assert forall|j: int| i < j < rest.len() implies (#[trigger] rest[j]).0@ != rest[i].0@ by {
            assert(rest[j] == files[j]);
        }
        lemma_files_lookup_found(rest, i);
    }
}

impl MemoryFileStorage {
    /// No files.
    pub fn new() -> (r: MemoryFileStorage)
        ensures
            r@ == Map::<Seq<char>, Seq<u8>>::empty(),
    {
        let r = MemoryFileStorage { files: Vec::new() };
        proof {
            assert(r@ =~= Map::<Seq<char>, Seq<u8>>::empty());
        }
        r
    }

    /// The bytes of the file `name`, or nothing when there is no such file.
    pub fn read_file(&self, name: &str) -> (r: Option<Vec<u8>>)
        ensures
            match r {
                Some(bytes) => self@.contains_key(name@) && bytes@ == self@[name@],
                None => !self@.contains_key(name@),
            },
    {
        let mut i: usize = self.files.len();
        while i > 0
            invariant
                i <= self.files@.len(),
                forall|j: int| i <= j < self.files@.len() ==> (#[trigger] self.files@[j]).0@ != name@,
            decreases i,
        {
            i -= 1;
            if str_eq(self.files[i].0.as_str(), name) {
                proof {
                    lemma_files_lookup_found(self.files@, i as int);
                }
                let bytes = self.files[i].1.clone();
                return Some(bytes);
            }
        }
        proof {
            lemma_files_lookup_none(self.files@, name@);
        }
        None
    }

    /// Writes `bytes` as the file `name`, replacing what was there.
    pub fn write_file(&mut self, name: &str, bytes: &[u8])
        ensures
            final(self)@ == old(self)@.insert(name@, bytes@),
    {
        let ghost before = self.files@;
        let mut copy: Vec<u8> = Vec::new();
        let mut k: usize = 0;
        while k < bytes.len()
            invariant
                k <= bytes@.len(),
                copy@ == bytes@.take(k as int),
            decreases bytes@.len() - k,
        {
            copy.push(bytes[k]);
            proof {
                assert(bytes@.take(k + 1) =~= bytes@.take(k as int).push(bytes@[k as int]));
            }
            k += 1;
        }
        proof {
            assert(bytes@.take(bytes@.len() as int) =~= bytes@);
        }
        self.files.push((name.to_owned(), copy));
        proof {
            let after = self.files@;
            assert(after.drop_last() =~= before);
            assert(after.last() == after[after.len() - 1]);
            assert(self@ =~= old(self)@.insert(name@, bytes@));
        }
    }
}

impl FileStorage for MemoryFileStorage {
    /// The bytes of the file `name`; reading never fails.
    fn load(&self, name: &str) -> (r: Result<Option<Vec<u8>>, FileError>)
        ensures
            r matches Ok(found) && match found {
                Some(bytes) => self@.contains_key(name@) && bytes@ == self@[name@],
                None => !self@.contains_key(name@),
            },
    {
        Ok(self.read_file(name))
    }

    /// Writes `bytes` as the file `name`; writing never fails.
    fn save(&mut self, name: &str, bytes: &[u8]) -> (r: Result<(), FileError>)
        ensures
            r is Ok,
            final(self)@ == old(self)@.insert(name@, bytes@),
    {
        self.write_file(name, bytes);
        Ok(())
    }
}

/// A file read back after it was written holds the bytes written, and
/// writing one file leaves every other file as it was.
pub proof fn lemma_storage_read_after_write(
    before: Map<Seq<char>, Seq<u8>>,
    name: Seq<char>,
    bytes: Seq<u8>,
    other: Seq<char>,
)
    ensures
        before.insert(name, bytes).contains_key(name),
        before.insert(name, bytes)[name] == bytes,
        other != name ==> before.insert(name, bytes).contains_key(other) == before.contains_key(other),
        other != name && before.contains_key(other) ==> before.insert(name, bytes)[other] == before[other],
{
}

/// The storage the game reads and writes its save files through.
pub struct FileStorageResource<S> {
    backend: S,
}

impl<S: FileStorage> FileStorageResource<S> {
    pub closed spec fn backend_value(&self) -> S {
        self.backend
    }

    /// A resource writing through `backend`.
    pub fn new(backend: S) -> (r: FileStorageResource<S>)
        ensures
            r.backend_value() == backend,
    {
        FileStorageResource { backend }
    }

    /// The storage written through.
    pub fn backend(&self) -> (r: &S)
        ensures
            *r == self.backend_value(),
    {
        &self.backend
    }

    /// The storage written through, for writing.
    pub fn backend_mut(&mut self) -> (r: &mut S)
        ensures
            *r == old(self).backend_value(),
            final(self).backend_value() == *final(r),
    {
        &mut self.backend
    }
}

/// The name a remote store is given for the file `name`: remote stores
/// take no absolute paths, so one leading `/` is dropped.
pub fn sanitize_name(name: &str) -> (r: String)
    ensures
        r@ == match spec_strip_prefix(name@, "/"@) {
            Some(rest) => rest,
            None => name@,
        },
{
    match strip_prefix(name, "/") {
        Some(rest) => rest,
        None => name.to_owned(),
    }
}

} // verus!
