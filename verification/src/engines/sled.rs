//! The embedded engine: the engine interface over a `sled` store.
//!
//! Keys and values go into the store as the bytes of their UTF-8 form. Each
//! change is flushed to disk before the call returns.

use crate::engine::{sled_dir, sled_dir_name, KvsEngine};
use crate::error::KvsError;
use crate::text::{lemma_text_of_bytes, lemma_utf8_injective, text_of, to_text};
use std::path::PathBuf;
use vstd::prelude::*;
use vstd::utf8::encode_utf8;

verus! {

/// `sled::Db`, a handle to an open store. Nothing is known of a value of
/// it but what `stored` names.
#[verifier::external_type_specification]
#[verifier::external_body]
pub struct ExSledDb(sled::Db);

/// `std::path::PathBuf`, carried through to `sled::open`.
#[verifier::external_type_specification]
#[verifier::external_body]
pub struct ExPathBuf(PathBuf);

/// What a `sled` store holds in its default tree: the value of each key
/// that has one, keys and values as bytes.
pub uninterp spec fn stored(db: sled::Db) -> Map<Seq<u8>, Seq<u8>>;

/// The path at which a `sled` store was opened: the path that was handed
/// to `sled::open` when the handle was made.
pub uninterp spec fn opened_at(db: sled::Db) -> PathBuf;

/// The path that `Path::join` of std gives for the entry `name` of the
/// directory `dir`.
pub uninterp spec fn joined(dir: PathBuf, name: Seq<char>) -> PathBuf;

/// The value of `key` in `m`, `None` where it has none.
pub open spec fn lookup(m: Map<Seq<u8>, Seq<u8>>, key: Seq<u8>) -> Option<Seq<u8>> {
    if m.contains_key(key) {
        Some(m[key])
    } else {
        None
    }
}

/// Bytes, or none, as contracts see them.
pub open spec fn bytes_view(found: Option<Vec<u8>>) -> Option<Seq<u8>> {
    match found {
        Some(bytes) => Some(bytes@),
        None => None,
    }
}

/// `Path::join` of std: the path of the entry `name` of the directory
/// `dir`. The result depends on the two arguments alone; `joined` is its
/// name.
#[verifier::external_body]
fn path_join(dir: &PathBuf, name: &str) -> (r: PathBuf)
    ensures
        r == joined(*dir, name@),
{
    dir.join(name)
}

/// `sled::open`: opens the store at `path`, creating it where there is
/// none. Whether the call succeeds and what the store holds depends on the
/// disk, and nothing is claimed of either. A handle that it returns is a
/// handle to the store at `path`: sled keeps the path in the handle's
/// configuration.
#[verifier::external_body]
fn sled_open(path: &PathBuf) -> (r: Result<sled::Db, sled::Error>)
    ensures
        r matches Ok(db) ==> opened_at(db) == *path,
{
    sled::open(path)
}

/// `Tree::get` of sled on the default tree, the value copied into a
/// vector. Where the call succeeds it returns the value that the store
/// holds for `key`, or `None` where it holds none.
#[verifier::external_body]
fn sled_get(db: &sled::Db, key: &[u8]) -> (r: Result<Option<Vec<u8>>, sled::Error>)
    ensures
        r matches Ok(found) ==> bytes_view(found) == lookup(stored(*db), key@),
{
    match db.get(key) {
        Ok(Some(value)) => Ok(Some(value.to_vec())),
        Ok(None) => Ok(None),
        Err(e) => Err(e),
    }
}

/// `Tree::insert` of sled on the default tree. Where the call succeeds the
/// store holds `value` for `key` and is otherwise as before, and the
/// result is the value that `key` had. The handle stays a handle to the
/// store at the same path.
#[verifier::external_body]
fn sled_insert(db: &mut sled::Db, key: &[u8], value: Vec<u8>) -> (r: Result<
    Option<Vec<u8>>,
    sled::Error,
>)
    ensures
        r matches Ok(previous) ==> bytes_view(previous) == lookup(stored(*old(db)), key@)
            && stored(*final(db)) == stored(*old(db)).insert(key@, value@),
        opened_at(*final(db)) == opened_at(*old(db)),
{
    match db.insert(key, value) {
        Ok(Some(previous)) => Ok(Some(previous.to_vec())),
        Ok(None) => Ok(None),
        Err(e) => Err(e),
    }
}

/// `Tree::remove` of sled on the default tree. Where the call succeeds the
/// store holds no value for `key` and is otherwise as before, and the
/// result is the value that `key` had. The handle stays a handle to the
/// store at the same path.
#[verifier::external_body]
fn sled_remove(db: &mut sled::Db, key: &[u8]) -> (r: Result<Option<Vec<u8>>, sled::Error>)
    ensures
        r matches Ok(previous) ==> bytes_view(previous) == lookup(stored(*old(db)), key@)
            && stored(*final(db)) == stored(*old(db)).remove(key@),
        opened_at(*final(db)) == opened_at(*old(db)),
{
    match db.remove(key) {
        Ok(Some(previous)) => Ok(Some(previous.to_vec())),
        Ok(None) => Ok(None),
        Err(e) => Err(e),
    }
}

/// `Tree::flush` of sled: writes what is buffered to disk. The store holds
/// what it held. Nothing is claimed of the number that is returned.
#[verifier::external_body]
fn sled_flush(db: &sled::Db) -> Result<usize, sled::Error> {
    db.flush()
}

/// The embedded engine.
pub struct SledKvsEngine {
    inner: sled::Db,
}

impl View for SledKvsEngine {
    type V = Map<Seq<u8>, Seq<u8>>;

    /// What the store holds: the bytes of the value of each key, by the
    /// bytes of the key.
    closed spec fn view(&self) -> Map<Seq<u8>, Seq<u8>> {
        stored(self.inner)
    }
}

/// What `get` returns for what the store holds for the key: the string
/// that the bytes spell, and corruption where they spell none.
pub fn stored_value(found: Option<Vec<u8>>) -> (r: Result<Option<String>, KvsError>)
    ensures
        match found {
            None => r is Ok && r.unwrap() is None,
            Some(bytes) => match text_of(bytes@) {
                Some(text) => r is Ok && r.unwrap() is Some && r.unwrap().unwrap()@ == text,
                None => r is Err && r.unwrap_err() is Corruption,
            },
        },
{
    match found {
        None => Ok(None),
        Some(bytes) => match to_text(bytes) {
            Some(text) => Ok(Some(text)),
            None => Err(KvsError::Corruption),
        },
    }
}

impl SledKvsEngine {
    /// Where the store of the engine lies: the path at which it was
    /// opened.
    pub closed spec fn home(&self) -> PathBuf {
        opened_at(self.inner)
    }

    /// The engine over what `sled::open` returned: the engine over the
    /// handle, or the failure of the store as it came. This stays private,
    /// so that an engine is the only holder of its handle.
    fn over(opened: Result<sled::Db, sled::Error>) -> (r: Result<SledKvsEngine, KvsError>)
        ensures
            match opened {
                Ok(db) => r matches Ok(engine) && engine@ == stored(db) && engine.home()
                    == opened_at(db),
                Err(e) => r matches Err(failure) && failure == KvsError::Sled(e),
            },
    {
        match opened {
            Ok(inner) => Ok(SledKvsEngine { inner }),
            Err(e) => Err(KvsError::Sled(e)),
        }
    }

    /// Opens the store in the directory `sled_db.log` of the data directory
    /// `path`, creating it where there is none.
    ///
    /// Whether this succeeds is up to the store. Where it does, the engine
    /// is over the store that lies at the entry `sled_db.log` of `path`;
    /// where it does not, the error is the failure of the store.
    pub fn open(path: PathBuf) -> (r: Result<SledKvsEngine, KvsError>)
        ensures
            match r {
                Ok(engine) => engine.home() == joined(path, sled_dir()),
                Err(e) => e is Sled,
            },
    {
        let dir = path_join(&path, sled_dir_name());
        SledKvsEngine::over(sled_open(&dir))
    }
}

impl KvsEngine for SledKvsEngine {
    /// The value that the store holds for `key`. The store is not changed.
    /// A value that is not UTF-8 is corruption.
    fn get(&mut self, key: String) -> (r: Result<Option<String>, KvsError>)
        ensures
            final(self)@ == old(self)@,
            final(self).home() == old(self).home(),
            match r {
                Ok(Some(value)) => lookup(old(self)@, encode_utf8(key@)) is Some && text_of(
                    old(self)@[encode_utf8(key@)],
                ) == Some(value@),
                Ok(None) => lookup(old(self)@, encode_utf8(key@)) is None,
                Err(e) => e is Sled || (e is Corruption && lookup(old(self)@, encode_utf8(key@))
                    is Some && text_of(old(self)@[encode_utf8(key@)]) is None),
            },
    {
        match sled_get(&self.inner, key.as_str().as_bytes()) {
            Ok(found) => stored_value(found),
            Err(e) => Err(KvsError::Sled(e)),
        }
    }

    /// Gives `key` the value `value` and flushes the store. Where this
    /// succeeds the store holds the bytes of `value` for the bytes of
    /// `key`, and is otherwise as it was.
    fn set(&mut self, key: String, value: String) -> (r: Result<(), KvsError>)
        ensures
            final(self).home() == old(self).home(),
            match r {
                Ok(done) => final(self)@ == old(self)@.insert(
                    encode_utf8(key@),
                    encode_utf8(value@),
                ),
                Err(e) => e is Sled,
            },
    {
        let bytes = value.as_str().as_bytes_vec();
        match sled_insert(&mut self.inner, key.as_str().as_bytes(), bytes) {
            Ok(previous) => {},
            Err(e) => {
                return Err(KvsError::Sled(e));
            },
        }
        match sled_flush(&self.inner) {
            Ok(flushed) => Ok(()),
            Err(e) => Err(KvsError::Sled(e)),
        }
    }

    /// Takes `key` and its value out of the store and flushes the store.
    /// `KeyNotFound` where the store held no value for `key`; it is then
    /// as it was.
    fn remove(&mut self, key: String) -> (r: Result<(), KvsError>)
        ensures
            final(self).home() == old(self).home(),
            match r {
                Ok(done) => old(self)@.contains_key(encode_utf8(key@)) && final(self)@ == old(
                    self,
                )@.remove(encode_utf8(key@)),
                Err(e) => e is Sled || (e is KeyNotFound && !old(self)@.contains_key(
                    encode_utf8(key@),
                ) && final(self)@ == old(self)@),
            },
    {
        let previous = match sled_remove(&mut self.inner, key.as_str().as_bytes()) {
            Ok(previous) => previous,
            Err(e) => {
                return Err(KvsError::Sled(e));
            },
        };
        match sled_flush(&self.inner) {
            Ok(flushed) => {},
            Err(e) => {
                return Err(KvsError::Sled(e));
            },
        }
        if previous.is_some() {
            Ok(())
        } else {
            assert(self@ =~= old(self)@);
            Err(KvsError::KeyNotFound)
        }
    }
}

/// What was set for a key is found for that key, and read as the string
/// that was set.
pub proof fn value_reads_back(held: Map<Seq<u8>, Seq<u8>>, key: Seq<char>, value: Seq<char>)
    ensures
        lookup(held.insert(encode_utf8(key), encode_utf8(value)), encode_utf8(key)) == Some(
            encode_utf8(value),
        ),
        text_of(encode_utf8(value)) == Some(value),
        lookup(held.remove(encode_utf8(key)), encode_utf8(key)) is None,
{
    lemma_text_of_bytes(value);
}

/// Keys do not collide: a change to one key leaves what is held for every
/// other key as it was.
pub proof fn other_keys_are_untouched(
    held: Map<Seq<u8>, Seq<u8>>,
    key: Seq<char>,
    value: Seq<char>,
    other: Seq<char>,
)
    requires
        other != key,
    ensures
        lookup(held.insert(encode_utf8(key), encode_utf8(value)), encode_utf8(other)) == lookup(
            held,
            encode_utf8(other),
        ),
        lookup(held.remove(encode_utf8(key)), encode_utf8(other)) == lookup(
            held,
            encode_utf8(other),
        ),
{
    if encode_utf8(other) == encode_utf8(key) {
        lemma_utf8_injective(other, key);
    }
}

} // verus!
