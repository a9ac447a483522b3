//! The engine interface, the two engines by name, and the rule that picks
//! the engine of a server.

use crate::error::KvsError;
use crate::text::same_text;
use vstd::prelude::*;

verus! {

/// What the server asks of a storage engine.
///
/// An engine may fail for reasons of its own, the disk above all, so the
/// methods promise nothing here; each engine says what it does.
pub trait KvsEngine {
    /// The value of `key`, `None` where it has none.
    fn get(&mut self, key: String) -> Result<Option<String>, KvsError>;

    /// Gives `key` the value `value`, in place of the value it had.
    fn set(&mut self, key: String, value: String) -> Result<(), KvsError>;

    /// Takes `key` and its value away.
    fn remove(&mut self, key: String) -> Result<(), KvsError>;
}

/// The engines.
#[derive(Debug, Clone, Copy, PartialEq, Eq, Structural)]
pub enum EngineType {
    /// The log engine of this library.
    Kvs,
    /// The embedded store.
    Sled,
}

/// The file that holds the log of the log engine, by its name in the data
/// directory.
pub open spec fn log_file() -> Seq<char> {
    "kvs.log"@
}

/// The file into which the log is rewritten before it replaces the log.
pub open spec fn temp_log_file() -> Seq<char> {
    "kvs_temp.log"@
}

/// The directory of the embedded store, by its name in the data directory.
pub open spec fn sled_dir() -> Seq<char> {
    "sled_db.log"@
}

/// The name of the log file.
pub fn log_file_name() -> (name: &'static str)
    ensures
        name@ == log_file(),
{
    "kvs.log"
}

/// The name of the file into which the log is rewritten.
pub fn temp_log_file_name() -> (name: &'static str)
    ensures
        name@ == temp_log_file(),
{
    "kvs_temp.log"
}

/// The name of the directory of the embedded store.
pub fn sled_dir_name() -> (name: &'static str)
    ensures
        name@ == sled_dir(),
{
    "sled_db.log"
}

impl EngineType {
    /// The name under which the engine is written: `kvs` or `sled`.
    pub open spec fn name(self) -> Seq<char> {
        match self {
            EngineType::Kvs => "kvs"@,
            EngineType::Sled => "sled"@,
        }
    }

    /// The engine of the given name, `None` where no engine has it. The
    /// log engine is `kvs` or `log`, the embedded store `sled` or
    /// `embedded`.
    pub open spec fn named(s: Seq<char>) -> Option<EngineType> {
        if s == "kvs"@ || s == "log"@ {
            Some(EngineType::Kvs)
        } else if s == "sled"@ || s == "embedded"@ {
            Some(EngineType::Sled)
        } else {
            None
        }
    }

    /// The name of each engine names that engine.
    pub proof fn named_of_name(self)
        ensures
            EngineType::named(self.name()) == Some(self),
    {
        reveal_strlit("kvs");
        reveal_strlit("log");
        reveal_strlit("sled");
        assert("kvs"@.len() == 3);
        assert("log"@.len() == 3);
        assert("sled"@.len() == 4);
    }

    /// The name of the engine.
    pub fn to_string(&self) -> (s: String)
        ensures
            s@ == self.name(),
    {
        match self {
            EngineType::Kvs => "kvs".to_owned(),
            EngineType::Sled => "sled".to_owned(),
        }
    }

    /// The engine of the given name; an error where no engine has it.
    pub fn from_str(s: &str) -> (r: Result<EngineType, KvsError>)
        ensures
            match r {
                Ok(engine) => EngineType::named(s@) == Some(engine),
                Err(e) => e is InvalidEngineType && EngineType::named(s@) is None,
            },
    {
        if same_text(s, "kvs") || same_text(s, "log") {
            Ok(EngineType::Kvs)
        } else if same_text(s, "sled") || same_text(s, "embedded") {
            Ok(EngineType::Sled)
        } else {
            Err(KvsError::InvalidEngineType)
        }
    }
}

impl std::str::FromStr for EngineType {
    type Err = KvsError;

    /// The engine of the given name, as the inherent `from_str` gives it.
    fn from_str(s: &str) -> (r: Result<EngineType, KvsError>)
        ensures
            match r {
                Ok(engine) => EngineType::named(s@) == Some(engine),
                Err(e) => e is InvalidEngineType && EngineType::named(s@) is None,
            },
    {
        EngineType::from_str(s)
    }
}

/// The engine whose state a directory holds, going by the names of its
/// entries: the engine of the first entry that is the log file or the
/// directory of the embedded store; `None` where there is neither.
pub open spec fn engine_of_entries(names: Seq<Seq<char>>) -> Option<EngineType>
    decreases names.len(),
{
    if names.len() == 0 {
        None
    } else if names[0] == log_file() {
        Some(EngineType::Kvs)
    } else if names[0] == sled_dir() {
        Some(EngineType::Sled)
    } else {
        engine_of_entries(names.drop_first())
    }
}

/// The engine that a server runs, given the engine that was asked for and
/// the engine whose state the data directory holds. `None` where the two
/// are at odds.
pub open spec fn selection(requested: Option<EngineType>, existing: Option<EngineType>) -> Option<
    EngineType,
> {
    match (requested, existing) {
        (None, None) => Some(EngineType::Kvs),
        (None, Some(found)) => Some(found),
        (Some(asked), None) => Some(asked),
        (Some(asked), Some(found)) => if asked == found {
            Some(asked)
        } else {
            None
        },
    }
}

/// The engine whose state the data directory holds, given the names of the
/// directory's entries in the order in which the directory lists them.
pub fn existing_engine(names: &Vec<String>) -> (r: Option<EngineType>)
    ensures
        r == engine_of_entries(names@.map_values(|name: String| name@)),
{
    let ghost all = names@.map_values(|name: String| name@);
    let mut i: usize = 0;
    assert(all.skip(0) =~= all);
    while i < names.len()
        invariant
            i <= names.len(),
            all == names@.map_values(|name: String| name@),
            engine_of_entries(all) == engine_of_entries(all.skip(i as int)),
        decreases names.len() - i,
    {
        let name: &str = names[i].as_str();
        proof {
            assert(all.skip(i as int)[0] == name@);
            assert(all.skip(i as int).drop_first() =~= all.skip(i + 1));
        }
        if same_text(name, log_file_name()) {
            return Some(EngineType::Kvs);
        }
        if same_text(name, sled_dir_name()) {
            return Some(EngineType::Sled);
        }
        i += 1;
    }
    None
}

/// The engine that a server runs when none was asked for: the one whose
/// state the directory holds, and the log engine in an empty directory.
pub fn load_existing_or_default_engine(existing: Option<EngineType>) -> (r: EngineType)
    ensures
        selection(None, existing) == Some(r),
{
    match existing {
        None => EngineType::Kvs,
        Some(found) => found,
    }
}

/// The engine that a server runs. An error where one engine was asked for
/// and the directory holds the state of the other; nothing is opened or
/// changed then.
pub fn select_engine(requested: Option<EngineType>, existing: Option<EngineType>) -> (r: Result<
    EngineType,
    KvsError,
>)
    ensures
        match r {
            Ok(engine) => selection(requested, existing) == Some(engine),
            Err(e) => e is EngineMismatch && selection(requested, existing) is None,
        },
{
    match requested {
        None => Ok(load_existing_or_default_engine(existing)),
        Some(EngineType::Kvs) => match existing {
            None | Some(EngineType::Kvs) => Ok(EngineType::Kvs),
            Some(EngineType::Sled) => Err(KvsError::EngineMismatch),
        },
        Some(EngineType::Sled) => match existing {
            None | Some(EngineType::Sled) => Ok(EngineType::Sled),
            Some(EngineType::Kvs) => Err(KvsError::EngineMismatch),
        },
    }
}

} // verus!
