//! The bootstrap environment file.

use crate::files::{may_read, reads, FileRead, FileReadModel};
use crate::string_map::StringMap;
use crate::text::{lines, lines_of, split_once, split_once_of, starts_with, texts, trim, trim_of};
use vstd::prelude::*;

verus! {

/// The settings of a bootstrap environment file.
#[derive(Debug, Clone, PartialEq, Eq)]
pub struct EnvConfig {
    /// The value of each key.
    pub keys: StringMap<String>,
}

/// The values of a map of strings, as text.
pub open spec fn values_of(m: Map<Seq<char>, String>) -> Map<Seq<char>, Seq<char>> {
    Map::new(|k: Seq<char>| m.contains_key(k), |k: Seq<char>| m[k]@)
}

impl View for EnvConfig {
    type V = Map<Seq<char>, Seq<char>>;

    open spec fn view(&self) -> Map<Seq<char>, Seq<char>> {
        values_of(self.keys@)
    }
}

/// The key and value of a line, both without surrounding whitespace. Blank
/// lines, comments and lines without an equals sign have none.
pub open spec fn setting_of(line: Seq<char>) -> Option<(Seq<char>, Seq<char>)> {
    let t = trim_of(line);
    if t.len() == 0 || "#"@.is_prefix_of(t) {
        None
    } else {
        match split_once_of(t, '=') {
            Some(kv) => Some((trim_of(kv.0), trim_of(kv.1))),
            None => None,
        }
    }
}

/// The settings of a sequence of lines: of two with the same key the later counts.
pub open spec fn settings_of(ls: Seq<Seq<char>>) -> Map<Seq<char>, Seq<char>>
    decreases ls.len(),
{
    if ls.len() == 0 {
        Map::empty()
    } else {
        let m = settings_of(ls.drop_last());
        match setting_of(ls.last()) {
            Some(kv) => m.insert(kv.0, kv.1),
            None => m,
        }
    }
}

/// The key and value of a line.
fn setting(line: &str) -> (r: Option<(String, String)>)
    ensures
        match r {
            Some(kv) => setting_of(line@) == Some((kv.0@, kv.1@)),
            None => setting_of(line@) is None,
        },
{
    let t = trim(line);
    if t.as_str().unicode_len() == 0 || starts_with(t.as_str(), "#") {
        return None;
    }
    match split_once(t.as_str(), '=') {
        Some(kv) => {
            let k = trim(kv.0.as_str());
            let v = trim(kv.1.as_str());
            Some((k, v))
        },
        None => None,
    }
}

impl EnvConfig {
    /// The keys are in ascending order.
    pub open spec fn wf(&self) -> bool {
        self.keys.wf()
    }

    /// Reads the settings of the text of an environment file. Comments, blank
    /// lines and lines without an equals sign are skipped.
    pub fn parse(text: &str) -> (r: Self)
        ensures
            r.wf(),
            r@ == settings_of(lines_of(text@)),
    {
        let ls = lines(text);
        let mut keys: StringMap<String> = StringMap::new();
        let mut i: usize = 0;
        assert(values_of(keys@) == Map::<Seq<char>, Seq<char>>::empty());
        while i < ls.len()
            invariant
                i <= ls.len(),
                keys.wf(),
                values_of(keys@) == settings_of(texts(ls@).take(i as int)),
            decreases ls.len() - i,
        {
            let ghost before = keys@;
            assert(texts(ls@).take(i + 1).drop_last() == texts(ls@).take(i as int));
            assert(texts(ls@).take(i + 1).last() == ls@[i as int]@);
            match setting(ls[i].as_str()) {
                Some(kv) => {
                    let ghost k = kv.0@;
                    let ghost v = kv.1@;
                    keys.insert(kv.0, kv.1);
                    assert(values_of(keys@) == values_of(before).insert(k, v));
                },
                None => {},
            }
            i += 1;
        }
        assert(texts(ls@).take(i as int) == texts(ls@));
        EnvConfig { keys }
    }

    /// The settings of what reading an environment file gave: none for a file
    /// that does not exist, an error for one that could not be read.
    pub fn from_read(read: FileRead) -> (r: Result<Option<Self>, String>)
        ensures
            match read@ {
                FileReadModel::Text(text) => {
                    &&& r matches Ok(Some(cfg))
                    &&& cfg.wf()
                    &&& cfg@ == settings_of(lines_of(text))
                },
                FileReadModel::NotFound => r matches Ok(None),
                FileReadModel::Failed(e) => r matches Err(m) && m@ == e,
            },
    {
        match read {
            FileRead::Text(text) => Ok(Some(Self::parse(text.as_str()))),
            FileRead::NotFound => Ok(None),
            FileRead::Failed(e) => Err(e),
        }
    }

    /// Loads the environment file at `path` through `read`.
    pub fn load_optional<R: Fn(&str) -> FileRead>(path: &str, read: &R) -> (r: Result<
        Option<Self>,
        String,
    >)
        requires
            may_read(*read, path@),
        ensures
            exists|got: FileRead| #[trigger]
                reads(*read, path@, got) && match got@ {
                    FileReadModel::Text(text) => {
                        &&& r matches Ok(Some(cfg))
                        &&& cfg.wf()
                        &&& cfg@ == settings_of(lines_of(text))
                    },
                    FileReadModel::NotFound => r matches Ok(None),
                    FileReadModel::Failed(e) => r matches Err(m) && m@ == e,
                },
    {
        let got = read(path);
        assert(reads(*read, path@, got));
        Self::from_read(got)
    }

    /// The value of `key`, if it has one.
    pub fn value(&self, key: &str) -> (r: Option<&String>)
        requires
            self.wf(),
        ensures
            match r {
                Some(v) => self@.contains_key(key@) && v@ == self@[key@],
                None => !self@.contains_key(key@),
            },
    {
        self.keys.get(key)
    }
}

impl Default for EnvConfig {
    /// No settings.
    fn default() -> (r: Self)
        ensures
            r.wf(),
            r@ == Map::<Seq<char>, Seq<char>>::empty(),
    {
        let r = EnvConfig { keys: StringMap::new() };
        assert(r@ == Map::<Seq<char>, Seq<char>>::empty());
        r
    }
}

} // verus!
