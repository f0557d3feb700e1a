//! What reading a file can give, and paths.

use crate::text::{ends_with, starts_with, str_opt};
use vstd::prelude::*;

verus! {

/// What reading a whole file as text gave.
#[derive(Debug, Clone, PartialEq, Eq)]
pub enum FileRead {
    /// The text of the file.
    Text(String),
    /// There is no such file.
    NotFound,
    /// The file could not be read; the text says why.
    Failed(String),
}

/// What reading a file gave, as text.
pub enum FileReadModel {
    /// The text of the file.
    Text(Seq<char>),
    /// There is no such file.
    NotFound,
    /// The file could not be read.
    Failed(Seq<char>),
}

impl View for FileRead {
    type V = FileReadModel;

    open spec fn view(&self) -> FileReadModel {
        match self {
            FileRead::Text(t) => FileReadModel::Text(t@),
            FileRead::NotFound => FileReadModel::NotFound,
            FileRead::Failed(e) => FileReadModel::Failed(e@),
        }
    }
}

/// Whether `read` may be asked for the file at `path`.
pub open spec fn may_read<R: Fn(&str) -> FileRead>(read: R, path: Seq<char>) -> bool {
    forall|p: &str| p@ == path ==> read.requires((p,))
}

/// Whether `got` is something that `read` gives for the file at `path`.
pub open spec fn reads<R: Fn(&str) -> FileRead>(read: R, path: Seq<char>, got: FileRead) -> bool {
    exists|p: &str| p@ == path && read.ensures((p,), got)
}

// ---------------------------------------------------------------------------
// Paths
// ---------------------------------------------------------------------------

/// The path `rel` taken from the directory `base`: an absolute `rel` stands
/// for itself, and no second slash is written behind a base that ends in one.
pub open spec fn join_of(base: Seq<char>, rel: Seq<char>) -> Seq<char> {
    if "/"@.is_prefix_of(rel) {
        rel
    } else if base.len() == 0 || "/"@.is_suffix_of(base) {
        base + rel
    } else {
        base + "/"@ + rel
    }
}

/// The path `rel` taken from the directory `base`.
pub fn join_path(base: &str, rel: &str) -> (r: String)
    ensures
        r@ == join_of(base@, rel@),
{
    if starts_with(rel, "/") {
        rel.to_owned()
    } else if base.unicode_len() == 0 || ends_with(base, "/") {
        base.to_owned().concat(rel)
    } else {
        base.to_owned().concat("/").concat(rel)
    }
}

/// The directory `dir`, or `/tmp` where none is given.
pub open spec fn dir_or_tmp(dir: Option<Seq<char>>) -> Seq<char> {
    match dir {
        Some(d) => d,
        None => "/tmp"@,
    }
}

/// The path of the control socket under the runtime directory `dir`.
pub open spec fn socket_path_of(dir: Option<Seq<char>>) -> Seq<char> {
    join_of(join_of(dir_or_tmp(dir), "wintermute"@), "init.sock"@)
}

/// The path of the control socket under the runtime directory `runtime_dir`.
pub fn socket_path_with(runtime_dir: Option<&str>) -> (r: String)
    ensures
        r@ == socket_path_of(str_opt(runtime_dir)),
{
    let base: &str = match runtime_dir {
        Some(d) => d,
        None => "/tmp",
    };
    join_path(join_path(base, "wintermute").as_str(), "init.sock")
}

/// The path of the log of `child` under the home directory `home`.
pub open spec fn child_log_path_of(home: Option<Seq<char>>, child: Seq<char>) -> Seq<char> {
    join_of(join_of(dir_or_tmp(home), ".local/state/wintermute/logs"@), child + ".log"@)
}

/// The path of the log of `child` under the home directory `home`.
pub fn child_log_path_with(home: Option<&str>, child: &str) -> (r: String)
    ensures
        r@ == child_log_path_of(str_opt(home), child@),
{
    let base: &str = match home {
        Some(d) => d,
        None => "/tmp",
    };
    let dir = join_path(base, ".local/state/wintermute/logs");
    let name = child.to_owned().concat(".log");
    join_path(dir.as_str(), name.as_str())
}

/// The path of the bootstrap environment file: `chosen`, or the default where
/// none is chosen.
pub fn bootstrap_env_path_with(chosen: Option<&str>) -> (r: String)
    ensures
        r@ == match str_opt(chosen) {
            Some(p) => p,
            None => crate::fleet::BOOTSTRAP_ENV_PATH@,
        },
{
    match chosen {
        Some(p) => p.to_owned(),
        None => crate::fleet::BOOTSTRAP_ENV_PATH.to_owned(),
    }
}

} // verus!
