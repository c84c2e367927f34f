//! Configuration paths and key bindings.
//!
//! Paths are handled as text and joined with `/`, as on Unix-like systems.
//! The embedder reads the environment (the user's configuration directory)
//! and the files; this module decides where things go.

pub mod keybinds;

use vstd::prelude::*;

verus! {

/// `base` with the relative path `part` appended, as `Path::join` does on
/// Unix: a separator goes between them unless `base` is empty or already
/// ends with one.
pub open spec fn joined(base: Seq<char>, part: Seq<char>) -> Seq<char> {
    if base.len() == 0 || base.last() == '/' {
        base + part
    } else {
        base + seq!['/'] + part
    }
}

/// Append the relative path `part` to `base`.
pub fn join_path(base: &str, part: &str) -> (path: String)
    ensures
        path@ == joined(base@, part@),
{
    let n = base.unicode_len();
    let mut path = base.to_string();
    if n > 0 && base.get_char(n - 1) != '/' {
        path.append("/");
        proof {
            reveal_strlit("/");
        }
    }
    path.append(part);
    path
}

/// The configuration directory of graphshell: `graphshell` inside the
/// user's configuration directory `config_home`, or `.graphshell` when
/// there is none.
pub open spec fn config_dir_path(config_home: Option<Seq<char>>) -> Seq<char> {
    match config_home {
        Some(home) => joined(home, "graphshell"@),
        None => ".graphshell"@,
    }
}

/// Get the config directory for graphshell, given the user's configuration
/// directory as the platform reports it.
pub fn config_dir(config_home: Option<&str>) -> (dir: String)
    ensures
        dir@ == config_dir_path(match config_home { Some(h) => Some(h@), None => None }),
{
    match config_home {
        Some(home) => join_path(home, "graphshell"),
        None => String::from_str(".graphshell"),
    }
}

} // verus!
