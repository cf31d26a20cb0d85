//! Where datums are kept: their numbers and the paths of their files.

use crate::text::{decimal, decimal_string};
use vstd::prelude::*;

verus! {

/// The name of the hidden directory that state is stored inside.
pub const DOT_DIR: &'static str = ".haste";

/// The name of the configuration file that is read where none is given.
pub const DEFAULT_CONFIG_FILE: &'static str = "haste.toml";

/// The path of `name` inside the directory `base`. An absolute `name` stands
/// for itself, and so does any `name` where `base` is empty; a `base` that
/// ends in a separator gets no second one.
pub open spec fn spec_join_path(base: Seq<char>, name: Seq<char>) -> Seq<char> {
    if base.len() == 0 || (name.len() > 0 && name[0] == '/') {
        name
    } else if base.last() == '/' {
        base + name
    } else {
        base + seq!['/'] + name
    }
}

/// Builds the path of `name` inside the directory `base`.
pub fn join_path(base: &str, name: &str) -> (path: String)
    ensures
        path@ == spec_join_path(base@, name@),
{
    let base_len: usize = base.unicode_len();
    let name_len: usize = name.unicode_len();
    if base_len == 0 || (name_len > 0 && name.get_char(0) == '/') {
        return name.to_owned();
    }
    let mut path: String = base.to_owned();
    if base.get_char(base_len - 1) != '/' {
        proof {
            reveal_strlit("/");
            assert("/"@ =~= seq!['/']);
        }
        path.append("/");
    }
    path.append(name);
    path
}

/// The places of an installation: where its state lives and which
/// configuration it reads.
#[derive(Debug)]
pub struct App {
    /// The directory where persistent state is stored.
    pub state_dir: String,
    /// The path to the config file.
    pub config_file: String,
}

/// The directory of datum `id`.
pub open spec fn spec_datum_dir(id: usize) -> Seq<char> {
    spec_join_path(DOT_DIR@, decimal(id as nat))
}

impl App {
    /// The installation whose state lives under `current_dir`. It reads
    /// `config_file`, or the default file where none is given.
    pub fn new(current_dir: &str, config_file: Option<String>) -> (app: Self)
        ensures
            app.state_dir@ == spec_join_path(current_dir@, DOT_DIR@),
            app.config_file@ == match config_file {
                Some(path) => path@,
                None => DEFAULT_CONFIG_FILE@,
            },
    {
        let state_dir: String = join_path(current_dir, DOT_DIR);
        let config_file: String = match config_file {
            Some(path) => path,
            None => DEFAULT_CONFIG_FILE.to_owned(),
        };
        App { state_dir, config_file }
    }

    /// The directory of datum `id`.
    pub fn get_datum_dir(&self, id: usize) -> (path: String)
        ensures
            path@ == spec_datum_dir(id),
    {
        join_path(DOT_DIR, decimal_string(id as u128).as_str())
    }

    /// The file that holds the results of datum `id`.
    pub fn get_datum_results_path(&self, id: usize) -> (path: String)
        ensures
            path@ == spec_join_path(spec_datum_dir(id), "data.toml"@),
    {
        join_path(self.get_datum_dir(id).as_str(), "data.toml")
    }

    /// The file that holds what else is known of datum `id`.
    pub fn get_datum_extra_path(&self, id: usize) -> (path: String)
        ensures
            path@ == spec_join_path(spec_datum_dir(id), "extra.toml"@),
    {
        join_path(self.get_datum_dir(id).as_str(), "extra.toml")
    }
}

} // verus!
