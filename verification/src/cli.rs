//! What the command line can say.

use vstd::prelude::*;
use vstd::string::*;

verus! {

/// The first place a configuration file is looked for when none is named.
pub const LOCAL_CONFIG_PATH: &'static str = "./feedgen.toml";

/// The second place a configuration file is looked for when none is named.
pub const SYSTEM_CONFIG_PATH: &'static str = "/etc/feedgen.toml";

/// The arguments of the program, each of them optional.
#[derive(Debug)]
pub struct Args {
    /// Path to the configuration file.
    pub config_path: Option<String>,
    /// Address that the feed server binds to.
    pub bind_addr: Option<String>,
    /// Path to the database file.
    pub db_path: Option<String>,
    /// Path to the cache directory.
    pub cache_dir: Option<String>,
}

/// The places in which a configuration file is looked for, in order: the path
/// given on the command line, where there is one, then the two fixed places.
pub open spec fn search_paths(config_path: Option<Seq<char>>) -> Seq<Seq<char>> {
    match config_path {
        Some(path) => seq![path, LOCAL_CONFIG_PATH@, SYSTEM_CONFIG_PATH@],
        None => seq![LOCAL_CONFIG_PATH@, SYSTEM_CONFIG_PATH@],
    }
}

impl Args {
    /// Takes the configuration path out of the arguments and lists the places
    /// in which a configuration file is looked for.
    pub fn take_config_paths(&mut self) -> (r: Vec<String>)
        ensures
            crate::names::name_views(r@) == search_paths(
                crate::extractor::option_view(old(self).config_path),
            ),
            final(self).config_path is None,
            final(self).bind_addr == old(self).bind_addr,
            final(self).db_path == old(self).db_path,
            final(self).cache_dir == old(self).cache_dir,
    {
        let mut paths: Vec<String> = Vec::new();
        match self.config_path.take() {
            Some(path) => {
                paths.push(path);
            },
            None => {},
        }
        paths.push(String::from_str(LOCAL_CONFIG_PATH));
        paths.push(String::from_str(SYSTEM_CONFIG_PATH));
        assert(crate::names::name_views(paths@) =~= search_paths(
            crate::extractor::option_view(old(self).config_path),
        ));
        paths
    }
}

/// The exit code of a run that ended well.
pub const EXIT_SUCCESS: u8 = 0;

/// The exit code of a run that could not start, or in which a task failed.
pub const EXIT_FAILURE: u8 = 1;

/// The exit code of a run: success only where the service started and none of
/// its tasks failed.
pub fn exit_code(started: bool, failed_tasks: usize) -> (r: u8)
    ensures
        r == (if started && failed_tasks == 0 {
            EXIT_SUCCESS
        } else {
            EXIT_FAILURE
        }),
{
    if started && failed_tasks == 0 {
        EXIT_SUCCESS
    } else {
        EXIT_FAILURE
    }
}

} // verus!
