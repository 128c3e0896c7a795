//! Application configuration: the directories the surrounding tool works
//! with. The core only carries these values; all path handling happens
//! outside the library.
use vstd::prelude::*;

verus! {

/// Anything that can hand out the tool's configured paths.
pub trait IConfig: Sized {
    /// The configured paths, as a specification-level tuple of the
    /// vanilla, script, data, mod and cache directories.
    spec fn paths(&self) -> (Seq<char>, Seq<char>, Seq<char>, Seq<char>, Seq<char>);

    /// The path to the vanilla game directory.
    fn get_vanilla_path(&self) -> (r: String)
        ensures
            r@ == self.paths().0,
    ;

    /// The path to the script source directory.
    fn get_pdx_path(&self) -> (r: String)
        ensures
            r@ == self.paths().1,
    ;

    /// The path to the data directory.
    fn get_json_path(&self) -> (r: String)
        ensures
            r@ == self.paths().2,
    ;

    /// The path to the mod output directory.
    fn get_mod_path(&self) -> (r: String)
        ensures
            r@ == self.paths().3,
    ;

    /// The path to the cache directory.
    fn get_cache_path(&self) -> (r: String)
        ensures
            r@ == self.paths().4,
    ;
}

/// The concrete configuration record.
#[derive(Debug)]
pub struct Config {
    pub vanilla_path: String,
    pub pdx_path: String,
    pub json_path: String,
    pub mod_path: String,
    pub cache_path: String,
}

impl Config {
    /// A configuration from its five paths.
    pub fn new(
        vanilla_path: String,
        pdx_path: String,
        json_path: String,
        mod_path: String,
        cache_path: String,
    ) -> (r: Config)
        ensures
            r.paths() == (vanilla_path@, pdx_path@, json_path@, mod_path@, cache_path@),
    {
        Config { vanilla_path, pdx_path, json_path, mod_path, cache_path }
    }

    /// A configuration on the heap.
    pub fn new_boxed(
        vanilla_path: String,
        pdx_path: String,
        json_path: String,
        mod_path: String,
        cache_path: String,
    ) -> (r: Box<Config>)
        ensures
            r.paths() == (vanilla_path@, pdx_path@, json_path@, mod_path@, cache_path@),
    {
        Box::new(Config::new(vanilla_path, pdx_path, json_path, mod_path, cache_path))
    }
}

impl IConfig for Config {
    open spec fn paths(&self) -> (Seq<char>, Seq<char>, Seq<char>, Seq<char>, Seq<char>) {
        (self.vanilla_path@, self.pdx_path@, self.json_path@, self.mod_path@, self.cache_path@)
    }

    fn get_vanilla_path(&self) -> (r: String) {
        self.vanilla_path.clone()
    }

    fn get_pdx_path(&self) -> (r: String) {
        self.pdx_path.clone()
    }

    fn get_json_path(&self) -> (r: String) {
        self.json_path.clone()
    }

    fn get_mod_path(&self) -> (r: String) {
        self.mod_path.clone()
    }

    fn get_cache_path(&self) -> (r: String) {
        self.cache_path.clone()
    }
}

} // verus!
