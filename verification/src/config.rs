//! The settings record: defaults, and the merge of explicit overrides into it.

use vstd::prelude::*;
use vstd::string::StringExecFns;

verus! {

/// The resolved settings for one run.
///
/// `min` and `max` bound the length (in characters) of an acceptable word,
/// inclusive on both ends. `number` is how many words one passphrase holds,
/// `count` how many passphrases are produced. `filename` is the dictionary
/// path, and `upcase` selects whether words keep their casing (`true`) or are
/// lowercased (`false`).
pub struct Config {
    pub min: usize,
    pub max: usize,
    pub number: usize,
    pub count: usize,
    pub filename: String,
    pub upcase: bool,
}

/// The characters of the default dictionary path, `/usr/share/dict/words`.
pub open spec fn default_dict_path() -> Seq<char> {
    "/usr/share/dict/words"@
}

impl Config {
    /// The compiled-in defaults.
    pub fn new() -> (cfg: Config)
        ensures
            cfg.min == 4,
            cfg.max == 6,
            cfg.number == 4,
            cfg.count == 1,
            cfg.filename@ == default_dict_path(),
            cfg.upcase == false,
    {
        Config {
            min: 4,
            max: 6,
            number: 4,
            count: 1,
            filename: String::from_str("/usr/share/dict/words"),
            upcase: false,
        }
    }

    /// Merges explicit overrides into the defaults: each numeric override, when
    /// present, replaces the corresponding default; `path` (the environment's
    /// dictionary path, applied after the flags, so it wins over the default)
    /// replaces the default path; `upcase` is taken as given.
    pub fn resolve(
        min: Option<usize>,
        max: Option<usize>,
        count: Option<usize>,
        number: Option<usize>,
        path: Option<String>,
        upcase: bool,
    ) -> (cfg: Config)
        ensures
            cfg.min == if min is Some { min->0 } else { 4usize },
            cfg.max == if max is Some { max->0 } else { 6usize },
            cfg.count == if count is Some { count->0 } else { 1usize },
            cfg.number == if number is Some { number->0 } else { 4usize },
            cfg.filename@ == if path is Some { path->0@ } else { default_dict_path() },
            cfg.upcase == upcase,
    {
        let mut cfg = Config::new();
        if let Some(m) = min {
            cfg.min = m;
        }
        if let Some(m) = max {
            cfg.max = m;
        }
        if let Some(c) = count {
            cfg.count = c;
        }
        if let Some(n) = number {
            cfg.number = n;
        }
        if let Some(p) = path {
            cfg.filename = p;
        }
        cfg.upcase = upcase;
        cfg
    }
}

} // verus!
