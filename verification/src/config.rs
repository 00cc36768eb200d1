//! Run configuration and run counters.

use vstd::prelude::*;

verus! {

/// Settings of one run, as the command line supplies them.
pub struct Config {
    /// Root of the source knowledge base.
    pub input_dir: String,
    /// Directory the converted site content goes to.
    pub output_dir: String,
    /// Whether documents marked private are converted too.
    pub include_private: bool,
    /// Whether stub documents are written for dangling links.
    pub create_stubs: bool,
    /// Whether errors are reported per document.
    pub verbose: bool,
    /// An overriding home page name, when one was given.
    pub home_override: Option<String>,
    /// An overriding site title, when one was given.
    pub title_override: Option<String>,
    /// An overriding favorites list, when one was given.
    pub favorites_override: Option<Vec<String>>,
    /// An overriding site name, when one was given.
    pub site_name_override: Option<String>,
}

impl Default for Config {
    /// The defaults: current directory in, the site content directory out,
    /// private documents skipped, stubs on, quiet, no overrides.
    fn default() -> (r: Self)
        ensures
            r.input_dir@ == "."@,
            r.output_dir@ == "quartz-content"@,
            !r.include_private,
            r.create_stubs,
            !r.verbose,
            r.home_override is None,
            r.title_override is None,
            r.favorites_override is None,
            r.site_name_override is None,
    {
        Config {
            input_dir: crate::page::clone_string_of_str("."),
            output_dir: crate::page::clone_string_of_str("quartz-content"),
            include_private: false,
            create_stubs: true,
            verbose: false,
            home_override: None,
            title_override: None,
            favorites_override: None,
            site_name_override: None,
        }
    }
}

/// Counters of one run.
pub struct Stats {
    /// Documents written to the output.
    pub pages_published: usize,
    /// Documents skipped as private.
    pub pages_skipped: usize,
    /// Journal entries written.
    pub journals_published: usize,
    /// Favorite embed documents written.
    pub favorites_created: usize,
    /// Stub documents written.
    pub stubs_created: usize,
}

impl Default for Stats {
    /// All counters start at zero.
    fn default() -> (r: Self)
        ensures
            r.pages_published == 0,
            r.pages_skipped == 0,
            r.journals_published == 0,
            r.favorites_created == 0,
            r.stubs_created == 0,
    {
        Stats {
            pages_published: 0,
            pages_skipped: 0,
            journals_published: 0,
            favorites_created: 0,
            stubs_created: 0,
        }
    }
}

} // verus!
