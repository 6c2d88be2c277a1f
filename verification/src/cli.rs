//! The configuration of a run: what the command line said, checked once.

use crate::link::{parse_url, url_parsed};
use crate::pattern::{pattern_is_match, regex_compiles, regex_is_match};
use crate::text::{clone_text, number_of, parse_number};
use vstd::prelude::*;

verus! {

/// The values of the command line, as they were given.
#[derive(Debug, Clone, PartialEq, Eq)]
pub struct Arguments {
    /// The root URL to crawl.
    pub url: String,
    /// The path under which downloaded files are written.
    pub destination: String,
    /// Crawl only, download nothing.
    pub no_download: bool,
    /// How often the verbosity flag was given.
    pub verbosity: u64,
    /// Download at most this many files; 0 for no limit.
    pub limit: String,
    /// Leave out the first this many files that would be downloaded; 0 for
    /// none.
    pub skip: String,
    /// Enter at most this many directories; 0 for no limit.
    pub max_depth: String,
    /// File names that match this expression are left out.
    pub file_filter: Option<String>,
    /// Directories whose name matches this expression are left out.
    pub path_filter: Option<String>,
    /// Only file names that match this expression are downloaded.
    pub file_matcher: Option<String>,
    /// Only directories whose name matches this expression are entered.
    pub path_matcher: Option<String>,
    /// Where the progress of the run is kept between runs.
    pub state_store: Option<String>,
}

/// Why a command line is refused.
#[derive(Debug, Clone, Copy, PartialEq, Eq, Structural)]
pub enum ConfigError {
    /// The URL is no absolute URL.
    InvalidUrl,
    /// The limit, the skip count or the depth limit is no number.
    InvalidNumber,
    /// One of the four expressions is no regular expression.
    InvalidPattern,
}

/// The configuration of a run. A value of this type holds a URL that was
/// parsed and expressions that compile; a limit of zero is held as no limit.
#[derive(Debug)]
pub struct CliOptions {
    pub(crate) url: String,
    pub(crate) destination: String,
    pub(crate) no_download: bool,
    pub(crate) verbosity: u64,
    pub(crate) limit_count: Option<u64>,
    pub(crate) skip_count: Option<u64>,
    pub(crate) recursion_limit: Option<u64>,
    pub(crate) file_filter: Option<String>,
    pub(crate) path_filter: Option<String>,
    pub(crate) file_matcher: Option<String>,
    pub(crate) path_matcher: Option<String>,
    pub(crate) state_store_path: Option<String>,
}

/// A number as a limit: zero stands for none.
pub open spec fn as_limit(number: u64) -> Option<u64> {
    if number == 0 {
        None
    } else {
        Some(number)
    }
}

/// Whether `pattern` is absent or compiles.
pub open spec fn usable(pattern: Option<Seq<char>>) -> bool {
    pattern matches Some(p) ==> regex_compiles(p)
}

/// Whether `pattern` is there and matches `text`.
pub open spec fn matches(pattern: Option<Seq<char>>, text: Seq<char>) -> bool {
    pattern matches Some(p) && regex_is_match(p, text)
}

/// Converts a number to a limit: `None` for zero, the number otherwise.
pub fn make_option(number: u64) -> (limit: Option<u64>)
    ensures
        limit == as_limit(number),
{
    if number == 0 {
        None
    } else {
        Some(number)
    }
}

/// A copy of `pattern`, where it is absent or compiles.
fn checked_pattern(pattern: &Option<String>) -> (copy: Option<Option<String>>)
    ensures
        usable(pattern.deep_view()) <==> copy is Some,
        copy matches Some(p) ==> p.deep_view() == pattern.deep_view(),
{
    match pattern {
        None => Some(None),
        Some(p) => match pattern_is_match(p.as_str(), "") {
            Some(_) => Some(Some(p.clone())),
            None => None,
        },
    }
}

/// Whether `pattern` is there and matches `text`.
fn test_pattern(pattern: &Option<String>, text: &str) -> (found: bool)
    requires
        usable(pattern.deep_view()),
    ensures
        found == matches(pattern.deep_view(), text@),
{
    match pattern {
        None => false,
        Some(p) => match pattern_is_match(p.as_str(), text) {
            Some(found) => found,
            None => false,
        },
    }
}

impl CliOptions {
    #[verifier::type_invariant]
    spec fn well_formed(&self) -> bool {
        &&& self.limit_count != Some(0u64)
        &&& self.skip_count != Some(0u64)
        &&& self.recursion_limit != Some(0u64)
        &&& usable(self.file_filter.deep_view())
        &&& usable(self.path_filter.deep_view())
        &&& usable(self.file_matcher.deep_view())
        &&& usable(self.path_matcher.deep_view())
    }

    /// The root URL, in the form the URL parser gave it.
    pub closed spec fn url_text(&self) -> Seq<char> {
        self.url@
    }

    /// The path under which downloaded files are written.
    pub closed spec fn destination_text(&self) -> Seq<char> {
        self.destination@
    }

    /// Whether nothing is to be downloaded.
    pub closed spec fn download_disabled(&self) -> bool {
        self.no_download
    }

    /// How often the verbosity flag was given.
    pub closed spec fn verbosity_level(&self) -> u64 {
        self.verbosity
    }

    /// The most files to download, if there is a limit.
    pub closed spec fn limit(&self) -> Option<u64> {
        self.limit_count
    }

    /// How many files to leave out first, if any.
    pub closed spec fn skip(&self) -> Option<u64> {
        self.skip_count
    }

    /// The most directories to enter, if there is a limit.
    pub closed spec fn depth_limit(&self) -> Option<u64> {
        self.recursion_limit
    }

    /// The expression that leaves files out.
    pub closed spec fn file_exclude(&self) -> Option<Seq<char>> {
        self.file_filter.deep_view()
    }

    /// The expression that leaves directories out.
    pub closed spec fn path_exclude(&self) -> Option<Seq<char>> {
        self.path_filter.deep_view()
    }

    /// The expression that files have to match.
    pub closed spec fn file_include(&self) -> Option<Seq<char>> {
        self.file_matcher.deep_view()
    }

    /// The expression that directories have to match.
    pub closed spec fn path_include(&self) -> Option<Seq<char>> {
        self.path_matcher.deep_view()
    }

    /// Where the progress of the run is kept.
    pub closed spec fn state_store(&self) -> Option<Seq<char>> {
        self.state_store_path.deep_view()
    }

    /// Whether a file of this local name passes both file expressions: the
    /// excluding one does not match it, and the including one, if there is
    /// one, does.
    pub open spec fn admits_file(&self, name: Seq<char>) -> bool {
        &&& !matches(self.file_exclude(), name)
        &&& self.file_include() is Some ==> matches(self.file_include(), name)
    }

    /// Whether a directory of this folder name passes both path
    /// expressions.
    pub open spec fn admits_path(&self, folder: Seq<char>) -> bool {
        &&& !matches(self.path_exclude(), folder)
        &&& self.path_include() is Some ==> matches(self.path_include(), folder)
    }

    /// The root URL, in the form the URL parser gave it.
    pub fn url(&self) -> (url: &str)
        ensures
            url@ == self.url_text(),
    {
        self.url.as_str()
    }

    /// The path under which downloaded files are written.
    pub fn destination(&self) -> (destination: &str)
        ensures
            destination@ == self.destination_text(),
    {
        self.destination.as_str()
    }

    /// Whether nothing is to be downloaded.
    pub fn no_download(&self) -> (disabled: bool)
        ensures
            disabled == self.download_disabled(),
    {
        self.no_download
    }

    /// How often the verbosity flag was given.
    pub fn verbosity(&self) -> (level: u64)
        ensures
            level == self.verbosity_level(),
    {
        self.verbosity
    }

    /// The most files to download, if there is a limit. It is never zero.
    pub fn limit_count(&self) -> (limit: Option<u64>)
        ensures
            limit == self.limit(),
            limit != Some(0u64),
    {
        proof {
            use_type_invariant(self);
        }
        self.limit_count
    }

    /// How many files to leave out first, if any. It is never zero.
    pub fn skip_count(&self) -> (skip: Option<u64>)
        ensures
            skip == self.skip(),
            skip != Some(0u64),
    {
        proof {
            use_type_invariant(self);
        }
        self.skip_count
    }

    /// The most directories to enter, if there is a limit. It is never zero.
    pub fn recursion_limit(&self) -> (limit: Option<u64>)
        ensures
            limit == self.depth_limit(),
            limit != Some(0u64),
    {
        proof {
            use_type_invariant(self);
        }
        self.recursion_limit
    }

    /// The expression that leaves files out.
    pub fn file_filter(&self) -> (pattern: Option<&str>)
        ensures
            pattern.deep_view() == self.file_exclude(),
    {
        match &self.file_filter {
            Some(p) => Some(p.as_str()),
            None => None,
        }
    }

    /// The expression that leaves directories out.
    pub fn path_filter(&self) -> (pattern: Option<&str>)
        ensures
            pattern.deep_view() == self.path_exclude(),
    {
        match &self.path_filter {
            Some(p) => Some(p.as_str()),
            None => None,
        }
    }

    /// The expression that files have to match.
    pub fn file_matcher(&self) -> (pattern: Option<&str>)
        ensures
            pattern.deep_view() == self.file_include(),
    {
        match &self.file_matcher {
            Some(p) => Some(p.as_str()),
            None => None,
        }
    }

    /// The expression that directories have to match.
    pub fn path_matcher(&self) -> (pattern: Option<&str>)
        ensures
            pattern.deep_view() == self.path_include(),
    {
        match &self.path_matcher {
            Some(p) => Some(p.as_str()),
            None => None,
        }
    }

    /// Where the progress of the run is kept.
    pub fn state_store_path(&self) -> (path: Option<&str>)
        ensures
            path.deep_view() == self.state_store(),
    {
        match &self.state_store_path {
            Some(p) => Some(p.as_str()),
            None => None,
        }
    }

    /// Whether a file of this local name passes both file expressions.
    pub fn file_admitted(&self, name: &str) -> (admitted: bool)
        ensures
            admitted == self.admits_file(name@),
    {
        proof {
            use_type_invariant(self);
        }
        if test_pattern(&self.file_filter, name) {
            false
        } else if self.file_matcher.is_some() {
            test_pattern(&self.file_matcher, name)
        } else {
            true
        }
    }

    /// Whether a directory of this folder name passes both path
    /// expressions.
    pub fn path_admitted(&self, folder: &str) -> (admitted: bool)
        ensures
            admitted == self.admits_path(folder@),
    {
        proof {
            use_type_invariant(self);
        }
        if test_pattern(&self.path_filter, folder) {
            false
        } else if self.path_matcher.is_some() {
            test_pattern(&self.path_matcher, folder)
        } else {
            true
        }
    }
}

/// Whether `get_options` accepts these values: the URL parses, the three
/// numbers are numbers, and each expression that is given compiles. Where
/// more than one value is wrong, the URL is reported before a number, and a
/// number before an expression.
pub open spec fn acceptable(arguments: Arguments) -> Result<(), ConfigError> {
    if url_parsed(arguments.url@) is None {
        Err(ConfigError::InvalidUrl)
    } else if number_of(arguments.limit@) is None || number_of(arguments.skip@) is None
        || number_of(arguments.max_depth@) is None {
        Err(ConfigError::InvalidNumber)
    } else if !(usable(arguments.file_filter.deep_view()) && usable(
        arguments.path_filter.deep_view(),
    ) && usable(arguments.file_matcher.deep_view()) && usable(
        arguments.path_matcher.deep_view(),
    )) {
        Err(ConfigError::InvalidPattern)
    } else {
        Ok(())
    }
}

/// Checks the values of the command line and derives the configuration.
///
/// The URL has to parse as an absolute URL, the limit, the skip count and
/// the depth limit have to be numbers, and each expression has to compile.
/// A limit, skip count or depth limit of zero is taken as absent.
pub fn get_options(arguments: &Arguments) -> (options: Result<CliOptions, ConfigError>)
    ensures
        match options {
            Ok(o) => {
                &&& acceptable(*arguments) is Ok
                &&& Some(o.url_text()) == url_parsed(arguments.url@)
                &&& o.destination_text() == arguments.destination@
                &&& o.download_disabled() == arguments.no_download
                &&& o.verbosity_level() == arguments.verbosity
                &&& number_of(arguments.limit@) matches Some(n) && o.limit() == as_limit(n)
                &&& number_of(arguments.skip@) matches Some(n) && o.skip() == as_limit(n)
                &&& number_of(arguments.max_depth@) matches Some(n) && o.depth_limit()
                    == as_limit(n)
                &&& o.file_exclude() == arguments.file_filter.deep_view()
                &&& o.path_exclude() == arguments.path_filter.deep_view()
                &&& o.file_include() == arguments.file_matcher.deep_view()
                &&& o.path_include() == arguments.path_matcher.deep_view()
                &&& o.state_store() == arguments.state_store.deep_view()
            },
            Err(e) => acceptable(*arguments) == Err::<(), ConfigError>(e),
        },
{
    let url = match parse_url(arguments.url.as_str()) {
        Some(url) => url,
        None => {
            return Err(ConfigError::InvalidUrl);
        },
    };
    let numbers = (
        parse_number(arguments.limit.as_str()),
        parse_number(arguments.skip.as_str()),
        parse_number(arguments.max_depth.as_str()),
    );
    let (limit, skip, max_depth) = match numbers {
        (Some(limit), Some(skip), Some(max_depth)) => (limit, skip, max_depth),
        _ => {
            return Err(ConfigError::InvalidNumber);
        },
    };
    let file_filter = checked_pattern(&arguments.file_filter);
    let path_filter = checked_pattern(&arguments.path_filter);
    let file_matcher = checked_pattern(&arguments.file_matcher);
    let path_matcher = checked_pattern(&arguments.path_matcher);
    match (file_filter, path_filter, file_matcher, path_matcher) {
        (Some(file_filter), Some(path_filter), Some(file_matcher), Some(path_matcher)) => Ok(
            CliOptions {
                url,
                destination: arguments.destination.clone(),
                no_download: arguments.no_download,
                verbosity: arguments.verbosity,
                limit_count: make_option(limit),
                skip_count: make_option(skip),
                recursion_limit: make_option(max_depth),
                file_filter,
                path_filter,
                file_matcher,
                path_matcher,
                state_store_path: clone_text(&arguments.state_store),
            },
        ),
        _ => Err(ConfigError::InvalidPattern),
    }
}

} // verus!
