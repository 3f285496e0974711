//! What a run is asked to do: the options, the pattern and where the text
//! comes from, as read off the command line.

use crate::error::ConfigError;
use vstd::prelude::*;
use vstd::string::StrSliceExecFns;
use vstd::utf8::is_ascii_chars;

verus! {

/// The switches of a run.
#[derive(Clone, Copy, Debug, PartialEq, Eq, Structural)]
pub struct Options {
    /// Scan binary files too, and mark their matches.
    pub read_binary: bool,
    /// Tell upper from lower case.
    pub case_sensitive: bool,
    /// Accept patterns that are not ASCII.
    pub unicode: bool,
    /// Match whole words only.
    pub whole_words: bool,
}

/// Where the text of a run comes from.
#[derive(Debug)]
pub enum Source<'a> {
    /// The files below this path.
    Tree(&'a String),
    /// Everything that standard input holds.
    StandardInput,
}

/// Whether an argument begins with a dash.
pub open spec fn is_flag(arg: Seq<char>) -> bool {
    arg.len() > 0 && arg[0] == '-'
}

/// The indices below `upto` of the arguments behind the program's name that
/// do not begin with a dash, ascending.
pub open spec fn positionals_upto(args: Seq<String>, upto: int) -> Seq<int>
    decreases upto,
{
    if upto <= 1 {
        Seq::empty()
    } else if is_flag(args[upto - 1]@) {
        positionals_upto(args, upto - 1)
    } else {
        positionals_upto(args, upto - 1).push(upto - 1)
    }
}

/// The indices of all arguments that do not begin with a dash.
pub open spec fn positionals(args: Seq<String>) -> Seq<int> {
    positionals_upto(args, args.len() as int)
}

/// Indices of positional arguments lie behind the program's name and within
/// the arguments read so far.
pub proof fn lemma_positionals_in_range(args: Seq<String>, upto: int)
    requires
        upto <= args.len(),
    ensures
        forall|k: int|
            0 <= k < positionals_upto(args, upto).len() ==> 1 <= #[trigger] positionals_upto(
                args,
                upto,
            )[k] < upto,
        positionals_upto(args, upto).len() <= if upto <= 1 {
            0
        } else {
            upto - 1
        },
    decreases upto,
{
    if upto > 1 {
        lemma_positionals_in_range(args, upto - 1);
    }
}

/// The positional arguments up to a later index begin with those up to an
/// earlier one.
pub proof fn lemma_positionals_grow(args: Seq<String>, a: int, b: int)
    requires
        a <= b <= args.len(),
    ensures
        positionals_upto(args, a).len() <= positionals_upto(args, b).len(),
        forall|k: int|
            0 <= k < positionals_upto(args, a).len() ==> #[trigger] positionals_upto(args, b)[k]
                == positionals_upto(args, a)[k],
    decreases b - a,
{
    if a < b {
        lemma_positionals_grow(args, a, b - 1);
    }
}

/// Whether `arg` begins with a dash.
pub fn starts_with_dash(arg: &str) -> (flag: bool)
    ensures
        flag == is_flag(arg@),
{
    !arg.is_empty() && arg.get_char(0) == '-'
}

/// The `n`-th argument, counted from 0, that does not begin with a dash; the
/// program's name does not count.
pub fn nth_not_starting_with_dash(n: usize, args: &Vec<String>) -> (found: Option<&String>)
    ensures
        match found {
            Some(arg) => {
                &&& n < positionals(args@).len()
                &&& *arg == args@[positionals(args@)[n as int]]
            },
            None => n >= positionals(args@).len(),
        },
{
    let mut seen: usize = 0;
    let mut i: usize = 1;
    while i < args.len()
        invariant
            1 <= i,
            args.len() >= 1 ==> i <= args.len(),
            seen == positionals_upto(args@, i as int).len(),
            seen <= n,
        decreases args.len() - i,
    {
        proof {
            lemma_positionals_in_range(args@, i as int);
        }
        if !starts_with_dash(args[i].as_str()) {
            if seen == n {
                proof {
                    lemma_positionals_grow(args@, i + 1, args@.len() as int);
                }
                return Some(&args[i]);
            }
            seen += 1;
        }
        i += 1;
    }
    None
}

/// Refuses switches that exclude each other.
pub fn check_flags(options: &Options) -> (r: Result<(), ConfigError>)
    ensures
        r is Err <==> options.unicode && options.whole_words,
        r matches Err(e) ==> e == ConfigError::UnicodeWholeWords,
{
    if options.unicode && options.whole_words {
        Err(ConfigError::UnicodeWholeWords)
    } else {
        Ok(())
    }
}

/// The pattern of a run: the first argument that does not begin with a dash.
/// Without unicode support it has to be ASCII.
pub fn pattern_of<'a>(args: &'a Vec<String>, options: &Options) -> (r: Result<
    &'a String,
    ConfigError,
>)
    ensures
        match r {
            Ok(pattern) => {
                &&& positionals(args@).len() > 0
                &&& *pattern == args@[positionals(args@)[0]]
                &&& options.unicode || is_ascii_chars(pattern@)
            },
            Err(ConfigError::MissingPattern) => positionals(args@).len() == 0,
            Err(ConfigError::NonAsciiPattern) => {
                &&& positionals(args@).len() > 0
                &&& !options.unicode
                &&& !is_ascii_chars(args@[positionals(args@)[0]]@)
            },
            Err(_) => false,
        },
{
    match nth_not_starting_with_dash(0, args) {
        None => Err(ConfigError::MissingPattern),
        Some(pattern) => {
            if !options.unicode && !pattern.as_str().is_ascii() {
                Err(ConfigError::NonAsciiPattern)
            } else {
                Ok(pattern)
            }
        },
    }
}

/// Where the text comes from: the tree below the second argument that does
/// not begin with a dash; without such an argument, standard input if it
/// holds data now.
pub fn source_of<'a>(args: &'a Vec<String>, stdin_ready: bool) -> (r: Result<
    Source<'a>,
    ConfigError,
>)
    ensures
        match r {
            Ok(Source::Tree(root)) => positionals(args@).len() > 1 && *root == args@[positionals(
                args@,
            )[1]],
            Ok(Source::StandardInput) => positionals(args@).len() <= 1 && stdin_ready,
            Err(e) => positionals(args@).len() <= 1 && !stdin_ready && e
                == ConfigError::MissingRoot,
        },
{
    match nth_not_starting_with_dash(1, args) {
        Some(root) => Ok(Source::Tree(root)),
        None => {
            if stdin_ready {
                Ok(Source::StandardInput)
            } else {
                Err(ConfigError::MissingRoot)
            }
        },
    }
}

} // verus!
