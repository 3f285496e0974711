//! Pattern matching with a reverse automaton.
//!
//! The expression is compiled once into a dense DFA of `regex_automata` that
//! reads the pattern backwards. A scan asks the automaton for the rightmost
//! match in a window that ends where the last match began, until the window is
//! empty. The starts come out in descending order and are handed on ascending.

use crate::error::{CompileError, ScanError};
use vstd::prelude::*;
use vstd::string::StringExecFns;

verus! {

/// `regex_automata::dfa::dense::DFA`: a compiled automaton, held as it is and
/// never looked into.
#[verifier::external_type_specification]
#[verifier::external_body]
#[verifier::reject_recursive_types(T)]
pub struct ExDenseDfa<T>(regex_automata::dfa::dense::DFA<T>);

/// `regex_automata::dfa::dense::BuildError`: why the builder refused an
/// expression. Only its message is taken from it.
#[verifier::external_type_specification]
#[verifier::external_body]
pub struct ExDenseBuildError(regex_automata::dfa::dense::BuildError);

/// What the automaton answers for one window.
#[derive(Clone, Copy, Debug, PartialEq, Eq, Structural)]
pub enum RevStep {
    /// A match that begins at this offset.
    Match(usize),
    /// No match ends inside the window.
    NoMatch,
    /// The automaton could not finish the search.
    GaveUp,
}

/// Whether `regex_automata` compiles `expression` into a reverse dense DFA,
/// with or without case folding.
pub uninterp spec fn reverse_dfa_builds(expression: Seq<char>, case_insensitive: bool) -> bool;

/// The answer of the reverse dense DFA of `expression` for the window
/// `0..end` of `haystack`.
pub uninterp spec fn rev_search(
    expression: Seq<char>,
    case_insensitive: bool,
    haystack: Seq<u8>,
    end: int,
) -> RevStep;

/// A compiled expression. It is immutable and can be shared by all workers.
///
/// A value is made by `build_reverse_dfa` alone, so `dfa` is always the
/// automaton of `expression` under `case_insensitive`.
pub struct Automaton {
    expression: String,
    case_insensitive: bool,
    dfa: regex_automata::dfa::dense::DFA<Vec<u32>>,
}

/// What the contracts say of an `Automaton`: the expression it was compiled
/// from and whether case is folded.
pub struct AutomatonView {
    pub expression: Seq<char>,
    pub case_insensitive: bool,
}

impl View for Automaton {
    type V = AutomatonView;

    closed spec fn view(&self) -> AutomatonView {
        AutomatonView { expression: self.expression@, case_insensitive: self.case_insensitive }
    }
}

/// `regex_automata::dfa::dense::Builder::build`, with the syntax set to fold
/// case as asked and the NFA compiled in reverse.
///
/// Trusted: the builder succeeds exactly on the expressions that
/// `reverse_dfa_builds` names, and the value returned records the expression
/// and the flag it was built with.
#[verifier::external_body]
fn build_reverse_dfa(expression: &str, case_insensitive: bool) -> (built: Result<
    Automaton,
    regex_automata::dfa::dense::BuildError,
>)
    ensures
        built is Ok <==> reverse_dfa_builds(expression@, case_insensitive),
        built matches Ok(a) ==> a@.expression == expression@ && a@.case_insensitive
            == case_insensitive,
{
    let syntax = regex_automata::util::syntax::Config::new().case_insensitive(case_insensitive);
    let reverse = regex_automata::nfa::thompson::Config::new().reverse(true);
    let mut builder = regex_automata::dfa::dense::Builder::new();
    match builder.syntax(syntax).thompson(reverse).build(expression) {
        Ok(dfa) => Ok(Automaton { expression: expression.to_owned(), case_insensitive, dfa }),
        Err(e) => Err(e),
    }
}

/// The `Display` text of a `regex_automata::dfa::dense::BuildError`.
#[verifier::external_body]
fn build_error_message(error: &regex_automata::dfa::dense::BuildError) -> String {
    error.to_string()
}

/// `regex_automata::dfa::Automaton::try_search_rev` on the window `0..end`.
///
/// Trusted: the answer is the one that `rev_search` names for the expression
/// of `automaton`, and a match begins inside the window, at `end` at the
/// latest.
#[verifier::external_body]
fn search_rev(automaton: &Automaton, haystack: &[u8], end: usize) -> (step: RevStep)
    requires
        end <= haystack@.len(),
    ensures
        step == rev_search(
            automaton@.expression,
            automaton@.case_insensitive,
            haystack@,
            end as int,
        ),
        step matches RevStep::Match(start) ==> start <= end,
{
    let mut input = regex_automata::Input::new(haystack);
    input.set_end(end);
    match regex_automata::dfa::Automaton::try_search_rev(&automaton.dfa, &input) {
        Ok(Some(half)) => RevStep::Match(half.offset()),
        Ok(None) => RevStep::NoMatch,
        Err(_) => RevStep::GaveUp,
    }
}

/// The end of the window that follows a match at `start` in the window
/// `0..end`, or `None` when the scan is through.
pub open spec fn spec_next_window(end: usize, start: usize) -> Option<usize> {
    if start == 0 || end == 0 {
        None
    } else if start < end {
        Some(start)
    } else {
        Some((end - 1) as usize)
    }
}

/// Shrinks the window after a match: to just before the match's start, or by
/// one byte if the match starts at the window's end. A match at offset 0, or
/// in the empty window, ends the scan.
pub fn next_window(end: usize, start: usize) -> (next: Option<usize>)
    ensures
        next == spec_next_window(end, start),
        next matches Some(n) ==> n < end,
{
    if start == 0 || end == 0 {
        None
    } else if start < end {
        Some(start)
    } else {
        Some(end - 1)
    }
}

/// How a scan goes on after the automaton's answer for one window.
#[derive(Clone, Copy, Debug, PartialEq, Eq, Structural)]
pub enum Progress {
    /// Search again, in the window that ends here.
    Next(usize),
    /// The scan is through.
    Done,
    /// The scan is given up.
    Failed(ScanError),
}

/// How a scan goes on after the answer `step` for the window `0..end`. It is
/// through when nothing matched, or when the window cannot shrink further; it
/// fails when the automaton gave up.
pub open spec fn spec_progress(end: usize, step: RevStep) -> Progress {
    match step {
        RevStep::GaveUp => Progress::Failed(ScanError { window_end: end }),
        RevStep::NoMatch => Progress::Done,
        RevStep::Match(start) => match spec_next_window(end, start) {
            Some(next) => Progress::Next(next),
            None => Progress::Done,
        },
    }
}

/// What a scan has emitted after the answer `step`: one start more if a
/// match was found.
pub open spec fn spec_emitted(emitted: Seq<usize>, step: RevStep) -> Seq<usize> {
    match step {
        RevStep::Match(start) => emitted.push(start),
        _ => emitted,
    }
}

/// Takes in the automaton's answer for the window `0..end`: records the
/// start of a match and says how the scan goes on.
pub fn advance_scan(emitted: &mut Vec<usize>, end: usize, step: RevStep) -> (progress: Progress)
    ensures
        final(emitted)@ == spec_emitted(old(emitted)@, step),
        progress == spec_progress(end, step),
        progress matches Progress::Next(next) ==> next < end,
{
    match step {
        RevStep::GaveUp => Progress::Failed(ScanError { window_end: end }),
        RevStep::NoMatch => Progress::Done,
        RevStep::Match(start) => {
            emitted.push(start);
            match next_window(end, start) {
                Some(next) => Progress::Next(next),
                None => Progress::Done,
            }
        },
    }
}

/// The match starts that a scan of the window `0..end` emits, in the order
/// of emission, or `None` if the automaton gives up on the way.
pub open spec fn rev_scan(
    expression: Seq<char>,
    case_insensitive: bool,
    haystack: Seq<u8>,
    end: usize,
) -> Option<Seq<usize>>
    decreases end,
{
    let step = rev_search(expression, case_insensitive, haystack, end as int);
    let emitted = spec_emitted(Seq::empty(), step);
    match spec_progress(end, step) {
        Progress::Failed(_) => None,
        Progress::Done => Some(emitted),
        Progress::Next(next) => match rev_scan(expression, case_insensitive, haystack, next) {
            Some(rest) => Some(emitted + rest),
            None => None,
        },
    }
}

/// `(?-u)\b`, the expression, `\b`: the expression between two ASCII word
/// boundaries.
pub open spec fn whole_word_expression(pattern: Seq<char>) -> Seq<char> {
    "(?-u)\\b"@ + pattern + "\\b"@
}

/// The expression that is compiled for `pattern`.
pub open spec fn expression_for(pattern: Seq<char>, whole_words: bool) -> Seq<char> {
    if whole_words {
        whole_word_expression(pattern)
    } else {
        pattern
    }
}

/// Turns a sequence around.
pub fn reversed(items: &Vec<usize>) -> (out: Vec<usize>)
    ensures
        out@ == items@.reverse(),
{
    let mut out: Vec<usize> = Vec::new();
    let mut i: usize = items.len();
    while i > 0
        invariant
            i <= items.len(),
            out.len() == items.len() - i,
            forall|k: int| 0 <= k < out.len() ==> out[k] == items[items.len() - 1 - k],
        decreases i,
    {
        i -= 1;
        out.push(items[i]);
    }
    assert(out@ =~= items@.reverse());
    out
}

impl Automaton {
    /// Compiles `pattern`. With `whole_words` it is wrapped in zero-width
    /// word boundaries; unless `case_sensitive`, case is folded at compile
    /// time.
    pub fn compile(pattern: &str, case_sensitive: bool, whole_words: bool) -> (r: Result<
        Automaton,
        CompileError,
    >)
        ensures
            r is Ok <==> reverse_dfa_builds(expression_for(pattern@, whole_words), !case_sensitive),
            r matches Ok(a) ==> a@.expression == expression_for(pattern@, whole_words)
                && a@.case_insensitive == !case_sensitive,
            r matches Err(e) ==> e is Rejected,
    {
        let built = if whole_words {
            let mut expression = String::from_str("(?-u)\\b");
            expression.append(pattern);
            expression.append("\\b");
            build_reverse_dfa(expression.as_str(), !case_sensitive)
        } else {
            build_reverse_dfa(pattern, !case_sensitive)
        };
        match built {
            Ok(automaton) => Ok(automaton),
            Err(e) => Err(CompileError::Rejected(build_error_message(&e))),
        }
    }

    /// What a scan of `haystack` finds: the starts that its windows emit,
    /// turned around so that they ascend, or `None` if the automaton gives up
    /// in one of the windows.
    pub open spec fn starts(&self, haystack: Seq<u8>) -> Option<Seq<usize>> {
        match rev_scan(
            self@.expression,
            self@.case_insensitive,
            haystack,
            haystack.len() as usize,
        ) {
            Some(emitted) => Some(emitted.reverse()),
            None => None,
        }
    }

    /// The starts of all matches in `haystack`, ascending. The scan fails
    /// exactly if the automaton gives up in one of its windows.
    pub fn find_starts(&self, haystack: &[u8]) -> (r: Result<Vec<usize>, ScanError>)
        ensures
            r is Ok <==> self.starts(haystack@) is Some,
            r matches Ok(found) ==> {
                &&& Some(found@) == self.starts(haystack@)
                &&& forall|i: int, j: int| 0 <= i <= j < found.len() ==> found[i] <= found[j]
                &&& forall|i: int| 0 <= i < found.len() ==> found[i] <= haystack@.len()
            },
    {
        let ghost whole = rev_scan(
            self@.expression,
            self@.case_insensitive,
            haystack@,
            haystack@.len() as usize,
        );
        let mut found: Vec<usize> = Vec::new();
        let mut end: usize = haystack.len();
        let mut open: bool = true;
        while open
            invariant
                end <= haystack@.len(),
                whole == rev_scan(
                    self@.expression,
                    self@.case_insensitive,
                    haystack@,
                    haystack@.len() as usize,
                ),
                open ==> whole == match rev_scan(
                    self@.expression,
                    self@.case_insensitive,
                    haystack@,
                    end,
                ) {
                    Some(rest) => Some(found@ + rest),
                    None => None::<Seq<usize>>,
                },
                !open ==> whole == Some(found@),
                forall|i: int, j: int| 0 <= i <= j < found.len() ==> found[i] >= found[j],
                forall|i: int| 0 <= i < found.len() ==> found[i] <= haystack@.len(),
                open ==> forall|i: int| 0 <= i < found.len() ==> found[i] >= end,
            decreases
                    if open {
                        end + 1
                    } else {
                        0
                    },
        {
            let ghost before = found@;
            let step = search_rev(self, haystack, end);
            proof {
                let emitted = spec_emitted(Seq::empty(), step);
                assert(before + emitted =~= spec_emitted(before, step));
                assert forall|rest: Seq<usize>| before + (emitted + rest) == spec_emitted(
                    before,
                    step,
                ) + rest by {
                    assert(before + (emitted + rest) =~= spec_emitted(before, step) + rest);
                }
            }
            match advance_scan(&mut found, end, step) {
                Progress::Failed(e) => {
                    return Err(e);
                },
                Progress::Done => {
                    open = false;
                },
                Progress::Next(next) => {
                    end = next;
                },
            }
        }
        let starts = reversed(&found);
        Ok(starts)
    }
}

} // verus!
