//! One file's way through a run: classify, load, scan, and for each match
//! locate and preview.
//!
//! Loading and emitting are the caller's part. The decisions in between are
//! made here: whether a file is read at all, what its matches are, where they
//! lie and what is shown of them.

use crate::automaton::{expression_for, reverse_dfa_builds, Automaton};
use crate::classify::{classify, is_binary};
use crate::config::Options;
use crate::error::{CompileError, ScanError};
use crate::kmp::{all_occurrences, all_spans, Literal, MatchSpan};
use crate::lines::{direct_position, line_end, line_start_before, Locator, Position};
use crate::preview::{preview_of, preview_text};
use crate::render::{format_line, line_text};
use vstd::prelude::*;

verus! {

/// The matching strategy of a run. It is chosen once, when the run is set up.
pub enum Matcher {
    /// Literal matching by Knuth-Morris-Pratt.
    Literal(Literal),
    /// Matching with a reverse automaton.
    Automaton(Automaton),
}

/// The starts of the given spans.
pub fn starts_of(spans: &Vec<MatchSpan>) -> (starts: Vec<usize>)
    ensures
        starts@ == spans@.map_values(|span: MatchSpan| span.start),
{
    let mut starts: Vec<usize> = Vec::new();
    let mut k: usize = 0;
    while k < spans.len()
        invariant
            k <= spans.len(),
            starts@ == spans@.take(k as int).map_values(|span: MatchSpan| span.start),
        decreases spans.len() - k,
    {
        proof {
            assert(spans@.take(k + 1).map_values(|span: MatchSpan| span.start) =~= spans@.take(
                k as int,
            ).map_values(|span: MatchSpan| span.start).push(spans@[k as int].start));
        }
        starts.push(spans[k].start);
        k += 1;
    }
    proof {
        assert(spans@.take(spans@.len() as int) =~= spans@);
    }
    starts
}

impl Matcher {
    /// The starts of all matches in `haystack`, ascending, or `None` if the
    /// automaton gives up on it. A literal matcher never gives up.
    pub open spec fn starts(&self, haystack: Seq<u8>) -> Option<Seq<usize>> {
        match self {
            Matcher::Literal(literal) => Some(all_occurrences(literal@, haystack)),
            Matcher::Automaton(automaton) => automaton.starts(haystack),
        }
    }

    /// Scans `haystack` and returns the starts of its matches, ascending.
    pub fn find_starts(&self, haystack: &[u8]) -> (r: Result<Vec<usize>, ScanError>)
        ensures
            r is Ok <==> self.starts(haystack@) is Some,
            r matches Ok(found) ==> {
                &&& Some(found@) == self.starts(haystack@)
                &&& forall|k: int| 0 <= k < found.len() ==> found[k] <= haystack@.len()
                &&& forall|i: int, j: int| 0 <= i <= j < found.len() ==> found[i] <= found[j]
            },
    {
        match self {
            Matcher::Literal(literal) => {
                let spans = literal.find_all(haystack);
                let found = starts_of(&spans);
                proof {
                    assert(all_spans(literal@, haystack@).map_values(|span: MatchSpan| span.start)
                        =~= all_occurrences(literal@, haystack@));
                    assert forall|i: int, j: int| 0 <= i <= j < found.len() implies found[i]
                        <= found[j] by {
                        assert(found[i] == spans[i].start && found[j] == spans[j].start);
                    }
                    assert forall|k: int| 0 <= k < found.len() implies found[k]
                        <= haystack@.len() by {
                        assert(found[k] == spans[k].start);
                    }
                }
                Ok(found)
            },
            Matcher::Automaton(automaton) => automaton.find_starts(haystack),
        }
    }
}

/// One match as it is reported.
#[derive(Debug)]
pub struct SearchResult {
    /// Row and column of the match's first byte.
    pub position: Position,
    /// The beginning of the matched line; none for a binary file.
    pub preview: Option<String>,
    /// Whether the file is classified as binary.
    pub is_binary: bool,
}

/// A `SearchResult` with its preview as a sequence of characters.
pub struct SearchResultView {
    pub position: Position,
    pub preview: Option<Seq<char>>,
    pub is_binary: bool,
}

impl View for SearchResult {
    type V = SearchResultView;

    open spec fn view(&self) -> SearchResultView {
        SearchResultView {
            position: self.position,
            preview: match self.preview {
                Some(text) => Some(text@),
                None => None,
            },
            is_binary: self.is_binary,
        }
    }
}

/// The preview of the line that holds `offset`.
pub open spec fn preview_at(text: Seq<u8>, offset: int) -> Seq<char> {
    let start = line_start_before(text, offset);
    preview_text(text.subrange(start, line_end(text, start)))
}

/// What is reported for a match at `offset`: its position, and the preview of
/// its line unless the file is binary.
pub open spec fn result_at(text: Seq<u8>, offset: int, is_binary: bool) -> SearchResultView {
    SearchResultView {
        position: direct_position(text, offset),
        preview: if is_binary {
            None
        } else {
            Some(preview_at(text, offset))
        },
        is_binary,
    }
}

/// Locates each of the given match starts in `haystack` and previews its
/// line. The strategy for locating is picked by the number of matches; the
/// results do not depend on it.
pub fn resolve(haystack: &[u8], starts: &[usize], is_binary: bool) -> (results: Vec<SearchResult>)
    requires
        haystack@.len() < usize::MAX,
        forall|k: int| 0 <= k < starts@.len() ==> starts@[k] <= haystack@.len(),
    ensures
        results.len() == starts@.len(),
        forall|k: int|
            0 <= k < results.len() ==> (#[trigger] results[k])@ == result_at(
                haystack@,
                starts@[k] as int,
                is_binary,
            ),
{
    let locator = Locator::select(haystack, starts.len());
    let mut results: Vec<SearchResult> = Vec::new();
    let mut k: usize = 0;
    while k < starts.len()
        invariant
            k <= starts@.len(),
            haystack@.len() < usize::MAX,
            locator.serves(haystack@),
            forall|t: int| 0 <= t < starts@.len() ==> starts@[t] <= haystack@.len(),
            results.len() == k,
            forall|t: int|
                0 <= t < k ==> (#[trigger] results[t])@ == result_at(
                    haystack@,
                    starts@[t] as int,
                    is_binary,
                ),
        decreases starts.len() - k,
    {
        let offset = starts[k];
        let position = locator.locate(haystack, offset);
        let preview = if is_binary {
            None
        } else {
            let end = locator.line_end(haystack, offset, position);
            proof {
                crate::lines::lemma_position_bounds(haystack@, offset as int);
            }
            Some(preview_of(haystack, offset + 1 - position.col, end))
        };
        results.push(SearchResult { position, preview, is_binary });
        k += 1;
    }
    results
}

/// Whether a file with this extension is read: `None` if it is skipped,
/// else whether it is binary.
pub open spec fn spec_filter(extension: Option<Seq<u8>>, read_binary: bool) -> Option<bool> {
    if is_binary(extension) && !read_binary {
        None
    } else {
        Some(is_binary(extension))
    }
}

/// The compiled pattern and the policy for binary files. It is built once
/// and only read afterwards.
pub struct SearchCtx {
    matcher: Matcher,
    read_binary: bool,
}

impl SearchCtx {
    /// The matcher of this run.
    pub closed spec fn matcher(&self) -> Matcher {
        self.matcher
    }

    /// Whether binary files are read.
    pub closed spec fn read_binary(&self) -> bool {
        self.read_binary
    }

    /// Sets up a run that matches with an automaton. The pattern is compiled
    /// with the options' case folding and word boundaries.
    pub fn new(pattern: &str, options: &Options) -> (r: Result<SearchCtx, CompileError>)
        ensures
            r is Ok <==> reverse_dfa_builds(
                expression_for(pattern@, options.whole_words),
                !options.case_sensitive,
            ),
            r matches Ok(ctx) ==> {
                &&& ctx.read_binary() == options.read_binary
                &&& ctx.matcher() matches Matcher::Automaton(a)
                &&& a@.expression == expression_for(
                    pattern@,
                    options.whole_words,
                )
                &&& a@.case_insensitive == !options.case_sensitive
            },
            r matches Err(e) ==> e is Rejected,
    {
        match Automaton::compile(pattern, options.case_sensitive, options.whole_words) {
            Ok(automaton) => {
                let matcher = Matcher::Automaton(automaton);
                Ok(SearchCtx { matcher, read_binary: options.read_binary })
            },
            Err(e) => Err(e),
        }
    }

    /// Sets up a run that matches a literal pattern.
    pub fn literal(pattern: &[u8], read_binary: bool) -> (r: Result<SearchCtx, CompileError>)
        ensures
            r is Ok <==> pattern@.len() > 0,
            r matches Ok(ctx) ==> {
                &&& ctx.read_binary() == read_binary
                &&& ctx.matcher() matches Matcher::Literal(l)
                &&& l@ == pattern@
            },
            r matches Err(e) ==> e is Empty,
    {
        match Literal::compile(pattern) {
            Ok(literal) => Ok(SearchCtx { matcher: Matcher::Literal(literal), read_binary }),
            Err(e) => Err(e),
        }
    }

    /// Decides by a file's extension whether it is read. A binary file is
    /// skipped unless binary files are read; for a file that is read, the
    /// answer says whether it is binary.
    pub fn filter(&self, extension: Option<&[u8]>) -> (kept: Option<bool>)
        ensures
            kept == spec_filter(
                match extension {
                    Some(e) => Some(e@),
                    None => None,
                },
                self.read_binary(),
            ),
    {
        let binary = classify(extension);
        if binary && !self.read_binary {
            None
        } else {
            Some(binary)
        }
    }

    /// Scans one text and reports its matches in ascending order of their
    /// offsets. Matches in a binary text are located, but get no preview.
    pub fn search(&self, haystack: &[u8], is_binary: bool) -> (r: Result<
        Vec<SearchResult>,
        ScanError,
    >)
        requires
            haystack@.len() < usize::MAX,
        ensures
            r is Ok <==> self.matcher().starts(haystack@) is Some,
            r matches Ok(results) ==> {
                let starts = self.matcher().starts(haystack@)->0;
                &&& results.len() == starts.len()
                &&& forall|k: int|
                    0 <= k < results.len() ==> (#[trigger] results[k])@ == result_at(
                        haystack@,
                        starts[k] as int,
                        is_binary,
                    )
                &&& forall|i: int, j: int| 0 <= i <= j < starts.len() ==> starts[i] <= starts[j]
            },
    {
        match self.matcher.find_starts(haystack) {
            Ok(starts) => Ok(resolve(haystack, starts.as_slice(), is_binary)),
            Err(e) => Err(e),
        }
    }
}

/// The result line of one match.
pub fn render(path: Option<&str>, result: &SearchResult) -> (line: String)
    ensures
        line@ == line_text(
            match path {
                Some(p) => Some(p@),
                None => None,
            },
            result@.position.row as nat,
            result@.position.col as nat,
            result@.preview,
        ),
{
    match &result.preview {
        Some(text) => format_line(
            path,
            result.position.row,
            result.position.col,
            Some(text.as_str()),
        ),
        None => format_line(path, result.position.row, result.position.col, None),
    }
}

/// Where a file stands on its way through a run.
#[derive(Clone, Copy, Debug, PartialEq, Eq, Structural)]
pub enum FileState {
    /// Found by the walker; to be classified.
    Classify,
    /// Kept; to be loaded.
    Load { is_binary: bool },
    /// Loaded; to be scanned.
    Scan { is_binary: bool },
    /// Scanned; its results were handed out.
    Emitted,
    /// Left out: by the policy for binary files, or because it could not be
    /// loaded or scanned.
    Skipped,
}

/// What happened to a file since its last state.
#[derive(Clone, Copy, Debug, PartialEq, Eq, Structural)]
pub enum FileEvent {
    /// The answer of `SearchCtx::filter`.
    Classified { kept: Option<bool> },
    /// The file's bytes are at hand.
    Loaded,
    /// The file could not be opened or mapped.
    LoadFailed,
    /// The scan is through.
    Scanned,
    /// The matcher gave up on the file.
    ScanFailed,
}

/// The state that follows `state` on `event`. A failure concerns its file
/// alone and leads to `Skipped`; `Emitted` and `Skipped` are final; an event
/// that does not fit a state leaves it as it is.
pub open spec fn next_state(state: FileState, event: FileEvent) -> FileState {
    match (state, event) {
        (FileState::Classify, FileEvent::Classified { kept: None }) => FileState::Skipped,
        (FileState::Classify, FileEvent::Classified { kept: Some(is_binary) }) => FileState::Load {
            is_binary,
        },
        (FileState::Load { is_binary }, FileEvent::Loaded) => FileState::Scan { is_binary },
        (FileState::Load { .. }, FileEvent::LoadFailed) => FileState::Skipped,
        (FileState::Scan { .. }, FileEvent::Scanned) => FileState::Emitted,
        (FileState::Scan { .. }, FileEvent::ScanFailed) => FileState::Skipped,
        (other, _) => other,
    }
}

/// Whether nothing more happens to a file in this state.
pub open spec fn is_final(state: FileState) -> bool {
    state is Emitted || state is Skipped
}

/// Moves a file on by one event.
pub fn advance(state: FileState, event: FileEvent) -> (next: FileState)
    ensures
        next == next_state(state, event),
{
    match (state, event) {
        (FileState::Classify, FileEvent::Classified { kept: None }) => FileState::Skipped,
        (FileState::Classify, FileEvent::Classified { kept: Some(is_binary) }) => FileState::Load {
            is_binary,
        },
        (FileState::Load { is_binary }, FileEvent::Loaded) => FileState::Scan { is_binary },
        (FileState::Load { .. }, FileEvent::LoadFailed) => FileState::Skipped,
        (FileState::Scan { .. }, FileEvent::Scanned) => FileState::Emitted,
        (FileState::Scan { .. }, FileEvent::ScanFailed) => FileState::Skipped,
        (other, _) => other,
    }
}

/// A final state is never left, whatever happens.
pub proof fn lemma_final_states_stay(state: FileState, event: FileEvent)
    requires
        is_final(state),
    ensures
        next_state(state, event) == state,
{
}

/// Where a file ends up after the three events of its run: the filter's
/// answer, the outcome of loading and the outcome of scanning.
pub open spec fn outcome(kept: Option<bool>, loaded: bool, scanned: bool) -> FileState {
    let classified = next_state(FileState::Classify, FileEvent::Classified { kept });
    let after_load = next_state(
        classified,
        if loaded {
            FileEvent::Loaded
        } else {
            FileEvent::LoadFailed
        },
    );
    next_state(
        after_load,
        if scanned {
            FileEvent::Scanned
        } else {
            FileEvent::ScanFailed
        },
    )
}

/// Every file ends in a final state: `Emitted` if the filter kept it and it
/// was loaded and scanned, else `Skipped`.
pub proof fn lemma_every_file_ends(kept: Option<bool>, loaded: bool, scanned: bool)
    ensures
        is_final(outcome(kept, loaded, scanned)),
        outcome(kept, loaded, scanned) is Emitted <==> kept is Some && loaded && scanned,
{
}

/// Binary files are gated by the policy and text files are not: a text file
/// is read whether or not binary files are; a binary file is skipped unless
/// they are read, and then none of its matches has a preview, while every
/// match in a text file has one.
pub proof fn lemma_binary_gating(extension: Option<Seq<u8>>, text: Seq<u8>, offset: int)
    ensures
        !is_binary(extension) ==> spec_filter(extension, false) == Some(false) && spec_filter(
            extension,
            true,
        ) == Some(false),
        is_binary(extension) ==> spec_filter(extension, false) is None && spec_filter(
            extension,
            true,
        ) == Some(true),
        result_at(text, offset, true).preview is None,
        result_at(text, offset, false).preview == Some(preview_at(text, offset)),
        result_at(text, offset, true).position == result_at(text, offset, false).position,
{
}

} // verus!
