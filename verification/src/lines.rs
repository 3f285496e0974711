//! Byte offsets to rows and columns.
//!
//! Rows and columns are 1-based and derive from `\n` bytes alone. An offset
//! can be resolved through a precomputed table of line starts, or directly by
//! counting terminators in front of it; both give the same position.

use vstd::prelude::*;

verus! {

/// The sole line terminator.
pub const NEWLINE: u8 = 10;

/// A 1-based row and column.
#[derive(Clone, Copy, Debug, PartialEq, Eq, Structural)]
pub struct Position {
    pub row: usize,
    pub col: usize,
}

/// The number of terminators among the first `upto` bytes of `text`.
pub open spec fn newlines_before(text: Seq<u8>, upto: int) -> int
    decreases upto,
{
    if upto <= 0 {
        0
    } else {
        newlines_before(text, upto - 1) + if text[upto - 1] == NEWLINE {
            1int
        } else {
            0int
        }
    }
}

/// Where the line that holds offset `upto` begins: just behind the last
/// terminator in front of `upto`, or at 0.
pub open spec fn line_start_before(text: Seq<u8>, upto: int) -> int
    decreases upto,
{
    if upto <= 0 {
        0
    } else if text[upto - 1] == NEWLINE {
        upto
    } else {
        line_start_before(text, upto - 1)
    }
}

/// The position of `offset`, found by counting the terminators in front of
/// it: the row is their number plus 1, the column the distance from the start
/// of the line plus 1.
pub open spec fn direct_position(text: Seq<u8>, offset: int) -> Position {
    Position {
        row: (newlines_before(text, offset) + 1) as usize,
        col: (offset - line_start_before(text, offset) + 1) as usize,
    }
}

/// The line starts among the offsets `0..=upto`: 0, and each offset just
/// behind a terminator.
pub open spec fn line_starts_upto(text: Seq<u8>, upto: int) -> Seq<usize>
    decreases upto,
{
    if upto <= 0 {
        seq![0usize]
    } else if text[upto - 1] == NEWLINE {
        line_starts_upto(text, upto - 1).push(upto as usize)
    } else {
        line_starts_upto(text, upto - 1)
    }
}

/// All line starts of `text`, ascending.
pub open spec fn line_starts(text: Seq<u8>) -> Seq<usize> {
    line_starts_upto(text, text.len() as int)
}

/// The number of entries of `starts` that are not greater than `offset`.
pub open spec fn starts_upto(starts: Seq<usize>, offset: int) -> int
    decreases starts.len(),
{
    if starts.len() == 0 {
        0
    } else {
        starts_upto(starts.drop_last(), offset) + if starts.last() <= offset {
            1int
        } else {
            0int
        }
    }
}

/// The position of `offset`, found in a table of line starts: the row is the
/// number of line starts up to `offset`, the column the distance from the
/// last of them plus 1.
pub open spec fn table_position(starts: Seq<usize>, offset: int) -> Position {
    let row = starts_upto(starts, offset);
    Position { row: row as usize, col: (offset - starts[row - 1] + 1) as usize }
}

/// `starts` begins with 0 and ascends strictly.
pub open spec fn is_line_table(starts: Seq<usize>) -> bool {
    &&& starts.len() > 0
    &&& starts[0] == 0
    &&& forall|i: int, j: int| 0 <= i < j < starts.len() ==> starts[i] < starts[j]
}

/// Neither the count of terminators nor the line start is negative or beyond
/// the offset.
pub proof fn lemma_position_bounds(text: Seq<u8>, offset: int)
    requires
        0 <= offset,
    ensures
        0 <= newlines_before(text, offset) <= offset,
        0 <= line_start_before(text, offset) <= offset,
    decreases offset,
{
    if offset > 0 {
        lemma_position_bounds(text, offset - 1);
    }
}

/// Rows and columns count from 1.
pub proof fn lemma_position_is_one_based(text: Seq<u8>, offset: int)
    requires
        0 <= offset <= text.len() < usize::MAX,
    ensures
        direct_position(text, offset).row >= 1,
        direct_position(text, offset).col >= 1,
{
    lemma_position_bounds(text, offset);
}

/// Two offsets with no terminator between them lie on one line.
pub proof fn lemma_same_line(text: Seq<u8>, a: int, b: int)
    requires
        0 <= a <= b <= text.len(),
        forall|t: int| a <= t < b ==> text[t] != NEWLINE,
    ensures
        newlines_before(text, a) == newlines_before(text, b),
        line_start_before(text, a) == line_start_before(text, b),
    decreases b - a,
{
    if a < b {
        lemma_same_line(text, a, b - 1);
    }
}

/// No terminator stands between the start of a line and an offset on it.
pub proof fn lemma_line_is_unbroken(text: Seq<u8>, offset: int)
    requires
        0 <= offset <= text.len(),
    ensures
        forall|t: int| line_start_before(text, offset) <= t < offset ==> text[t] != NEWLINE,
    decreases offset,
{
    if offset > 0 && text[offset - 1] != NEWLINE {
        lemma_line_is_unbroken(text, offset - 1);
    }
}

/// The table of line starts up to `upto`: it begins with 0, ascends strictly,
/// stays within `upto`, has one entry more than there are terminators, and
/// ends with the start of the line of `upto`.
pub proof fn lemma_line_starts_upto(text: Seq<u8>, upto: int)
    requires
        0 <= upto <= text.len() < usize::MAX,
    ensures
        is_line_table(line_starts_upto(text, upto)),
        line_starts_upto(text, upto).len() == newlines_before(text, upto) + 1,
        line_starts_upto(text, upto).last() == line_start_before(text, upto),
        forall|i: int|
            0 <= i < line_starts_upto(text, upto).len() ==> #[trigger] line_starts_upto(
                text,
                upto,
            )[i] <= upto,
    decreases upto,
{
    if upto > 0 {
        lemma_line_starts_upto(text, upto - 1);
        lemma_position_bounds(text, upto - 1);
    }
}

/// The table up to a later offset begins with the table up to an earlier one.
pub proof fn lemma_line_starts_prefix(text: Seq<u8>, a: int, b: int)
    requires
        0 <= a <= b <= text.len() < usize::MAX,
    ensures
        line_starts_upto(text, a).len() <= line_starts_upto(text, b).len(),
        line_starts_upto(text, b).take(line_starts_upto(text, a).len() as int) == line_starts_upto(
            text,
            a,
        ),
        forall|i: int|
            line_starts_upto(text, a).len() <= i < line_starts_upto(text, b).len()
                ==> #[trigger] line_starts_upto(text, b)[i] > a,
    decreases b - a,
{
    let short = line_starts_upto(text, a);
    if a < b {
        lemma_line_starts_prefix(text, a, b - 1);
        let mid = line_starts_upto(text, b - 1);
        let long = line_starts_upto(text, b);
        assert(long.take(short.len() as int) =~= mid.take(short.len() as int));
    } else {
        assert(short.take(short.len() as int) =~= short);
    }
}

/// Counting the entries up to `offset` in a table whose entries behind the
/// first `n` are all greater than `offset`, and whose first `n` are not.
pub proof fn lemma_starts_upto_split(starts: Seq<usize>, offset: int, n: int)
    requires
        0 <= n <= starts.len(),
        forall|i: int| 0 <= i < n ==> starts[i] <= offset,
        forall|i: int| n <= i < starts.len() ==> starts[i] > offset,
    ensures
        starts_upto(starts, offset) == n,
    decreases starts.len(),
{
    if starts.len() > 0 {
        let front = starts.drop_last();
        if n == starts.len() {
            lemma_starts_upto_split(front, offset, n - 1);
        } else {
            lemma_starts_upto_split(front, offset, n);
        }
    }
}

/// What a lookup in the table finds for `offset`: as many line starts up to
/// it as there are terminators in front of it, and one more; the last of them
/// is the start of its line.
pub proof fn lemma_table_lookup(text: Seq<u8>, offset: int)
    requires
        0 <= offset <= text.len() < usize::MAX,
    ensures
        starts_upto(line_starts(text), offset) == newlines_before(text, offset) + 1,
        newlines_before(text, offset) < line_starts(text).len(),
        line_starts(text)[newlines_before(text, offset)] == line_start_before(text, offset),
{
    let all = line_starts(text);
    let upto = line_starts_upto(text, offset);
    lemma_line_starts_upto(text, offset);
    lemma_line_starts_prefix(text, offset, text.len() as int);
    assert forall|i: int| 0 <= i < upto.len() implies all[i] <= offset by {
        assert(all.take(upto.len() as int)[i] == upto[i]);
    }
    lemma_starts_upto_split(all, offset, upto.len() as int);
    assert(all.take(upto.len() as int)[upto.len() - 1] == upto.last());
}

/// Both strategies resolve every offset of a text to the same position: the
/// table of line starts gives the row and column that counting terminators
/// gives.
pub proof fn lemma_strategies_agree(text: Seq<u8>, offset: int)
    requires
        0 <= offset <= text.len() < usize::MAX,
    ensures
        table_position(line_starts(text), offset) == direct_position(text, offset),
{
    lemma_table_lookup(text, offset);
}

/// The start of every line resolves to column 1 of that line's row.
pub proof fn lemma_line_start_is_column_one(text: Seq<u8>, line: int)
    requires
        text.len() < usize::MAX,
        0 <= line < line_starts(text).len(),
    ensures
        line_starts(text)[line] <= text.len(),
        direct_position(text, line_starts(text)[line] as int) == (Position {
            row: (line + 1) as usize,
            col: 1,
        }),
{
    let all = line_starts(text);
    let offset = all[line] as int;
    lemma_line_starts_upto(text, text.len() as int);
    lemma_line_starts_upto(text, offset);
    lemma_line_starts_prefix(text, offset, text.len() as int);
    let upto = line_starts_upto(text, offset);
    // The entries up to `offset` are exactly the first `line + 1` of the table.
    if upto.len() > line + 1 {
        assert(all.take(upto.len() as int)[line + 1] == upto[line + 1]);
        assert(upto[line + 1] <= offset);
    }
    if upto.len() < line + 1 {
        assert(all[line] > offset);
    }
    assert(all.take(upto.len() as int)[line] == upto[line]);
}

/// The offset just behind a terminator resolves to column 1 of the next row.
pub proof fn lemma_behind_terminator_is_column_one(text: Seq<u8>, at: int)
    requires
        0 <= at < text.len() < usize::MAX,
        text[at] == NEWLINE,
    ensures
        direct_position(text, at + 1).col == 1,
        direct_position(text, at + 1).row == direct_position(text, at).row + 1,
{
    lemma_position_bounds(text, at);
}

/// Builds the table of line starts in one pass.
pub fn precompute(haystack: &[u8]) -> (starts: Vec<usize>)
    ensures
        starts@ == line_starts(haystack@),
{
    let mut starts: Vec<usize> = Vec::new();
    starts.push(0);
    let mut i: usize = 0;
    while i < haystack.len()
        invariant
            i <= haystack.len(),
            starts@ == line_starts_upto(haystack@, i as int),
        decreases haystack.len() - i,
    {
        if haystack[i] == NEWLINE {
            starts.push(i + 1);
        }
        i += 1;
    }
    starts
}

/// Resolves `index` in a table of line starts by binary search for the last
/// line start that is not behind it.
pub fn from_precomputed(line_starts: &[usize], index: usize) -> (p: Position)
    requires
        is_line_table(line_starts@),
        index < usize::MAX,
    ensures
        p == table_position(line_starts@, index as int),
        1 <= p.row <= line_starts@.len(),
        line_starts@[p.row - 1] <= index,
        p.row < line_starts@.len() ==> index < line_starts@[p.row as int],
{
    let mut lo: usize = 1;
    let mut hi: usize = line_starts.len();
    while lo < hi
        invariant
            1 <= lo <= hi <= line_starts@.len(),
            is_line_table(line_starts@),
            forall|i: int| 0 <= i < lo ==> line_starts@[i] <= index,
            forall|i: int| hi <= i < line_starts@.len() ==> line_starts@[i] > index,
        decreases hi - lo,
    {
        let mid = lo + (hi - lo) / 2;
        if line_starts[mid] <= index {
            lo = mid + 1;
        } else {
            hi = mid;
        }
    }
    proof {
        lemma_starts_upto_split(line_starts@, index as int, lo as int);
    }
    Position { row: lo, col: index - line_starts[lo - 1] + 1 }
}

/// Resolves `offset` by counting the terminators in front of it.
pub fn locate_direct(haystack: &[u8], offset: usize) -> (p: Position)
    requires
        offset <= haystack@.len() < usize::MAX,
    ensures
        p == direct_position(haystack@, offset as int),
        1 <= p.col <= offset + 1,
        p.row >= 1,
{
    let mut row: usize = 1;
    let mut line_start: usize = 0;
    let mut i: usize = 0;
    while i < offset
        invariant
            i <= offset <= haystack@.len() < usize::MAX,
            row == newlines_before(haystack@, i as int) + 1,
            line_start == line_start_before(haystack@, i as int),
            1 <= row <= i + 1,
            line_start <= i,
        decreases offset - i,
    {
        if haystack[i] == NEWLINE {
            row += 1;
            line_start = i + 1;
        }
        i += 1;
    }
    Position { row, col: offset - line_start + 1 }
}

/// How many bytes of a last line without terminator are looked at.
pub const FALLBACK_WINDOW: usize = 125;

/// The offset of the first terminator at or behind `from`, or the length of
/// `text` if there is none.
pub open spec fn newline_from(text: Seq<u8>, from: int) -> int
    decreases text.len() - from,
{
    if from >= text.len() {
        text.len() as int
    } else if text[from] == NEWLINE {
        from
    } else {
        newline_from(text, from + 1)
    }
}

/// Where the line that begins at `start` ends: at its terminator, which is
/// left out, or, on a last line without one, at the end of the text or of the
/// fallback window, whichever comes first.
pub open spec fn line_end(text: Seq<u8>, start: int) -> int {
    let terminator = newline_from(text, start);
    if terminator < text.len() {
        terminator
    } else if text.len() - start > FALLBACK_WINDOW {
        start + FALLBACK_WINDOW
    } else {
        text.len() as int
    }
}

/// The first terminator behind `from` is at `at` if none stands in between
/// and `at` holds one or is the end of the text.
pub proof fn lemma_newline_from(text: Seq<u8>, from: int, at: int)
    requires
        0 <= from <= at <= text.len(),
        forall|t: int| from <= t < at ==> text[t] != NEWLINE,
        at < text.len() ==> text[at] == NEWLINE,
    ensures
        newline_from(text, from) == at,
    decreases at - from,
{
    if from < at {
        lemma_newline_from(text, from + 1, at);
    }
}

/// What the table of line starts holds: 0, and each offset just behind a
/// terminator.
pub proof fn lemma_line_starts_members(text: Seq<u8>, upto: int, x: int)
    requires
        0 <= upto <= text.len() < usize::MAX,
    ensures
        (exists|i: int|
            0 <= i < line_starts_upto(text, upto).len() && #[trigger] line_starts_upto(
                text,
                upto,
            )[i] == x) <==> (x == 0 || (1 <= x <= upto && text[x - 1] == NEWLINE)),
    decreases upto,
{
    let table = line_starts_upto(text, upto);
    if upto <= 0 {
        assert(table[0] == 0);
    } else {
        lemma_line_starts_members(text, upto - 1, x);
        let front = line_starts_upto(text, upto - 1);
        if text[upto - 1] == NEWLINE {
            assert(forall|i: int| 0 <= i < front.len() ==> table[i] == front[i]);
            assert(table[front.len() as int] == upto);
            if x == 0 || (1 <= x <= upto - 1 && text[x - 1] == NEWLINE) {
                let i = choose|i: int| 0 <= i < front.len() && #[trigger] front[i] == x;
                assert(table[i] == x);
            }
            if exists|i: int| 0 <= i < table.len() && #[trigger] table[i] == x {
                let i = choose|i: int| 0 <= i < table.len() && #[trigger] table[i] == x;
                if i < front.len() {
                    assert(front[i] == x);
                }
            }
        }
    }
}

/// In the table of line starts, the line behind line `line` begins just
/// behind the first terminator of line `line`; the last line has none.
pub proof fn lemma_line_ends(text: Seq<u8>, line: int)
    requires
        text.len() < usize::MAX,
        0 <= line < line_starts(text).len(),
    ensures
        line_starts(text)[line] <= text.len(),
        line + 1 < line_starts(text).len() ==> newline_from(
            text,
            line_starts(text)[line] as int,
        ) == line_starts(text)[line + 1] - 1 < text.len(),
        line + 1 == line_starts(text).len() ==> newline_from(
            text,
            line_starts(text)[line] as int,
        ) == text.len(),
{
    let table = line_starts(text);
    let len = text.len() as int;
    let start = table[line] as int;
    lemma_line_starts_upto(text, len);
    let bound = if line + 1 < table.len() {
        table[line + 1] - 1
    } else {
        len
    };
    if line + 1 < table.len() {
        lemma_line_starts_members(text, len, table[line + 1] as int);
    }
    assert forall|t: int| start <= t < bound implies text[t] != NEWLINE by {
        if text[t] == NEWLINE {
            lemma_line_starts_members(text, len, t + 1);
            let i = choose|i: int| 0 <= i < table.len() && #[trigger] table[i] == t + 1;
            if i <= line {
                assert(table[i] <= table[line]);
            } else if line + 1 < table.len() {
                assert(table[line + 1] <= table[i]);
            }
        }
    }
    lemma_newline_from(text, start, bound);
}

/// A table of line starts, built for one text and dropped after use. It
/// begins with 0, also for an empty text, and ascends strictly.
pub struct LineIndex {
    starts: Vec<usize>,
}

impl View for LineIndex {
    type V = Seq<usize>;

    closed spec fn view(&self) -> Seq<usize> {
        self.starts@
    }
}

impl LineIndex {
    #[verifier::type_invariant]
    spec fn well_formed(self) -> bool {
        is_line_table(self.starts@)
    }

    /// Builds the index of `haystack` in one pass over it.
    pub fn build(haystack: &[u8]) -> (index: LineIndex)
        requires
            haystack@.len() < usize::MAX,
        ensures
            index@ == line_starts(haystack@),
    {
        let starts = precompute(haystack);
        proof {
            lemma_line_starts_upto(haystack@, haystack@.len() as int);
        }
        LineIndex { starts }
    }

    /// The number of lines.
    pub fn line_count(&self) -> (n: usize)
        ensures
            n == self@.len(),
            n >= 1,
    {
        proof {
            use_type_invariant(self);
        }
        self.starts.len()
    }

    /// The offset at which line `line` begins; lines count from 0 here.
    pub fn line_start(&self, line: usize) -> (start: usize)
        requires
            line < self@.len(),
        ensures
            start == self@[line as int],
    {
        self.starts[line]
    }

    /// Resolves `offset` by binary search.
    pub fn locate(&self, offset: usize) -> (p: Position)
        requires
            offset < usize::MAX,
        ensures
            p == table_position(self@, offset as int),
            1 <= p.row <= self@.len(),
    {
        proof {
            use_type_invariant(self);
        }
        from_precomputed(self.starts.as_slice(), offset)
    }
}

/// The average length of a line that the choice of strategy reckons with.
pub const AVERAGE_LINE_SIZE: usize = 64;

/// The number of times `n` can be halved before it is 1 or less.
pub open spec fn floor_log2(n: nat) -> nat
    decreases n,
{
    if n <= 1 {
        0
    } else {
        1 + floor_log2(n / 2)
    }
}

/// The number of matches up to which counting terminators for each match is
/// reckoned cheaper than building the table once: the size of the text by the
/// average line length and by the logarithm of the size.
pub open spec fn table_threshold(file_size: nat) -> nat {
    let log = if floor_log2(file_size) == 0 {
        1
    } else {
        floor_log2(file_size)
    };
    file_size / (AVERAGE_LINE_SIZE as nat) / log
}

/// Whether the table is built for a text of `file_size` bytes with
/// `match_count` matches.
pub open spec fn prefers_table(file_size: nat, match_count: nat) -> bool {
    match_count > table_threshold(file_size)
}

/// The logarithm to base 2, rounded down; 0 for 0.
pub fn log2_floor(n: usize) -> (log: usize)
    ensures
        log == floor_log2(n as nat),
{
    let mut rest: usize = n;
    let mut log: usize = 0;
    while rest > 1
        invariant
            log + floor_log2(rest as nat) == floor_log2(n as nat),
            log + rest <= n,
        decreases rest,
    {
        rest = rest / 2;
        log += 1;
    }
    log
}

/// Decides between the two strategies. The outcome changes the cost of a
/// lookup and never its result.
pub fn should_precompute(file_size: usize, match_count: usize) -> (table: bool)
    ensures
        table == prefers_table(file_size as nat, match_count as nat),
{
    let log = log2_floor(file_size);
    let divisor = if log == 0 {
        1
    } else {
        log
    };
    match_count > file_size / AVERAGE_LINE_SIZE / divisor
}

/// How offsets are resolved for one text.
pub enum Locator {
    /// Through the table of line starts.
    Precomputed(LineIndex),
    /// By counting terminators for each offset.
    Direct,
}

impl Locator {
    /// Whether this locator can resolve offsets of `text`.
    pub open spec fn serves(&self, text: Seq<u8>) -> bool {
        match self {
            Locator::Precomputed(index) => index@ == line_starts(text),
            Locator::Direct => true,
        }
    }

    /// Picks the strategy for `haystack` by the number of matches in it, and
    /// builds the table if it is to be used.
    pub fn select(haystack: &[u8], match_count: usize) -> (locator: Locator)
        requires
            haystack@.len() < usize::MAX,
        ensures
            locator.serves(haystack@),
            locator is Precomputed <==> prefers_table(haystack@.len(), match_count as nat),
    {
        if should_precompute(haystack.len(), match_count) {
            Locator::Precomputed(LineIndex::build(haystack))
        } else {
            Locator::Direct
        }
    }

    /// The position of `offset`. It is the same under either strategy.
    pub fn locate(&self, haystack: &[u8], offset: usize) -> (p: Position)
        requires
            self.serves(haystack@),
            offset <= haystack@.len() < usize::MAX,
        ensures
            p == direct_position(haystack@, offset as int),
            p.row >= 1,
            1 <= p.col <= offset + 1,
    {
        match self {
            Locator::Precomputed(index) => {
                proof {
                    lemma_strategies_agree(haystack@, offset as int);
                    lemma_position_bounds(haystack@, offset as int);
                }
                index.locate(offset)
            },
            Locator::Direct => locate_direct(haystack, offset),
        }
    }

    /// The end of the line that holds `offset`, whose position is `p`.
    pub fn line_end(&self, haystack: &[u8], offset: usize, p: Position) -> (end: usize)
        requires
            self.serves(haystack@),
            offset <= haystack@.len() < usize::MAX,
            p == direct_position(haystack@, offset as int),
        ensures
            end == line_end(haystack@, line_start_before(haystack@, offset as int)),
            offset + 1 - p.col <= end <= haystack@.len(),
    {
        proof {
            lemma_position_bounds(haystack@, offset as int);
        }
        let start = offset + 1 - p.col;
        let len = haystack.len();
        let terminator = match self {
            Locator::Precomputed(index) => {
                proof {
                    lemma_table_lookup(haystack@, offset as int);
                    lemma_line_starts_upto(haystack@, haystack@.len() as int);
                    lemma_line_ends(haystack@, p.row - 1);
                }
                if p.row < index.line_count() {
                    index.line_start(p.row) - 1
                } else {
                    len
                }
            },
            Locator::Direct => {
                let mut at = start;
                while at < len && haystack[at] != NEWLINE
                    invariant
                        start <= at <= len == haystack@.len(),
                        forall|t: int| start <= t < at ==> haystack@[t] != NEWLINE,
                    decreases len - at,
                {
                    at += 1;
                }
                proof {
                    lemma_newline_from(haystack@, start as int, at as int);
                }
                at
            },
        };
        if terminator < len {
            terminator
        } else if len - start > FALLBACK_WINDOW {
            start + FALLBACK_WINDOW
        } else {
            len
        }
    }
}

} // verus!
