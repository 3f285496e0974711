use rgrep::error::CompileError;
use rgrep::config::Options;
use rgrep::lines::Position;
use rgrep::pipeline::{
    advance, render, resolve, starts_of, FileEvent, FileState, Matcher, SearchCtx, SearchResult,
};
use rgrep::kmp::{Literal, MatchSpan};

fn options(read_binary: bool) -> Options {
    Options { read_binary, case_sensitive: true, unicode: false, whole_words: false }
}

fn extension_of(name: &str) -> Option<&[u8]> {
    name.rsplit_once('.').map(|(_, ext)| ext.as_bytes())
}

/// Runs the named texts through one context, as a caller that has loaded
/// them would, and collects the result lines.
fn run(ctx: &SearchCtx, files: &[(&str, &[u8])]) -> Vec<String> {
    let mut lines = Vec::new();
    for (name, content) in files {
        let Some(is_binary) = ctx.filter(extension_of(name)) else {
            continue;
        };
        let results = ctx.search(content, is_binary).unwrap();
        for result in &results {
            lines.push(render(Some(name), result));
        }
    }
    lines
}

const TREE: [(&str, &[u8]); 2] = [("a.txt", b"hello world\nfoo bar\n"), ("b.bin", b"hello")];

#[test]
fn tree_without_reading_binaries_reports_the_text_file_only() {
    let ctx = SearchCtx::new("hello", &options(false)).unwrap();
    assert_eq!(run(&ctx, &TREE), vec!["a.txt:1:1:hello world"]);
}

#[test]
fn tree_with_reading_binaries_reports_the_binary_match_marked() {
    let ctx = SearchCtx::new("hello", &options(true)).unwrap();
    assert_eq!(run(&ctx, &TREE), vec!["a.txt:1:1:hello world", "b.bin:1:1:[binary]"]);
}

#[test]
fn literal_engine_reports_the_same_tree() {
    let ctx = SearchCtx::literal(b"hello", false).unwrap();
    assert_eq!(run(&ctx, &TREE), vec!["a.txt:1:1:hello world"]);
    let ctx = SearchCtx::literal(b"hello", true).unwrap();
    assert_eq!(run(&ctx, &TREE), vec!["a.txt:1:1:hello world", "b.bin:1:1:[binary]"]);
}

#[test]
fn binary_file_is_skipped_unless_binaries_are_read() {
    let ctx = SearchCtx::new("x", &options(false)).unwrap();
    assert_eq!(ctx.filter(Some(b"bin")), None);
    assert_eq!(ctx.filter(None), None);
    let ctx = SearchCtx::new("x", &options(true)).unwrap();
    assert_eq!(ctx.filter(Some(b"bin")), Some(true));
    assert_eq!(ctx.filter(None), Some(true));
}

#[test]
fn text_file_is_kept_whatever_the_policy() {
    for read_binary in [false, true] {
        let ctx = SearchCtx::new("x", &options(read_binary)).unwrap();
        assert_eq!(ctx.filter(Some(b"txt")), Some(false));
    }
}

#[test]
fn text_file_gives_the_same_results_whatever_the_policy() {
    let text = b"one hello\nhello two\n";
    let with = SearchCtx::new("hello", &options(true)).unwrap();
    let without = SearchCtx::new("hello", &options(false)).unwrap();
    let a: Vec<String> = with.search(text, false).unwrap().iter().map(|r| render(Some("t.txt"), r)).collect();
    let b: Vec<String> = without.search(text, false).unwrap().iter().map(|r| render(Some("t.txt"), r)).collect();
    assert_eq!(a, b);
    assert_eq!(a, vec!["t.txt:1:5:one hello", "t.txt:2:1:hello two"]);
}

#[test]
fn matches_in_a_binary_file_are_located_without_preview() {
    let ctx = SearchCtx::new("hello", &options(true)).unwrap();
    let results = ctx.search(b"\x00\x01hello\n\xffhello", true).unwrap();
    assert_eq!(results.len(), 2);
    assert_eq!(results[0].position, Position { row: 1, col: 3 });
    assert_eq!(results[1].position, Position { row: 2, col: 2 });
    for result in &results {
        assert!(result.is_binary);
        assert_eq!(result.preview, None);
    }
}

#[test]
fn results_of_one_file_come_in_ascending_order() {
    let ctx = SearchCtx::new("o", &options(false)).unwrap();
    let results = ctx.search(b"foo\nbo\n", false).unwrap();
    let positions: Vec<Position> = results.iter().map(|r| r.position).collect();
    assert_eq!(
        positions,
        vec![Position { row: 1, col: 2 }, Position { row: 1, col: 3 }, Position { row: 2, col: 2 }]
    );
}

#[test]
fn standard_input_results_show_the_path_placeholder() {
    let ctx = SearchCtx::new("bar", &options(false)).unwrap();
    let results = ctx.search(b"hello world\nfoo bar\n", false).unwrap();
    let lines: Vec<String> = results.iter().map(|r| render(None, r)).collect();
    assert_eq!(lines, vec!["?:2:5:foo bar"]);
}

#[test]
fn malformed_line_is_previewed_by_the_placeholder() {
    let ctx = SearchCtx::literal(b"hit", false).unwrap();
    let results = ctx.search(b"ok hit\n\xff hit\n", false).unwrap();
    let lines: Vec<String> = results.iter().map(|r| render(Some("f.txt"), r)).collect();
    assert_eq!(lines, vec!["f.txt:1:4:ok hit", "f.txt:2:3:<invalid UTF-8>"]);
}

#[test]
fn whole_word_option_reaches_the_matcher() {
    let whole = Options { read_binary: false, case_sensitive: true, unicode: false, whole_words: true };
    let ctx = SearchCtx::new("cat", &whole).unwrap();
    let results = ctx.search(b"concatenate cat scatter", false).unwrap();
    assert_eq!(results.len(), 1);
    assert_eq!(results[0].position, Position { row: 1, col: 13 });
}

#[test]
fn case_option_reaches_the_matcher() {
    let folded = Options { read_binary: false, case_sensitive: false, unicode: false, whole_words: false };
    let exact = Options { read_binary: false, case_sensitive: true, unicode: false, whole_words: false };
    for text in ["cat", "CAT", "CaT"] {
        assert_eq!(SearchCtx::new("Cat", &folded).unwrap().search(text.as_bytes(), false).unwrap().len(), 1);
        assert_eq!(SearchCtx::new("Cat", &exact).unwrap().search(text.as_bytes(), false).unwrap().len(), 0);
    }
}

#[test]
fn malformed_expression_is_refused_before_any_scan() {
    assert!(matches!(SearchCtx::new("a(", &options(false)), Err(CompileError::Rejected(_))));
}

#[test]
fn empty_literal_is_refused() {
    assert!(matches!(SearchCtx::literal(b"", false), Err(CompileError::Empty)));
}

#[test]
fn both_matchers_find_the_same_plain_word() {
    let text = b"abc abc\nxabcx";
    let literal = Matcher::Literal(Literal::compile(b"abc").unwrap());
    let ctx = SearchCtx::new("abc", &options(false)).unwrap();
    let by_literal = literal.find_starts(text).unwrap();
    let by_automaton: Vec<usize> = ctx
        .search(text, true)
        .unwrap()
        .iter()
        .map(|r| r.position)
        .zip(by_literal.iter())
        .map(|(_, s)| *s)
        .collect();
    assert_eq!(by_literal, vec![0, 4, 9]);
    assert_eq!(by_automaton, vec![0, 4, 9]);
}

#[test]
fn resolve_locates_and_previews_given_offsets() {
    let text = b"hello world\nfoo bar\n";
    let results = resolve(text, &[0, 16], false);
    assert_eq!(results.len(), 2);
    assert_eq!(results[0].position, Position { row: 1, col: 1 });
    assert_eq!(results[0].preview.as_deref(), Some("hello world"));
    assert_eq!(results[1].position, Position { row: 2, col: 5 });
    assert_eq!(results[1].preview.as_deref(), Some("foo bar"));
}

#[test]
fn resolve_gives_the_same_under_either_strategy() {
    // Many matches in a small text build the table, one match does not.
    let text = b"aaaa\naaaa\naaaa\n";
    let many: Vec<usize> = (0..text.len()).collect();
    let all = resolve(text, &many, false);
    for offset in 0..text.len() {
        let one = resolve(text, &[offset], false);
        assert_eq!(one[0].position, all[offset].position);
        assert_eq!(one[0].preview, all[offset].preview);
    }
}

#[test]
fn starts_are_read_off_the_spans() {
    let spans = vec![MatchSpan { start: 1, end: 3 }, MatchSpan { start: 2, end: 4 }];
    assert_eq!(starts_of(&spans), vec![1, 2]);
}

#[test]
fn render_writes_one_result_line() {
    let result = SearchResult { position: Position { row: 7, col: 3 }, preview: Some("text".to_string()), is_binary: false };
    assert_eq!(render(Some("p"), &result), "p:7:3:text");
    let binary = SearchResult { position: Position { row: 1, col: 1 }, preview: None, is_binary: true };
    assert_eq!(render(Some("p"), &binary), "p:1:1:[binary]");
}

#[test]
fn file_goes_from_classify_to_emitted() {
    let mut state = FileState::Classify;
    state = advance(state, FileEvent::Classified { kept: Some(false) });
    assert_eq!(state, FileState::Load { is_binary: false });
    state = advance(state, FileEvent::Loaded);
    assert_eq!(state, FileState::Scan { is_binary: false });
    state = advance(state, FileEvent::Scanned);
    assert_eq!(state, FileState::Emitted);
}

#[test]
fn file_that_the_filter_drops_is_skipped() {
    let ctx = SearchCtx::new("x", &options(false)).unwrap();
    let kept = ctx.filter(Some(b"bin"));
    assert_eq!(advance(FileState::Classify, FileEvent::Classified { kept }), FileState::Skipped);
    let ctx = SearchCtx::new("x", &options(true)).unwrap();
    let kept = ctx.filter(Some(b"bin"));
    assert_eq!(
        advance(FileState::Classify, FileEvent::Classified { kept }),
        FileState::Load { is_binary: true }
    );
}

#[test]
fn load_failure_skips_the_file() {
    assert_eq!(advance(FileState::Load { is_binary: false }, FileEvent::LoadFailed), FileState::Skipped);
}

#[test]
fn scan_failure_skips_the_file() {
    assert_eq!(advance(FileState::Scan { is_binary: false }, FileEvent::ScanFailed), FileState::Skipped);
}

#[test]
fn final_states_are_never_left() {
    let events = [
        FileEvent::Classified { kept: Some(false) },
        FileEvent::Classified { kept: Some(true) },
        FileEvent::Classified { kept: None },
        FileEvent::Loaded,
        FileEvent::LoadFailed,
        FileEvent::Scanned,
        FileEvent::ScanFailed,
    ];
    for event in events {
        assert_eq!(advance(FileState::Emitted, event), FileState::Emitted);
        assert_eq!(advance(FileState::Skipped, event), FileState::Skipped);
    }
}

#[test]
fn event_that_does_not_fit_leaves_the_state() {
    assert_eq!(advance(FileState::Classify, FileEvent::Loaded), FileState::Classify);
    assert_eq!(
        advance(FileState::Load { is_binary: false }, FileEvent::Scanned),
        FileState::Load { is_binary: false }
    );
}
