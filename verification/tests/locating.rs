use rgrep::lines::{
    from_precomputed, locate_direct, log2_floor, precompute, should_precompute, LineIndex, Locator,
    Position,
};

const TEXTS: [&str; 7] = [
    "",
    "\n",
    "abc",
    "abc\n",
    "hello world\nfoo bar\n",
    "\n\n\nx\n\ny",
    "one\r\ntwo\r\nthree",
];

#[test]
fn table_of_empty_text_holds_offset_zero() {
    assert_eq!(precompute(b""), vec![0]);
}

#[test]
fn table_holds_the_offset_behind_each_terminator() {
    assert_eq!(precompute(b"hello world\nfoo bar\n"), vec![0, 12, 20]);
    assert_eq!(precompute(b"\n\n"), vec![0, 1, 2]);
    assert_eq!(precompute(b"no terminator"), vec![0]);
}

#[test]
fn carriage_return_is_no_terminator() {
    assert_eq!(precompute(b"a\r\nb\rc"), vec![0, 3]);
    assert_eq!(locate_direct(b"a\r\nb\rc", 5), Position { row: 2, col: 3 });
}

#[test]
fn table_lookup_gives_row_and_column() {
    let starts = precompute(b"hello world\nfoo bar\n");
    assert_eq!(from_precomputed(&starts, 0), Position { row: 1, col: 1 });
    assert_eq!(from_precomputed(&starts, 6), Position { row: 1, col: 7 });
    assert_eq!(from_precomputed(&starts, 11), Position { row: 1, col: 12 });
    assert_eq!(from_precomputed(&starts, 12), Position { row: 2, col: 1 });
    assert_eq!(from_precomputed(&starts, 16), Position { row: 2, col: 5 });
    assert_eq!(from_precomputed(&starts, 20), Position { row: 3, col: 1 });
}

#[test]
fn direct_lookup_gives_row_and_column() {
    let text = b"hello world\nfoo bar\n";
    assert_eq!(locate_direct(text, 0), Position { row: 1, col: 1 });
    assert_eq!(locate_direct(text, 11), Position { row: 1, col: 12 });
    assert_eq!(locate_direct(text, 12), Position { row: 2, col: 1 });
    assert_eq!(locate_direct(text, 16), Position { row: 2, col: 5 });
    assert_eq!(locate_direct(text, 20), Position { row: 3, col: 1 });
}

#[test]
fn both_strategies_agree_on_every_offset() {
    for text in TEXTS {
        let bytes = text.as_bytes();
        let starts = precompute(bytes);
        let index = LineIndex::build(bytes);
        for offset in 0..=bytes.len() {
            let direct = locate_direct(bytes, offset);
            assert_eq!(from_precomputed(&starts, offset), direct);
            assert_eq!(index.locate(offset), direct);
        }
    }
}

#[test]
fn both_locators_agree_on_positions_and_line_ends() {
    for text in TEXTS {
        let bytes = text.as_bytes();
        let table = Locator::Precomputed(LineIndex::build(bytes));
        let direct = Locator::Direct;
        for offset in 0..=bytes.len() {
            let p = table.locate(bytes, offset);
            assert_eq!(p, direct.locate(bytes, offset));
            assert_eq!(table.line_end(bytes, offset, p), direct.line_end(bytes, offset, p));
        }
    }
}

#[test]
fn every_line_start_is_column_one_of_its_row() {
    for text in TEXTS {
        let bytes = text.as_bytes();
        let starts = precompute(bytes);
        for (line, start) in starts.iter().enumerate() {
            assert_eq!(locate_direct(bytes, *start), Position { row: line + 1, col: 1 });
            assert_eq!(from_precomputed(&starts, *start), Position { row: line + 1, col: 1 });
        }
    }
}

#[test]
fn line_index_knows_its_lines() {
    let index = LineIndex::build(b"a\nbb\nccc");
    assert_eq!(index.line_count(), 3);
    assert_eq!(index.line_start(0), 0);
    assert_eq!(index.line_start(1), 2);
    assert_eq!(index.line_start(2), 5);
    assert_eq!(LineIndex::build(b"").line_count(), 1);
}

#[test]
fn line_ends_at_its_terminator() {
    let text = b"hello world\nfoo bar\n";
    let locator = Locator::Direct;
    let p = locator.locate(text, 3);
    assert_eq!(locator.line_end(text, 3, p), 11);
    let q = locator.locate(text, 14);
    assert_eq!(locator.line_end(text, 14, q), 19);
}

#[test]
fn last_line_without_terminator_ends_with_the_text() {
    let text = b"first\nlast line";
    for locator in [Locator::Direct, Locator::Precomputed(LineIndex::build(text))] {
        let p = locator.locate(text, 8);
        assert_eq!(locator.line_end(text, 8, p), text.len());
    }
}

#[test]
fn long_last_line_without_terminator_ends_with_the_window() {
    let mut text = b"first\n".to_vec();
    text.extend(std::iter::repeat(b'x').take(300));
    for locator in [Locator::Direct, Locator::Precomputed(LineIndex::build(&text))] {
        let p = locator.locate(&text, 200);
        assert_eq!(locator.line_end(&text, 200, p), 6 + 125);
    }
}

#[test]
fn long_line_with_terminator_ends_at_the_terminator() {
    let mut text: Vec<u8> = std::iter::repeat(b'x').take(300).collect();
    text.push(b'\n');
    for locator in [Locator::Direct, Locator::Precomputed(LineIndex::build(&text))] {
        let p = locator.locate(&text, 10);
        assert_eq!(locator.line_end(&text, 10, p), 300);
    }
}

#[test]
fn logarithm_is_rounded_down() {
    assert_eq!(log2_floor(0), 0);
    assert_eq!(log2_floor(1), 0);
    assert_eq!(log2_floor(2), 1);
    assert_eq!(log2_floor(3), 1);
    assert_eq!(log2_floor(1024), 10);
    assert_eq!(log2_floor(1025), 10);
    assert_eq!(log2_floor(usize::MAX), (usize::BITS - 1) as usize);
}

#[test]
fn table_is_built_when_matches_exceed_the_threshold() {
    // 65536 / 64 / 16 = 64
    assert!(!should_precompute(65536, 64));
    assert!(should_precompute(65536, 65));
    assert!(!should_precompute(65536, 0));
    // a text of one byte: 1 / 64 / 1 = 0
    assert!(should_precompute(1, 1));
    assert!(!should_precompute(1, 0));
}

#[test]
fn locator_is_selected_by_the_number_of_matches() {
    let text = vec![b'a'; 65536];
    assert!(matches!(Locator::select(&text, 64), Locator::Direct));
    assert!(matches!(Locator::select(&text, 65), Locator::Precomputed(_)));
}
