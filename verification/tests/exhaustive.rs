use rgrep::kmp::{construct_lps, Literal};
use rgrep::lines::{locate_direct, Position};
use rgrep::pipeline::{Matcher, SearchCtx};

const ALPHABET: [u8; 3] = [b'a', b'b', b'\n'];

/// All byte strings over the alphabet with the given length.
fn words(length: usize) -> Vec<Vec<u8>> {
    let mut all = vec![Vec::new()];
    for _ in 0..length {
        let mut longer = Vec::new();
        for word in &all {
            for byte in ALPHABET {
                let mut next = word.clone();
                next.push(byte);
                longer.push(next);
            }
        }
        all = longer;
    }
    all
}

fn naive_starts(needle: &[u8], haystack: &[u8]) -> Vec<usize> {
    (0..haystack.len() + 1)
        .filter(|s| s + needle.len() <= haystack.len() && &haystack[*s..s + needle.len()] == needle)
        .collect()
}

fn naive_table(pattern: &[u8]) -> Vec<usize> {
    (1..pattern.len() + 1)
        .map(|len| {
            (0..len).rev().find(|k| pattern[..*k] == pattern[len - k..len]).unwrap()
        })
        .collect()
}

#[test]
fn failure_table_is_the_table_of_longest_borders() {
    for length in 0..7 {
        for pattern in words(length) {
            assert_eq!(construct_lps(&pattern), naive_table(&pattern), "{:?}", pattern);
        }
    }
}

#[test]
fn literal_scan_finds_exactly_the_occurrences() {
    for needle_length in 1..4 {
        for needle in words(needle_length) {
            let literal = Literal::compile(&needle).unwrap();
            for haystack_length in 0..7 {
                for haystack in words(haystack_length) {
                    let found: Vec<usize> =
                        literal.find_all(&haystack).iter().map(|span| span.start).collect();
                    assert_eq!(found, naive_starts(&needle, &haystack), "{:?} in {:?}", needle, haystack);
                    for span in literal.find_all(&haystack) {
                        assert_eq!(span.end, span.start + needle.len());
                    }
                }
            }
        }
    }
}

#[test]
fn inline_search_finds_the_positions_of_the_occurrences_within_lines() {
    for needle_length in 1..4 {
        for needle in words(needle_length) {
            let literal = Literal::compile(&needle).unwrap();
            for haystack_length in 0..7 {
                for haystack in words(haystack_length) {
                    let expected: Vec<Position> = if needle.contains(&b'\n') {
                        Vec::new()
                    } else {
                        naive_starts(&needle, &haystack)
                            .iter()
                            .map(|s| locate_direct(&haystack, *s))
                            .collect()
                    };
                    assert_eq!(literal.search(&haystack), expected, "{:?} in {:?}", needle, haystack);
                }
            }
        }
    }
}

#[test]
fn automaton_and_literal_agree_on_plain_words_without_self_overlap() {
    // Patterns whose occurrences cannot overlap each other; where they can,
    // the automaton reports fewer.
    for needle in ["ab", "ba", "aab", "abb"] {
        let literal = Matcher::Literal(Literal::compile(needle.as_bytes()).unwrap());
        let options = rgrep::config::Options {
            read_binary: false,
            case_sensitive: true,
            unicode: false,
            whole_words: false,
        };
        let ctx = SearchCtx::new(needle, &options).unwrap();
        for haystack_length in 0..8 {
            for haystack in words(haystack_length) {
                let by_literal = literal.find_starts(&haystack).unwrap();
                let by_automaton: Vec<Position> =
                    ctx.search(&haystack, true).unwrap().iter().map(|r| r.position).collect();
                let expected: Vec<Position> =
                    by_literal.iter().map(|s| locate_direct(&haystack, *s)).collect();
                assert_eq!(by_automaton, expected, "{:?} in {:?}", needle, haystack);
            }
        }
    }
}
