//! Result lines: `<path-or-placeholder>:<row>:<col>:<preview-or-marker>`.

use vstd::prelude::*;
use vstd::string::StringExecFns;

verus! {

/// The digit `d` as a character; `d` is below 10.
pub open spec fn digit_char(d: nat) -> char {
    if d == 0 {
        '0'
    } else if d == 1 {
        '1'
    } else if d == 2 {
        '2'
    } else if d == 3 {
        '3'
    } else if d == 4 {
        '4'
    } else if d == 5 {
        '5'
    } else if d == 6 {
        '6'
    } else if d == 7 {
        '7'
    } else if d == 8 {
        '8'
    } else {
        '9'
    }
}

/// `n` in decimal, without leading zeros.
pub open spec fn decimal(n: nat) -> Seq<char>
    decreases n,
{
    if n < 10 {
        seq![digit_char(n)]
    } else {
        decimal(n / 10).push(digit_char(n % 10))
    }
}

/// What stands for the path of a text that has none.
pub open spec fn path_placeholder() -> Seq<char> {
    "?"@
}

/// What stands for the preview of a match in a binary file.
pub open spec fn binary_marker() -> Seq<char> {
    "[binary]"@
}

/// The location in front of a result line: path, row and column, each
/// followed by a colon.
pub open spec fn location_text(path: Option<Seq<char>>, row: nat, col: nat) -> Seq<char> {
    let shown = match path {
        Some(p) => p,
        None => path_placeholder(),
    };
    shown + ":"@ + decimal(row) + ":"@ + decimal(col) + ":"@
}

/// A whole result line.
pub open spec fn line_text(
    path: Option<Seq<char>>,
    row: nat,
    col: nat,
    preview: Option<Seq<char>>,
) -> Seq<char> {
    location_text(path, row, col) + match preview {
        Some(text) => text,
        None => binary_marker(),
    }
}

/// The digit `d` as text.
fn digit_text(d: usize) -> (text: &'static str)
    requires
        d < 10,
    ensures
        text@ == seq![digit_char(d as nat)],
{
    proof {
        reveal_strlit("0");
        reveal_strlit("1");
        reveal_strlit("2");
        reveal_strlit("3");
        reveal_strlit("4");
        reveal_strlit("5");
        reveal_strlit("6");
        reveal_strlit("7");
        reveal_strlit("8");
        reveal_strlit("9");
    }
    let text = if d == 0 {
        "0"
    } else if d == 1 {
        "1"
    } else if d == 2 {
        "2"
    } else if d == 3 {
        "3"
    } else if d == 4 {
        "4"
    } else if d == 5 {
        "5"
    } else if d == 6 {
        "6"
    } else if d == 7 {
        "7"
    } else if d == 8 {
        "8"
    } else {
        "9"
    };
    assert(text@ =~= seq![digit_char(d as nat)]);
    text
}

/// Appends `n` in decimal to `out`.
pub fn push_decimal(out: &mut String, n: usize)
    ensures
        final(out)@ == old(out)@ + decimal(n as nat),
    decreases n,
{
    if n >= 10 {
        push_decimal(out, n / 10);
    }
    out.append(digit_text(n % 10));
    proof {
        if n >= 10 {
            assert(old(out)@ + decimal((n / 10) as nat) + seq![digit_char((n % 10) as nat)] =~= old(
                out,
            )@ + decimal(n as nat));
        }
    }
}

/// Renders the location in front of a result line. A text without a path
/// gets the placeholder.
pub fn format_location(path: Option<&str>, row: usize, col: usize) -> (text: String)
    ensures
        text@ == location_text(
            match path {
                Some(p) => Some(p@),
                None => None,
            },
            row as nat,
            col as nat,
        ),
{
    let mut text = match path {
        Some(p) => String::from_str(p),
        None => String::from_str("?"),
    };
    text.append(":");
    push_decimal(&mut text, row);
    text.append(":");
    push_decimal(&mut text, col);
    text.append(":");
    text
}

/// Renders a whole result line. A match without preview gets the marker for
/// binary files.
pub fn format_line(path: Option<&str>, row: usize, col: usize, preview: Option<&str>) -> (text:
    String)
    ensures
        text@ == line_text(
            match path {
                Some(p) => Some(p@),
                None => None,
            },
            row as nat,
            col as nat,
            match preview {
                Some(p) => Some(p@),
                None => None,
            },
        ),
{
    let mut text = format_location(path, row, col);
    match preview {
        Some(shown) => text.append(shown),
        None => text.append("[binary]"),
    }
    text
}

} // verus!
