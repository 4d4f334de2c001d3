//! Editor-facing helpers: resolving a line/character selection to the
//! selected text, and reading the action request ("generate" or "refactor")
//! out of a selected comment. The transport around them lives in the
//! frontend; these are the parts that decide.

use vstd::prelude::*;

use crate::text::find_first;
use crate::text::find_sub;

verus! {

/// A selection inside a document, by zero-based line and character
/// positions.
pub struct TextRange {
    pub start_line: u32,
    pub start_character: u32,
    pub end_line: u32,
    pub end_character: u32,
}

/// What an editor selection asks for.
pub enum Action {
    Generate,
    Refactor,
}

/// An action request read from a selected comment: the action and the
/// description that follows its marker.
pub struct ParsedAction<'a> {
    pub action: Action,
    pub description: &'a str,
}

/// The first character position at which `line` newlines precede the text,
/// scanning from position `i` with `nl` newlines already seen.
pub open spec fn first_at_line_from(s: Seq<char>, line: int, i: int, nl: int) -> Option<int>
    decreases s.len() - i,
{
    if i < 0 || i >= s.len() {
        None
    } else if nl == line {
        Some(i)
    } else {
        first_at_line_from(s, line, i + 1, nl + if s[i] == '\n' {
            1int
        } else {
            0int
        })
    }
}

/// The character bounds a selection resolves to: the first character of the
/// start line plus the start character offset, and likewise for the end; a
/// line beyond the text resolves to the text's start or end respectively.
pub open spec fn range_bounds(s: Seq<char>, r: TextRange) -> (int, int) {
    let st = match first_at_line_from(s, r.start_line as int, 0, 0) {
        Some(i) => i + r.start_character,
        None => 0,
    };
    let en = match first_at_line_from(s, r.end_line as int, 0, 0) {
        Some(i) => i + r.end_character,
        None => s.len() as int,
    };
    (st, en)
}

/// The bounds clamped into the text: the end is capped at the text's
/// length, and the start at the end.
pub open spec fn clamped_bounds(s: Seq<char>, r: TextRange) -> (int, int) {
    let raw = range_bounds(s, r);
    let en = if raw.1 > s.len() {
        s.len() as int
    } else {
        raw.1
    };
    let st = if raw.0 > en {
        en
    } else {
        raw.0
    };
    (st, en)
}

/// The text a selection covers, by its clamped character bounds.
pub fn string_range_index<'a>(s: &'a str, r: &TextRange) -> (t: &'a str)
    ensures
        t@ == s@.subrange(clamped_bounds(s@, *r).0, clamped_bounds(s@, *r).1),
{
    let n = s.unicode_len();
    let mut start_idx: Option<usize> = None;
    let mut end_idx: Option<usize> = None;
    let mut nl: usize = 0;
    let mut i: usize = 0;
    while i < n
        invariant
            n == s@.len(),
            i <= n,
            nl <= i,
            match start_idx {
                Some(v) => v < n && first_at_line_from(s@, r.start_line as int, 0, 0) == Some(
                    v as int,
                ),
                None => first_at_line_from(s@, r.start_line as int, 0, 0) == first_at_line_from(
                    s@,
                    r.start_line as int,
                    i as int,
                    nl as int,
                ),
            },
            match end_idx {
                Some(v) => v < n && first_at_line_from(s@, r.end_line as int, 0, 0) == Some(
                    v as int,
                ),
                None => first_at_line_from(s@, r.end_line as int, 0, 0) == first_at_line_from(
                    s@,
                    r.end_line as int,
                    i as int,
                    nl as int,
                ),
            },
        decreases n - i,
    {
        if start_idx.is_none() && nl == r.start_line as usize {
            start_idx = Some(i);
        }
        if end_idx.is_none() && nl == r.end_line as usize {
            end_idx = Some(i);
        }
        if s.get_char(i) == '\n' {
            nl += 1;
        }
        i += 1;
    }
    let en_raw: usize = match end_idx {
        Some(v) => {
            let ch = r.end_character as usize;
            if ch > n - v {
                n
            } else {
                v + ch
            }
        },
        None => n,
    };
    let en: usize = if en_raw > n {
        n
    } else {
        en_raw
    };
    let st: usize = match start_idx {
        Some(v) => {
            let ch = r.start_character as usize;
            if ch > n - v {
                n
            } else {
                v + ch
            }
        },
        None => 0,
    };
    let st: usize = if st > en {
        en
    } else {
        st
    };
    s.substring_char(st, en)
}

/// The character position of the last newline in the text, if any.
pub open spec fn last_nl_at(s: Seq<char>, i: int) -> Option<int>
    decreases i,
{
    if i <= 0 || i > s.len() {
        None
    } else if s[i - 1] == '\n' {
        Some(i - 1)
    } else {
        last_nl_at(s, i - 1)
    }
}

/// The selected comment up to its last newline; a selection without a
/// newline is taken whole.
pub open spec fn upto_newline(s: Seq<char>) -> Seq<char> {
    match last_nl_at(s, s.len() as int) {
        Some(i) => s.take(i),
        None => s,
    }
}

/// The action a selected comment asks for: the text after the first
/// "generate: " marker, or failing that the first "refactor: " marker,
/// within the comment up to its last newline; no marker means no action.
pub open spec fn action_of(s: Seq<char>) -> Option<(Action, Seq<char>)> {
    let u = upto_newline(s);
    match find_first(u, "generate: "@, 0) {
        Some(i) => Some((Action::Generate, u.skip(i + "generate: "@.len()))),
        None => match find_first(u, "refactor: "@, 0) {
            Some(i) => Some((Action::Refactor, u.skip(i + "refactor: "@.len()))),
            None => None,
        },
    }
}

impl<'a> ParsedAction<'a> {
    /// Reads the action request out of a selected comment, as
    /// [`action_of`] states.
    pub fn new(comment: &'a str) -> (r: Option<ParsedAction<'a>>)
        ensures
            match r {
                Some(pa) => action_of(comment@) matches Some(a) && a.0 == pa.action && a.1
                    == pa.description@,
                None => action_of(comment@) is None,
            },
    {
        let n = comment.unicode_len();
        let mut cut: Option<usize> = None;
        let mut i: usize = n;
        while i > 0 && cut.is_none()
            invariant
                n == comment@.len(),
                i <= n,
                match cut {
                    Some(c) => c < n && last_nl_at(comment@, n as int) == Some(c as int),
                    None => last_nl_at(comment@, n as int) == last_nl_at(comment@, i as int),
                },
            decreases i + (if cut is None { 1int } else { 0int }),
        {
            if comment.get_char(i - 1) == '\n' {
                cut = Some(i - 1);
            } else {
                i -= 1;
            }
        }
        let upto = match cut {
            Some(c) => comment.substring_char(0, c),
            None => comment,
        };
        proof {
            assert(upto@ =~= upto_newline(comment@));
        }
        let glen = "generate: ".unicode_len();
        if let Some(j) = find_sub(upto, "generate: ") {
            let description = upto.substring_char(j + glen, upto.unicode_len());
            proof {
                assert(description@ =~= upto_newline(comment@).skip(j + "generate: "@.len()));
            }
            return Some(ParsedAction { action: Action::Generate, description });
        }
        let rlen = "refactor: ".unicode_len();
        if let Some(j) = find_sub(upto, "refactor: ") {
            let description = upto.substring_char(j + rlen, upto.unicode_len());
            proof {
                assert(description@ =~= upto_newline(comment@).skip(j + "refactor: "@.len()));
            }
            return Some(ParsedAction { action: Action::Refactor, description });
        }
        None
    }
}

} // verus!
