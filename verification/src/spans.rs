//! Source-span heuristics: where does a definition that starts on a given
//! line end? Curly braces are balanced; string/char literals and `//` line
//! comments are skipped; a `;` before any `{` ends a block-less item.

use vstd::prelude::*;
use crate::text::chars_of;

verus! {

/// Upper bound on how far the scan reaches past the start line.
pub const MAX_SCAN_LINES: usize = 400;

/// What the scan of one line concludes.
pub enum LineScan {
    /// The definition ends on this line.
    Ends,
    /// The scan goes on with this brace depth and "a block was opened" flag.
    Continue { depth: int, opened: bool },
}

/// Scans `line` from position `i`, inside the literal opened by `quote` (if
/// any), with `prev` the previous character.
pub open spec fn scan_from(
    line: Seq<char>,
    i: int,
    quote: Option<char>,
    prev: char,
    depth: int,
    opened: bool,
) -> LineScan
    decreases line.len() - i,
{
    if i < 0 || i >= line.len() {
        LineScan::Continue { depth, opened }
    } else {
        let c = line[i];
        match quote {
            Some(q) => {
                let next_quote = if c == q && prev != '\\' {
                    None
                } else {
                    Some(q)
                };
                scan_from(line, i + 1, next_quote, c, depth, opened)
            },
            None => {
                if c == '/' && i + 1 < line.len() && line[i + 1] == '/' {
                    LineScan::Continue { depth, opened }
                } else if c == '"' || c == '\'' {
                    scan_from(line, i + 1, Some(c), c, depth, opened)
                } else if c == '{' {
                    scan_from(line, i + 1, None, c, depth + 1, true)
                } else if c == '}' && opened {
                    if depth - 1 <= 0 {
                        LineScan::Ends
                    } else {
                        scan_from(line, i + 1, None, c, depth - 1, opened)
                    }
                } else if c == ';' && !opened {
                    LineScan::Ends
                } else {
                    scan_from(line, i + 1, None, c, depth, opened)
                }
            },
        }
    }
}

/// Scans the lines `idx..=scan_end` in order; the first line on which the
/// definition ends is the answer, else the window end when a block was
/// opened, else the start line.
pub open spec fn scan_lines(
    lines: Seq<Seq<char>>,
    idx: int,
    scan_end: int,
    start: int,
    depth: int,
    opened: bool,
) -> int
    decreases scan_end + 1 - idx,
{
    if idx > scan_end || idx < 0 || idx >= lines.len() {
        if opened {
            scan_end
        } else {
            start
        }
    } else {
        match scan_from(lines[idx], 0, None, '\0', depth, opened) {
            LineScan::Ends => idx,
            LineScan::Continue { depth: d, opened: o } => scan_lines(
                lines,
                idx + 1,
                scan_end,
                start,
                d,
                o,
            ),
        }
    }
}

/// Last line index the scan may look at.
pub open spec fn scan_end_spec(n_lines: int, start: int) -> int {
    let last = if n_lines > 0 {
        n_lines - 1
    } else {
        0
    };
    if last < start + MAX_SCAN_LINES {
        last
    } else {
        start + MAX_SCAN_LINES
    }
}

/// The line on which the definition starting at `start` ends.
pub open spec fn definition_end_spec(lines: Seq<Seq<char>>, start: int) -> int {
    scan_lines(lines, start, scan_end_spec(lines.len() as int, start), start, 0, false)
}

/// Scans one line; `None` when the definition ends on it, else the brace
/// depth and "opened" flag to carry to the next line.
fn scan_line(line: &str, depth: i128, opened: bool) -> (r: Option<(i128, bool)>)
    requires
        0 <= depth <= 0x1_0000_0000_0000_0000 * 402,
    ensures
        match scan_from(line@, 0, None, '\0', depth as int, opened) {
            LineScan::Ends => r is None,
            LineScan::Continue { depth: d, opened: o } => r matches Some((d2, o2)) && d2 == d && o2
                == o && 0 <= d2 <= depth + usize::MAX,
        },
{
    let chars = chars_of(line);
    let n = chars.len();
    let mut in_str: Option<char> = None;
    let mut prev: char = '\0';
    let mut depth_now: i128 = depth;
    let mut opened_now = opened;
    let mut i: usize = 0;
    while i < n
        invariant
            n == chars@.len(),
            chars@ == line@,
            i <= n,
            0 <= depth_now <= depth + i,
            0 <= depth <= 0x1_0000_0000_0000_0000 * 402,
            n <= usize::MAX,
            scan_from(line@, i as int, in_str, prev, depth_now as int, opened_now) == scan_from(
                line@,
                0,
                None,
                '\0',
                depth as int,
                opened,
            ),
        decreases n - i,
    {
        let c = chars[i];
        if let Some(q) = in_str {
            if c == q && prev != '\\' {
                in_str = None;
            }
            prev = c;
            i = i + 1;
            continue;
        }
        if c == '/' && i + 1 < n && chars[i + 1] == '/' {
            return Some((depth_now, opened_now));
        }
        if c == '"' || c == '\'' {
            in_str = Some(c);
        } else if c == '{' {
            depth_now = depth_now + 1;
            opened_now = true;
        } else if c == '}' && opened_now {
            depth_now = depth_now - 1;
            if depth_now <= 0 {
                return None;
            }
        } else if c == ';' && !opened_now {
            return None;
        }
        prev = c;
        i = i + 1;
    }
    Some((depth_now, opened_now))
}

/// Scan forward from `start_idx` (0-based index into `lines`) and return the
/// 0-based index of the line on which the definition ends, by balancing
/// curly braces.
///
/// Only `{}` are balanced; string/char literals and `//` line comments are
/// skipped. A `;` before any `{` terminates a block-less item. Without a
/// clean close within the scan window, the window end is returned when a
/// block was opened, else the start line.
pub fn definition_end_idx(lines: &[&str], start_idx: usize) -> (r: usize)
    requires
        start_idx + MAX_SCAN_LINES <= usize::MAX,
    ensures
        r as int == definition_end_spec(lines@.map_values(|l: &str| l@), start_idx as int),
{
    let ghost views = lines@.map_values(|l: &str| l@);
    let last = if lines.len() > 0 {
        lines.len() - 1
    } else {
        0
    };
    let scan_end = if last < start_idx + MAX_SCAN_LINES {
        last
    } else {
        start_idx + MAX_SCAN_LINES
    };
    let mut depth: i128 = 0;
    let mut opened = false;
    let mut idx = start_idx;
    while idx <= scan_end && idx < lines.len()
        invariant
            views == lines@.map_values(|l: &str| l@),
            scan_end as int == scan_end_spec(lines@.len() as int, start_idx as int),
            start_idx <= idx,
            idx == start_idx || idx <= scan_end + 1,
            scan_end <= start_idx + MAX_SCAN_LINES,
            0 <= depth <= 0x1_0000_0000_0000_0000 * (idx - start_idx),
            scan_lines(views, idx as int, scan_end as int, start_idx as int, depth as int, opened)
                == definition_end_spec(views, start_idx as int),
        decreases scan_end + 1 - idx,
    {
        let line = lines[idx];
        assert(views[idx as int] == line@);
        match scan_line(line, depth, opened) {
            None => {
                return idx;
            },
            Some((d, o)) => {
                depth = d;
                opened = o;
            },
        }
        idx = idx + 1;
    }
    if opened {
        scan_end
    } else {
        start_idx
    }
}

/// The scan answers a line inside `[start, scan_end]`, or the start line.
proof fn lemma_scan_lines_in_window(
    lines: Seq<Seq<char>>,
    idx: int,
    scan_end: int,
    start: int,
    depth: int,
    opened: bool,
)
    requires
        start <= idx,
        opened ==> start <= scan_end,
    ensures
        scan_lines(lines, idx, scan_end, start, depth, opened) == start || (start <= scan_lines(
            lines,
            idx,
            scan_end,
            start,
            depth,
            opened,
        ) <= scan_end),
    decreases scan_end + 1 - idx,
{
    if idx > scan_end || idx < 0 || idx >= lines.len() {
    } else {
        match scan_from(lines[idx], 0, None, '\0', depth, opened) {
            LineScan::Ends => {},
            LineScan::Continue { depth: d, opened: o } => {
                lemma_scan_lines_in_window(lines, idx + 1, scan_end, start, d, o);
            },
        }
    }
}

/// The end of a definition is never before its start and never past the
/// scan window: at most `MAX_SCAN_LINES` lines after the start, and inside
/// the file unless it is the start line itself.
pub proof fn lemma_definition_end_in_window(lines: Seq<Seq<char>>, start: int)
    requires
        0 <= start,
    ensures
        start <= definition_end_spec(lines, start) <= start + MAX_SCAN_LINES,
        definition_end_spec(lines, start) == start || definition_end_spec(lines, start)
            < lines.len(),
{
    lemma_scan_lines_in_window(lines, start, scan_end_spec(lines.len() as int, start), start, 0, false);
}

} // verus!
