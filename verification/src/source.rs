//! Finding the lines around a span of bytes, to show where a decoding error is.
use vstd::prelude::*;
use std::collections::VecDeque;

verus! {

/// What is known at each byte while the lines around a span are looked for.
pub struct Scan {
    /// The byte at which scanning goes on.
    pub offset: usize,
    /// The line breaks seen.
    pub line_count: usize,
    /// The line that the shown bytes start at.
    pub start_line: usize,
    /// The column that the span starts at.
    pub start_column: usize,
    /// The starts of the lines kept before the span.
    pub before: Seq<usize>,
    /// The start of the line being scanned.
    pub line_start: usize,
    /// The lines seen after the span.
    pub end_lines: usize,
    /// Whether the end of the span has been passed.
    pub post_span: bool,
    /// Whether a line break has been seen after the span.
    pub got_newline: bool,
}

/// `a - b`, or 0 when `b` is larger.
pub open spec fn sat_sub(a: int, b: int) -> int {
    if a >= b {
        a - b
    } else {
        0
    }
}

/// Where scanning starts.
pub open spec fn scan_start() -> Scan {
    Scan {
        offset: 0,
        line_count: 0,
        start_line: 0,
        start_column: 0,
        before: Seq::empty(),
        line_start: 0,
        end_lines: 0,
        post_span: false,
        got_newline: false,
    }
}

/// One byte of scanning, for the span of `len` bytes at `at`, keeping `nb` lines
/// before it and `na` after it: the next state, and whether scanning stops.
/// A line break is `\n`, `\r`, or `\r\n` (taken as one).
pub open spec fn scan_step(input: Seq<u8>, at: int, len: int, nb: int, na: int, st: Scan) -> (Scan, bool) {
    let c = input[st.offset as int];
    let first = if c == 13 || c == 10 {
        let lc = (st.line_count + 1) as usize;
        let off: usize = if c == 13 && st.offset + 1 < input.len() && input[st.offset + 1] == 10 {
            (st.offset + 1) as usize
        } else {
            st.offset
        };
        if off < at {
            let b = st.before.push(st.line_start);
            let more = b.len() > nb;
            (
                Scan {
                    offset: off,
                    line_count: lc,
                    start_column: 0,
                    before: if more { b.drop_first() } else { b },
                    start_line: if more { (st.start_line + 1) as usize } else { st.start_line },
                    line_start: (off + 1) as usize,
                    ..st
                },
                false,
            )
        } else if off >= at + sat_sub(len, 1) && st.post_span {
            let el: usize = if st.got_newline { (st.end_lines + 1) as usize } else { st.end_lines };
            let next = Scan {
                offset: off,
                line_count: lc,
                start_column: 0,
                end_lines: el,
                got_newline: true,
                line_start: (off + 1) as usize,
                ..st
            };
            if el >= na {
                (Scan { offset: (off + 1) as usize, ..next }, true)
            } else {
                (next, false)
            }
        } else {
            (Scan { offset: off, line_count: lc, line_start: (off + 1) as usize, ..st }, false)
        }
    } else if st.offset < at {
        (Scan { start_column: (st.start_column + 1) as usize, ..st }, false)
    } else {
        (st, false)
    };
    if first.1 {
        first
    } else {
        let s1 = first.0;
        if s1.offset >= sat_sub(at + len, 1) {
            let s2 = Scan { post_span: true, ..s1 };
            if s2.end_lines >= na {
                (Scan { offset: (s2.offset + 1) as usize, ..s2 }, true)
            } else {
                (Scan { offset: (s2.offset + 1) as usize, ..s2 }, false)
            }
        } else {
            (Scan { offset: (s1.offset + 1) as usize, ..s1 }, false)
        }
    }
}

/// Scanning from `st` to the end of the input, or until it stops.
pub open spec fn scan(input: Seq<u8>, at: int, len: int, nb: int, na: int, st: Scan) -> Scan
    decreases input.len() - st.offset,
{
    if st.offset >= input.len() {
        st
    } else {
        let (next, stop) = scan_step(input, at, len, nb, na, st);
        if stop || next.offset <= st.offset {
            next
        } else {
            scan(input, at, len, nb, na, next)
        }
    }
}

/// What is shown around a span: the bytes from `start` to `end`, the line and
/// column they start at, the count of line breaks up to their end, and a name.
#[derive(Debug)]
pub struct SpanContents {
    pub start: usize,
    pub end: usize,
    pub line: usize,
    pub column: usize,
    pub line_count: usize,
    pub name: Option<String>,
}

/// What is shown around the span of `len` bytes at `at`, with `nb` lines before it
/// and `na` after it: the start and end of the bytes shown, their line and column,
/// and the count of line breaks; none when the input ends before the span, or when
/// an empty span lies past the bytes scanned (there is then nothing to show).
pub open spec fn spec_context_info(input: Seq<u8>, at: int, len: int, nb: int, na: int) -> Option<
    (int, int, int, int, int),
> {
    let st = scan(input, at, len, nb, na, scan_start());
    if st.offset >= sat_sub(at + len, 1) {
        let start = if st.before.len() > 0 {
            st.before[0] as int
        } else if nb == 0 {
            at
        } else {
            0
        };
        if start <= st.offset {
            Some((start, st.offset as int, st.start_line as int, if nb == 0 {
                st.start_column as int
            } else {
                0
            }, st.line_count as int))
        } else {
            None
        }
    } else {
        None
    }
}

/// The scanning state is bounded by the offset.
pub open spec fn scan_bounded(input: Seq<u8>, st: Scan) -> bool {
    &&& st.offset <= input.len()
    &&& st.line_count <= st.offset
    &&& st.start_line <= st.line_count
    &&& st.start_column <= st.offset
    &&& st.end_lines <= st.line_count
    &&& st.line_start <= st.offset
    &&& forall|i: int| 0 <= i < st.before.len() ==> #[trigger] st.before[i] <= st.offset
}

/// A step keeps the state bounded and moves forward.
proof fn lemma_scan_step(input: Seq<u8>, at: int, len: int, nb: int, na: int, st: Scan)
    requires
        scan_bounded(input, st),
        st.offset < input.len(),
        input.len() <= usize::MAX,
        nb >= 0,
    ensures
        scan_bounded(input, scan_step(input, at, len, nb, na, st).0),
        scan_step(input, at, len, nb, na, st).0.offset > st.offset,
{
    let (next, stop) = scan_step(input, at, len, nb, na, st);
    let c = input[st.offset as int];
    if c == 13 || c == 10 {
        let b = st.before.push(st.line_start);
        assert forall|i: int| 0 <= i < b.len() implies #[trigger] b[i] <= st.offset + 1 by {
            if i < st.before.len() {
                assert(b[i] == st.before[i]);
            }
        }
        if b.len() > nb {
            assert forall|i: int| 0 <= i < b.drop_first().len() implies #[trigger] b.drop_first()[i]
                <= st.offset + 1 by {
                assert(b.drop_first()[i] == b[i + 1]);
            }
        }
    }
}

/// Finds what is shown around the span of `len` bytes at `at` in `input`, with
/// `context_lines_before` lines before it and `context_lines_after` after it; none
/// when the input ends before the span, or when an empty span lies past the bytes
/// scanned.
pub fn context_info(
    input: &[u8],
    at: usize,
    len: usize,
    context_lines_before: usize,
    context_lines_after: usize,
    name: Option<String>,
) -> (r: Option<SpanContents>)
    requires
        at + len <= usize::MAX,
    ensures
        match spec_context_info(input@, at as int, len as int, context_lines_before as int, context_lines_after as int) {
            Some((start, end, line, column, lc)) => r matches Some(c) && c.start == start && c.end == end
                && c.line == line && c.column == column && c.line_count == lc && c.name == name
                && start <= end <= input@.len(),
            None => r is None,
        },
{
    let ghost g_at = at as int;
    let ghost g_len = len as int;
    let ghost nb = context_lines_before as int;
    let ghost na = context_lines_after as int;
    let mut offset: usize = 0;
    let mut line_count: usize = 0;
    let mut start_line: usize = 0;
    let mut start_column: usize = 0;
    let mut before_lines_starts: VecDeque<usize> = VecDeque::new();
    let mut current_line_start: usize = 0;
    let mut end_lines: usize = 0;
    let mut post_span = false;
    let mut post_span_got_newline = false;
    let end_first: usize = if len >= 1 { at + (len - 1) } else { at };
    let end_all: usize = if at + len >= 1 { at + len - 1 } else { 0 };
    let n = input.len();
    loop
        invariant_except_break
            offset <= n,
            scan(input@, g_at, g_len, nb, na, scan_start()) == scan(
                input@,
                g_at,
                g_len,
                nb,
                na,
                Scan {
                    offset,
                    line_count,
                    start_line,
                    start_column,
                    before: before_lines_starts@,
                    line_start: current_line_start,
                    end_lines,
                    post_span,
                    got_newline: post_span_got_newline,
                },
            ),
        invariant
            n == input@.len(),
            n <= usize::MAX,
            end_first == g_at + sat_sub(g_len, 1),
            end_all == sat_sub(g_at + g_len, 1),
            g_at == at,
            g_len == len,
            nb == context_lines_before,
            na == context_lines_after,
            ({
                let st = Scan {
                    offset,
                    line_count,
                    start_line,
                    start_column,
                    before: before_lines_starts@,
                    line_start: current_line_start,
                    end_lines,
                    post_span,
                    got_newline: post_span_got_newline,
                };
                scan_bounded(input@, st)
            }),
        ensures
            ({
                let st = Scan {
                    offset,
                    line_count,
                    start_line,
                    start_column,
                    before: before_lines_starts@,
                    line_start: current_line_start,
                    end_lines,
                    post_span,
                    got_newline: post_span_got_newline,
                };
                &&& scan_bounded(input@, st)
                &&& scan(input@, g_at, g_len, nb, na, scan_start()) == st
            }),
        decreases n - offset,
    {
        let ghost st = Scan {
            offset,
            line_count,
            start_line,
            start_column,
            before: before_lines_starts@,
            line_start: current_line_start,
            end_lines,
            post_span,
            got_newline: post_span_got_newline,
        };
        if offset >= n {
            break;
        }
        proof {
            lemma_scan_step(input@, g_at, g_len, nb, na, st);
        }
        let ghost (next, stop) = scan_step(input@, g_at, g_len, nb, na, st);
        let c = input[offset];
        let mut stopped = false;
        if c == 13 || c == 10 {
            line_count = line_count + 1;
            if c == 13 && offset + 1 < n && input[offset + 1] == 10 {
                offset = offset + 1;
            }
            if offset < at {
                start_column = 0;
                before_lines_starts.push_back(current_line_start);
                if before_lines_starts.len() > context_lines_before {
                    start_line = start_line + 1;
                    before_lines_starts.pop_front();
                }
                current_line_start = offset + 1;
            } else if offset >= end_first && post_span {
                start_column = 0;
                if post_span_got_newline {
                    end_lines = end_lines + 1;
                } else {
                    post_span_got_newline = true;
                }
                current_line_start = offset + 1;
                if end_lines >= context_lines_after {
                    offset = offset + 1;
                    stopped = true;
                }
            } else {
                current_line_start = offset + 1;
            }
        } else if offset < at {
            start_column = start_column + 1;
        }
        if !stopped {
            if offset >= end_all {
                post_span = true;
                if end_lines >= context_lines_after {
                    offset = offset + 1;
                    stopped = true;
                } else {
                    offset = offset + 1;
                }
            } else {
                offset = offset + 1;
            }
        }
        proof {
            let now = Scan {
                offset,
                line_count,
                start_line,
                start_column,
                before: before_lines_starts@,
                line_start: current_line_start,
                end_lines,
                post_span,
                got_newline: post_span_got_newline,
            };
            assert(now.before =~= next.before);
            assert(now == next);
            assert(stopped == stop);
        }
        if stopped {
            break;
        }
    }
    if offset >= end_all {
        let starting_offset: usize = if before_lines_starts.len() > 0 {
            before_lines_starts[0]
        } else if context_lines_before == 0 {
            at
        } else {
            0
        };
        if starting_offset > offset {
            return None;
        }
        let column = if context_lines_before == 0 {
            start_column
        } else {
            0
        };
        Some(
            SpanContents {
                start: starting_offset,
                end: offset,
                line: start_line,
                column,
                line_count,
                name,
            },
        )
    } else {
        None
    }
}

} // verus!
