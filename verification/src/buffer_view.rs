//! One client's perspective on a buffer, and the registry that keeps every
//! perspective consistent.
//!
//! A `BufferView` pairs a buffer handle with its own cursors and applies
//! movement to them. `BufferViewCollection` owns all views and is the
//! propagation authority: after any edit to a buffer it transforms the
//! cursors of every view of that buffer, so a second view observes cursor
//! positions as if it had witnessed the same edit sequence itself.

use vstd::prelude::*;

use crate::buffer::{
    byte_kind, byte_kind_of, is_char_start, pos_char_aligned, pos_valid, snap_to_char_start,
    spec_delete, spec_insert, spec_insert_end, spec_saturate, word_end_at, word_end_index,
    word_start_at, word_start_index, BufferCollection, BufferContent, BufferHandle, WordKind,
};
use crate::buffer_position::{BufferPosition, BufferRange};
use crate::cursor::{normalized_cursors, Cursor, CursorCollection};
use crate::history::{Edit, EditKind, EditModel};

verus! {

/// Which client a view belongs to.
#[derive(Clone, Copy, PartialEq, Eq, Structural, Debug)]
pub enum TargetClient {
    Local,
    Remote(usize),
}

/// One cursor motion, applied to every cursor of a view.
#[derive(Clone, Copy, PartialEq, Eq, Structural, Debug)]
pub enum CursorMovement {
    ColumnsForward(usize),
    ColumnsBackward(usize),
    LinesForward(usize),
    LinesBackward(usize),
    WordsForward(usize),
    WordsBackward(usize),
    Home,
    End,
    FirstLine,
    LastLine,
}

/// Whether a motion drags the selection anchor along or extends the
/// selection by moving only the live end.
#[derive(Clone, Copy, PartialEq, Eq, Structural, Debug)]
pub enum CursorMovementKind {
    PositionAndAnchor,
    PositionOnly,
}

/// The next place a column step can land on this line after `col`: the
/// nearest character start after it, or the end of the line.
pub open spec fn next_stop_in_line(line: Seq<u8>, col: int) -> int
    decreases line.len() - col,
{
    if col + 1 >= line.len() {
        line.len() as int
    } else if is_char_start(line, col + 1) {
        col + 1
    } else {
        next_stop_in_line(line, col + 1)
    }
}

/// The nearest character start on this line strictly before `col`, if any.
pub open spec fn prev_start_in_line(line: Seq<u8>, col: int) -> Option<int>
    decreases col,
{
    if col <= 0 {
        None
    } else if is_char_start(line, col - 1) {
        Some(col - 1)
    } else {
        prev_start_in_line(line, col - 1)
    }
}

/// One column step forward: to the next character start on the line, to the
/// line's end, then to column zero of the next line; the last position of
/// the buffer absorbs further steps.
pub open spec fn spec_next_position(lines: Seq<Seq<u8>>, p: BufferPosition) -> BufferPosition {
    let line = lines[p.line_index as int];
    if p.column_byte_index < line.len() {
        BufferPosition {
            line_index: p.line_index,
            column_byte_index: next_stop_in_line(line, p.column_byte_index as int) as usize,
        }
    } else if p.line_index + 1 < lines.len() {
        BufferPosition { line_index: (p.line_index + 1) as usize, column_byte_index: 0usize }
    } else {
        p
    }
}

/// One column step backward: to the nearest character start before the
/// column, or to the end of the previous line; the first position of the
/// buffer absorbs further steps.
pub open spec fn spec_prev_position(lines: Seq<Seq<u8>>, p: BufferPosition) -> BufferPosition {
    let line = lines[p.line_index as int];
    match prev_start_in_line(line, p.column_byte_index as int) {
        Some(c) => BufferPosition { line_index: p.line_index, column_byte_index: c as usize },
        None => {
            if p.line_index == 0 {
                BufferPosition { line_index: 0usize, column_byte_index: 0usize }
            } else {
                BufferPosition {
                    line_index: (p.line_index - 1) as usize,
                    column_byte_index: lines[p.line_index - 1].len() as usize,
                }
            }
        },
    }
}

/// `n` column steps forward.
pub open spec fn spec_columns_forward(lines: Seq<Seq<u8>>, p: BufferPosition, n: nat) -> BufferPosition
    decreases n,
{
    if n == 0 {
        p
    } else {
        spec_columns_forward(lines, spec_next_position(lines, p), (n - 1) as nat)
    }
}

/// `n` column steps backward.
pub open spec fn spec_columns_backward(lines: Seq<Seq<u8>>, p: BufferPosition, n: nat) -> BufferPosition
    decreases n,
{
    if n == 0 {
        p
    } else {
        spec_columns_backward(lines, spec_prev_position(lines, p), (n - 1) as nat)
    }
}

/// Walking forward from byte `c`, the start of the `n`-th word of
/// non-whitespace kind (counting from zero), or, as the error value, how
/// many words were still owed when the line ran out.
pub open spec fn nth_start_from(line: Seq<u8>, c: int, n: nat) -> Result<int, int>
    decreases line.len() - c, n,
{
    if c < 0 || c >= line.len() {
        Err(n as int)
    } else if (c == 0 || byte_kind(line[c - 1]) != byte_kind(line[c])) && byte_kind(line[c])
        != WordKind::Whitespace {
        if n == 0 {
            Ok(c)
        } else {
            nth_start_from(line, c + 1, (n - 1) as nat)
        }
    } else {
        nth_start_from(line, c + 1, n)
    }
}

/// Walking backward from byte `limit`, the start of the `n`-th word of
/// non-whitespace kind that ends at or before `limit` (counting from zero),
/// or, as the error value, how many words were still owed when the line's
/// start was reached.
pub open spec fn nth_start_before(line: Seq<u8>, limit: int, n: nat) -> Result<int, int>
    decreases limit,
    when limit <= line.len()
    via nth_start_before_decreases
{
    if limit <= 0 {
        Err(n as int)
    } else {
        let s = word_start_at(line, limit - 1);
        if byte_kind(line[limit - 1]) != WordKind::Whitespace {
            if n == 0 {
                Ok(s)
            } else {
                nth_start_before(line, s, (n - 1) as nat)
            }
        } else {
            nth_start_before(line, s, n)
        }
    }
}

#[via_fn]
proof fn nth_start_before_decreases(line: Seq<u8>, limit: int, n: nat) {
    if limit > 0 {
        crate::buffer::lemma_word_start_at_bounds(line, limit - 1);
    }
}

/// Where `m` word steps forward land from `(line_index, col)`, mirroring one
/// pass of the word-motion loop per line: the word under the position counts
/// as the zeroth step when it is not whitespace; running out of words lands
/// at the line's end; lines continue below until the buffer's last line
/// absorbs the rest. Landing spots are clamped back to character starts.
pub open spec fn spec_words_forward_from(
    lines: Seq<Seq<u8>>,
    line_index: int,
    col: int,
    m: nat,
) -> BufferPosition
    decreases lines.len() - line_index,
{
    let line = lines[line_index];
    let in_word = 0 <= col < line.len() && byte_kind(line[col]) != WordKind::Whitespace;
    if in_word && m == 0 {
        BufferPosition {
            line_index: line_index as usize,
            column_byte_index: snap_to_char_start(line, word_start_at(line, col)) as usize,
        }
    } else {
        let m2 = if in_word {
            (m - 1) as nat
        } else {
            m
        };
        let scan = if 0 <= col < line.len() {
            word_end_at(line, col)
        } else {
            col
        };
        match nth_start_from(line, scan, m2) {
            Ok(s) => BufferPosition {
                line_index: line_index as usize,
                column_byte_index: snap_to_char_start(line, s) as usize,
            },
            Err(rest) => {
                if rest == 0 || line_index + 1 >= lines.len() {
                    BufferPosition {
                        line_index: line_index as usize,
                        column_byte_index: line.len() as usize,
                    }
                } else {
                    spec_words_forward_from(lines, line_index + 1, 0, (rest - 1) as nat)
                }
            },
        }
    }
}

/// `spec_words_forward_from`, starting at a position.
pub open spec fn spec_words_forward(lines: Seq<Seq<u8>>, p: BufferPosition, m: nat) -> BufferPosition {
    spec_words_forward_from(lines, p.line_index as int, p.column_byte_index as int, m)
}

/// Where `m` word steps backward land, mirroring one pass of the word-motion
/// loop per line: a position strictly inside a non-whitespace word counts
/// its own word's start as the zeroth step; running out of words moves to
/// the end of the line above; the buffer's first line absorbs the rest.
/// Landing spots are clamped back to character starts.
pub open spec fn spec_words_backward(lines: Seq<Seq<u8>>, p: BufferPosition, m: nat) -> BufferPosition
    decreases p.line_index,
{
    let line = lines[p.line_index as int];
    let col = p.column_byte_index as int;
    let in_word = col < line.len() && byte_kind(line[col]) != WordKind::Whitespace;
    let s = word_start_at(line, col);
    let counted = in_word && col > s;
    if counted && m == 0 {
        BufferPosition {
            line_index: p.line_index,
            column_byte_index: snap_to_char_start(line, s) as usize,
        }
    } else {
        let m2 = if counted {
            (m - 1) as nat
        } else {
            m
        };
        let limit = if col < line.len() {
            s
        } else {
            col
        };
        match nth_start_before(line, limit, m2) {
            Ok(t) => BufferPosition {
                line_index: p.line_index,
                column_byte_index: snap_to_char_start(line, t) as usize,
            },
            Err(rest) => {
                if rest == 0 {
                    if p.line_index > 0 {
                        BufferPosition {
                            line_index: (p.line_index - 1) as usize,
                            column_byte_index: lines[p.line_index - 1].len() as usize,
                        }
                    } else {
                        p
                    }
                } else {
                    if p.line_index == 0 {
                        BufferPosition { line_index: 0usize, column_byte_index: 0usize }
                    } else {
                        spec_words_backward(
                            lines,
                            BufferPosition {
                                line_index: (p.line_index - 1) as usize,
                                column_byte_index: lines[p.line_index - 1].len() as usize,
                            },
                            (rest - 1) as nat,
                        )
                    }
                }
            },
        }
    }
}

/// Where one movement takes a single position.
pub open spec fn spec_move_position(
    lines: Seq<Seq<u8>>,
    p: BufferPosition,
    movement: CursorMovement,
) -> BufferPosition {
    match movement {
        CursorMovement::ColumnsForward(n) => spec_columns_forward(lines, p, n as nat),
        CursorMovement::ColumnsBackward(n) => if n == 0 {
            p
        } else {
            spec_columns_backward(lines, p, n as nat)
        },
        CursorMovement::LinesForward(n) => spec_saturate(
            lines,
            BufferPosition {
                line_index: if p.line_index + n < lines.len() {
                    (p.line_index + n) as usize
                } else {
                    (lines.len() - 1) as usize
                },
                column_byte_index: p.column_byte_index,
            },
        ),
        CursorMovement::LinesBackward(n) => spec_saturate(
            lines,
            BufferPosition {
                line_index: if p.line_index >= n {
                    (p.line_index - n) as usize
                } else {
                    0usize
                },
                column_byte_index: p.column_byte_index,
            },
        ),
        CursorMovement::WordsForward(n) => if n == 0 {
            p
        } else {
            spec_words_forward(lines, p, n as nat)
        },
        CursorMovement::WordsBackward(n) => if n == 0 {
            p
        } else {
            spec_words_backward(lines, p, (n - 1) as nat)
        },
        CursorMovement::Home => BufferPosition {
            line_index: p.line_index,
            column_byte_index: 0usize,
        },
        CursorMovement::End => BufferPosition {
            line_index: p.line_index,
            column_byte_index: lines[p.line_index as int].len() as usize,
        },
        CursorMovement::FirstLine => spec_saturate(
            lines,
            BufferPosition { line_index: 0usize, column_byte_index: p.column_byte_index },
        ),
        CursorMovement::LastLine => spec_saturate(
            lines,
            BufferPosition {
                line_index: (lines.len() - 1) as usize,
                column_byte_index: p.column_byte_index,
            },
        ),
    }
}

/// Movements that leave the view untouched entirely, without even dragging
/// anchors: a backward or word motion of zero steps.
pub open spec fn spec_movement_skips(movement: CursorMovement) -> bool {
    movement == CursorMovement::ColumnsBackward(0usize) || movement
        == CursorMovement::WordsForward(0usize) || movement == CursorMovement::WordsBackward(
        0usize,
    )
}

/// Where one movement takes a whole cursor: the live end is clamped to the
/// buffer and moved, and the anchor follows it under `PositionAndAnchor`
/// unless the movement is one that skips entirely.
pub open spec fn spec_moved_cursor(
    lines: Seq<Seq<u8>>,
    c: Cursor,
    movement: CursorMovement,
    kind: CursorMovementKind,
) -> Cursor {
    let p = spec_move_position(lines, spec_saturate(lines, c.position), movement);
    let drag = kind == CursorMovementKind::PositionAndAnchor && !spec_movement_skips(movement);
    Cursor { anchor: if drag { p } else { c.anchor }, position: p }
}

/// All of a cursor sequence's live ends lie inside the lines on character
/// boundaries.
pub open spec fn cursors_aligned(lines: Seq<Seq<u8>>, cs: Seq<Cursor>) -> bool {
    forall|i: int| 0 <= i < cs.len() ==> pos_char_aligned(lines, (#[trigger] cs[i]).position)
}

/// Whether byte `c` of the line starts a UTF-8 character.
fn is_char_start_at(line: &Vec<u8>, c: usize) -> (r: bool)
    requires
        c < line@.len(),
    ensures
        r == is_char_start(line@, c as int),
{
    c == 0 || !(128 <= line[c] && line[c] < 192)
}

/// The nearest character start at or before `col`.
fn snap_column(line: &Vec<u8>, col: usize) -> (r: usize)
    requires
        col <= line@.len(),
    ensures
        r == snap_to_char_start(line@, col as int),
        r <= col,
        r == line@.len() || is_char_start(line@, r as int),
{
    let len = line.len();
    let mut c = col;
    while c > 0 && c < len && 128 <= line[c] && line[c] < 192
        invariant
            c <= col,
            col <= line@.len(),
            len == line@.len(),
            snap_to_char_start(line@, col as int) == snap_to_char_start(line@, c as int),
        decreases c,
    {
        c = c - 1;
    }
    proof {
        assert(snap_to_char_start(line@, c as int) == c as int);
    }
    c
}

/// One column step forward.
fn next_position(content: &BufferContent, p: BufferPosition) -> (r: BufferPosition)
    requires
        content.wf(),
        pos_valid(content@, p),
    ensures
        r == spec_next_position(content@, p),
        pos_char_aligned(content@, r),
{
    let count = content.line_count();
    let line = content.line_at(p.line_index);
    if p.column_byte_index < line.len() {
        let mut c = p.column_byte_index + 1;
        while c < line.len() && !is_char_start_at(line, c)
            invariant
                p.column_byte_index < c <= line@.len(),
                next_stop_in_line(line@, p.column_byte_index as int) == next_stop_in_line(
                    line@,
                    c - 1,
                ),
            decreases line@.len() - c,
        {
            c = c + 1;
        }
        proof {
            assert(next_stop_in_line(line@, c - 1) == c);
        }
        BufferPosition { line_index: p.line_index, column_byte_index: c }
    } else if p.line_index + 1 < count {
        BufferPosition { line_index: p.line_index + 1, column_byte_index: 0 }
    } else {
        p
    }
}

/// One column step backward.
fn prev_position(content: &BufferContent, p: BufferPosition) -> (r: BufferPosition)
    requires
        content.wf(),
        pos_valid(content@, p),
    ensures
        r == spec_prev_position(content@, p),
        pos_char_aligned(content@, r),
{
    let line = content.line_at(p.line_index);
    let mut c = p.column_byte_index;
    while c > 0 && !is_char_start_at(line, c - 1)
        invariant
            c <= p.column_byte_index,
            p.column_byte_index <= line@.len(),
            prev_start_in_line(line@, p.column_byte_index as int) == prev_start_in_line(
                line@,
                c as int,
            ),
        decreases c,
    {
        c = c - 1;
    }
    if c > 0 {
        BufferPosition { line_index: p.line_index, column_byte_index: c - 1 }
    } else if p.line_index == 0 {
        BufferPosition { line_index: 0, column_byte_index: 0 }
    } else {
        let prev_len = content.line_at(p.line_index - 1).len();
        BufferPosition { line_index: p.line_index - 1, column_byte_index: prev_len }
    }
}

/// Walking forward from byte `c`, the start of the `n`-th non-whitespace
/// word, or how many words were still owed when the line ran out.
fn nth_word_start_from(line: &Vec<u8>, c: usize, n: usize) -> (r: Result<usize, usize>)
    ensures
        match r {
            Ok(s) => nth_start_from(line@, c as int, n as nat) == Ok::<int, int>(s as int) && s
                < line@.len(),
            Err(k) => nth_start_from(line@, c as int, n as nat) == Err::<int, int>(k as int),
        },
{
    let mut cur = c;
    let mut owed = n;
    while cur < line.len()
        invariant
            nth_start_from(line@, cur as int, owed as nat) == nth_start_from(
                line@,
                c as int,
                n as nat,
            ),
        decreases line@.len() - cur,
    {
        let at_start = cur == 0 || !(byte_kind_of(line[cur - 1]) == byte_kind_of(line[cur]));
        let is_ws = matches!(byte_kind_of(line[cur]), WordKind::Whitespace);
        if at_start && !is_ws {
            if owed == 0 {
                return Ok(cur);
            }
            owed = owed - 1;
        }
        cur = cur + 1;
    }
    Err(owed)
}

/// Walking backward from byte `limit`, the start of the `n`-th
/// non-whitespace word that ends at or before `limit`, or how many words
/// were still owed when the line's start was reached.
fn nth_word_start_before(line: &Vec<u8>, limit: usize, n: usize) -> (r: Result<usize, usize>)
    requires
        limit <= line@.len(),
    ensures
        match r {
            Ok(s) => nth_start_before(line@, limit as int, n as nat) == Ok::<int, int>(s as int)
                && s < line@.len(),
            Err(k) => nth_start_before(line@, limit as int, n as nat) == Err::<int, int>(
                k as int,
            ),
        },
{
    let mut cur = limit;
    let mut owed = n;
    while cur > 0
        invariant
            cur <= line@.len(),
            nth_start_before(line@, cur as int, owed as nat) == nth_start_before(
                line@,
                limit as int,
                n as nat,
            ),
        decreases cur,
    {
        let s = word_start_index(line, cur - 1);
        let is_ws = matches!(byte_kind_of(line[cur - 1]), WordKind::Whitespace);
        if !is_ws {
            if owed == 0 {
                return Ok(s);
            }
            owed = owed - 1;
        }
        cur = s;
    }
    Err(owed)
}

/// Where `m` word steps forward land.
fn words_forward_position(content: &BufferContent, p: BufferPosition, m: usize) -> (r:
    BufferPosition)
    requires
        content.wf(),
        pos_char_aligned(content@, p),
    ensures
        r == spec_words_forward(content@, p, m as nat),
        pos_char_aligned(content@, r),
{
    let count = content.line_count();
    let mut line_index = p.line_index;
    let mut col = p.column_byte_index;
    let mut owed = m;
    loop
        invariant
            content.wf(),
            count == content@.len(),
            line_index < content@.len(),
            col <= content@[line_index as int].len(),
            pos_valid(content@, p),
            spec_words_forward_from(content@, line_index as int, col as int, owed as nat)
                == spec_words_forward(content@, p, m as nat),
        decreases content@.len() - line_index,
    {
        let line = content.line_at(line_index);
        let in_word = col < line.len() && !(byte_kind_of(line[col]) == WordKind::Whitespace);
        if in_word && owed == 0 {
            let s = snap_column(line, word_start_index(line, col));
            return BufferPosition { line_index, column_byte_index: s };
        }
        let m2 = if in_word {
            owed - 1
        } else {
            owed
        };
        let scan = if col < line.len() {
            word_end_index(line, col)
        } else {
            col
        };
        match nth_word_start_from(line, scan, m2) {
            Ok(s) => {
                return BufferPosition {
                    line_index,
                    column_byte_index: snap_column(line, s),
                };
            },
            Err(rest) => {
                if rest == 0 || line_index + 1 >= count {
                    return BufferPosition { line_index, column_byte_index: line.len() };
                }
                line_index = line_index + 1;
                col = 0;
                owed = rest - 1;
            },
        }
    }
}

/// Where `m` word steps backward land.
fn words_backward_position(content: &BufferContent, p: BufferPosition, m: usize) -> (r:
    BufferPosition)
    requires
        content.wf(),
        pos_char_aligned(content@, p),
    ensures
        r == spec_words_backward(content@, p, m as nat),
        pos_char_aligned(content@, r),
{
    let mut cur = p;
    let mut owed = m;
    loop
        invariant
            content.wf(),
            pos_char_aligned(content@, cur),
            spec_words_backward(content@, cur, owed as nat) == spec_words_backward(
                content@,
                p,
                m as nat,
            ),
        decreases cur.line_index,
    {
        let line = content.line_at(cur.line_index);
        let col = cur.column_byte_index;
        let in_word = col < line.len() && !(byte_kind_of(line[col]) == WordKind::Whitespace);
        let s = if col < line.len() {
            word_start_index(line, col)
        } else {
            col
        };
        let counted = in_word && col > s;
        if counted && owed == 0 {
            return BufferPosition {
                line_index: cur.line_index,
                column_byte_index: snap_column(line, s),
            };
        }
        let m2 = if counted {
            owed - 1
        } else {
            owed
        };
        let limit = if col < line.len() {
            s
        } else {
            col
        };
        match nth_word_start_before(line, limit, m2) {
            Ok(t) => {
                return BufferPosition {
                    line_index: cur.line_index,
                    column_byte_index: snap_column(line, t),
                };
            },
            Err(rest) => {
                if rest == 0 {
                    if cur.line_index > 0 {
                        let prev_len = content.line_at(cur.line_index - 1).len();
                        return BufferPosition {
                            line_index: cur.line_index - 1,
                            column_byte_index: prev_len,
                        };
                    }
                    return cur;
                }
                if cur.line_index == 0 {
                    return BufferPosition { line_index: 0, column_byte_index: 0 };
                }
                let prev_len = content.line_at(cur.line_index - 1).len();
                cur = BufferPosition {
                    line_index: cur.line_index - 1,
                    column_byte_index: prev_len,
                };
                owed = rest - 1;
            },
        }
    }
}

/// Where one movement takes a single position.
fn move_position(content: &BufferContent, p: BufferPosition, movement: CursorMovement) -> (r:
    BufferPosition)
    requires
        content.wf(),
        pos_char_aligned(content@, p),
    ensures
        r == spec_move_position(content@, p, movement),
        pos_char_aligned(content@, r),
{
    match movement {
        CursorMovement::ColumnsForward(n) => {
            let mut q = p;
            let mut k: usize = 0;
            while k < n
                invariant
                    k <= n,
                    content.wf(),
                    pos_char_aligned(content@, q),
                    spec_columns_forward(content@, q, (n - k) as nat) == spec_columns_forward(
                        content@,
                        p,
                        n as nat,
                    ),
                decreases n - k,
            {
                q = next_position(content, q);
                k = k + 1;
            }
            q
        },
        CursorMovement::ColumnsBackward(n) => {
            let mut q = p;
            let mut k: usize = 0;
            while k < n
                invariant
                    k <= n,
                    content.wf(),
                    pos_char_aligned(content@, q),
                    spec_columns_backward(content@, q, (n - k) as nat) == spec_columns_backward(
                        content@,
                        p,
                        n as nat,
                    ),
                decreases n - k,
            {
                q = prev_position(content, q);
                k = k + 1;
            }
            q
        },
        CursorMovement::LinesForward(n) => {
            let last = content.line_count() - 1;
            let target = p.line_index.saturating_add(n);
            let line_index = if target < last {
                target
            } else {
                last
            };
            let q = BufferPosition { line_index, column_byte_index: p.column_byte_index };
            proof {
                assert(q.line_index as int == if p.line_index + n < content@.len() {
                    p.line_index + n
                } else {
                    content@.len() - 1
                });
            }
            content.saturate_position(q)
        },
        CursorMovement::LinesBackward(n) => {
            let line_index = p.line_index.saturating_sub(n);
            content.saturate_position(
                BufferPosition { line_index, column_byte_index: p.column_byte_index },
            )
        },
        CursorMovement::WordsForward(n) => {
            if n == 0 {
                p
            } else {
                words_forward_position(content, p, n)
            }
        },
        CursorMovement::WordsBackward(n) => {
            if n == 0 {
                p
            } else {
                words_backward_position(content, p, n - 1)
            }
        },
        CursorMovement::Home => BufferPosition {
            line_index: p.line_index,
            column_byte_index: 0,
        },
        CursorMovement::End => {
            let len = content.line_at(p.line_index).len();
            BufferPosition { line_index: p.line_index, column_byte_index: len }
        },
        CursorMovement::FirstLine => content.saturate_position(
            BufferPosition { line_index: 0, column_byte_index: p.column_byte_index },
        ),
        CursorMovement::LastLine => {
            let line_index = content.line_count() - 1;
            content.saturate_position(
                BufferPosition { line_index, column_byte_index: p.column_byte_index },
            )
        },
    }
}

/// The selection range of a cursor, both ends clamped to the lines.
pub open spec fn spec_selection_range(lines: Seq<Seq<u8>>, c: Cursor) -> BufferRange {
    crate::buffer_position::spec_between(
        spec_saturate(lines, c.anchor),
        spec_saturate(lines, c.position),
    )
}

/// The selection texts of the cursors from index `i` on, each preceded by a
/// newline when its range starts below the previous range's last line.
pub open spec fn spec_selection_text_from(
    lines: Seq<Seq<u8>>,
    cs: Seq<Cursor>,
    i: int,
    last_to_line: int,
) -> Seq<u8>
    decreases cs.len() - i,
{
    if i < 0 || i >= cs.len() {
        Seq::<u8>::empty()
    } else {
        let r = spec_selection_range(lines, cs[i]);
        let sep: Seq<u8> = if r.from.line_index > last_to_line {
            seq![crate::buffer::NEWLINE]
        } else {
            Seq::<u8>::empty()
        };
        sep + crate::buffer::spec_range_text(lines, r) + spec_selection_text_from(
            lines,
            cs,
            i + 1,
            r.to.line_index as int,
        )
    }
}

/// The concatenated selection texts of all cursors.
pub open spec fn spec_selection_text(lines: Seq<Seq<u8>>, cs: Seq<Cursor>) -> Seq<u8> {
    if cs.len() == 0 {
        Seq::<u8>::empty()
    } else {
        let r0 = spec_selection_range(lines, cs[0]);
        crate::buffer::spec_range_text(lines, r0) + spec_selection_text_from(
            lines,
            cs,
            1,
            r0.to.line_index as int,
        )
    }
}

/// Cursors after a movement, one for each cursor of the view.
pub open spec fn spec_moved_cursors(
    lines: Seq<Seq<u8>>,
    cs: Seq<Cursor>,
    movement: CursorMovement,
    kind: CursorMovementKind,
) -> Seq<Cursor> {
    Seq::new(cs.len(), |i: int| spec_moved_cursor(lines, cs[i], movement, kind))
}

/// A normalization of boundary-aligned cursors yields boundary-aligned
/// cursors: its elements are among the originals, or the zero cursor.
pub proof fn lemma_normalized_cursors_aligned(lines: Seq<Seq<u8>>, s: Seq<Cursor>)
    requires
        lines.len() >= 1,
        cursors_aligned(lines, s),
    ensures
        cursors_aligned(lines, normalized_cursors(s)),
{
    assert forall|i: int|
        0 <= i < normalized_cursors(s).len() implies pos_char_aligned(
        lines,
        (#[trigger] normalized_cursors(s)[i]).position,
    ) by {
        crate::cursor::lemma_normalized_members(s, i);
        if normalized_cursors(s)[i] == crate::cursor::spec_zero_cursor() {
        } else {
            let k = choose|k: int| 0 <= k < s.len() && s[k] == normalized_cursors(s)[i];
            assert(pos_char_aligned(lines, s[k].position));
        }
    }
}

/// Exec mirror of `spec_movement_skips`.
fn movement_skips(movement: CursorMovement) -> (r: bool)
    ensures
        r == spec_movement_skips(movement),
{
    match movement {
        CursorMovement::ColumnsBackward(n) => n == 0,
        CursorMovement::WordsForward(n) => n == 0,
        CursorMovement::WordsBackward(n) => n == 0,
        _ => false,
    }
}

/// One client's perspective on one buffer: which buffer it shows, whom it
/// belongs to, and its own cursors.
pub struct BufferView {
    pub target_client: TargetClient,
    pub buffer_handle: BufferHandle,
    pub cursors: CursorCollection,
}

impl BufferView {
    /// A view of the given buffer with a single cursor at the buffer start.
    pub fn new(target_client: TargetClient, buffer_handle: BufferHandle) -> (r: Self)
        ensures
            r.target_client == target_client,
            r.buffer_handle == buffer_handle,
            r.cursors@ == seq![crate::cursor::spec_zero_cursor()],
            r.cursors.wf(),
            r.cursors.main_index() == 0,
    {
        Self { target_client, buffer_handle, cursors: CursorCollection::new() }
    }

    /// The same view, cursors included, for another client.
    pub fn clone_with_target_client(&self, target_client: TargetClient) -> (r: Self)
        ensures
            r.target_client == target_client,
            r.buffer_handle == self.buffer_handle,
            r.cursors@ == self.cursors@,
            r.cursors.main_index() == self.cursors.main_index(),
    {
        Self {
            target_client,
            buffer_handle: self.buffer_handle,
            cursors: self.cursors.duplicate(),
        }
    }

    /// Applies one movement to every cursor of the view, in one batch, and
    /// normalizes the result. A stale buffer handle is a no-op. Each
    /// cursor's live end is clamped to the buffer before it moves.
    pub fn move_cursors(
        &mut self,
        buffers: &BufferCollection,
        movement: CursorMovement,
        movement_kind: CursorMovementKind,
    )
        requires
            buffers.wf(),
        ensures
            final(self).target_client == old(self).target_client,
            final(self).buffer_handle == old(self).buffer_handle,
            !buffers.spec_is_live(old(self).buffer_handle) ==> *final(self) == *old(self),
            buffers.spec_is_live(old(self).buffer_handle) ==> ({
                let lines = buffers@[old(self).buffer_handle.spec_index()]->Some_0.content@;
                let moved = spec_moved_cursors(lines, old(self).cursors@, movement, movement_kind);
                &&& final(self).cursors@ == normalized_cursors(moved)
                &&& final(self).cursors.wf()
                &&& cursors_aligned(lines, final(self).cursors@)
                &&& final(self).cursors.main_index() == if old(self).cursors.main_index()
                    < normalized_cursors(moved).len() {
                    old(self).cursors.main_index()
                } else {
                    0usize
                }
            }),
    {
        let buffer = match buffers.get(self.buffer_handle) {
            Some(buffer) => buffer,
            None => {
                return ;
            },
        };
        let content = &buffer.content;
        let ghost lines = content@;
        let ghost orig = self.cursors@;
        let ghost moved = spec_moved_cursors(lines, orig, movement, movement_kind);
        let drag = matches!(movement_kind, CursorMovementKind::PositionAndAnchor)
            && !movement_skips(movement);
        let mut guard = self.cursors.mut_guard();
        let n = guard.len();
        let mut i: usize = 0;
        while i < n
            invariant
                content.wf(),
                lines == content@,
                n == orig.len(),
                guard@.len() == n,
                i <= n,
                moved == spec_moved_cursors(lines, orig, movement, movement_kind),
                drag == (movement_kind == CursorMovementKind::PositionAndAnchor
                    && !spec_movement_skips(movement)),
                forall|j: int| 0 <= j < i ==> guard@[j] == moved[j],
                forall|j: int| i <= j < n ==> guard@[j] == orig[j],
                forall|j: int|
                    0 <= j < i ==> pos_char_aligned(lines, (#[trigger] guard@[j]).position),
            decreases n - i,
        {
            let c = guard.get(i);
            let q = content.saturate_position(c.position);
            let p = move_position(content, q, movement);
            let anchor = if drag {
                p
            } else {
                c.anchor
            };
            guard.set(i, Cursor { anchor, position: p });
            i = i + 1;
        }
        proof {
            assert(guard@ =~= moved);
            assert(cursors_aligned(lines, moved));
            lemma_normalized_cursors_aligned(lines, moved);
        }
        self.cursors.release_guard(guard);
    }

    /// Closes the buffer's open undo group, making the edits since the last
    /// commit one undo step. A stale handle is a no-op.
    pub fn commit_edits(&self, buffers: &mut BufferCollection)
        requires
            old(buffers).wf(),
        ensures
            final(buffers).wf(),
            final(buffers)@.len() == old(buffers)@.len(),
            forall|j: int|
                0 <= j < old(buffers)@.len() && j != self.buffer_handle.spec_index() ==> final(buffers)@[j] == old(buffers)@[j],
            !old(buffers).spec_is_live(self.buffer_handle) ==> final(buffers)@ == old(buffers)@,
            old(buffers).spec_is_live(self.buffer_handle) ==> ({
                let before = old(buffers)@[self.buffer_handle.spec_index()]->Some_0;
                let after = final(buffers)@[self.buffer_handle.spec_index()]->Some_0;
                &&& final(buffers).spec_is_live(self.buffer_handle)
                &&& after.content == before.content
                &&& after.spec_history().spec_current() == Seq::<EditModel>::empty()
                &&& after.spec_history().spec_groups()
                    == crate::history::spec_committed_groups(before.spec_history())
                &&& after.spec_history().spec_index() == crate::history::spec_committed_index(
                    before.spec_history(),
                )
            }),
    {
        buffers.commit_edits(self.buffer_handle);
    }

    /// Replaces `text` with the concatenated selection texts of the view's
    /// cursors, separated by a newline wherever a selection starts below the
    /// previous one's last line. A stale buffer handle leaves `text` empty.
    /// Selection ends are clamped to the buffer.
    pub fn get_selection_text(&self, buffers: &BufferCollection, text: &mut Vec<u8>)
        requires
            buffers.wf(),
        ensures
            !buffers.spec_is_live(self.buffer_handle) ==> final(text)@ == Seq::<u8>::empty(),
            buffers.spec_is_live(self.buffer_handle) ==> final(text)@ == spec_selection_text(
                buffers@[self.buffer_handle.spec_index()]->Some_0.content@,
                self.cursors@,
            ),
    {
        text.clear();
        let buffer = match buffers.get(self.buffer_handle) {
            Some(buffer) => buffer,
            None => {
                return ;
            },
        };
        let content = &buffer.content;
        let ghost lines = content@;
        let ghost cs = self.cursors@;
        let n = self.cursors.len();
        if n == 0 {
            return ;
        }
        let ghost total = spec_selection_text(lines, cs);
        let first = self.cursors.get(0);
        let range0 = BufferRange::between(
            content.saturate_position(first.anchor),
            content.saturate_position(first.position),
        );
        content.append_range_text_to(range0, text);
        let mut last_to_line = range0.to.line_index;
        let mut i: usize = 1;
        while i < n
            invariant
                content.wf(),
                lines == content@,
                cs == self.cursors@,
                n == cs.len(),
                1 <= i <= n,
                total =~= text@ + spec_selection_text_from(lines, cs, i as int, last_to_line as int),
            decreases n - i,
        {
            let c = self.cursors.get(i);
            let range = BufferRange::between(
                content.saturate_position(c.anchor),
                content.saturate_position(c.position),
            );
            if range.from.line_index > last_to_line {
                text.push(crate::buffer::NEWLINE);
            }
            content.append_range_text_to(range, text);
            last_to_line = range.to.line_index;
            i = i + 1;
        }
    }
}

/// One positional fixup to apply to cursors: an insertion or a deletion
/// that occupied `range`.
#[derive(Clone, Copy, PartialEq, Eq, Structural, Debug)]
pub struct Fixup {
    pub kind: EditKind,
    pub range: BufferRange,
}

/// A cursor after one fixup.
pub open spec fn spec_apply_fixup(c: Cursor, f: Fixup) -> Cursor {
    match f.kind {
        EditKind::Insert => crate::cursor::cursor_inserted(c, f.range),
        EditKind::Delete => crate::cursor::cursor_deleted(c, f.range),
    }
}

/// A cursor after a sequence of fixups, applied in order.
pub open spec fn spec_apply_fixups(c: Cursor, fs: Seq<Fixup>) -> Cursor
    decreases fs.len(),
{
    if fs.len() == 0 {
        c
    } else {
        spec_apply_fixups(spec_apply_fixup(c, fs[0]), fs.drop_first())
    }
}

/// Every fixup's range is an ordered pair.
pub open spec fn fixups_wf(fs: Seq<Fixup>) -> bool {
    forall|i: int|
        0 <= i < fs.len() ==> crate::buffer_position::pos_le(
            (#[trigger] fs[i]).range.from,
            fs[i].range.to,
        )
}

/// The cursors of a view after a sequence of fixups and normalization.
pub open spec fn spec_fixed_cursors(cs: Seq<Cursor>, fs: Seq<Fixup>) -> Seq<Cursor> {
    normalized_cursors(Seq::new(cs.len(), |i: int| spec_apply_fixups(cs[i], fs)))
}

impl BufferView {
    /// Applies a sequence of positional fixups to every cursor of the view,
    /// in one batch, and normalizes the result.
    pub fn apply_cursor_fixups(&mut self, fixups: &Vec<Fixup>)
        requires
            fixups_wf(fixups@),
        ensures
            final(self).target_client == old(self).target_client,
            final(self).buffer_handle == old(self).buffer_handle,
            final(self).cursors@ == spec_fixed_cursors(old(self).cursors@, fixups@),
            final(self).cursors.wf(),
            final(self).cursors.main_index() == if old(self).cursors.main_index()
                < spec_fixed_cursors(old(self).cursors@, fixups@).len() {
                old(self).cursors.main_index()
            } else {
                0usize
            },
    {
        let ghost orig = self.cursors@;
        let ghost mapped = Seq::new(orig.len(), |i: int| spec_apply_fixups(orig[i], fixups@));
        let mut guard = self.cursors.mut_guard();
        let n = guard.len();
        let mut i: usize = 0;
        while i < n
            invariant
                fixups_wf(fixups@),
                n == orig.len(),
                guard@.len() == n,
                i <= n,
                mapped == Seq::new(orig.len(), |k: int| spec_apply_fixups(orig[k], fixups@)),
                forall|j: int| 0 <= j < i ==> guard@[j] == mapped[j],
                forall|j: int| i <= j < n ==> guard@[j] == orig[j],
            decreases n - i,
        {
            let mut c = guard.get(i);
            proof {
                assert(c == orig[i as int]);
                assert(fixups@.skip(0) == fixups@);
            }
            let m = fixups.len();
            let mut k: usize = 0;
            while k < m
                invariant
                    fixups_wf(fixups@),
                    m == fixups@.len(),
                    k <= m,
                    spec_apply_fixups(c, fixups@.skip(k as int)) == spec_apply_fixups(
                        orig[i as int],
                        fixups@,
                    ),
                decreases m - k,
            {
                let f = fixups[k];
                proof {
                    assert(fixups@.skip(k as int)[0] == f);
                    assert(fixups@.skip(k as int).drop_first() =~= fixups@.skip(k as int + 1));
                }
                match f.kind {
                    EditKind::Insert => c.insert(f.range),
                    EditKind::Delete => c.delete(f.range),
                }
                k = k + 1;
            }
            proof {
                assert(fixups@.skip(m as int) =~= Seq::<Fixup>::empty());
            }
            guard.set(i, c);
            i = i + 1;
        }
        proof {
            assert(guard@ =~= mapped);
        }
        self.cursors.release_guard(guard);
    }
}

/// An opaque, stable identifier of one view inside a
/// `BufferViewCollection`. Slots are reused only after explicit removal.
#[derive(Clone, Copy, PartialEq, Eq, Structural, Debug)]
pub struct BufferViewHandle {
    index: usize,
}

impl BufferViewHandle {
    /// The slot this handle points at, for contracts.
    pub closed spec fn spec_index(&self) -> int {
        self.index as int
    }

    /// The slot this handle points at.
    pub(crate) fn index_value(&self) -> (r: usize)
        ensures
            r == self.spec_index(),
    {
        self.index
    }
}

/// The registry owning every view, and the authority that keeps every view
/// of a buffer consistent after each edit.
pub struct BufferViewCollection {
    buffer_views: Vec<Option<BufferView>>,
}

impl View for BufferViewCollection {
    type V = Seq<Option<BufferView>>;

    closed spec fn view(&self) -> Seq<Option<BufferView>> {
        self.buffer_views@
    }
}

/// After a buffer edit, every view of that buffer has its cursors fixed up
/// and renormalized; every other view is untouched.
pub open spec fn views_fixed(
    before: Seq<Option<BufferView>>,
    after: Seq<Option<BufferView>>,
    buffer_handle: BufferHandle,
    fs: Seq<Fixup>,
) -> bool {
    &&& after.len() == before.len()
    &&& forall|j: int|
        0 <= j < before.len() ==> match before[j] {
            Some(v) => {
                &&& after[j] is Some
                &&& if v.buffer_handle == buffer_handle {
                    &&& (#[trigger] after[j])->Some_0.target_client == v.target_client
                    &&& after[j]->Some_0.buffer_handle == v.buffer_handle
                    &&& after[j]->Some_0.cursors@ == spec_fixed_cursors(v.cursors@, fs)
                } else {
                    after[j] == before[j]
                }
            },
            None => after[j] is None,
        }
}

impl BufferViewCollection {
    /// Every live view's cursor collection is normalized.
    pub open spec fn wf(&self) -> bool {
        forall|j: int|
            0 <= j < self@.len() && self@[j] is Some ==> (#[trigger] self@[j])->Some_0.cursors.wf()
    }

    /// Whether a handle points at a live view.
    pub open spec fn spec_is_live(&self, handle: BufferViewHandle) -> bool {
        0 <= handle.spec_index() < self@.len() && self@[handle.spec_index()] is Some
    }

    /// An empty registry.
    pub fn new() -> (r: Self)
        ensures
            r@ == Seq::<Option<BufferView>>::empty(),
            r.wf(),
    {
        Self { buffer_views: Vec::new() }
    }

    /// Adds a view, reusing the lowest-index free slot and appending a new
    /// slot only when none is free, and returns its handle.
    pub fn add(&mut self, buffer_view: BufferView) -> (h: BufferViewHandle)
        requires
            old(self).wf(),
            buffer_view.cursors.wf(),
        ensures
            final(self).wf(),
            final(self).spec_is_live(h),
            final(self)@[h.spec_index()] == Some(buffer_view),
            forall|j: int|
                0 <= j < old(self)@.len() && j != h.spec_index() ==> final(self)@[j] == old(self)@[j],
            forall|j: int| 0 <= j < h.spec_index() ==> old(self)@[j] is Some,
            h.spec_index() <= old(self)@.len(),
            h.spec_index() < old(self)@.len() ==> old(self)@[h.spec_index()] is None && final(self)@.len() == old(self)@.len(),
            h.spec_index() == old(self)@.len() ==> final(self)@.len() == old(self)@.len() + 1,
            old(self).spec_is_live(h) == false,
    {
        let mut i: usize = 0;
        while i < self.buffer_views.len()
            invariant
                i <= self@.len(),
                self@ == old(self)@,
                old(self).wf(),
                buffer_view.cursors.wf(),
                forall|j: int| 0 <= j < i ==> self@[j] is Some,
            decreases self@.len() - i,
        {
            if self.buffer_views[i].is_none() {
                self.buffer_views.set(i, Some(buffer_view));
                proof {
                    assert(self@ =~= old(self)@.update(i as int, Some(buffer_view)));
                }
                return BufferViewHandle { index: i };
            }
            i = i + 1;
        }
        let index = self.buffer_views.len();
        self.buffer_views.push(Some(buffer_view));
        proof {
            assert(forall|j: int|
                0 <= j < old(self)@.len() ==> final(self)@[j] == old(self)@[j]);
        }
        BufferViewHandle { index }
    }

    /// The view a handle points at, if it is still live.
    pub fn get(&self, handle: BufferViewHandle) -> (r: Option<&BufferView>)
        ensures
            self.spec_is_live(handle) ==> r is Some && *r->Some_0 == self@[handle.spec_index()]->Some_0,
            !self.spec_is_live(handle) ==> r is None,
    {
        if handle.index < self.buffer_views.len() {
            self.buffer_views[handle.index].as_ref()
        } else {
            None
        }
    }

    /// Exclusive access to the view a live handle points at.
    pub fn get_mut(&mut self, handle: BufferViewHandle) -> (r: &mut BufferView)
        requires
            old(self).spec_is_live(handle),
        ensures
            *r == old(self)@[handle.spec_index()]->Some_0,
            final(self)@ == old(self)@.update(handle.spec_index(), Some(*final(r))),
    {
        let slot = vstd::std_specs::vec::vec_index_mut(&mut self.buffer_views, handle.index);
        match slot {
            Some(view) => view,
            None => vstd::pervasive::unreached(),
        }
    }

    /// The handles of all live views: one for every occupied slot, in
    /// strictly increasing slot order.
    pub fn iter(&self) -> (r: Vec<BufferViewHandle>)
        ensures
            forall|k: int| 0 <= k < r@.len() ==> self.spec_is_live(#[trigger] r@[k]),
            forall|i: int|
                0 <= i < self@.len() && self@[i] is Some ==> exists|k: int|
                    0 <= k < r@.len() && (#[trigger] r@[k]).spec_index() == i,
            forall|k1: int, k2: int|
                0 <= k1 < k2 < r@.len() ==> (#[trigger] r@[k1]).spec_index() < (
                #[trigger] r@[k2]).spec_index(),
    {
        let mut r: Vec<BufferViewHandle> = Vec::new();
        let mut i: usize = 0;
        while i < self.buffer_views.len()
            invariant
                i <= self@.len(),
                forall|k: int| 0 <= k < r@.len() ==> self.spec_is_live(#[trigger] r@[k]),
                forall|j: int|
                    0 <= j < i && self@[j] is Some ==> exists|k: int|
                        0 <= k < r@.len() && (#[trigger] r@[k]).spec_index() == j,
                forall|k: int| 0 <= k < r@.len() ==> (#[trigger] r@[k]).spec_index() < i,
                forall|k1: int, k2: int|
                    0 <= k1 < k2 < r@.len() ==> (#[trigger] r@[k1]).spec_index() < (
                    #[trigger] r@[k2]).spec_index(),
            decreases self@.len() - i,
        {
            if self.buffer_views[i].is_some() {
                let ghost r0 = r@;
                let h = BufferViewHandle { index: i };
                r.push(h);
                proof {
                    assert(r@[r@.len() - 1].spec_index() == i as int);
                    assert forall|j: int|
                        0 <= j < i + 1 && self@[j] is Some implies exists|k: int|
                        0 <= k < r@.len() && (#[trigger] r@[k]).spec_index() == j by {
                        if j < i {
                            let k = choose|k: int|
                                0 <= k < r0.len() && (#[trigger] r0[k]).spec_index() == j;
                            assert(r@[k].spec_index() == j);
                        } else {
                            assert(r@[r@.len() - 1].spec_index() == j);
                        }
                    }
                }
            }
            i = i + 1;
        }
        r
    }

    /// The handle and buffer handle of every live view: one pair for every
    /// occupied slot, in strictly increasing slot order.
    pub fn iter_with_handles(&self) -> (r: Vec<(BufferViewHandle, BufferHandle)>)
        ensures
            forall|k: int|
                0 <= k < r@.len() ==> self.spec_is_live((#[trigger] r@[k]).0) && self@[r@[k].0.spec_index()]->Some_0.buffer_handle == r@[k].1,
            forall|i: int|
                0 <= i < self@.len() && self@[i] is Some ==> exists|k: int|
                    0 <= k < r@.len() && (#[trigger] r@[k]).0.spec_index() == i,
            forall|k1: int, k2: int|
                0 <= k1 < k2 < r@.len() ==> (#[trigger] r@[k1]).0.spec_index() < (
                #[trigger] r@[k2]).0.spec_index(),
    {
        let mut r: Vec<(BufferViewHandle, BufferHandle)> = Vec::new();
        let mut i: usize = 0;
        while i < self.buffer_views.len()
            invariant
                i <= self@.len(),
                forall|k: int|
                    0 <= k < r@.len() ==> self.spec_is_live((#[trigger] r@[k]).0) && self@[r@[k].0.spec_index()]->Some_0.buffer_handle == r@[k].1,
                forall|j: int|
                    0 <= j < i && self@[j] is Some ==> exists|k: int|
                        0 <= k < r@.len() && (#[trigger] r@[k]).0.spec_index() == j,
                forall|k: int| 0 <= k < r@.len() ==> (#[trigger] r@[k]).0.spec_index() < i,
                forall|k1: int, k2: int|
                    0 <= k1 < k2 < r@.len() ==> (#[trigger] r@[k1]).0.spec_index() < (
                    #[trigger] r@[k2]).0.spec_index(),
            decreases self@.len() - i,
        {
            match &self.buffer_views[i] {
                Some(view) => {
                    let ghost r0 = r@;
                    let h = BufferViewHandle { index: i };
                    let entry = (h, view.buffer_handle);
                    r.push(entry);
                    proof {
                        assert(r@[r@.len() - 1].0.spec_index() == i as int);
                        assert forall|j: int|
                            0 <= j < i + 1 && self@[j] is Some implies exists|k: int|
                            0 <= k < r@.len() && (#[trigger] r@[k]).0.spec_index() == j by {
                            if j < i {
                                let k = choose|k: int|
                                    0 <= k < r0.len() && (#[trigger] r0[k]).0.spec_index() == j;
                                assert(r@[k].0.spec_index() == j);
                            } else {
                                assert(r@[r@.len() - 1].0.spec_index() == j);
                            }
                        }
                    }
                },
                None => {},
            }
            i = i + 1;
        }
        r
    }

    /// Applies the given fixups to the cursors of every view of the given
    /// buffer, the issuing view included.
    pub fn fix_buffer_cursors(&mut self, buffer_handle: BufferHandle, fixups: &Vec<Fixup>)
        requires
            old(self).wf(),
            fixups_wf(fixups@),
        ensures
            final(self).wf(),
            views_fixed(old(self)@, final(self)@, buffer_handle, fixups@),
    {
        let n = self.buffer_views.len();
        let mut i: usize = 0;
        while i < n
            invariant
                old(self).wf(),
                fixups_wf(fixups@),
                n == self@.len(),
                self@.len() == old(self)@.len(),
                i <= n,
                forall|j: int|
                    i <= j < n ==> self@[j] == old(self)@[j],
                forall|j: int|
                    0 <= j < i ==> match old(self)@[j] {
                        Some(v) => {
                            &&& self@[j] is Some
                            &&& if v.buffer_handle == buffer_handle {
                                &&& (#[trigger] self@[j])->Some_0.target_client == v.target_client
                                &&& self@[j]->Some_0.buffer_handle == v.buffer_handle
                                &&& self@[j]->Some_0.cursors@ == spec_fixed_cursors(
                                    v.cursors@,
                                    fixups@,
                                )
                                &&& self@[j]->Some_0.cursors.wf()
                            } else {
                                self@[j] == old(self)@[j]
                            }
                        },
                        None => self@[j] is None,
                    },
            decreases n - i,
        {
            let ghost views0 = self@;
            let slot = vstd::std_specs::vec::vec_index_mut(&mut self.buffer_views, i);
            match slot {
                Some(view) => {
                    if view.buffer_handle == buffer_handle {
                        view.apply_cursor_fixups(fixups);
                    }
                },
                None => {},
            }
            proof {
                assert(self@ =~= views0.update(i as int, self@[i as int]));
            }
            i = i + 1;
        }
    }
}

/// How a batch of recorded edits leaves a buffer's history: any undone tail
/// is discarded, the undo position is unchanged, and the open group keeps
/// its old edits and gains at least one more.
pub open spec fn history_extended(
    before: crate::history::History,
    after: crate::history::History,
) -> bool {
    &&& after.spec_groups() =~~= before.spec_groups().take(before.spec_index())
    &&& after.spec_index() == before.spec_index()
    &&& after.spec_current().len() > before.spec_current().len()
    &&& after.spec_current().take(before.spec_current().len() as int) =~~= before.spec_current()
}

/// All buffer slots other than `h` kept as they were.
pub open spec fn other_buffers_unchanged(
    before: Seq<Option<crate::buffer::Buffer>>,
    after: Seq<Option<crate::buffer::Buffer>>,
    h: BufferHandle,
) -> bool {
    &&& after.len() == before.len()
    &&& forall|j: int| 0 <= j < before.len() && j != h.spec_index() ==> after[j] == before[j]
}

impl BufferViewCollection {
    /// The buffer handle of the view a handle points at, if live.
    fn view_buffer_handle(&self, handle: BufferViewHandle) -> (r: Option<BufferHandle>)
        ensures
            self.spec_is_live(handle) ==> r == Some(
                self@[handle.spec_index()]->Some_0.buffer_handle,
            ),
            !self.spec_is_live(handle) ==> r is None,
    {
        match self.get(handle) {
            Some(view) => Some(view.buffer_handle),
            None => None,
        }
    }

    /// Inserts `text` at `position` in the buffer shown by the view at
    /// `handle`, then fixes up the cursors of every view of that buffer. A
    /// stale view or buffer handle is a no-op.
    pub fn insert_text_at_position(
        &mut self,
        buffers: &mut BufferCollection,
        handle: BufferViewHandle,
        position: BufferPosition,
        text: &[u8],
        cursor_index: usize,
    )
        requires
            old(self).wf(),
            old(buffers).wf(),
        ensures
            final(self).wf(),
            final(buffers).wf(),
            !old(self).spec_is_live(handle) ==> final(self)@ == old(self)@ && final(buffers)@
                == old(buffers)@,
            old(self).spec_is_live(handle) ==> ({
                let bh = old(self)@[handle.spec_index()]->Some_0.buffer_handle;
                &&& !old(buffers).spec_is_live(bh) ==> final(self)@ == old(self)@ && final(buffers)@ == old(buffers)@
                &&& old(buffers).spec_is_live(bh) ==> ({
                    let before = old(buffers)@[bh.spec_index()]->Some_0;
                    let after = final(buffers)@[bh.spec_index()]->Some_0;
                    let lines0 = before.content@;
                    let sat = spec_saturate(lines0, position);
                    let range = BufferRange { from: sat, to: spec_insert_end(sat, text@) };
                    &&& after.content@ == spec_insert(lines0, sat, text@)
                    &&& final(buffers).spec_is_live(bh)
                    &&& other_buffers_unchanged(old(buffers)@, final(buffers)@, bh)
                    &&& views_fixed(
                        old(self)@,
                        final(self)@,
                        bh,
                        seq![Fixup { kind: EditKind::Insert, range }],
                    )
                    &&& after.spec_history().spec_groups() =~~= before.spec_history().spec_groups().take(before.spec_history().spec_index())
                    &&& after.spec_history().spec_index() == before.spec_history().spec_index()
                    &&& after.spec_history().spec_current() =~~= before.spec_history().spec_current().push(
                        EditModel {
                            kind: EditKind::Insert,
                            range,
                            text: text@,
                            cursor_index: cursor_index as int,
                        },
                    )
                })
            }),
    {
        let buffer_handle = match self.view_buffer_handle(handle) {
            Some(h) => h,
            None => {
                return ;
            },
        };
        match buffers.insert_text(buffer_handle, position, text, cursor_index) {
            Some(range) => {
                let mut fixups: Vec<Fixup> = Vec::new();
                fixups.push(Fixup { kind: EditKind::Insert, range });
                self.fix_buffer_cursors(buffer_handle, &fixups);
                proof {
                    assert(fixups@ =~= seq![Fixup { kind: EditKind::Insert, range }]);
                }
            },
            None => {},
        }
    }

    /// Deletes the text inside `range` from the buffer shown by the view at
    /// `handle`, then fixes up the cursors of every view of that buffer. A
    /// stale view or buffer handle is a no-op.
    pub fn delete_in_range(
        &mut self,
        buffers: &mut BufferCollection,
        handle: BufferViewHandle,
        range: BufferRange,
        cursor_index: usize,
    )
        requires
            old(self).wf(),
            old(buffers).wf(),
            crate::buffer_position::pos_le(range.from, range.to),
        ensures
            final(self).wf(),
            final(buffers).wf(),
            !old(self).spec_is_live(handle) ==> final(self)@ == old(self)@ && final(buffers)@
                == old(buffers)@,
            old(self).spec_is_live(handle) ==> ({
                let bh = old(self)@[handle.spec_index()]->Some_0.buffer_handle;
                &&& !old(buffers).spec_is_live(bh) ==> final(self)@ == old(self)@ && final(buffers)@ == old(buffers)@
                &&& old(buffers).spec_is_live(bh) ==> ({
                    let before = old(buffers)@[bh.spec_index()]->Some_0;
                    let after = final(buffers)@[bh.spec_index()]->Some_0;
                    let lines0 = before.content@;
                    &&& after.content@ == spec_delete(
                        lines0,
                        crate::buffer::spec_saturate_range(lines0, range),
                    )
                    &&& final(buffers).spec_is_live(bh)
                    &&& other_buffers_unchanged(old(buffers)@, final(buffers)@, bh)
                    &&& views_fixed(
                        old(self)@,
                        final(self)@,
                        bh,
                        seq![Fixup { kind: EditKind::Delete, range }],
                    )
                    &&& after.spec_history().spec_groups() =~~= before.spec_history().spec_groups().take(before.spec_history().spec_index())
                    &&& after.spec_history().spec_index() == before.spec_history().spec_index()
                    &&& after.spec_history().spec_current() =~~= before.spec_history().spec_current().push(
                        EditModel {
                            kind: EditKind::Delete,
                            range: crate::buffer::spec_saturate_range(lines0, range),
                            text: crate::buffer::spec_range_text(
                                lines0,
                                crate::buffer::spec_saturate_range(lines0, range),
                            ),
                            cursor_index: cursor_index as int,
                        },
                    )
                })
            }),
    {
        let buffer_handle = match self.view_buffer_handle(handle) {
            Some(h) => h,
            None => {
                return ;
            },
        };
        if buffers.delete_range(buffer_handle, range, cursor_index) {
            let mut fixups: Vec<Fixup> = Vec::new();
            fixups.push(Fixup { kind: EditKind::Delete, range });
            self.fix_buffer_cursors(buffer_handle, &fixups);
            proof {
                assert(fixups@ =~= seq![Fixup { kind: EditKind::Delete, range }]);
            }
        }
    }

    /// The handle of this client's view of the given buffer: when such a
    /// view already exists, its handle, the collection untouched; otherwise
    /// the handle of one freshly created view with a single cursor at the
    /// buffer start.
    pub fn buffer_view_handle_from_buffer_handle(
        &mut self,
        target_client: TargetClient,
        buffer_handle: BufferHandle,
    ) -> (h: BufferViewHandle)
        requires
            old(self).wf(),
        ensures
            final(self).wf(),
            final(self).spec_is_live(h),
            final(self)@[h.spec_index()]->Some_0.buffer_handle == buffer_handle,
            final(self)@[h.spec_index()]->Some_0.target_client == target_client,
            forall|j: int|
                0 <= j < old(self)@.len() && j != h.spec_index() ==> final(self)@[j] == old(self)@[j],
            forall|j: int|
                0 <= j < h.spec_index() && j < old(self)@.len() ==> !((#[trigger] old(self)@[j]) is Some
                    && old(self)@[j]->Some_0.buffer_handle == buffer_handle && old(self)@[j]->Some_0.target_client
                    == target_client),
            (exists|j: int|
                0 <= j < old(self)@.len() && old(self)@[j] is Some && (#[trigger] old(self)@[j])->Some_0.buffer_handle == buffer_handle && old(self)@[j]->Some_0.target_client
                    == target_client) ==> final(self)@ == old(self)@ && old(self).spec_is_live(
                h,
            ),
            !(exists|j: int|
                0 <= j < old(self)@.len() && old(self)@[j] is Some && (#[trigger] old(self)@[j])->Some_0.buffer_handle == buffer_handle && old(self)@[j]->Some_0.target_client
                    == target_client) ==> !old(self).spec_is_live(h) && final(self)@[h.spec_index()]->Some_0.cursors@ == seq![crate::cursor::spec_zero_cursor()],
    {
        let mut i: usize = 0;
        while i < self.buffer_views.len()
            invariant
                i <= self@.len(),
                self@ == old(self)@,
                old(self).wf(),
                forall|j: int|
                    0 <= j < i ==> !(self@[j] is Some && (#[trigger] self@[j])->Some_0.buffer_handle == buffer_handle && self@[j]->Some_0.target_client
                        == target_client),
            decreases self@.len() - i,
        {
            match &self.buffer_views[i] {
                Some(view) => {
                    if view.buffer_handle == buffer_handle && view.target_client
                        == target_client {
                        return BufferViewHandle { index: i };
                    }
                },
                None => {},
            }
            i = i + 1;
        }
        self.add(BufferView::new(target_client, buffer_handle))
    }

    /// Removes every view the predicate selects, then removes every buffer
    /// that no remaining view shows.
    pub fn remove_where<F: Fn(&BufferView) -> bool>(
        &mut self,
        buffers: &mut BufferCollection,
        predicate: F,
    )
        requires
            old(self).wf(),
            old(buffers).wf(),
            forall|v: &BufferView| #[trigger] predicate.requires((v,)),
        ensures
            final(self).wf(),
            final(buffers).wf(),
            final(self)@.len() == old(self)@.len(),
            // A view is removed exactly when the predicate answered true for
            // it, and kept exactly when it answered false.
            forall|j: int|
                0 <= j < old(self)@.len() ==> final(self)@[j] == old(self)@[j] || final(self)@[j] is None,
            forall|j: int|
                0 <= j < old(self)@.len() && old(self)@[j] is Some && final(self)@[j] is None
                    ==> call_ensures(predicate, (&(#[trigger] old(self)@[j])->Some_0,), true),
            forall|j: int|
                0 <= j < old(self)@.len() && old(self)@[j] is Some && final(self)@[j] is Some
                    ==> final(self)@[j] == old(self)@[j] && call_ensures(
                    predicate,
                    (&(#[trigger] old(self)@[j])->Some_0,),
                    false,
                ),
            final(buffers)@.len() == old(buffers)@.len(),
            // A buffer is kept exactly when some remaining view still shows
            // it.
            forall|j: int|
                0 <= j < old(buffers)@.len() ==> final(buffers)@[j] == old(buffers)@[j]
                    || final(buffers)@[j] is None,
            forall|j: int|
                0 <= j < old(buffers)@.len() && old(buffers)@[j] is Some && (exists|i: int|
                    0 <= i < final(self)@.len() && final(self)@[i] is Some && (#[trigger] final(self)@[i])->Some_0.buffer_handle.spec_index() == j) ==> final(buffers)@[j]
                    == old(buffers)@[j],
            forall|j: int|
                0 <= j < old(buffers)@.len() && !(exists|i: int|
                    0 <= i < final(self)@.len() && final(self)@[i] is Some && (#[trigger] final(self)@[i])->Some_0.buffer_handle.spec_index() == j) ==> final(buffers)@[j] is None,
    {
        let n = self.buffer_views.len();
        let mut i: usize = 0;
        while i < n
            invariant
                old(self).wf(),
                n == self@.len(),
                self@.len() == old(self)@.len(),
                i <= n,
                forall|v: &BufferView| #[trigger] predicate.requires((v,)),
                forall|j: int| i <= j < n ==> self@[j] == old(self)@[j],
                forall|j: int|
                    0 <= j < i ==> self@[j] == old(self)@[j] || self@[j] is None,
                forall|j: int|
                    0 <= j < i && old(self)@[j] is Some && self@[j] is None ==> call_ensures(
                        predicate,
                        (&(#[trigger] old(self)@[j])->Some_0,),
                        true,
                    ),
                forall|j: int|
                    0 <= j < i && old(self)@[j] is Some && self@[j] is Some ==> self@[j] == old(self)@[j] && call_ensures(
                        predicate,
                        (&(#[trigger] old(self)@[j])->Some_0,),
                        false,
                    ),
            decreases n - i,
        {
            let remove = match &self.buffer_views[i] {
                Some(view) => predicate(view),
                None => false,
            };
            if remove {
                let ghost views0 = self@;
                self.buffer_views.set(i, None);
                proof {
                    assert(self@ =~= views0.update(i as int, None::<BufferView>));
                }
            }
            i = i + 1;
        }
        let m = buffers.buffer_count();
        let mut j: usize = 0;
        while j < m
            invariant
                old(buffers).wf(),
                buffers.wf(),
                m == old(buffers)@.len(),
                buffers@.len() == old(buffers)@.len(),
                j <= m,
                self@.len() == old(self)@.len(),
                forall|k: int|
                    0 <= k < self@.len() ==> self@[k] == old(self)@[k] || self@[k] is None,
                self.wf(),
                forall|k: int|
                    0 <= k < m ==> buffers@[k] == old(buffers)@[k] || buffers@[k] is None,
                forall|k: int| j <= k < m ==> buffers@[k] == old(buffers)@[k],
                forall|k: int|
                    0 <= k < j && old(buffers)@[k] is Some && (exists|i2: int|
                        0 <= i2 < self@.len() && self@[i2] is Some && (#[trigger] self@[i2])->Some_0.buffer_handle.spec_index()
                            == k) ==> buffers@[k] == old(buffers)@[k],
                forall|k: int|
                    0 <= k < j && !(exists|i2: int|
                        0 <= i2 < self@.len() && self@[i2] is Some && (#[trigger] self@[i2])->Some_0.buffer_handle.spec_index()
                            == k) ==> buffers@[k] is None,
            decreases m - j,
        {
            let referenced = self.any_view_shows_buffer_slot(j);
            if !referenced {
                let ghost bufs0 = buffers@;
                buffers.remove(BufferHandle::from_index(j));
                proof {
                    assert(forall|k: int|
                        0 <= k < m && k != j ==> buffers@[k] == bufs0[k]);
                }
            }
            j = j + 1;
        }
    }

    /// Whether any live view shows the buffer in slot `slot`.
    fn any_view_shows_buffer_slot(&self, slot: usize) -> (r: bool)
        ensures
            r == exists|i: int|
                0 <= i < self@.len() && self@[i] is Some && (#[trigger] self@[i])->Some_0.buffer_handle.spec_index()
                    == slot,
    {
        let mut i: usize = 0;
        while i < self.buffer_views.len()
            invariant
                i <= self@.len(),
                forall|k: int|
                    0 <= k < i ==> !(self@[k] is Some && (#[trigger] self@[k])->Some_0.buffer_handle.spec_index()
                        == slot),
            decreases self@.len() - i,
        {
            match &self.buffer_views[i] {
                Some(view) => {
                    if view.buffer_handle.index_value() == slot {
                        return true;
                    }
                },
                None => {},
            }
            i = i + 1;
        }
        false
    }
}

/// The text and fixups after inserting `text` at the position of every
/// cursor from index `i` on, processed in reverse cursor order so earlier
/// insertions are unaffected by later ones: the state after processing
/// cursors `i..len` (the highest-indexed first).
pub open spec fn spec_multi_insert(
    lines: Seq<Seq<u8>>,
    cs: Seq<Cursor>,
    text: Seq<u8>,
    i: int,
) -> (Seq<Seq<u8>>, Seq<Fixup>)
    decreases cs.len() - i,
{
    if i < 0 || i >= cs.len() {
        (lines, Seq::<Fixup>::empty())
    } else {
        let rec = spec_multi_insert(lines, cs, text, i + 1);
        let sat = spec_saturate(rec.0, cs[i].position);
        (
            spec_insert(rec.0, sat, text),
            rec.1.push(
                Fixup {
                    kind: EditKind::Insert,
                    range: BufferRange { from: sat, to: spec_insert_end(sat, text) },
                },
            ),
        )
    }
}

/// The text and fixups after deleting every cursor's selection, processed in
/// reverse cursor order: the state after processing cursors `i..len`.
pub open spec fn spec_multi_delete(lines: Seq<Seq<u8>>, cs: Seq<Cursor>, i: int) -> (
    Seq<Seq<u8>>,
    Seq<Fixup>,
)
    decreases cs.len() - i,
{
    if i < 0 || i >= cs.len() {
        (lines, Seq::<Fixup>::empty())
    } else {
        let rec = spec_multi_delete(lines, cs, i + 1);
        let r = crate::buffer_position::spec_between(cs[i].anchor, cs[i].position);
        (
            spec_delete(rec.0, crate::buffer::spec_saturate_range(rec.0, r)),
            rec.1.push(Fixup { kind: EditKind::Delete, range: r }),
        )
    }
}

impl BufferViewCollection {
    /// The cursors of the view a handle points at, as a vector.
    fn view_cursor_list(&self, handle: BufferViewHandle) -> (r: Vec<Cursor>)
        requires
            self.spec_is_live(handle),
        ensures
            r@ == self@[handle.spec_index()]->Some_0.cursors@,
    {
        let view = match self.get(handle) {
            Some(view) => view,
            None => vstd::pervasive::unreached(),
        };
        let n = view.cursors.len();
        let mut r: Vec<Cursor> = Vec::new();
        let mut i: usize = 0;
        while i < n
            invariant
                n == view.cursors@.len(),
                i <= n,
                r@ == view.cursors@.take(i as int),
            decreases n - i,
        {
            let c = view.cursors.get(i);
            r.push(c);
            proof {
                assert(r@ =~= view.cursors@.take(i as int + 1));
            }
            i = i + 1;
        }
        proof {
            assert(view.cursors@.take(n as int) =~= view.cursors@);
        }
        r
    }

    /// Inserts `text` at every cursor of the view at `handle`, processing
    /// cursors in reverse order, then fixes up the cursors of every view of
    /// the buffer with the collected insertion ranges. A stale view or
    /// buffer handle is a no-op.
    pub fn insert_text_at_cursor_positions(
        &mut self,
        buffers: &mut BufferCollection,
        handle: BufferViewHandle,
        text: &[u8],
    )
        requires
            old(self).wf(),
            old(buffers).wf(),
        ensures
            final(self).wf(),
            final(buffers).wf(),
            !old(self).spec_is_live(handle) ==> final(self)@ == old(self)@ && final(buffers)@
                == old(buffers)@,
            old(self).spec_is_live(handle) ==> ({
                let bh = old(self)@[handle.spec_index()]->Some_0.buffer_handle;
                let cs = old(self)@[handle.spec_index()]->Some_0.cursors@;
                &&& !old(buffers).spec_is_live(bh) ==> final(self)@ == old(self)@ && final(buffers)@ == old(buffers)@
                &&& old(buffers).spec_is_live(bh) ==> ({
                    let lines0 = old(buffers)@[bh.spec_index()]->Some_0.content@;
                    let outcome = spec_multi_insert(lines0, cs, text@, 0);
                    &&& final(buffers)@[bh.spec_index()]->Some_0.content@ == outcome.0
                    &&& final(buffers).spec_is_live(bh)
                    &&& other_buffers_unchanged(old(buffers)@, final(buffers)@, bh)
                    &&& views_fixed(old(self)@, final(self)@, bh, outcome.1)
                    &&& history_extended(
                        old(buffers)@[bh.spec_index()]->Some_0.spec_history(),
                        final(buffers)@[bh.spec_index()]->Some_0.spec_history(),
                    )
                })
            }),
    {
        let buffer_handle = match self.view_buffer_handle(handle) {
            Some(h) => h,
            None => {
                return ;
            },
        };
        match buffers.get(buffer_handle) {
            Some(_) => {},
            None => {
                return ;
            },
        }
        let ghost lines0 = buffers@[buffer_handle.spec_index()]->Some_0.content@;
        let cursors = self.view_cursor_list(handle);
        let ghost cs = cursors@;
        let mut fixups: Vec<Fixup> = Vec::new();
        let mut i: usize = cursors.len();
        while i > 0
            invariant
                buffers.wf(),
                old(buffers).wf(),
                old(buffers).spec_is_live(buffer_handle),
                i <= cs.len(),
                cs == cursors@,
                buffers@.len() == old(buffers)@.len(),
                buffers.spec_is_live(buffer_handle),
                other_buffers_unchanged(old(buffers)@, buffers@, buffer_handle),
                fixups_wf(fixups@),
                (
                    buffers@[buffer_handle.spec_index()]->Some_0.content@,
                    fixups@,
                ) == spec_multi_insert(lines0, cs, text@, i as int),
                i == cs.len() ==> buffers@[buffer_handle.spec_index()] == old(buffers)@[buffer_handle.spec_index()],
                i < cs.len() ==> history_extended(
                    old(buffers)@[buffer_handle.spec_index()]->Some_0.spec_history(),
                    buffers@[buffer_handle.spec_index()]->Some_0.spec_history(),
                ),
            decreases i,
        {
            i = i - 1;
            let ghost slot0 = buffers@[buffer_handle.spec_index()];
            let position = cursors[i].position;
            match buffers.insert_text(buffer_handle, position, text, i) {
                Some(range) => {
                    fixups.push(Fixup { kind: EditKind::Insert, range });
                },
                None => {
                    proof {
                        assert(false);
                    }
                },
            }
            proof {
                let h0 = old(buffers)@[buffer_handle.spec_index()]->Some_0.spec_history();
                let h1 = slot0->Some_0.spec_history();
                let h2 = buffers@[buffer_handle.spec_index()]->Some_0.spec_history();
                assert(old(buffers)@[buffer_handle.spec_index()]->Some_0.wf());
                if i + 1 == cs.len() {
                    assert(h1 == h0);
                    assert(h2.spec_groups() =~~= h0.spec_groups().take(h0.spec_index()));
                } else {
                    assert(history_extended(h0, h1));
                    assert(h1.spec_groups() == h0.spec_groups().take(h0.spec_index()));
                    assert(0 <= h0.spec_index() <= h0.spec_groups().len());
                    assert(h2.spec_groups() =~~= h0.spec_groups().take(h0.spec_index()));
                }
                assert(h2.spec_current().take(h0.spec_current().len() as int)
                    =~~= h0.spec_current());
            }
        }
        self.fix_buffer_cursors(buffer_handle, &fixups);
    }

    /// Deletes every cursor's selection in the view at `handle`, processing
    /// cursors in reverse order, then fixes up the cursors of every view of
    /// the buffer with the deleted ranges. A stale view or buffer handle is
    /// a no-op.
    pub fn delete_in_cursor_ranges(
        &mut self,
        buffers: &mut BufferCollection,
        handle: BufferViewHandle,
    )
        requires
            old(self).wf(),
            old(buffers).wf(),
        ensures
            final(self).wf(),
            final(buffers).wf(),
            !old(self).spec_is_live(handle) ==> final(self)@ == old(self)@ && final(buffers)@
                == old(buffers)@,
            old(self).spec_is_live(handle) ==> ({
                let bh = old(self)@[handle.spec_index()]->Some_0.buffer_handle;
                let cs = old(self)@[handle.spec_index()]->Some_0.cursors@;
                &&& !old(buffers).spec_is_live(bh) ==> final(self)@ == old(self)@ && final(buffers)@ == old(buffers)@
                &&& old(buffers).spec_is_live(bh) ==> ({
                    let lines0 = old(buffers)@[bh.spec_index()]->Some_0.content@;
                    let outcome = spec_multi_delete(lines0, cs, 0);
                    &&& final(buffers)@[bh.spec_index()]->Some_0.content@ == outcome.0
                    &&& final(buffers).spec_is_live(bh)
                    &&& other_buffers_unchanged(old(buffers)@, final(buffers)@, bh)
                    &&& views_fixed(old(self)@, final(self)@, bh, outcome.1)
                    &&& history_extended(
                        old(buffers)@[bh.spec_index()]->Some_0.spec_history(),
                        final(buffers)@[bh.spec_index()]->Some_0.spec_history(),
                    )
                })
            }),
    {
        let buffer_handle = match self.view_buffer_handle(handle) {
            Some(h) => h,
            None => {
                return ;
            },
        };
        match buffers.get(buffer_handle) {
            Some(_) => {},
            None => {
                return ;
            },
        }
        let ghost lines0 = buffers@[buffer_handle.spec_index()]->Some_0.content@;
        let cursors = self.view_cursor_list(handle);
        let ghost cs = cursors@;
        let mut fixups: Vec<Fixup> = Vec::new();
        let mut i: usize = cursors.len();
        while i > 0
            invariant
                buffers.wf(),
                old(buffers).wf(),
                old(buffers).spec_is_live(buffer_handle),
                i <= cs.len(),
                cs == cursors@,
                buffers@.len() == old(buffers)@.len(),
                buffers.spec_is_live(buffer_handle),
                other_buffers_unchanged(old(buffers)@, buffers@, buffer_handle),
                fixups_wf(fixups@),
                (
                    buffers@[buffer_handle.spec_index()]->Some_0.content@,
                    fixups@,
                ) == spec_multi_delete(lines0, cs, i as int),
                i == cs.len() ==> buffers@[buffer_handle.spec_index()] == old(buffers)@[buffer_handle.spec_index()],
                i < cs.len() ==> history_extended(
                    old(buffers)@[buffer_handle.spec_index()]->Some_0.spec_history(),
                    buffers@[buffer_handle.spec_index()]->Some_0.spec_history(),
                ),
            decreases i,
        {
            i = i - 1;
            let ghost slot0 = buffers@[buffer_handle.spec_index()];
            let range = cursors[i].as_range();
            let live = buffers.delete_range(buffer_handle, range, i);
            proof {
                assert(live);
            }
            fixups.push(Fixup { kind: EditKind::Delete, range });
            proof {
                let h0 = old(buffers)@[buffer_handle.spec_index()]->Some_0.spec_history();
                let h1 = slot0->Some_0.spec_history();
                let h2 = buffers@[buffer_handle.spec_index()]->Some_0.spec_history();
                assert(old(buffers)@[buffer_handle.spec_index()]->Some_0.wf());
                if i + 1 == cs.len() {
                    assert(h1 == h0);
                    assert(h2.spec_groups() =~~= h0.spec_groups().take(h0.spec_index()));
                } else {
                    assert(history_extended(h0, h1));
                    assert(h1.spec_groups() == h0.spec_groups().take(h0.spec_index()));
                    assert(0 <= h0.spec_index() <= h0.spec_groups().len());
                    assert(h2.spec_groups() =~~= h0.spec_groups().take(h0.spec_index()));
                }
                assert(h2.spec_current().take(h0.spec_current().len() as int)
                    =~~= h0.spec_current());
            }
        }
        self.fix_buffer_cursors(buffer_handle, &fixups);
    }
}

/// The fixups that a replayed edit sequence applies to sibling views.
pub open spec fn spec_edit_fixups(s: Seq<EditModel>) -> Seq<Fixup> {
    Seq::new(s.len(), |i: int| Fixup { kind: s[i].kind, range: s[i].range })
}

/// Where a replayed edit leaves the cursor that issued it: after the end of
/// an insertion, at the start of a deletion.
pub open spec fn spec_collapse_point(e: EditModel) -> BufferPosition {
    if e.kind == EditKind::Insert {
        e.range.to
    } else {
        e.range.from
    }
}

/// One collapse point per cursor index seen in the replayed edits: each edit
/// overwrites the slot of the cursor that issued it, growing the list with
/// zero positions as needed.
pub open spec fn spec_collapse_points(s: Seq<EditModel>) -> Seq<BufferPosition>
    decreases s.len(),
{
    if s.len() == 0 {
        Seq::<BufferPosition>::empty()
    } else {
        let acc = spec_collapse_points(s.drop_last());
        let e = s.last();
        let grown = if e.cursor_index >= acc.len() {
            acc + Seq::new(
                (e.cursor_index + 1 - acc.len()) as nat,
                |k: int| BufferPosition { line_index: 0usize, column_byte_index: 0usize },
            )
        } else {
            acc
        };
        grown.update(e.cursor_index, spec_collapse_point(e))
    }
}

/// The cursors a view collapses onto after replaying edits: one zero-width
/// cursor per collapse point, clamped to the buffer.
pub open spec fn spec_collapsed_cursors(lines: Seq<Seq<u8>>, s: Seq<EditModel>) -> Seq<Cursor> {
    normalized_cursors(
        Seq::new(
            spec_collapse_points(s).len(),
            |k: int|
                Cursor {
                    anchor: spec_saturate(lines, spec_collapse_points(s)[k]),
                    position: spec_saturate(lines, spec_collapse_points(s)[k]),
                },
        ),
    )
}

/// Like `views_fixed`, with the slot `except` left out of the claim.
pub open spec fn views_fixed_except(
    before: Seq<Option<BufferView>>,
    after: Seq<Option<BufferView>>,
    buffer_handle: BufferHandle,
    fs: Seq<Fixup>,
    except: int,
) -> bool {
    &&& after.len() == before.len()
    &&& forall|j: int|
        0 <= j < before.len() && j != except ==> match before[j] {
            Some(v) => {
                &&& after[j] is Some
                &&& if v.buffer_handle == buffer_handle {
                    &&& (#[trigger] after[j])->Some_0.target_client == v.target_client
                    &&& after[j]->Some_0.buffer_handle == v.buffer_handle
                    &&& after[j]->Some_0.cursors@ == spec_fixed_cursors(v.cursors@, fs)
                } else {
                    after[j] == before[j]
                }
            },
            None => after[j] is None,
        }
}

impl BufferViewCollection {
    /// Replays a sequence of edit records onto the views: every sibling view
    /// of the issuing view's buffer has its cursors fixed up by each edit,
    /// while the issuing view's cursors are rebuilt as zero-width cursors
    /// collapsed onto each edit's landing point, so an undoing user sees
    /// where the change occurred. A stale view or buffer handle, or an empty
    /// edit sequence, leaves the issuing view untouched.
    pub fn apply_edits(
        &mut self,
        buffers: &BufferCollection,
        handle: BufferViewHandle,
        edits: &Vec<Edit>,
    )
        requires
            old(self).wf(),
            buffers.wf(),
            crate::history::edits_ranges_ordered(edits.deep_view()),
        ensures
            final(self).wf(),
            !old(self).spec_is_live(handle) ==> final(self)@ == old(self)@,
            old(self).spec_is_live(handle) ==> ({
                let bh = old(self)@[handle.spec_index()]->Some_0.buffer_handle;
                &&& !buffers.spec_is_live(bh) ==> final(self)@ == old(self)@
                &&& buffers.spec_is_live(bh) ==> ({
                    let lines = buffers@[bh.spec_index()]->Some_0.content@;
                    &&& views_fixed_except(
                        old(self)@,
                        final(self)@,
                        bh,
                        spec_edit_fixups(edits.deep_view()),
                        handle.spec_index(),
                    )
                    &&& final(self)@[handle.spec_index()] is Some
                    &&& ({
                        let v0 = old(self)@[handle.spec_index()]->Some_0;
                        let v1 = final(self)@[handle.spec_index()]->Some_0;
                        &&& v1.target_client == v0.target_client
                        &&& v1.buffer_handle == v0.buffer_handle
                        &&& if edits.deep_view().len() == 0 {
                            v1 == v0
                        } else {
                            v1.cursors@ == spec_collapsed_cursors(lines, edits.deep_view())
                        }
                    })
                })
            }),
    {
        let buffer_handle = match self.view_buffer_handle(handle) {
            Some(h) => h,
            None => {
                return ;
            },
        };
        let buffer = match buffers.get(buffer_handle) {
            Some(buffer) => buffer,
            None => {
                return ;
            },
        };
        let content = &buffer.content;
        let ghost lines = content@;
        let ghost em = edits.deep_view();

        // Fixups for the sibling views.
        let mut fixups: Vec<Fixup> = Vec::new();
        let n = edits.len();
        let mut i: usize = 0;
        while i < n
            invariant
                n == em.len(),
                em == edits.deep_view(),
                i <= n,
                crate::history::edits_ranges_ordered(em),
                fixups@ == spec_edit_fixups(em).take(i as int),
            decreases n - i,
        {
            let e = &edits[i];
            fixups.push(Fixup { kind: e.kind, range: e.range });
            proof {
                assert(fixups@ =~= spec_edit_fixups(em).take(i as int + 1));
            }
            i = i + 1;
        }
        proof {
            assert(fixups@ =~= spec_edit_fixups(em));
            assert(fixups_wf(fixups@));
        }

        // Fix every sibling view of the same buffer.
        let slot_count = self.buffer_views.len();
        let mut j: usize = 0;
        while j < slot_count
            invariant
                old(self).wf(),
                fixups_wf(fixups@),
                fixups@ == spec_edit_fixups(em),
                slot_count == self@.len(),
                self@.len() == old(self)@.len(),
                j <= slot_count,
                self@[handle.spec_index()] == old(self)@[handle.spec_index()],
                0 <= handle.spec_index() < self@.len(),
                forall|k: int| j <= k < slot_count ==> self@[k] == old(self)@[k],
                forall|k: int|
                    0 <= k < j && k != handle.spec_index() ==> match old(self)@[k] {
                        Some(v) => {
                            &&& self@[k] is Some
                            &&& if v.buffer_handle == buffer_handle {
                                &&& (#[trigger] self@[k])->Some_0.target_client
                                    == v.target_client
                                &&& self@[k]->Some_0.buffer_handle == v.buffer_handle
                                &&& self@[k]->Some_0.cursors@ == spec_fixed_cursors(
                                    v.cursors@,
                                    fixups@,
                                )
                                &&& self@[k]->Some_0.cursors.wf()
                            } else {
                                self@[k] == old(self)@[k]
                            }
                        },
                        None => self@[k] is None,
                    },
            decreases slot_count - j,
        {
            let ghost views0 = self@;
            if j != handle.index_value() {
                let slot = vstd::std_specs::vec::vec_index_mut(&mut self.buffer_views, j);
                match slot {
                    Some(view) => {
                        if view.buffer_handle == buffer_handle {
                            view.apply_cursor_fixups(&fixups);
                        }
                    },
                    None => {},
                }
            }
            proof {
                assert(self@ =~= views0.update(j as int, self@[j as int]));
            }
            j = j + 1;
        }

        // Collapse the issuing view's cursors onto the replayed edits.
        if n > 0 {
            let mut points: Vec<BufferPosition> = Vec::new();
            let mut i2: usize = 0;
            proof {
                assert(em.take(0) =~~= Seq::<EditModel>::empty());
            }
            while i2 < n
                invariant
                    n == em.len(),
                    em == edits.deep_view(),
                    i2 <= n,
                    points@ == spec_collapse_points(em.take(i2 as int)),
                decreases n - i2,
            {
                let e = &edits[i2];
                let ci = e.cursor_index;
                let ghost pts0 = points@;
                while points.len() <= ci
                    invariant
                        pts0.len() <= points@.len(),
                        points@.take(pts0.len() as int) == pts0,
                        forall|k: int|
                            pts0.len() <= k < points@.len() ==> points@[k] == (BufferPosition {
                                line_index: 0usize,
                                column_byte_index: 0usize,
                            }),
                        points@.len() <= ci + 1 || points@ == pts0,
                    decreases ci + 1 - points@.len(),
                {
                    let ghost before = points@;
                    points.push(BufferPosition { line_index: 0, column_byte_index: 0 });
                    proof {
                        assert(points@.take(pts0.len() as int) =~= before.take(
                            pts0.len() as int,
                        ));
                    }
                }
                let ghost grown = if em[i2 as int].cursor_index >= pts0.len() {
                    pts0 + Seq::new(
                        (em[i2 as int].cursor_index + 1 - pts0.len()) as nat,
                        |k: int| BufferPosition { line_index: 0usize, column_byte_index: 0usize },
                    )
                } else {
                    pts0
                };
                proof {
                    assert(points@ =~= grown);
                }
                let p = match e.kind {
                    EditKind::Insert => e.range.to,
                    EditKind::Delete => e.range.from,
                };
                points.set(ci, p);
                proof {
                    assert(p == spec_collapse_point(em[i2 as int]));
                    assert(em.take(i2 as int + 1).drop_last() =~~= em.take(i2 as int));
                    assert(em.take(i2 as int + 1).last() == em[i2 as int]);
                    assert(points@ =~= spec_collapse_points(em.take(i2 as int + 1)));
                }
                i2 = i2 + 1;
            }
            proof {
                assert(em.take(n as int) =~~= em);
            }
            let ghost collapsed = Seq::new(
                spec_collapse_points(em).len(),
                |k: int|
                    Cursor {
                        anchor: spec_saturate(lines, spec_collapse_points(em)[k]),
                        position: spec_saturate(lines, spec_collapse_points(em)[k]),
                    },
            );
            let view = self.get_mut(handle);
            let mut guard = view.cursors.mut_guard();
            guard.clear();
            let m = points.len();
            let mut k: usize = 0;
            while k < m
                invariant
                    content.wf(),
                    lines == content@,
                    m == points@.len(),
                    points@ == spec_collapse_points(em),
                    k <= m,
                    collapsed == Seq::new(
                        spec_collapse_points(em).len(),
                        |k2: int|
                            Cursor {
                                anchor: spec_saturate(lines, spec_collapse_points(em)[k2]),
                                position: spec_saturate(lines, spec_collapse_points(em)[k2]),
                            },
                    ),
                    guard@ == collapsed.take(k as int),
                decreases m - k,
            {
                let p = content.saturate_position(points[k]);
                guard.add(Cursor { anchor: p, position: p });
                proof {
                    assert(guard@ =~= collapsed.take(k as int + 1));
                }
                k = k + 1;
            }
            proof {
                assert(guard@ =~= collapsed);
            }
            view.cursors.release_guard(guard);
        }
    }

    /// Takes back the newest undo step of the buffer shown by the view at
    /// `handle` and replays the undone edits onto every view of that buffer.
    pub fn undo(&mut self, buffers: &mut BufferCollection, handle: BufferViewHandle)
        requires
            old(self).wf(),
            old(buffers).wf(),
        ensures
            final(self).wf(),
            final(buffers).wf(),
            !old(self).spec_is_live(handle) ==> final(self)@ == old(self)@ && final(buffers)@
                == old(buffers)@,
            old(self).spec_is_live(handle) ==> ({
                let bh = old(self)@[handle.spec_index()]->Some_0.buffer_handle;
                &&& !old(buffers).spec_is_live(bh) ==> final(self)@ == old(self)@ && final(buffers)@ == old(buffers)@
                &&& old(buffers).spec_is_live(bh) ==> ({
                    let lines0 = old(buffers)@[bh.spec_index()]->Some_0.content@;
                    let history0 = old(buffers)@[bh.spec_index()]->Some_0.spec_history();
                    let committed_groups = crate::history::spec_committed_groups(history0);
                    let committed_index = crate::history::spec_committed_index(history0);
                    let replayed = if committed_index > 0 {
                        crate::history::reversed_inverted(committed_groups[committed_index - 1])
                    } else {
                        Seq::<EditModel>::empty()
                    };
                    let lines1 = final(buffers)@[bh.spec_index()]->Some_0.content@;
                    &&& lines1 == crate::buffer::spec_replay(lines0, replayed)
                    &&& final(buffers).spec_is_live(bh)
                    &&& other_buffers_unchanged(old(buffers)@, final(buffers)@, bh)
                    &&& views_fixed_except(
                        old(self)@,
                        final(self)@,
                        bh,
                        spec_edit_fixups(replayed),
                        handle.spec_index(),
                    )
                    &&& final(self)@[handle.spec_index()] is Some
                    &&& ({
                        let v0 = old(self)@[handle.spec_index()]->Some_0;
                        let v1 = final(self)@[handle.spec_index()]->Some_0;
                        &&& v1.target_client == v0.target_client
                        &&& v1.buffer_handle == v0.buffer_handle
                        &&& if replayed.len() == 0 {
                            v1 == v0
                        } else {
                            v1.cursors@ == spec_collapsed_cursors(lines1, replayed)
                        }
                    })
                })
            }),
    {
        let buffer_handle = match self.view_buffer_handle(handle) {
            Some(h) => h,
            None => {
                return ;
            },
        };
        match buffers.undo(buffer_handle) {
            Some(edits) => {
                self.apply_edits(buffers, handle, &edits);
            },
            None => {},
        }
    }

    /// Replays the oldest undone step of the buffer shown by the view at
    /// `handle` forward again onto every view of that buffer.
    pub fn redo(&mut self, buffers: &mut BufferCollection, handle: BufferViewHandle)
        requires
            old(self).wf(),
            old(buffers).wf(),
        ensures
            final(self).wf(),
            final(buffers).wf(),
            !old(self).spec_is_live(handle) ==> final(self)@ == old(self)@ && final(buffers)@
                == old(buffers)@,
            old(self).spec_is_live(handle) ==> ({
                let bh = old(self)@[handle.spec_index()]->Some_0.buffer_handle;
                &&& !old(buffers).spec_is_live(bh) ==> final(self)@ == old(self)@ && final(buffers)@ == old(buffers)@
                &&& old(buffers).spec_is_live(bh) ==> ({
                    let lines0 = old(buffers)@[bh.spec_index()]->Some_0.content@;
                    let history0 = old(buffers)@[bh.spec_index()]->Some_0.spec_history();
                    let committed_groups = crate::history::spec_committed_groups(history0);
                    let committed_index = crate::history::spec_committed_index(history0);
                    let replayed = if committed_index < committed_groups.len() {
                        committed_groups[committed_index]
                    } else {
                        Seq::<EditModel>::empty()
                    };
                    let lines1 = final(buffers)@[bh.spec_index()]->Some_0.content@;
                    &&& lines1 == crate::buffer::spec_replay(lines0, replayed)
                    &&& final(buffers).spec_is_live(bh)
                    &&& other_buffers_unchanged(old(buffers)@, final(buffers)@, bh)
                    &&& views_fixed_except(
                        old(self)@,
                        final(self)@,
                        bh,
                        spec_edit_fixups(replayed),
                        handle.spec_index(),
                    )
                    &&& final(self)@[handle.spec_index()] is Some
                    &&& ({
                        let v0 = old(self)@[handle.spec_index()]->Some_0;
                        let v1 = final(self)@[handle.spec_index()]->Some_0;
                        &&& v1.target_client == v0.target_client
                        &&& v1.buffer_handle == v0.buffer_handle
                        &&& if replayed.len() == 0 {
                            v1 == v0
                        } else {
                            v1.cursors@ == spec_collapsed_cursors(lines1, replayed)
                        }
                    })
                })
            }),
    {
        let buffer_handle = match self.view_buffer_handle(handle) {
            Some(h) => h,
            None => {
                return ;
            },
        };
        match buffers.redo(buffer_handle) {
            Some(edits) => {
                self.apply_edits(buffers, handle, &edits);
            },
            None => {},
        }
    }
}

/// The text and fixups of one completion pass: for every cursor, processed
/// in reverse order, the identifier word just before the cursor (if any) is
/// deleted and the completion text is inserted at that word's start; the
/// recorded fixup spans from the cursor to the inserted text's end, as an
/// insertion when the text grew past the cursor and as a deletion when the
/// net effect pulled the end before it.
pub open spec fn spec_completion_pass(
    lines: Seq<Seq<u8>>,
    cs: Seq<Cursor>,
    completion: Seq<u8>,
    i: int,
) -> (Seq<Seq<u8>>, Seq<Fixup>)
    decreases cs.len() - i,
{
    if i < 0 || i >= cs.len() {
        (lines, Seq::<Fixup>::empty())
    } else {
        let rec = spec_completion_pass(lines, cs, completion, i + 1);
        let l = rec.0;
        let cpos = cs[i].position;
        let wp0 = BufferPosition {
            line_index: cpos.line_index,
            column_byte_index: if cpos.column_byte_index >= 1 {
                (cpos.column_byte_index - 1) as usize
            } else {
                0usize
            },
        };
        let w = crate::buffer::spec_word_at(l, spec_saturate(l, wp0));
        let l2 = if w.kind == WordKind::Identifier {
            spec_delete(
                l,
                crate::buffer::spec_saturate_range(
                    l,
                    crate::buffer_position::spec_between(w.position, cpos),
                ),
            )
        } else {
            l
        };
        let sat_ins = spec_saturate(l2, w.position);
        let l3 = spec_insert(l2, sat_ins, completion);
        let ins_to = spec_insert_end(sat_ins, completion);
        let fix = if crate::buffer_position::pos_le(cpos, ins_to) {
            Fixup { kind: EditKind::Insert, range: BufferRange { from: cpos, to: ins_to } }
        } else {
            Fixup { kind: EditKind::Delete, range: BufferRange { from: ins_to, to: cpos } }
        };
        (l3, rec.1.push(fix))
    }
}

impl BufferViewCollection {
    /// Completes the identifier word before every cursor of the view at
    /// `handle`: for each cursor, in reverse order, deletes that word (when
    /// there is one) and inserts `completion` in its place, then fixes up
    /// the cursors of every view of the buffer with each cursor's net
    /// effect. A stale view or buffer handle is a no-op.
    pub fn apply_completion(
        &mut self,
        buffers: &mut BufferCollection,
        handle: BufferViewHandle,
        completion: &[u8],
    )
        requires
            old(self).wf(),
            old(buffers).wf(),
        ensures
            final(self).wf(),
            final(buffers).wf(),
            !old(self).spec_is_live(handle) ==> final(self)@ == old(self)@ && final(buffers)@
                == old(buffers)@,
            old(self).spec_is_live(handle) ==> ({
                let bh = old(self)@[handle.spec_index()]->Some_0.buffer_handle;
                let cs = old(self)@[handle.spec_index()]->Some_0.cursors@;
                &&& !old(buffers).spec_is_live(bh) ==> final(self)@ == old(self)@ && final(buffers)@ == old(buffers)@
                &&& old(buffers).spec_is_live(bh) ==> ({
                    let lines0 = old(buffers)@[bh.spec_index()]->Some_0.content@;
                    let outcome = spec_completion_pass(lines0, cs, completion@, 0);
                    &&& final(buffers)@[bh.spec_index()]->Some_0.content@ == outcome.0
                    &&& final(buffers).spec_is_live(bh)
                    &&& other_buffers_unchanged(old(buffers)@, final(buffers)@, bh)
                    &&& views_fixed(old(self)@, final(self)@, bh, outcome.1)
                    &&& history_extended(
                        old(buffers)@[bh.spec_index()]->Some_0.spec_history(),
                        final(buffers)@[bh.spec_index()]->Some_0.spec_history(),
                    )
                })
            }),
    {
        let buffer_handle = match self.view_buffer_handle(handle) {
            Some(h) => h,
            None => {
                return ;
            },
        };
        match buffers.get(buffer_handle) {
            Some(_) => {},
            None => {
                return ;
            },
        }
        let ghost lines0 = buffers@[buffer_handle.spec_index()]->Some_0.content@;
        let cursors = self.view_cursor_list(handle);
        let ghost cs = cursors@;
        let mut fixups: Vec<Fixup> = Vec::new();
        let mut i: usize = cursors.len();
        while i > 0
            invariant
                buffers.wf(),
                old(buffers).wf(),
                old(buffers).spec_is_live(buffer_handle),
                i <= cs.len(),
                cs == cursors@,
                buffers@.len() == old(buffers)@.len(),
                buffers.spec_is_live(buffer_handle),
                other_buffers_unchanged(old(buffers)@, buffers@, buffer_handle),
                fixups_wf(fixups@),
                (
                    buffers@[buffer_handle.spec_index()]->Some_0.content@,
                    fixups@,
                ) == spec_completion_pass(lines0, cs, completion@, i as int),
                i == cs.len() ==> buffers@[buffer_handle.spec_index()] == old(buffers)@[buffer_handle.spec_index()],
                i < cs.len() ==> history_extended(
                    old(buffers)@[buffer_handle.spec_index()]->Some_0.spec_history(),
                    buffers@[buffer_handle.spec_index()]->Some_0.spec_history(),
                ),
            decreases i,
        {
            i = i - 1;
            let ghost slot0 = buffers@[buffer_handle.spec_index()];
            let cursor = cursors[i];
            let mut word_position = cursor.position;
            word_position.column_byte_index = word_position.column_byte_index.saturating_sub(1);
            let word = {
                let buffer = match buffers.get(buffer_handle) {
                    Some(buffer) => buffer,
                    None => vstd::pervasive::unreached(),
                };
                let wp = buffer.content.saturate_position(word_position);
                buffer.content.word_at(wp)
            };
            if matches!(word.kind, WordKind::Identifier) {
                let range = BufferRange::between(word.position, cursor.position);
                let live = buffers.delete_range(buffer_handle, range, i);
                proof {
                    assert(live);
                }
            }
            let insert_to = match buffers.insert_text(buffer_handle, word.position, completion, i)
                {
                Some(range) => range.to,
                None => vstd::pervasive::unreached(),
            };
            let fix = if cursor.position.le(&insert_to) {
                Fixup {
                    kind: EditKind::Insert,
                    range: BufferRange { from: cursor.position, to: insert_to },
                }
            } else {
                Fixup {
                    kind: EditKind::Delete,
                    range: BufferRange { from: insert_to, to: cursor.position },
                }
            };
            fixups.push(fix);
            proof {
                let h0 = old(buffers)@[buffer_handle.spec_index()]->Some_0.spec_history();
                let h1 = slot0->Some_0.spec_history();
                let h2 = buffers@[buffer_handle.spec_index()]->Some_0.spec_history();
                assert(old(buffers)@[buffer_handle.spec_index()]->Some_0.wf());
                if i + 1 == cs.len() {
                    assert(h1 == h0);
                    assert(h2.spec_groups() =~~= h0.spec_groups().take(h0.spec_index()));
                } else {
                    assert(history_extended(h0, h1));
                    assert(h1.spec_groups() == h0.spec_groups().take(h0.spec_index()));
                    assert(0 <= h0.spec_index() <= h0.spec_groups().len());
                    assert(h2.spec_groups() =~~= h0.spec_groups().take(h0.spec_index()));
                }
                assert(h2.spec_current().take(h0.spec_current().len() as int)
                    =~~= h0.spec_current());
            }
        }
        self.fix_buffer_cursors(buffer_handle, &fixups);
    }
}

} // verus!
