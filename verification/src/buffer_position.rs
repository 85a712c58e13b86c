//! Positions and ranges inside a buffer, and the positional transforms a
//! position undergoes when text is inserted or deleted elsewhere in the
//! buffer.
//!
//! A position is a `(line_index, column_byte_index)` pair ordered
//! lexicographically. A range is an ordered pair of positions. All arithmetic
//! on lines and columns saturates instead of overflowing.

use vstd::prelude::*;

verus! {

/// Clamps a mathematical integer into the `usize` range.
pub open spec fn clamp_usize(v: int) -> usize {
    if v > usize::MAX {
        usize::MAX
    } else if v < 0 {
        0usize
    } else {
        v as usize
    }
}

/// A location in a buffer: a line index and a byte offset into that line.
#[derive(Clone, Copy, PartialEq, Eq, Structural, Debug)]
pub struct BufferPosition {
    pub line_index: usize,
    pub column_byte_index: usize,
}

/// Lexicographic strict order on positions: by line, then by column.
pub open spec fn pos_lt(a: BufferPosition, b: BufferPosition) -> bool {
    a.line_index < b.line_index || (a.line_index == b.line_index
        && a.column_byte_index < b.column_byte_index)
}

/// Lexicographic order on positions, allowing equality.
pub open spec fn pos_le(a: BufferPosition, b: BufferPosition) -> bool {
    a.line_index < b.line_index || (a.line_index == b.line_index
        && a.column_byte_index <= b.column_byte_index)
}

impl BufferPosition {
    /// The position at the given line and column.
    pub fn line_col(line_index: usize, column_byte_index: usize) -> (r: Self)
        ensures
            r == (BufferPosition { line_index, column_byte_index }),
    {
        Self { line_index, column_byte_index }
    }

    /// Whether `self` comes strictly before `other`.
    pub fn lt(&self, other: &Self) -> (r: bool)
        ensures
            r == pos_lt(*self, *other),
    {
        self.line_index < other.line_index || (self.line_index == other.line_index
            && self.column_byte_index < other.column_byte_index)
    }

    /// Whether `self` comes before `other` or equals it.
    pub fn le(&self, other: &Self) -> (r: bool)
        ensures
            r == pos_le(*self, *other),
    {
        self.line_index < other.line_index || (self.line_index == other.line_index
            && self.column_byte_index <= other.column_byte_index)
    }

    /// Where this position lands after the text occupying `range` was
    /// inserted: positions strictly before the insertion point stay put,
    /// positions at or after it are pushed forward by the insertion's
    /// line/column delta. A position exactly at the insertion point is
    /// pushed, so text typed at a cursor ends up before it.
    pub fn inserted(&self, range: BufferRange) -> (r: Self)
        requires
            pos_le(range.from, range.to),
        ensures
            r == pos_inserted(*self, range),
    {
        if self.lt(&range.from) {
            *self
        } else if self.line_index == range.from.line_index {
            let column = range.to.column_byte_index.saturating_add(
                self.column_byte_index - range.from.column_byte_index,
            );
            let line = self.line_index.saturating_add(
                range.to.line_index - range.from.line_index,
            );
            Self { line_index: line, column_byte_index: column }
        } else {
            let line = self.line_index.saturating_add(
                range.to.line_index - range.from.line_index,
            );
            Self { line_index: line, column_byte_index: self.column_byte_index }
        }
    }

    /// Where this position lands after the text occupying `range` was
    /// deleted: positions strictly before the range stay put, positions
    /// inside it collapse to its start, positions after it are pulled
    /// backward by the range's line/column delta.
    pub fn deleted(&self, range: BufferRange) -> (r: Self)
        requires
            pos_le(range.from, range.to),
        ensures
            r == pos_deleted(*self, range),
    {
        if self.lt(&range.from) {
            *self
        } else if self.le(&range.to) {
            range.from
        } else if self.line_index == range.to.line_index {
            let column = range.from.column_byte_index.saturating_add(
                self.column_byte_index - range.to.column_byte_index,
            );
            Self { line_index: range.from.line_index, column_byte_index: column }
        } else {
            let line = self.line_index - (range.to.line_index - range.from.line_index);
            Self { line_index: line, column_byte_index: self.column_byte_index }
        }
    }
}

/// The insert transform of `BufferPosition::inserted`, as a function on the
/// model. Saturates at `usize::MAX`.
pub open spec fn pos_inserted(p: BufferPosition, range: BufferRange) -> BufferPosition {
    if pos_lt(p, range.from) {
        p
    } else if p.line_index == range.from.line_index {
        BufferPosition {
            line_index: clamp_usize(
                p.line_index + range.to.line_index - range.from.line_index,
            ),
            column_byte_index: clamp_usize(
                range.to.column_byte_index + p.column_byte_index
                    - range.from.column_byte_index,
            ),
        }
    } else {
        BufferPosition {
            line_index: clamp_usize(
                p.line_index + range.to.line_index - range.from.line_index,
            ),
            column_byte_index: p.column_byte_index,
        }
    }
}

/// The delete transform of `BufferPosition::deleted`, as a function on the
/// model.
pub open spec fn pos_deleted(p: BufferPosition, range: BufferRange) -> BufferPosition {
    if pos_lt(p, range.from) {
        p
    } else if pos_le(p, range.to) {
        range.from
    } else if p.line_index == range.to.line_index {
        BufferPosition {
            line_index: range.from.line_index,
            column_byte_index: clamp_usize(
                range.from.column_byte_index + p.column_byte_index
                    - range.to.column_byte_index,
            ),
        }
    } else {
        BufferPosition {
            line_index: clamp_usize(
                p.line_index - (range.to.line_index - range.from.line_index),
            ),
            column_byte_index: p.column_byte_index,
        }
    }
}

/// A span of text: an ordered pair of positions, `from <= to`.
#[derive(Clone, Copy, PartialEq, Eq, Structural, Debug)]
pub struct BufferRange {
    pub from: BufferPosition,
    pub to: BufferPosition,
}

impl BufferRange {
    /// The range between two positions, in order: the smaller becomes `from`.
    pub fn between(a: BufferPosition, b: BufferPosition) -> (r: Self)
        ensures
            r == spec_between(a, b),
            pos_le(r.from, r.to),
    {
        if a.le(&b) {
            Self { from: a, to: b }
        } else {
            Self { from: b, to: a }
        }
    }
}

/// The ordered range between two positions.
pub open spec fn spec_between(a: BufferPosition, b: BufferPosition) -> BufferRange {
    if pos_le(a, b) {
        BufferRange { from: a, to: b }
    } else {
        BufferRange { from: b, to: a }
    }
}

/// Inserting a range and then deleting the same range moves any position back
/// to where it started, as long as the insert transform did not saturate:
/// its line and column stay within `usize`.
pub proof fn lemma_insert_delete_inverse_position(p: BufferPosition, range: BufferRange)
    requires
        pos_le(range.from, range.to),
        p.line_index + range.to.line_index - range.from.line_index <= usize::MAX,
        range.to.column_byte_index + p.column_byte_index - range.from.column_byte_index
            <= usize::MAX,
    ensures
        pos_deleted(pos_inserted(p, range), range) == p,
{
}

} // verus!
