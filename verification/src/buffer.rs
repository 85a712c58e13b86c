//! Canonical text storage for one buffer, and the only place text bytes are
//! mutated.
//!
//! A buffer's content is a non-empty sequence of lines; a line is a sequence
//! of bytes that contains no newline byte. The model of the content is
//! `Seq<Seq<u8>>`. Inserting and deleting text are specified as functions on
//! that model, and every mutation returns the range it affected so cursors
//! can be fixed up.

use vstd::prelude::*;

use crate::buffer_position::{BufferPosition, BufferRange, pos_le};
use crate::history::{Edit, EditKind, EditModel, History};

verus! {

/// The byte that separates lines.
pub const NEWLINE: u8 = 10;

/// Splits a byte sequence at newline bytes. Always yields at least one line;
/// none of the yielded lines contains a newline byte.
pub open spec fn split_lines(text: Seq<u8>) -> Seq<Seq<u8>>
    decreases text.len(),
{
    if text.len() == 0 {
        seq![Seq::<u8>::empty()]
    } else if text[0] == NEWLINE {
        seq![Seq::<u8>::empty()] + split_lines(text.drop_first())
    } else {
        let rest = split_lines(text.drop_first());
        seq![seq![text[0]] + rest[0]] + rest.drop_first()
    }
}

/// A well-formed sequence of lines: at least one, none holding a newline.
pub open spec fn lines_wf(lines: Seq<Seq<u8>>) -> bool {
    &&& lines.len() >= 1
    &&& forall|i: int, j: int|
        0 <= i < lines.len() && 0 <= j < lines[i].len() ==> lines[i][j] != NEWLINE
}

pub proof fn lemma_split_lines_wf(text: Seq<u8>)
    ensures
        lines_wf(split_lines(text)),
    decreases text.len(),
{
    if text.len() == 0 {
    } else if text[0] == NEWLINE {
        lemma_split_lines_wf(text.drop_first());
        assert forall|i: int, j: int|
            0 <= i < split_lines(text).len() && 0 <= j < split_lines(text)[i].len() implies split_lines(
            text,
        )[i][j] != NEWLINE by {
            if i > 0 {
                assert(split_lines(text)[i] == split_lines(text.drop_first())[i - 1]);
            }
        }
    } else {
        lemma_split_lines_wf(text.drop_first());
        assert forall|i: int, j: int|
            0 <= i < split_lines(text).len() && 0 <= j < split_lines(text)[i].len() implies split_lines(
            text,
        )[i][j] != NEWLINE by {
            let rest = split_lines(text.drop_first());
            if i == 0 {
                assert(split_lines(text)[0] == seq![text[0]] + rest[0]);
                if j > 0 {
                    assert((seq![text[0]] + rest[0])[j] == rest[0][j - 1]);
                }
            } else {
                assert(split_lines(text)[i] == rest.drop_first()[i - 1]);
                assert(rest.drop_first()[i - 1] == rest[i]);
            }
        }
    }
}

/// Splitting always yields at least one line.
pub proof fn lemma_split_lines_len(text: Seq<u8>)
    ensures
        split_lines(text).len() >= 1,
{
    if text.len() == 0 {
    } else if text[0] == NEWLINE {
    } else {
    }
}

/// Splits a byte slice at newline bytes into owned lines.
pub fn split_bytes(text: &[u8]) -> (parts: Vec<Vec<u8>>)
    ensures
        parts.deep_view() == split_lines(text@),
        parts.len() >= 1,
{
    let mut parts: Vec<Vec<u8>> = Vec::new();
    let mut current: Vec<u8> = Vec::new();
    let mut i: usize = 0;
    proof {
        assert(text@.skip(0) == text@);
    }
    while i < text.len()
        invariant
            0 <= i <= text@.len(),
            split_lines(text@) =~= parts.deep_view() + seq![current@ + split_lines(
                text@.skip(i as int),
            )[0]] + split_lines(text@.skip(i as int)).drop_first(),
        decreases text@.len() - i,
    {
        let ghost rest = text@.skip(i as int);
        let ghost next = split_lines(text@.skip(i as int + 1));
        proof {
            lemma_split_lines_len(rest);
            lemma_split_lines_len(text@.skip(i as int + 1));
            assert(rest[0] == text@[i as int]);
            assert(rest.drop_first() =~= text@.skip(i as int + 1));
        }
        if text[i] == NEWLINE {
            let ghost parts_dv = parts.deep_view();
            let ghost finished_view = current@;
            proof {
                assert(split_lines(rest) == seq![Seq::<u8>::empty()] + next);
                assert(split_lines(rest)[0] =~= Seq::<u8>::empty());
                assert(current@ + split_lines(rest)[0] =~= finished_view);
                assert(split_lines(rest).drop_first() =~= next);
            }
            let finished = current;
            parts.push(finished);
            current = Vec::new();
            proof {
                assert(parts.deep_view() =~~= parts_dv.push(finished_view));
                assert(split_lines(text@) =~= parts.deep_view() + seq![current@ + next[0]]
                    + next.drop_first());
            }
        } else {
            proof {
                assert(split_lines(rest) == seq![seq![rest[0]] + next[0]] + next.drop_first());
                assert(split_lines(rest)[0] == seq![rest[0]] + next[0]);
                assert(split_lines(rest).drop_first() =~= next.drop_first());
                assert(current@ + (seq![rest[0]] + next[0]) =~= (current@.push(text@[i as int]))
                    + next[0]);
            }
            let b = text[i];
            current.push(b);
            proof {
                assert(split_lines(text@) =~= parts.deep_view() + seq![current@ + next[0]]
                    + next.drop_first());
            }
        }
        i = i + 1;
    }
    proof {
        assert(text@.skip(i as int) =~= Seq::<u8>::empty());
        assert(split_lines(Seq::<u8>::empty()) == seq![Seq::<u8>::empty()]);
        assert(current@ + Seq::<u8>::empty() =~= current@);
        assert(split_lines(Seq::<u8>::empty()).drop_first() =~= Seq::<Seq<u8>>::empty());
        assert(split_lines(text@) =~= parts.deep_view() + seq![current@]);
    }
    let ghost parts_dv = parts.deep_view();
    let ghost last_view = current@;
    parts.push(current);
    proof {
        assert(parts.deep_view() =~~= parts_dv.push(last_view));
        assert(parts.deep_view() =~= split_lines(text@));
    }
    parts
}

/// The text of one buffer, stored line by line.
pub struct BufferContent {
    lines: Vec<Vec<u8>>,
}

impl View for BufferContent {
    type V = Seq<Seq<u8>>;

    closed spec fn view(&self) -> Seq<Seq<u8>> {
        self.lines.deep_view()
    }
}

/// A position that lies inside the given lines: its line exists and its
/// column is at most that line's byte length.
pub open spec fn pos_valid(lines: Seq<Seq<u8>>, p: BufferPosition) -> bool {
    p.line_index < lines.len() && p.column_byte_index <= lines[p.line_index as int].len()
}

/// A UTF-8 continuation byte: one that never starts a character.
pub open spec fn is_utf8_continuation(b: u8) -> bool {
    128 <= b < 192
}

/// Whether a column points at the start of a UTF-8 character: column zero
/// always does, otherwise the byte there must not be a continuation byte.
pub open spec fn is_char_start(line: Seq<u8>, c: int) -> bool {
    c == 0 || !is_utf8_continuation(line[c])
}

/// A position that lies inside the lines on a character boundary: at its
/// line's end, or at the start of a character.
pub open spec fn pos_char_aligned(lines: Seq<Seq<u8>>, p: BufferPosition) -> bool {
    &&& pos_valid(lines, p)
    &&& (p.column_byte_index == lines[p.line_index as int].len() || is_char_start(
        lines[p.line_index as int],
        p.column_byte_index as int,
    ))
}

/// The nearest character start at or before `col`: walks back over UTF-8
/// continuation bytes. A column at or past the line's end stays put.
pub open spec fn snap_to_char_start(line: Seq<u8>, col: int) -> int
    decreases col,
{
    if col <= 0 {
        0
    } else if col >= line.len() {
        col
    } else if is_char_start(line, col) {
        col
    } else {
        snap_to_char_start(line, col - 1)
    }
}

pub proof fn lemma_snap_to_char_start_bounds(line: Seq<u8>, col: int)
    requires
        col >= 0,
    ensures
        0 <= snap_to_char_start(line, col) <= col,
        snap_to_char_start(line, col) < line.len() ==> is_char_start(
            line,
            snap_to_char_start(line, col),
        ),
    decreases col,
{
    if col > 0 && col < line.len() && !is_char_start(line, col) {
        lemma_snap_to_char_start_bounds(line, col - 1);
    }
}

/// Clamping a position to the given lines: the line index saturates to the
/// last line, the column saturates to that line's byte length, and a column
/// left in the middle of a UTF-8 character moves back to that character's
/// start.
pub open spec fn spec_saturate(lines: Seq<Seq<u8>>, p: BufferPosition) -> BufferPosition {
    let line = if p.line_index < lines.len() {
        p.line_index as int
    } else {
        lines.len() - 1
    };
    let clamped = if p.column_byte_index <= lines[line].len() {
        p.column_byte_index as int
    } else {
        lines[line].len() as int
    };
    let col = snap_to_char_start(lines[line], clamped);
    BufferPosition { line_index: line as usize, column_byte_index: col as usize }
}

impl BufferContent {
    /// Whether the stored lines are well formed. Constructors establish this
    /// and every mutation preserves it.
    pub open spec fn wf(&self) -> bool {
        lines_wf(self@)
    }

    /// A buffer holding the given text, split at newline bytes.
    pub fn from_bytes(text: &[u8]) -> (r: Self)
        ensures
            r@ == split_lines(text@),
            r.wf(),
    {
        proof {
            lemma_split_lines_wf(text@);
        }
        Self { lines: split_bytes(text) }
    }

    /// How many lines the buffer holds; always at least one.
    pub fn line_count(&self) -> (r: usize)
        requires
            self.wf(),
        ensures
            r == self@.len(),
            r >= 1,
    {
        self.lines.len()
    }

    /// The bytes of the line at the given index.
    pub fn line_at(&self, index: usize) -> (r: &Vec<u8>)
        requires
            self.wf(),
            index < self@.len(),
        ensures
            r@ == self@[index as int],
    {
        &self.lines[index]
    }

    /// The last valid position in the buffer: the end of its last line.
    pub fn end(&self) -> (r: BufferPosition)
        requires
            self.wf(),
        ensures
            r.line_index == self@.len() - 1,
            r.column_byte_index == self@[self@.len() - 1].len(),
    {
        let line_index = self.lines.len() - 1;
        BufferPosition { line_index, column_byte_index: self.lines[line_index].len() }
    }

    /// Clamps a position whose line or column exceeds the buffer's bounds to
    /// the nearest valid position, and moves a column that sits in the
    /// middle of a UTF-8 character back to that character's start.
    pub fn saturate_position(&self, p: BufferPosition) -> (r: BufferPosition)
        requires
            self.wf(),
        ensures
            r == spec_saturate(self@, p),
            pos_char_aligned(self@, r),
    {
        let line_index = if p.line_index < self.lines.len() {
            p.line_index
        } else {
            self.lines.len() - 1
        };
        let line = &self.lines[line_index];
        proof {
            assert(line@ == self@[line_index as int]);
        }
        let len = line.len();
        let clamped = if p.column_byte_index <= len {
            p.column_byte_index
        } else {
            len
        };
        let mut column_byte_index = clamped;
        while column_byte_index > 0 && column_byte_index < len && 128 <= line[column_byte_index]
            && line[column_byte_index] < 192
            invariant
                column_byte_index <= clamped,
                clamped <= line@.len(),
                len == line@.len(),
                snap_to_char_start(line@, clamped as int) == snap_to_char_start(
                    line@,
                    column_byte_index as int,
                ),
            decreases column_byte_index,
        {
            column_byte_index = column_byte_index - 1;
        }
        proof {
            assert(snap_to_char_start(line@, column_byte_index as int)
                == column_byte_index as int);
        }
        BufferPosition { line_index, column_byte_index }
    }

    /// Inserts `text` at `position` and returns the range the inserted text
    /// now occupies, from the insertion point to the end of the inserted
    /// text.
    pub fn insert_text(&mut self, position: BufferPosition, text: &[u8]) -> (r: BufferRange)
        requires
            old(self).wf(),
            pos_valid(old(self)@, position),
        ensures
            final(self)@ == spec_insert(old(self)@, position, text@),
            final(self).wf(),
            r.from == position,
            r.to == spec_insert_end(position, text@),
            pos_le(r.from, r.to),
            pos_valid(final(self)@, r.to),
    {
        let ghost lines0 = self@;
        let ghost parts_dv = split_lines(text@);
        proof {
            lemma_split_lines_wf(text@);
        }
        let mut parts = split_bytes(text);
        let line_count = self.lines.len();
        let mut after = self.lines.split_off(position.line_index + 1);
        let mut target = match self.lines.pop() {
            Some(line) => line,
            None => Vec::new(),
        };
        let ghost head = lines0[position.line_index as int].take(
            position.column_byte_index as int,
        );
        let ghost tail = lines0[position.line_index as int].skip(
            position.column_byte_index as int,
        );
        let mut line_tail = target.split_off(position.column_byte_index);
        proof {
            assert(self.lines.deep_view() =~~= lines0.take(position.line_index as int));
            assert(after.deep_view() =~~= lines0.skip(position.line_index as int + 1));
            assert(target@ =~= head);
            assert(line_tail@ =~= tail);
        }
        if parts.len() == 1 {
            let mut part = match parts.pop() {
                Some(part) => part,
                None => Vec::new(),
            };
            proof {
                assert(part@ == parts_dv[0]);
            }
            target.append(&mut part);
            let to_col = target.len();
            target.append(&mut line_tail);
            self.lines.push(target);
            self.lines.append(&mut after);
            let ghost mid = seq![head + parts_dv[0]] + parts_dv.drop_first();
            proof {
                assert(mid =~~= seq![head + parts_dv[0]]);
                assert(mid.update(mid.len() - 1, mid[mid.len() - 1] + tail) =~~= seq![
                    head + parts_dv[0] + tail,
                ]);
                assert(self.lines.deep_view() =~~= spec_insert(lines0, position, text@));
                assert(lines_wf(self@));
            }
            BufferRange {
                from: position,
                to: BufferPosition { line_index: position.line_index, column_byte_index: to_col },
            }
        } else {
            let mut last = match parts.pop() {
                Some(part) => part,
                None => Vec::new(),
            };
            let to_col = last.len();
            proof {
                assert(last@ == parts_dv.last());
                assert(parts.deep_view() =~~= parts_dv.drop_last());
            }
            last.append(&mut line_tail);
            let mut first = parts.remove(0);
            proof {
                assert(first@ == parts_dv[0]);
            }
            target.append(&mut first);
            self.lines.push(target);
            let ghost mids = parts_dv.drop_last().drop_first();
            let ghost base = lines0.take(position.line_index as int) + seq![head + parts_dv[0]];
            proof {
                assert(parts.deep_view() =~~= mids);
                assert(self.lines.deep_view() =~~= base);
            }
            while parts.len() > 0
                invariant
                    self.lines.deep_view() + parts.deep_view() =~~= base + mids,
                decreases parts.len(),
            {
                let ghost lines_dv = self.lines.deep_view();
                let ghost rest_dv = parts.deep_view();
                let piece = parts.remove(0);
                self.lines.push(piece);
                proof {
                    assert(self.lines.deep_view() =~~= lines_dv.push(rest_dv[0]));
                    assert(parts.deep_view() =~~= rest_dv.drop_first());
                    assert(self.lines.deep_view() + parts.deep_view() =~~= lines_dv + rest_dv);
                }
            }
            proof {
                assert(self.lines.deep_view() =~~= base + mids);
            }
            let to_line = self.lines.len();
            let ghost dv1 = self.lines.deep_view();
            let ghost last_view = last@;
            self.lines.push(last);
            proof {
                assert(self.lines.deep_view() =~~= dv1.push(last_view));
            }
            let ghost dv2 = self.lines.deep_view();
            self.lines.append(&mut after);
            proof {
                assert(self.lines.deep_view() =~~= dv2 + lines0.skip(
                    position.line_index as int + 1,
                ));
            }
            let ghost mid = seq![head + parts_dv[0]] + parts_dv.drop_first();
            let ghost mid2 = mid.update(mid.len() - 1, mid[mid.len() - 1] + tail);
            proof {
                assert(mid[mid.len() - 1] == parts_dv.last());
                assert(mid2 =~~= seq![head + parts_dv[0]] + mids + seq![parts_dv.last() + tail]);
                assert(self.lines.deep_view() =~~= spec_insert(lines0, position, text@));
                assert(to_line == position.line_index + parts_dv.len() - 1);
                assert(lines_wf(self@));
            }
            BufferRange {
                from: position,
                to: BufferPosition { line_index: to_line, column_byte_index: to_col },
            }
        }
    }

    /// Removes all text inside `range`, after clamping the range to the
    /// buffer's bounds.
    pub fn delete_range(&mut self, range: BufferRange)
        requires
            old(self).wf(),
        ensures
            final(self)@ == spec_delete(old(self)@, spec_saturate_range(old(self)@, range)),
            final(self).wf(),
    {
        let ghost lines0 = self@;
        let sat = BufferRange::between(
            self.saturate_position(range.from),
            self.saturate_position(range.to),
        );
        let sat_from = sat.from;
        let sat_to = sat.to;
        let line_count = self.lines.len();
        let mut after = self.lines.split_off(sat_to.line_index + 1);
        let mut mid = self.lines.split_off(sat_from.line_index);
        let mut last = match mid.pop() {
            Some(line) => line,
            None => Vec::new(),
        };
        let mut keep = last.split_off(sat_to.column_byte_index);
        proof {
            assert(self.lines.deep_view() =~~= lines0.take(sat_from.line_index as int));
            assert(after.deep_view() =~~= lines0.skip(sat_to.line_index as int + 1));
            assert(keep@ =~= lines0[sat_to.line_index as int].skip(
                sat_to.column_byte_index as int,
            ));
        }
        if mid.len() == 0 {
            last.truncate(sat_from.column_byte_index);
            proof {
                assert(last@ =~= lines0[sat_from.line_index as int].take(
                    sat_from.column_byte_index as int,
                ));
            }
            last.append(&mut keep);
            self.lines.push(last);
        } else {
            let mut first = parts_first_line(&mut mid);
            first.truncate(sat_from.column_byte_index);
            proof {
                assert(first@ =~= lines0[sat_from.line_index as int].take(
                    sat_from.column_byte_index as int,
                ));
            }
            first.append(&mut keep);
            self.lines.push(first);
        }
        self.lines.append(&mut after);
        proof {
            assert(self.lines.deep_view() =~~= spec_delete(
                lines0,
                spec_saturate_range(lines0, range),
            ));
            assert(lines_wf(self@));
        }
    }

    /// Appends the bytes spanned by `range` to `out`, with a newline byte
    /// between lines.
    pub fn append_range_text_to(&self, range: BufferRange, out: &mut Vec<u8>)
        requires
            self.wf(),
            pos_le(range.from, range.to),
            pos_valid(self@, range.from),
            pos_valid(self@, range.to),
        ensures
            final(out)@ == old(out)@ + spec_range_text(self@, range),
    {
        let ghost total = old(out)@ + spec_range_text(self@, range);
        let mut line_index = range.from.line_index;
        let mut col = range.from.column_byte_index;
        while line_index < range.to.line_index
            invariant
                self.wf(),
                pos_valid(self@, range.to),
                range.from.line_index <= line_index <= range.to.line_index,
                col <= self@[line_index as int].len(),
                line_index == range.to.line_index ==> col <= range.to.column_byte_index,
                total =~= out@ + spec_range_text(
                    self@,
                    BufferRange {
                        from: BufferPosition { line_index, column_byte_index: col },
                        to: range.to,
                    },
                ),
            decreases range.to.line_index - line_index,
        {
            let ghost rest = spec_range_text(
                self@,
                BufferRange {
                    from: BufferPosition {
                        line_index: (line_index + 1) as usize,
                        column_byte_index: 0usize,
                    },
                    to: range.to,
                },
            );
            let line = self.line_at(line_index);
            let mut i = col;
            while i < line.len()
                invariant
                    self.wf(),
                    line_index < self@.len(),
                    line@ == self@[line_index as int],
                    col <= i <= line@.len(),
                    total =~= out@ + line@.skip(i as int) + seq![NEWLINE] + rest,
                decreases line@.len() - i,
            {
                proof {
                    assert(line@.skip(i as int) =~= seq![line@[i as int]] + line@.skip(
                        i as int + 1,
                    ));
                }
                let b = line[i];
                out.push(b);
                i = i + 1;
            }
            proof {
                assert(line@.skip(i as int) =~= Seq::<u8>::empty());
            }
            out.push(NEWLINE);
            line_index = line_index + 1;
            col = 0;
        }
        let ghost last_piece = self@[line_index as int].subrange(
            col as int,
            range.to.column_byte_index as int,
        );
        proof {
            assert(total =~= out@ + last_piece);
        }
        let line = self.line_at(line_index);
        let mut i = col;
        while i < range.to.column_byte_index
            invariant
                line_index < self@.len(),
                line@ == self@[line_index as int],
                col <= i <= range.to.column_byte_index,
                range.to.column_byte_index <= line@.len(),
                total =~= out@ + line@.subrange(i as int, range.to.column_byte_index as int),
            decreases range.to.column_byte_index - i,
        {
            proof {
                assert(line@.subrange(i as int, range.to.column_byte_index as int) =~= seq![
                    line@[i as int],
                ] + line@.subrange(i as int + 1, range.to.column_byte_index as int));
            }
            let b = line[i];
            out.push(b);
            i = i + 1;
        }
        proof {
            assert(line@.subrange(i as int, range.to.column_byte_index as int) =~= Seq::<
                u8,
            >::empty());
            assert(final(out)@ =~= total);
        }
    }
}

/// Classification of a contiguous run of bytes on a line, used by word-wise
/// movement and completion.
#[derive(Clone, Copy, PartialEq, Eq, Structural, Debug)]
pub enum WordKind {
    Identifier,
    Whitespace,
    Symbol,
}

/// The kind of a single byte: space and tab are whitespace; ASCII letters,
/// digits, the underscore and all non-ASCII bytes belong to identifiers;
/// every other byte is a symbol.
pub open spec fn byte_kind(b: u8) -> WordKind {
    if b == 32 || b == 9 {
        WordKind::Whitespace
    } else if (48 <= b && b <= 57) || (65 <= b && b <= 90) || (97 <= b && b <= 122) || b == 95
        || b >= 128 {
        WordKind::Identifier
    } else {
        WordKind::Symbol
    }
}

/// Exec mirror of `byte_kind`.
pub fn byte_kind_of(b: u8) -> (k: WordKind)
    ensures
        k == byte_kind(b),
{
    if b == 32 || b == 9 {
        WordKind::Whitespace
    } else if (48 <= b && b <= 57) || (65 <= b && b <= 90) || (97 <= b && b <= 122) || b == 95
        || b >= 128 {
        WordKind::Identifier
    } else {
        WordKind::Symbol
    }
}

/// The start of the run of same-kind bytes that contains byte `col`.
pub open spec fn word_start_at(line: Seq<u8>, col: int) -> int
    decreases col,
{
    if col <= 0 {
        0
    } else if byte_kind(line[col - 1]) == byte_kind(line[col]) {
        word_start_at(line, col - 1)
    } else {
        col
    }
}

/// The end (exclusive) of the run of same-kind bytes that contains byte
/// `col`.
pub open spec fn word_end_at(line: Seq<u8>, col: int) -> int
    decreases line.len() - col,
{
    if col + 1 >= line.len() {
        line.len() as int
    } else if byte_kind(line[col + 1]) == byte_kind(line[col]) {
        word_end_at(line, col + 1)
    } else {
        col + 1
    }
}

pub proof fn lemma_word_start_at_bounds(line: Seq<u8>, col: int)
    requires
        col >= 0,
    ensures
        0 <= word_start_at(line, col) <= col,
    decreases col,
{
    if col > 0 && byte_kind(line[col - 1]) == byte_kind(line[col]) {
        lemma_word_start_at_bounds(line, col - 1);
    }
}

pub proof fn lemma_word_end_at_bounds(line: Seq<u8>, col: int)
    requires
        0 <= col < line.len(),
    ensures
        col < word_end_at(line, col) <= line.len(),
    decreases line.len() - col,
{
    if col + 1 < line.len() && byte_kind(line[col + 1]) == byte_kind(line[col]) {
        lemma_word_end_at_bounds(line, col + 1);
    }
}

/// A word: the kind of its bytes and the position of its first byte.
#[derive(Clone, Copy, PartialEq, Eq, Structural, Debug)]
pub struct Word {
    pub kind: WordKind,
    pub position: BufferPosition,
}

/// The word under a position: the run of same-kind bytes containing the byte
/// at the position's column. A column at the end of its line yields an empty
/// whitespace word sitting there.
pub open spec fn spec_word_at(lines: Seq<Seq<u8>>, p: BufferPosition) -> Word {
    let line = lines[p.line_index as int];
    if p.column_byte_index < line.len() {
        Word {
            kind: byte_kind(line[p.column_byte_index as int]),
            position: BufferPosition {
                line_index: p.line_index,
                column_byte_index: word_start_at(line, p.column_byte_index as int) as usize,
            },
        }
    } else {
        Word { kind: WordKind::Whitespace, position: p }
    }
}

impl BufferContent {
    /// The word under or adjacent to `p`: the run of same-kind bytes
    /// containing the byte at `p`'s column, or an empty whitespace word when
    /// `p` sits at the end of its line.
    pub fn word_at(&self, p: BufferPosition) -> (w: Word)
        requires
            self.wf(),
            pos_valid(self@, p),
        ensures
            w == spec_word_at(self@, p),
    {
        let line = self.line_at(p.line_index);
        if p.column_byte_index < line.len() {
            let kind = byte_kind_of(line[p.column_byte_index]);
            let start = word_start_index(line, p.column_byte_index);
            Word {
                kind,
                position: BufferPosition {
                    line_index: p.line_index,
                    column_byte_index: start,
                },
            }
        } else {
            Word { kind: WordKind::Whitespace, position: p }
        }
    }
}

/// The words of a line strictly before byte `limit`, nearest first.
pub open spec fn spec_words_before(line: Seq<u8>, limit: int, line_index: usize) -> Seq<Word>
    decreases limit,
    when limit <= line.len()
    via spec_words_before_decreases
{
    if limit <= 0 {
        Seq::<Word>::empty()
    } else {
        let s = word_start_at(line, limit - 1);
        seq![
            Word {
                kind: byte_kind(line[limit - 1]),
                position: BufferPosition { line_index, column_byte_index: s as usize },
            },
        ] + spec_words_before(line, s, line_index)
    }
}

#[via_fn]
proof fn spec_words_before_decreases(line: Seq<u8>, limit: int, line_index: usize) {
    if limit > 0 {
        lemma_word_start_at_bounds(line, limit - 1);
    }
}

/// The words of a line from byte `from` on, nearest first.
pub open spec fn spec_words_after(line: Seq<u8>, from: int, line_index: usize) -> Seq<Word>
    decreases line.len() - from,
    when 0 <= from
    via spec_words_after_decreases
{
    if from >= line.len() {
        Seq::<Word>::empty()
    } else {
        let e = word_end_at(line, from);
        seq![
            Word {
                kind: byte_kind(line[from]),
                position: BufferPosition { line_index, column_byte_index: from as usize },
            },
        ] + spec_words_after(line, e, line_index)
    }
}

#[via_fn]
proof fn spec_words_after_decreases(line: Seq<u8>, from: int, line_index: usize) {
    if 0 <= from < line.len() {
        lemma_word_end_at_bounds(line, from);
    }
}

impl BufferContent {
    /// The word under or adjacent to `p`, with the words to its left
    /// (nearest first) and the words to its right (nearest first) on the
    /// same line.
    pub fn words_from(&self, p: BufferPosition) -> (r: (Word, Vec<Word>, Vec<Word>))
        requires
            self.wf(),
            pos_valid(self@, p),
        ensures
            r.0 == spec_word_at(self@, p),
            ({
                let line = self@[p.line_index as int];
                let col = p.column_byte_index as int;
                let limit = if col < line.len() {
                    word_start_at(line, col)
                } else {
                    col
                };
                r.1@ == spec_words_before(line, limit, p.line_index)
            }),
            ({
                let line = self@[p.line_index as int];
                let col = p.column_byte_index as int;
                let from = if col < line.len() {
                    word_end_at(line, col)
                } else {
                    col
                };
                r.2@ == spec_words_after(line, from, p.line_index)
            }),
    {
        let line = self.line_at(p.line_index);
        let word = self.word_at(p);
        let limit = if p.column_byte_index < line.len() {
            word_start_index(line, p.column_byte_index)
        } else {
            p.column_byte_index
        };
        let from = if p.column_byte_index < line.len() {
            word_end_index(line, p.column_byte_index)
        } else {
            p.column_byte_index
        };

        let mut left: Vec<Word> = Vec::new();
        let mut cursor = limit;
        while cursor > 0
            invariant
                cursor <= line@.len(),
                spec_words_before(line@, limit as int, p.line_index) == left@
                    + spec_words_before(line@, cursor as int, p.line_index),
            decreases cursor,
        {
            let ghost left0 = left@;
            let s = word_start_index(line, cursor - 1);
            let w = Word {
                kind: byte_kind_of(line[cursor - 1]),
                position: BufferPosition { line_index: p.line_index, column_byte_index: s },
            };
            left.push(w);
            proof {
                assert(spec_words_before(line@, cursor as int, p.line_index) =~= seq![w]
                    + spec_words_before(line@, s as int, p.line_index));
                assert(left@ + spec_words_before(line@, s as int, p.line_index) =~= left0
                    + spec_words_before(line@, cursor as int, p.line_index));
            }
            cursor = s;
        }
        proof {
            assert(spec_words_before(line@, 0, p.line_index) =~= Seq::<Word>::empty());
            assert(left@ =~= spec_words_before(line@, limit as int, p.line_index));
        }

        let mut right: Vec<Word> = Vec::new();
        let mut cursor2 = from;
        while cursor2 < line.len()
            invariant
                cursor2 <= line@.len(),
                spec_words_after(line@, from as int, p.line_index) == right@ + spec_words_after(
                    line@,
                    cursor2 as int,
                    p.line_index,
                ),
            decreases line@.len() - cursor2,
        {
            let ghost right0 = right@;
            let e = word_end_index(line, cursor2);
            let w = Word {
                kind: byte_kind_of(line[cursor2]),
                position: BufferPosition {
                    line_index: p.line_index,
                    column_byte_index: cursor2,
                },
            };
            right.push(w);
            proof {
                assert(spec_words_after(line@, cursor2 as int, p.line_index) =~= seq![w]
                    + spec_words_after(line@, e as int, p.line_index));
                assert(right@ + spec_words_after(line@, e as int, p.line_index) =~= right0
                    + spec_words_after(line@, cursor2 as int, p.line_index));
            }
            cursor2 = e;
        }
        proof {
            assert(spec_words_after(line@, line@.len() as int, p.line_index) =~= Seq::<
                Word,
            >::empty());
            assert(right@ =~= spec_words_after(line@, from as int, p.line_index));
        }
        (word, left, right)
    }
}

/// The start of the run of same-kind bytes containing byte `col`.
pub fn word_start_index(line: &Vec<u8>, col: usize) -> (r: usize)
    requires
        col < line@.len(),
    ensures
        r == word_start_at(line@, col as int),
        r <= col,
{
    let mut c = col;
    while c > 0 && byte_kind_of(line[c - 1]) == byte_kind_of(line[c])
        invariant
            0 <= c <= col < line@.len(),
            word_start_at(line@, col as int) == word_start_at(line@, c as int),
        decreases c,
    {
        c = c - 1;
    }
    proof {
        lemma_word_start_at_bounds(line@, c as int);
    }
    c
}

/// The end (exclusive) of the run of same-kind bytes containing byte `col`.
pub fn word_end_index(line: &Vec<u8>, col: usize) -> (r: usize)
    requires
        col < line@.len(),
    ensures
        r == word_end_at(line@, col as int),
        col < r <= line@.len(),
{
    let mut c = col;
    let len = line.len();
    while c + 1 < len && byte_kind_of(line[c + 1]) == byte_kind_of(line[c])
        invariant
            col <= c < line@.len(),
            len == line@.len(),
            word_end_at(line@, col as int) == word_end_at(line@, c as int),
        decreases line@.len() - c,
    {
        c = c + 1;
    }
    c + 1
}

/// Removes and returns the first line of a non-empty vector of lines.
fn parts_first_line(parts: &mut Vec<Vec<u8>>) -> (r: Vec<u8>)
    requires
        old(parts)@.len() > 0,
    ensures
        r@ == old(parts).deep_view()[0],
        final(parts).deep_view() =~~= old(parts).deep_view().drop_first(),
{
    let r = parts.remove(0);
    proof {
        assert(parts.deep_view() =~~= old(parts).deep_view().drop_first());
    }
    r
}

/// What replaying one edit record does to the lines. The edit's range is
/// clamped to the lines first, as every buffer mutation clamps.
pub open spec fn spec_apply_edit(lines: Seq<Seq<u8>>, e: EditModel) -> Seq<Seq<u8>> {
    match e.kind {
        EditKind::Delete => spec_delete(lines, spec_saturate_range(lines, e.range)),
        EditKind::Insert => spec_insert(lines, spec_saturate(lines, e.range.from), e.text),
    }
}

/// What replaying a sequence of edit records, in order, does to the lines.
pub open spec fn spec_replay(lines: Seq<Seq<u8>>, edits: Seq<EditModel>) -> Seq<Seq<u8>>
    decreases edits.len(),
{
    if edits.len() == 0 {
        lines
    } else {
        spec_replay(spec_apply_edit(lines, edits[0]), edits.drop_first())
    }
}

/// One buffer: its text and its edit history.
pub struct Buffer {
    pub content: BufferContent,
    pub history: History,
}

impl Buffer {
    pub open spec fn wf(&self) -> bool {
        self.content.wf() && self.spec_history().wf()
    }

    /// The buffer's edit history, for contracts.
    pub open spec fn spec_history(&self) -> History {
        self.history
    }

    /// A buffer over the given content, with an empty history.
    pub fn new(content: BufferContent) -> (r: Self)
        requires
            content.wf(),
        ensures
            r.content == content,
            r.wf(),
            r.spec_history().spec_groups() == Seq::<Seq<EditModel>>::empty(),
            r.spec_history().spec_current() == Seq::<EditModel>::empty(),
    {
        Self { content, history: History::new() }
    }

    /// Inserts `text` at `position` — clamped to the buffer first — records
    /// the edit, and returns the range the text now occupies.
    pub fn insert_text(&mut self, position: BufferPosition, text: &[u8], cursor_index: usize) -> (r:
        BufferRange)
        requires
            old(self).wf(),
        ensures
            final(self).wf(),
            final(self).content@ == spec_insert(
                old(self).content@,
                spec_saturate(old(self).content@, position),
                text@,
            ),
            r.from == spec_saturate(old(self).content@, position),
            r.to == spec_insert_end(spec_saturate(old(self).content@, position), text@),
            pos_le(r.from, r.to),
            pos_valid(final(self).content@, r.to),
            final(self).spec_history().spec_groups() =~~= old(self).spec_history().spec_groups().take(old(self).spec_history().spec_index()),
            final(self).spec_history().spec_index() == old(self).spec_history().spec_index(),
            final(self).spec_history().spec_current() =~~= old(self).spec_history().spec_current().push(
                EditModel {
                    kind: EditKind::Insert,
                    range: r,
                    text: text@,
                    cursor_index: cursor_index as int,
                },
            ),
    {
        let p = self.content.saturate_position(position);
        let range = self.content.insert_text(p, text);
        let recorded = vstd::slice::slice_to_vec(text);
        self.history.add_edit(
            Edit { kind: EditKind::Insert, range, text: recorded, cursor_index },
        );
        range
    }

    /// Removes the text inside `range` — clamped to the buffer first — and
    /// records the removed bytes so the edit can be undone.
    pub fn delete_range(&mut self, range: BufferRange, cursor_index: usize)
        requires
            old(self).wf(),
        ensures
            final(self).wf(),
            final(self).content@ == spec_delete(
                old(self).content@,
                spec_saturate_range(old(self).content@, range),
            ),
            final(self).spec_history().spec_groups() =~~= old(self).spec_history().spec_groups().take(old(self).spec_history().spec_index()),
            final(self).spec_history().spec_index() == old(self).spec_history().spec_index(),
            final(self).spec_history().spec_current() =~~= old(self).spec_history().spec_current().push(
                EditModel {
                    kind: EditKind::Delete,
                    range: spec_saturate_range(old(self).content@, range),
                    text: spec_range_text(
                        old(self).content@,
                        spec_saturate_range(old(self).content@, range),
                    ),
                    cursor_index: cursor_index as int,
                },
            ),
    {
        let sat = BufferRange::between(
            self.content.saturate_position(range.from),
            self.content.saturate_position(range.to),
        );
        let mut removed: Vec<u8> = Vec::new();
        self.content.append_range_text_to(sat, &mut removed);
        self.content.delete_range(range);
        self.history.add_edit(
            Edit { kind: EditKind::Delete, range: sat, text: removed, cursor_index },
        );
    }

    /// Closes the open undo group: the edits since the last commit become
    /// one undo step. The text does not change.
    pub fn commit_edits(&mut self)
        requires
            old(self).wf(),
        ensures
            final(self).wf(),
            final(self).content == old(self).content,
            final(self).spec_history().spec_current() == Seq::<EditModel>::empty(),
            final(self).spec_history().spec_groups() == crate::history::spec_committed_groups(
                old(self).spec_history(),
            ),
            final(self).spec_history().spec_index() == crate::history::spec_committed_index(
                old(self).spec_history(),
            ),
    {
        self.history.commit();
    }

    /// Takes back the newest undo step: replays its edits inverted, newest
    /// first, onto the text and returns them for cursor fixups.
    pub fn undo(&mut self) -> (r: Vec<Edit>)
        requires
            old(self).wf(),
        ensures
            final(self).wf(),
            final(self).content@ == spec_replay(old(self).content@, r.deep_view()),
            ({
                let committed_groups = crate::history::spec_committed_groups(
                    old(self).spec_history(),
                );
                let committed_index = crate::history::spec_committed_index(
                    old(self).spec_history(),
                );
                if committed_index > 0 {
                    r.deep_view() == crate::history::reversed_inverted(
                        committed_groups[committed_index - 1],
                    )
                } else {
                    r.deep_view() == Seq::<EditModel>::empty()
                }
            }),
            crate::history::edits_ranges_ordered(r.deep_view()),
    {
        let edits = self.history.undo_edits();
        self.replay(&edits);
        edits
    }

    /// Replays the oldest undone step forward again and returns its edits
    /// for cursor fixups.
    pub fn redo(&mut self) -> (r: Vec<Edit>)
        requires
            old(self).wf(),
        ensures
            final(self).wf(),
            final(self).content@ == spec_replay(old(self).content@, r.deep_view()),
            ({
                let committed_groups = crate::history::spec_committed_groups(
                    old(self).spec_history(),
                );
                let committed_index = crate::history::spec_committed_index(
                    old(self).spec_history(),
                );
                if committed_index < committed_groups.len() {
                    r.deep_view() == committed_groups[committed_index]
                } else {
                    r.deep_view() == Seq::<EditModel>::empty()
                }
            }),
            crate::history::edits_ranges_ordered(r.deep_view()),
    {
        let edits = self.history.redo_edits();
        self.replay(&edits);
        edits
    }

    /// Applies a sequence of edit records to the text, in order.
    fn replay(&mut self, edits: &Vec<Edit>)
        requires
            old(self).content.wf(),
            old(self).spec_history().wf(),
        ensures
            final(self).wf(),
            final(self).content@ == spec_replay(old(self).content@, edits.deep_view()),
            final(self).spec_history() == old(self).spec_history(),
    {
        let ghost lines0 = self.content@;
        let ghost all = edits.deep_view();
        let mut i: usize = 0;
        proof {
            assert(all.skip(0) =~~= all);
        }
        while i < edits.len()
            invariant
                i <= all.len(),
                all == edits.deep_view(),
                all.len() == edits@.len(),
                self.content.wf(),
                self.spec_history() == old(self).spec_history(),
                spec_replay(lines0, all) == spec_replay(self.content@, all.skip(i as int)),
            decreases all.len() - i,
        {
            let ghost before = self.content@;
            let e = &edits[i];
            match e.kind {
                EditKind::Delete => {
                    self.content.delete_range(e.range);
                },
                EditKind::Insert => {
                    let p = self.content.saturate_position(e.range.from);
                    self.content.insert_text(p, e.text.as_slice());
                },
            }
            proof {
                lemma_saturate_idempotent(before, e.range.from);
                assert(self.content@ == spec_apply_edit(before, all[i as int]));
                assert(all.skip(i as int).drop_first() =~~= all.skip(i as int + 1));
                assert(all.skip(i as int)[0] == all[i as int]);
            }
            i = i + 1;
        }
        proof {
            assert(all.skip(all.len() as int) =~~= Seq::<EditModel>::empty());
        }
    }
}

/// An opaque, stable identifier of one buffer inside a `BufferCollection`.
#[derive(Clone, Copy, PartialEq, Eq, Structural, Debug)]
pub struct BufferHandle {
    index: usize,
}

impl BufferHandle {
    /// The slot this handle points at, for contracts.
    pub closed spec fn spec_index(&self) -> int {
        self.index as int
    }

    /// A handle for the given slot.
    pub(crate) fn from_index(index: usize) -> (r: Self)
        ensures
            r.spec_index() == index,
    {
        Self { index }
    }

    /// The slot this handle points at.
    pub(crate) fn index_value(&self) -> (r: usize)
        ensures
            r == self.spec_index(),
    {
        self.index
    }
}

/// The registry owning every buffer. Slots are reused only after explicit
/// removal, so handles stay stable.
pub struct BufferCollection {
    buffers: Vec<Option<Buffer>>,
}

impl View for BufferCollection {
    type V = Seq<Option<Buffer>>;

    closed spec fn view(&self) -> Seq<Option<Buffer>> {
        self.buffers@
    }
}

impl BufferCollection {
    pub open spec fn wf(&self) -> bool {
        forall|i: int|
            0 <= i < self@.len() && self@[i] is Some ==> (#[trigger] self@[i])->Some_0.wf()
    }

    /// Whether a handle points at a live buffer.
    pub open spec fn spec_is_live(&self, handle: BufferHandle) -> bool {
        0 <= handle.spec_index() < self@.len() && self@[handle.spec_index()] is Some
    }

    /// An empty collection.
    pub fn new() -> (r: Self)
        ensures
            r@ == Seq::<Option<Buffer>>::empty(),
            r.wf(),
    {
        Self { buffers: Vec::new() }
    }

    /// Adds a buffer, reusing the lowest-index free slot and appending a new
    /// slot only when none is free, and returns its handle.
    pub fn add(&mut self, buffer: Buffer) -> (h: BufferHandle)
        requires
            old(self).wf(),
            buffer.wf(),
        ensures
            final(self).wf(),
            final(self).spec_is_live(h),
            final(self)@[h.spec_index()] == Some(buffer),
            forall|j: int|
                0 <= j < old(self)@.len() && j != h.spec_index() ==> final(self)@[j] == old(self)@[j],
            forall|j: int| 0 <= j < h.spec_index() ==> old(self)@[j] is Some,
            h.spec_index() <= old(self)@.len(),
            h.spec_index() < old(self)@.len() ==> old(self)@[h.spec_index()] is None && final(self)@.len() == old(self)@.len(),
            h.spec_index() == old(self)@.len() ==> final(self)@.len() == old(self)@.len() + 1,
    {
        let mut i: usize = 0;
        while i < self.buffers.len()
            invariant
                i <= self@.len(),
                self@ == old(self)@,
                old(self).wf(),
                buffer.wf(),
                forall|j: int| 0 <= j < i ==> self@[j] is Some,
            decreases self@.len() - i,
        {
            if self.buffers[i].is_none() {
                self.buffers.set(i, Some(buffer));
                proof {
                    assert(self@ =~= old(self)@.update(i as int, Some(buffer)));
                }
                return BufferHandle { index: i };
            }
            i = i + 1;
        }
        let index = self.buffers.len();
        self.buffers.push(Some(buffer));
        proof {
            assert(forall|j: int| 0 <= j < old(self)@.len() ==> final(self)@[j] == old(self)@[j]);
        }
        BufferHandle { index }
    }

    /// The buffer a handle points at, if it is still live.
    pub fn get(&self, handle: BufferHandle) -> (r: Option<&Buffer>)
        ensures
            self.spec_is_live(handle) ==> r is Some && *r->Some_0 == self@[handle.spec_index()]->Some_0,
            !self.spec_is_live(handle) ==> r is None,
    {
        if handle.index < self.buffers.len() {
            self.buffers[handle.index].as_ref()
        } else {
            None
        }
    }

    /// Inserts text into the buffer a handle points at, clamping the
    /// position; returns the occupied range, or `None` for a stale handle.
    pub fn insert_text(
        &mut self,
        handle: BufferHandle,
        position: BufferPosition,
        text: &[u8],
        cursor_index: usize,
    ) -> (r: Option<BufferRange>)
        requires
            old(self).wf(),
        ensures
            final(self).wf(),
            final(self)@.len() == old(self)@.len(),
            forall|j: int|
                0 <= j < old(self)@.len() && j != handle.spec_index() ==> final(self)@[j] == old(self)@[j],
            !old(self).spec_is_live(handle) ==> r is None && final(self)@ == old(self)@,
            old(self).spec_is_live(handle) ==> ({
                let before = old(self)@[handle.spec_index()]->Some_0;
                let after = final(self)@[handle.spec_index()]->Some_0;
                let lines0 = before.content@;
                let sat = spec_saturate(lines0, position);
                &&& final(self).spec_is_live(handle)
                &&& after.content@ == spec_insert(lines0, sat, text@)
                &&& r == Some(
                    BufferRange { from: sat, to: spec_insert_end(sat, text@) },
                )
                &&& pos_le(sat, spec_insert_end(sat, text@))
                &&& after.spec_history().spec_groups() =~~= before.spec_history().spec_groups().take(before.spec_history().spec_index())
                &&& after.spec_history().spec_index() == before.spec_history().spec_index()
                &&& after.spec_history().spec_current() =~~= before.spec_history().spec_current().push(
                    EditModel {
                        kind: EditKind::Insert,
                        range: BufferRange { from: sat, to: spec_insert_end(sat, text@) },
                        text: text@,
                        cursor_index: cursor_index as int,
                    },
                )
            }),
    {
        if handle.index >= self.buffers.len() {
            return None;
        }
        let slot = vstd::std_specs::vec::vec_index_mut(&mut self.buffers, handle.index);
        match slot {
            Some(buffer) => {
                let range = buffer.insert_text(position, text, cursor_index);
                proof {
                    assert(final(self)@ =~= old(self)@.update(
                        handle.spec_index(),
                        Some(*final(buffer)),
                    ));
                }
                Some(range)
            },
            None => None,
        }
    }

    /// Deletes a range from the buffer a handle points at, clamping the
    /// range; reports whether the handle was live.
    pub fn delete_range(
        &mut self,
        handle: BufferHandle,
        range: BufferRange,
        cursor_index: usize,
    ) -> (r: bool)
        requires
            old(self).wf(),
        ensures
            final(self).wf(),
            final(self)@.len() == old(self)@.len(),
            forall|j: int|
                0 <= j < old(self)@.len() && j != handle.spec_index() ==> final(self)@[j] == old(self)@[j],
            r == old(self).spec_is_live(handle),
            !old(self).spec_is_live(handle) ==> final(self)@ == old(self)@,
            old(self).spec_is_live(handle) ==> ({
                let before = old(self)@[handle.spec_index()]->Some_0;
                let after = final(self)@[handle.spec_index()]->Some_0;
                let lines0 = before.content@;
                &&& final(self).spec_is_live(handle)
                &&& after.content@ == spec_delete(lines0, spec_saturate_range(lines0, range))
                &&& after.spec_history().spec_groups() =~~= before.spec_history().spec_groups().take(before.spec_history().spec_index())
                &&& after.spec_history().spec_index() == before.spec_history().spec_index()
                &&& after.spec_history().spec_current() =~~= before.spec_history().spec_current().push(
                    EditModel {
                        kind: EditKind::Delete,
                        range: spec_saturate_range(lines0, range),
                        text: spec_range_text(lines0, spec_saturate_range(lines0, range)),
                        cursor_index: cursor_index as int,
                    },
                )
            }),
    {
        if handle.index >= self.buffers.len() {
            return false;
        }
        let slot = vstd::std_specs::vec::vec_index_mut(&mut self.buffers, handle.index);
        match slot {
            Some(buffer) => {
                buffer.delete_range(range, cursor_index);
                proof {
                    assert(final(self)@ =~= old(self)@.update(
                        handle.spec_index(),
                        Some(*final(buffer)),
                    ));
                }
                true
            },
            None => false,
        }
    }

    /// Closes the open undo group of the buffer a handle points at; a stale
    /// handle is a no-op. The text does not change.
    pub fn commit_edits(&mut self, handle: BufferHandle)
        requires
            old(self).wf(),
        ensures
            final(self).wf(),
            final(self)@.len() == old(self)@.len(),
            forall|j: int|
                0 <= j < old(self)@.len() && j != handle.spec_index() ==> final(self)@[j] == old(self)@[j],
            old(self).spec_is_live(handle) ==> ({
                let before = old(self)@[handle.spec_index()]->Some_0;
                let after = final(self)@[handle.spec_index()]->Some_0;
                &&& final(self).spec_is_live(handle)
                &&& after.content == before.content
                &&& after.spec_history().spec_current() == Seq::<EditModel>::empty()
                &&& after.spec_history().spec_groups() == crate::history::spec_committed_groups(
                    before.spec_history(),
                )
                &&& after.spec_history().spec_index() == crate::history::spec_committed_index(
                    before.spec_history(),
                )
            }),
            !old(self).spec_is_live(handle) ==> final(self)@ == old(self)@,
    {
        if handle.index >= self.buffers.len() {
            return ;
        }
        let slot = vstd::std_specs::vec::vec_index_mut(&mut self.buffers, handle.index);
        match slot {
            Some(buffer) => {
                buffer.commit_edits();
                proof {
                    assert(final(self)@ =~= old(self)@.update(
                        handle.spec_index(),
                        Some(*final(buffer)),
                    ));
                }
            },
            None => {},
        }
    }

    /// Undoes the newest edit group of the buffer a handle points at and
    /// returns the replayed edit records; `None` for a stale handle.
    pub fn undo(&mut self, handle: BufferHandle) -> (r: Option<Vec<Edit>>)
        requires
            old(self).wf(),
        ensures
            final(self).wf(),
            final(self)@.len() == old(self)@.len(),
            forall|j: int|
                0 <= j < old(self)@.len() && j != handle.spec_index() ==> final(self)@[j] == old(self)@[j],
            !old(self).spec_is_live(handle) ==> r is None && final(self)@ == old(self)@,
            old(self).spec_is_live(handle) ==> ({
                let lines0 = old(self)@[handle.spec_index()]->Some_0.content@;
                let history0 = old(self)@[handle.spec_index()]->Some_0.spec_history();
                let committed_groups = crate::history::spec_committed_groups(history0);
                let committed_index = crate::history::spec_committed_index(history0);
                &&& final(self).spec_is_live(handle)
                &&& r is Some
                &&& final(self)@[handle.spec_index()]->Some_0.content@ == spec_replay(
                    lines0,
                    r->Some_0.deep_view(),
                )
                &&& r->Some_0.deep_view() == (if committed_index > 0 {
                    crate::history::reversed_inverted(committed_groups[committed_index - 1])
                } else {
                    Seq::<EditModel>::empty()
                })
                &&& crate::history::edits_ranges_ordered(r->Some_0.deep_view())
            }),
    {
        if handle.index >= self.buffers.len() {
            return None;
        }
        let slot = vstd::std_specs::vec::vec_index_mut(&mut self.buffers, handle.index);
        match slot {
            Some(buffer) => {
                let edits = buffer.undo();
                proof {
                    assert(final(self)@ =~= old(self)@.update(
                        handle.spec_index(),
                        Some(*final(buffer)),
                    ));
                }
                Some(edits)
            },
            None => None,
        }
    }

    /// Replays the oldest undone edit group of the buffer a handle points at
    /// and returns the replayed edit records; `None` for a stale handle.
    pub fn redo(&mut self, handle: BufferHandle) -> (r: Option<Vec<Edit>>)
        requires
            old(self).wf(),
        ensures
            final(self).wf(),
            final(self)@.len() == old(self)@.len(),
            forall|j: int|
                0 <= j < old(self)@.len() && j != handle.spec_index() ==> final(self)@[j] == old(self)@[j],
            !old(self).spec_is_live(handle) ==> r is None && final(self)@ == old(self)@,
            old(self).spec_is_live(handle) ==> ({
                let lines0 = old(self)@[handle.spec_index()]->Some_0.content@;
                let history0 = old(self)@[handle.spec_index()]->Some_0.spec_history();
                let committed_groups = crate::history::spec_committed_groups(history0);
                let committed_index = crate::history::spec_committed_index(history0);
                &&& final(self).spec_is_live(handle)
                &&& r is Some
                &&& final(self)@[handle.spec_index()]->Some_0.content@ == spec_replay(
                    lines0,
                    r->Some_0.deep_view(),
                )
                &&& r->Some_0.deep_view() == (if committed_index < committed_groups.len() {
                    committed_groups[committed_index]
                } else {
                    Seq::<EditModel>::empty()
                })
                &&& crate::history::edits_ranges_ordered(r->Some_0.deep_view())
            }),
    {
        if handle.index >= self.buffers.len() {
            return None;
        }
        let slot = vstd::std_specs::vec::vec_index_mut(&mut self.buffers, handle.index);
        match slot {
            Some(buffer) => {
                let edits = buffer.redo();
                proof {
                    assert(final(self)@ =~= old(self)@.update(
                        handle.spec_index(),
                        Some(*final(buffer)),
                    ));
                }
                Some(edits)
            },
            None => None,
        }
    }

    /// How many slots the collection has, live or not.
    pub fn buffer_count(&self) -> (r: usize)
        ensures
            r == self@.len(),
    {
        self.buffers.len()
    }

    /// Removes the buffer a handle points at; a stale handle is a no-op.
    pub fn remove(&mut self, handle: BufferHandle)
        requires
            old(self).wf(),
        ensures
            final(self).wf(),
            final(self)@.len() == old(self)@.len(),
            !final(self).spec_is_live(handle),
            forall|j: int|
                0 <= j < old(self)@.len() && j != handle.spec_index() ==> final(self)@[j] == old(self)@[j],
    {
        if handle.index < self.buffers.len() {
            self.buffers.set(handle.index, None);
        }
    }
}

/// Saturating an already saturated position changes nothing.
pub proof fn lemma_saturate_idempotent(lines: Seq<Seq<u8>>, p: BufferPosition)
    requires
        lines.len() >= 1,
    ensures
        spec_saturate(lines, spec_saturate(lines, p)) == spec_saturate(lines, p),
{
    let line = if p.line_index < lines.len() {
        p.line_index as int
    } else {
        lines.len() - 1
    };
    let clamped = if p.column_byte_index <= lines[line].len() {
        p.column_byte_index as int
    } else {
        lines[line].len() as int
    };
    lemma_snap_to_char_start_bounds(lines[line], clamped);
    let col = snap_to_char_start(lines[line], clamped);
    assert(snap_to_char_start(lines[line], col) == col);
}

/// The lines after inserting `text` at position `p`: the line at `p` is split
/// at `p`'s column, the first piece of `text` joins the head, the last piece
/// joins the tail, and any pieces in between become lines of their own.
pub open spec fn spec_insert(lines: Seq<Seq<u8>>, p: BufferPosition, text: Seq<u8>) -> Seq<
    Seq<u8>,
> {
    let parts = split_lines(text);
    let head = lines[p.line_index as int].take(p.column_byte_index as int);
    let tail = lines[p.line_index as int].skip(p.column_byte_index as int);
    let mid = seq![head + parts[0]] + parts.drop_first();
    let mid2 = mid.update(mid.len() - 1, mid[mid.len() - 1] + tail);
    lines.take(p.line_index as int) + mid2 + lines.skip(p.line_index as int + 1)
}

/// Where the end of text inserted at `p` lands: on `p`'s line moved forward
/// by the text's byte length if the text holds no newline, otherwise at the
/// end of the text's last piece.
pub open spec fn spec_insert_end(p: BufferPosition, text: Seq<u8>) -> BufferPosition {
    let parts = split_lines(text);
    if parts.len() == 1 {
        BufferPosition {
            line_index: p.line_index,
            column_byte_index: (p.column_byte_index + parts[0].len()) as usize,
        }
    } else {
        BufferPosition {
            line_index: (p.line_index + parts.len() - 1) as usize,
            column_byte_index: parts.last().len() as usize,
        }
    }
}

/// The lines after deleting the text inside `range`: the head of the range's
/// first line joins the tail of its last line, and the lines in between are
/// removed.
pub open spec fn spec_delete(lines: Seq<Seq<u8>>, r: BufferRange) -> Seq<Seq<u8>> {
    lines.take(r.from.line_index as int) + seq![
        lines[r.from.line_index as int].take(r.from.column_byte_index as int) + lines[r.to.line_index as int].skip(
            r.to.column_byte_index as int,
        ),
    ] + lines.skip(r.to.line_index as int + 1)
}

/// Both ends of a range clamped to the given lines and put back in order:
/// clamping an out-of-bounds end can move it past the other end.
pub open spec fn spec_saturate_range(lines: Seq<Seq<u8>>, r: BufferRange) -> BufferRange {
    crate::buffer_position::spec_between(spec_saturate(lines, r.from), spec_saturate(lines, r.to))
}

/// The bytes spanned by `range`, with a newline byte between lines.
pub open spec fn spec_range_text(lines: Seq<Seq<u8>>, r: BufferRange) -> Seq<u8>
    decreases r.to.line_index - r.from.line_index,
{
    if r.from.line_index == r.to.line_index {
        lines[r.from.line_index as int].subrange(
            r.from.column_byte_index as int,
            r.to.column_byte_index as int,
        )
    } else if r.from.line_index < r.to.line_index {
        lines[r.from.line_index as int].skip(r.from.column_byte_index as int) + seq![NEWLINE]
            + spec_range_text(
            lines,
            BufferRange {
                from: BufferPosition {
                    line_index: (r.from.line_index + 1) as usize,
                    column_byte_index: 0usize,
                },
                to: r.to,
            },
        )
    } else {
        Seq::<u8>::empty()
    }
}

/// Each piece of a split is no longer than the split text.
pub proof fn lemma_split_lines_piece_len(text: Seq<u8>)
    ensures
        split_lines(text)[0].len() <= text.len(),
        split_lines(text).last().len() <= text.len(),
        split_lines(text).len() <= text.len() + 1,
    decreases text.len(),
{
    lemma_split_lines_len(text);
    if text.len() == 0 {
    } else if text[0] == NEWLINE {
        lemma_split_lines_piece_len(text.drop_first());
        assert(split_lines(text).last() == split_lines(text.drop_first()).last());
    } else {
        lemma_split_lines_piece_len(text.drop_first());
        let rest = split_lines(text.drop_first());
        assert(split_lines(text)[0] == seq![text[0]] + rest[0]);
        if rest.len() == 1 {
            assert(split_lines(text).last() == seq![text[0]] + rest[0]);
        } else {
            assert(split_lines(text).last() == rest.drop_first()[rest.len() - 2]);
            assert(rest.drop_first()[rest.len() - 2] == rest.last());
        }
    }
}

/// Inserting text at a valid position and then deleting the range the
/// insertion reported restores the original lines, as long as the reported
/// end does not exceed the machine's index range and neither the insertion
/// point nor the text's first byte sits in the middle of a UTF-8 character
/// (the deletion clamps its range to character starts, so it would otherwise
/// take more than was inserted).
pub proof fn lemma_insert_then_delete_restores(
    lines: Seq<Seq<u8>>,
    p: BufferPosition,
    text: Seq<u8>,
)
    requires
        lines_wf(lines),
        pos_valid(lines, p),
        p.column_byte_index < lines[p.line_index as int].len() ==> !is_utf8_continuation(
            lines[p.line_index as int][p.column_byte_index as int],
        ),
        text.len() > 0 ==> !is_utf8_continuation(text[0]),
        p.line_index + text.len() + 1 <= usize::MAX,
        p.column_byte_index + text.len() <= usize::MAX,
    ensures
        ({
            let inserted = spec_insert(lines, p, text);
            let range = BufferRange { from: p, to: spec_insert_end(p, text) };
            spec_delete(inserted, spec_saturate_range(inserted, range)) == lines
        }),
{
    let parts = split_lines(text);
    lemma_split_lines_len(text);
    lemma_split_lines_piece_len(text);
    let pl = p.line_index as int;
    let pc = p.column_byte_index as int;
    let head = lines[pl].take(pc);
    let tail = lines[pl].skip(pc);
    let mid = seq![head + parts[0]] + parts.drop_first();
    let mid2 = mid.update(mid.len() - 1, mid[mid.len() - 1] + tail);
    let inserted = spec_insert(lines, p, text);
    let end = spec_insert_end(p, text);
    let el = end.line_index as int;
    let ec = end.column_byte_index as int;
    assert(mid.len() == parts.len());
    assert(inserted.len() == lines.len() + parts.len() - 1);
    assert(el == pl + parts.len() - 1);
    assert(inserted[pl] == mid2[0]);
    assert(inserted[el] == mid2[parts.len() - 1]);
    if parts.len() == 1 {
        assert(mid2 =~~= seq![head + parts[0] + tail]);
        assert(ec == pc + parts[0].len());
        assert(inserted[pl] == head + parts[0] + tail);
        assert(head.len() == pc);
    } else {
        assert(mid2[0] == head + parts[0]);
        assert(mid2[parts.len() - 1] == parts.last() + tail);
        assert(ec == parts.last().len());
    }
    // Both range ends are valid in the inserted lines and sit on character
    // boundaries there, so clamping is the identity and the range stays
    // ordered: the byte at the insertion point is the text's first byte (or
    // the line's old byte when the text is empty or begins with a newline),
    // and the byte at the end is the old byte the insertion point pointed
    // at, carried along in the tail.
    assert(pos_valid(inserted, p));
    assert(pos_valid(inserted, end));
    assert(pos_le(p, end));
    let range = BufferRange { from: p, to: end };
    if pc < inserted[pl].len() {
        if parts[0].len() > 0 {
            assert(text.len() > 0 && text[0] != NEWLINE);
            assert(parts[0][0] == text[0]);
            assert(inserted[pl][pc] == parts[0][0]);
        } else if parts.len() == 1 {
            assert(inserted[pl][pc] == tail[0]);
            assert(tail[0] == lines[pl][pc]);
        } else {
            assert(inserted[pl] == head + parts[0]);
            assert(pc == inserted[pl].len());
        }
        assert(!is_utf8_continuation(inserted[pl][pc]) || pc == inserted[pl].len());
    }
    assert(snap_to_char_start(inserted[pl], pc) == pc);
    assert(spec_saturate(inserted, p) == p);
    if ec < inserted[el].len() {
        assert(inserted[el][ec] == tail[0]);
        assert(tail[0] == lines[pl][pc]);
        assert(pc < lines[pl].len());
        assert(!is_utf8_continuation(inserted[el][ec]));
    }
    assert(snap_to_char_start(inserted[el], ec) == ec);
    assert(spec_saturate(inserted, end) == end);
    assert(spec_saturate_range(inserted, range) == range);
    // Deleting the inserted span stitches the head back to the tail.
    let deleted = spec_delete(inserted, range);
    assert(inserted.take(pl) =~~= lines.take(pl));
    assert(inserted.skip(el + 1) =~~= lines.skip(pl + 1));
    assert(inserted[pl].take(pc) =~= head);
    assert(inserted[el].skip(ec) =~= tail);
    assert(head + tail =~= lines[pl]);
    assert(deleted =~~= lines);
}

} // verus!
