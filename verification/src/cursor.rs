//! Cursors and the per-view cursor collection.
//!
//! A cursor is a pair of positions: the selection's fixed end (`anchor`) and
//! its live end (`position`). A view's cursors live in a `CursorCollection`:
//! an ordered collection with one distinguished main cursor, mutated only in
//! batches through a guard. Releasing the guard normalizes the collection:
//! cursors are sorted by position (anchors breaking ties) and identical
//! cursors merge into one, so the collection never holds two cursors with
//! the same anchor and position.

use vstd::prelude::*;

use crate::buffer_position::{
    BufferPosition, BufferRange, pos_deleted, pos_inserted, pos_le,
};

verus! {

/// A caret or selection: `anchor` is the fixed end, `position` the live end.
#[derive(Clone, Copy, PartialEq, Eq, Structural, Debug)]
pub struct Cursor {
    pub anchor: BufferPosition,
    pub position: BufferPosition,
}

/// The cursor after an insertion occupying `range`: both ends are shifted
/// by the insert transform.
pub open spec fn cursor_inserted(c: Cursor, range: BufferRange) -> Cursor {
    Cursor {
        anchor: pos_inserted(c.anchor, range),
        position: pos_inserted(c.position, range),
    }
}

/// The cursor after the text in `range` was deleted: both ends are shifted
/// by the delete transform.
pub open spec fn cursor_deleted(c: Cursor, range: BufferRange) -> Cursor {
    Cursor {
        anchor: pos_deleted(c.anchor, range),
        position: pos_deleted(c.position, range),
    }
}

impl Cursor {
    /// A zero-width cursor at the buffer's first position.
    pub fn zero() -> (r: Cursor)
        ensures
            r == spec_zero_cursor(),
    {
        Cursor {
            anchor: BufferPosition { line_index: 0, column_byte_index: 0 },
            position: BufferPosition { line_index: 0, column_byte_index: 0 },
        }
    }

    /// Shifts this cursor to account for an insertion that now occupies
    /// `range`.
    pub fn insert(&mut self, range: BufferRange)
        requires
            pos_le(range.from, range.to),
        ensures
            *final(self) == cursor_inserted(*old(self), range),
    {
        self.anchor = self.anchor.inserted(range);
        self.position = self.position.inserted(range);
    }

    /// Shifts this cursor to account for the deletion of the text that
    /// occupied `range`.
    pub fn delete(&mut self, range: BufferRange)
        requires
            pos_le(range.from, range.to),
        ensures
            *final(self) == cursor_deleted(*old(self), range),
    {
        self.anchor = self.anchor.deleted(range);
        self.position = self.position.deleted(range);
    }

    /// The selection as an ordered range, whichever end is larger.
    pub fn as_range(&self) -> (r: BufferRange)
        ensures
            r == crate::buffer_position::spec_between(self.anchor, self.position),
            pos_le(r.from, r.to),
    {
        BufferRange::between(self.anchor, self.position)
    }
}

/// The cursor every collection starts from.
pub open spec fn spec_zero_cursor() -> Cursor {
    Cursor {
        anchor: BufferPosition { line_index: 0usize, column_byte_index: 0usize },
        position: BufferPosition { line_index: 0usize, column_byte_index: 0usize },
    }
}

/// The order cursors are stored in: by position, with ties broken by
/// anchor, so identical cursors always end up side by side.
pub open spec fn cursor_le(a: Cursor, b: Cursor) -> bool {
    crate::buffer_position::pos_lt(a.position, b.position) || (a.position == b.position
        && pos_le(a.anchor, b.anchor))
}

/// Inserts `c` into `s` before the maximal suffix of cursors that sort
/// above it: a stable insertion step.
pub open spec fn sorted_insert(s: Seq<Cursor>, c: Cursor) -> Seq<Cursor>
    decreases s.len(),
{
    if s.len() == 0 {
        seq![c]
    } else if cursor_le(s.last(), c) {
        s.push(c)
    } else {
        sorted_insert(s.drop_last(), c).push(s.last())
    }
}

/// Stable sort of cursors by position and anchor: fully equal cursors keep
/// their order.
pub open spec fn sorted_cursors(s: Seq<Cursor>) -> Seq<Cursor>
    decreases s.len(),
{
    if s.len() == 0 {
        Seq::<Cursor>::empty()
    } else {
        sorted_insert(sorted_cursors(s.drop_last()), s.last())
    }
}

/// Removes each cursor that equals the cursor directly before it.
pub open spec fn dedup_adjacent(s: Seq<Cursor>) -> Seq<Cursor>
    decreases s.len(),
{
    if s.len() == 0 {
        Seq::<Cursor>::empty()
    } else if s.len() == 1 {
        s
    } else {
        let d = dedup_adjacent(s.drop_last());
        if d.len() > 0 && d.last() == s.last() {
            d
        } else {
            d.push(s.last())
        }
    }
}

/// What releasing a mutation guard leaves behind: the staged cursors sorted
/// stably by position and anchor with duplicates merged; if nothing remains,
/// a single zero cursor.
pub open spec fn normalized_cursors(s: Seq<Cursor>) -> Seq<Cursor> {
    let d = dedup_adjacent(sorted_cursors(s));
    if d.len() == 0 {
        seq![spec_zero_cursor()]
    } else {
        d
    }
}

/// An ordered, deduplicated collection of cursors with one distinguished
/// main cursor. Never empty.
pub struct CursorCollection {
    cursors: Vec<Cursor>,
    main_cursor_index: usize,
}

impl View for CursorCollection {
    type V = Seq<Cursor>;

    closed spec fn view(&self) -> Seq<Cursor> {
        self.cursors@
    }
}

/// A batch of staged cursor edits. Obtained from
/// `CursorCollection::mut_guard`; every change made through it becomes
/// visible in the collection only when it is handed back to
/// `CursorCollection::release_guard`, which normalizes the collection on
/// every path out of a batch.
pub struct CursorCollectionMutGuard {
    cursors: Vec<Cursor>,
}

impl View for CursorCollectionMutGuard {
    type V = Seq<Cursor>;

    closed spec fn view(&self) -> Seq<Cursor> {
        self.cursors@
    }
}

impl CursorCollection {
    /// Whether the collection is in its normalized state.
    pub open spec fn wf(&self) -> bool {
        &&& self@.len() >= 1
        &&& self.main_index() < self@.len()
        &&& cursors_sorted(self@)
        &&& forall|i: int| 0 < i < self@.len() ==> self@[i - 1] != #[trigger] self@[i]
    }

    /// The index of the main cursor.
    pub closed spec fn main_index(&self) -> usize {
        self.main_cursor_index
    }

    /// A collection holding one zero-width cursor at the buffer start.
    pub fn new() -> (r: Self)
        ensures
            r@ == seq![spec_zero_cursor()],
            r.main_index() == 0,
            r.wf(),
    {
        let mut cursors = Vec::new();
        cursors.push(Cursor::zero());
        Self { cursors, main_cursor_index: 0 }
    }

    /// How many cursors the collection holds; at least one.
    pub fn len(&self) -> (r: usize)
        ensures
            r == self@.len(),
    {
        self.cursors.len()
    }

    /// The cursor at the given index.
    pub fn get(&self, index: usize) -> (r: Cursor)
        requires
            index < self@.len(),
        ensures
            r == self@[index as int],
    {
        self.cursors[index]
    }

    /// The distinguished main cursor.
    pub fn main_cursor(&self) -> (r: Cursor)
        requires
            self.wf(),
        ensures
            r == self@[self.main_index() as int],
    {
        self.cursors[self.main_cursor_index]
    }

    /// Begins a batch of cursor edits: moves the cursors into a guard and
    /// leaves the collection empty until the guard is released.
    pub fn mut_guard(&mut self) -> (g: CursorCollectionMutGuard)
        ensures
            g@ == old(self)@,
            final(self)@ == Seq::<Cursor>::empty(),
            final(self).main_index() == old(self).main_index(),
    {
        let mut taken: Vec<Cursor> = Vec::new();
        core::mem::swap(&mut taken, &mut self.cursors);
        CursorCollectionMutGuard { cursors: taken }
    }

    /// Ends a batch of cursor edits: sorts the staged cursors by position,
    /// merges adjacent identical ones, restores a single zero cursor if none
    /// remain, and clamps the main-cursor index to the new length, falling
    /// back to the first cursor when its slot was merged away.
    pub fn release_guard(&mut self, guard: CursorCollectionMutGuard)
        ensures
            final(self)@ == normalized_cursors(guard@),
            final(self).wf(),
            final(self).main_index() == if old(self).main_index() < normalized_cursors(
                guard@,
            ).len() {
                old(self).main_index()
            } else {
                0usize
            },
    {
        let sorted = sort_cursors(guard.cursors);
        let mut deduped = dedup_cursors(sorted);
        if deduped.len() == 0 {
            deduped.push(Cursor::zero());
        }
        proof {
            lemma_sorted_cursors_sorted(guard@);
            lemma_dedup_adjacent_sorted(sorted_cursors(guard@));
        }
        if self.main_cursor_index >= deduped.len() {
            self.main_cursor_index = 0;
        }
        self.cursors = deduped;
    }
}

impl CursorCollectionMutGuard {
    /// How many cursors are staged.
    pub fn len(&self) -> (r: usize)
        ensures
            r == self@.len(),
    {
        self.cursors.len()
    }

    /// The staged cursor at the given index.
    pub fn get(&self, index: usize) -> (r: Cursor)
        requires
            index < self@.len(),
        ensures
            r == self@[index as int],
    {
        self.cursors[index]
    }

    /// Replaces the staged cursor at the given index.
    pub fn set(&mut self, index: usize, cursor: Cursor)
        requires
            index < old(self)@.len(),
        ensures
            final(self)@ == old(self)@.update(index as int, cursor),
    {
        self.cursors.set(index, cursor);
    }

    /// Removes every staged cursor.
    pub fn clear(&mut self)
        ensures
            final(self)@ == Seq::<Cursor>::empty(),
    {
        self.cursors.clear();
    }

    /// Stages one more cursor at the end of the batch.
    pub fn add(&mut self, cursor: Cursor)
        ensures
            final(self)@ == old(self)@.push(cursor),
    {
        self.cursors.push(cursor);
    }
}

/// Every element of a stably sorted sequence is one of the originals.
pub proof fn lemma_sorted_cursors_members(s: Seq<Cursor>, i: int)
    requires
        0 <= i < sorted_cursors(s).len(),
    ensures
        exists|k: int| 0 <= k < s.len() && s[k] == sorted_cursors(s)[i],
    decreases s.len(),
{
    if s.len() == 0 {
    } else {
        let inner = sorted_cursors(s.drop_last());
        lemma_sorted_insert_members(inner, s.last(), i);
        if sorted_cursors(s)[i] == s.last() {
            assert(s[s.len() - 1] == sorted_cursors(s)[i]);
        } else {
            let j = choose|j: int| 0 <= j < inner.len() && inner[j] == sorted_cursors(s)[i];
            lemma_sorted_cursors_members(s.drop_last(), j);
            let k = choose|k: int| 0 <= k < s.drop_last().len() && s.drop_last()[k] == inner[j];
            assert(s[k] == sorted_cursors(s)[i]);
        }
    }
}

/// Every cursor of a normalized sequence is one of the originals, or the
/// zero cursor when nothing remained.
pub proof fn lemma_normalized_members(s: Seq<Cursor>, i: int)
    requires
        0 <= i < normalized_cursors(s).len(),
    ensures
        normalized_cursors(s)[i] == spec_zero_cursor() || exists|k: int|
            0 <= k < s.len() && s[k] == normalized_cursors(s)[i],
{
    let d = dedup_adjacent(sorted_cursors(s));
    if d.len() > 0 {
        lemma_dedup_members(sorted_cursors(s), i);
        let j = choose|j: int|
            0 <= j < sorted_cursors(s).len() && sorted_cursors(s)[j] == d[i];
        lemma_sorted_cursors_members(s, j);
        let k = choose|k: int| 0 <= k < s.len() && s[k] == sorted_cursors(s)[j];
        assert(s[k] == normalized_cursors(s)[i]);
    }
}

impl CursorCollection {
    /// A copy of this collection.
    pub fn duplicate(&self) -> (r: Self)
        ensures
            r@ == self@,
            r.main_index() == self.main_index(),
    {
        Self {
            cursors: vstd::slice::slice_to_vec(self.cursors.as_slice()),
            main_cursor_index: self.main_cursor_index,
        }
    }
}

/// A sequence sorted by cursor position, anchors breaking ties.
pub open spec fn cursors_sorted(s: Seq<Cursor>) -> bool {
    forall|i: int, j: int| 0 <= i < j < s.len() ==> cursor_le(s[i], s[j])
}

pub proof fn lemma_sorted_insert_sorted(s: Seq<Cursor>, c: Cursor)
    requires
        cursors_sorted(s),
    ensures
        cursors_sorted(sorted_insert(s, c)),
        sorted_insert(s, c).len() == s.len() + 1,
    decreases s.len(),
{
    if s.len() == 0 {
    } else if cursor_le(s.last(), c) {
        assert forall|i: int, j: int|
            0 <= i < j < s.push(c).len() implies cursor_le(s.push(c)[i], s.push(c)[j]) by {
            if j < s.len() {
            } else {
                if i < s.len() - 1 {
                    assert(cursor_le(s[i], s.last()));
                }
            }
        }
    } else {
        assert(cursors_sorted(s.drop_last()));
        lemma_sorted_insert_sorted(s.drop_last(), c);
        let r = sorted_insert(s.drop_last(), c);
        lemma_sorted_insert_last_bound(s.drop_last(), c);
        assert forall|i: int, j: int|
            0 <= i < j < r.push(s.last()).len() implies cursor_le(
            r.push(s.last())[i],
            r.push(s.last())[j],
        ) by {
            if j < r.len() {
            } else {
                assert(j == r.len());
                if i < r.len() {
                    lemma_sorted_insert_members(s.drop_last(), c, i);
                }
            }
        }
    }
}

/// Every element of a stable-insert result is the inserted cursor or one of
/// the originals.
pub proof fn lemma_sorted_insert_members(s: Seq<Cursor>, c: Cursor, i: int)
    requires
        0 <= i < sorted_insert(s, c).len(),
    ensures
        sorted_insert(s, c)[i] == c || exists|k: int| 0 <= k < s.len() && s[k] == sorted_insert(
            s,
            c,
        )[i],
    decreases s.len(),
{
    if s.len() == 0 {
    } else if cursor_le(s.last(), c) {
        if i < s.len() {
            assert(s[i] == sorted_insert(s, c)[i]);
        }
    } else {
        let r = sorted_insert(s.drop_last(), c);
        if i < r.len() {
            lemma_sorted_insert_members(s.drop_last(), c, i);
            if r[i] != c {
                let k = choose|k: int| 0 <= k < s.drop_last().len() && s.drop_last()[k] == r[i];
                assert(s[k] == r[i]);
            }
        } else {
            assert(sorted_insert(s, c)[i] == s.last());
            assert(s[s.len() - 1] == s.last());
        }
    }
}

/// When the new cursor sorts below the last element, the last element stays
/// last after insertion into the prefix.
pub proof fn lemma_sorted_insert_last_bound(s: Seq<Cursor>, c: Cursor)
    ensures
        sorted_insert(s, c).len() == s.len() + 1,
    decreases s.len(),
{
    if s.len() == 0 {
    } else if cursor_le(s.last(), c) {
    } else {
        lemma_sorted_insert_last_bound(s.drop_last(), c);
    }
}

pub proof fn lemma_sorted_cursors_sorted(s: Seq<Cursor>)
    ensures
        cursors_sorted(sorted_cursors(s)),
        sorted_cursors(s).len() == s.len(),
    decreases s.len(),
{
    if s.len() > 0 {
        lemma_sorted_cursors_sorted(s.drop_last());
        lemma_sorted_insert_sorted(sorted_cursors(s.drop_last()), s.last());
    }
}

/// Every element of a deduplicated sequence is one of the originals.
pub proof fn lemma_dedup_members(s: Seq<Cursor>, i: int)
    requires
        0 <= i < dedup_adjacent(s).len(),
    ensures
        exists|k: int| 0 <= k < s.len() && s[k] == dedup_adjacent(s)[i],
    decreases s.len(),
{
    if s.len() <= 1 {
        assert(s[i] == dedup_adjacent(s)[i]);
    } else {
        let d = dedup_adjacent(s.drop_last());
        if i < d.len() {
            assert(dedup_adjacent(s)[i] == d[i]);
            lemma_dedup_members(s.drop_last(), i);
            let k = choose|k: int| 0 <= k < s.drop_last().len() && s.drop_last()[k] == d[i];
            assert(s[k] == dedup_adjacent(s)[i]);
        } else {
            assert(dedup_adjacent(s)[i] == s.last());
            assert(s[s.len() - 1] == s.last());
        }
    }
}

/// Deduplication of a sorted sequence stays sorted and holds no adjacent
/// duplicates.
pub proof fn lemma_dedup_adjacent_sorted(s: Seq<Cursor>)
    requires
        cursors_sorted(s),
    ensures
        cursors_sorted(dedup_adjacent(s)),
        forall|i: int|
            0 < i < dedup_adjacent(s).len() ==> dedup_adjacent(s)[i - 1] != #[trigger] dedup_adjacent(
                s,
            )[i],
        dedup_adjacent(s).len() <= s.len(),
        s.len() > 0 ==> dedup_adjacent(s).len() > 0,
    decreases s.len(),
{
    if s.len() <= 1 {
    } else {
        assert(cursors_sorted(s.drop_last()));
        lemma_dedup_adjacent_sorted(s.drop_last());
        let d = dedup_adjacent(s.drop_last());
        if d.len() > 0 && d.last() == s.last() {
        } else {
            assert forall|i: int, j: int|
                0 <= i < j < d.push(s.last()).len() implies cursor_le(
                d.push(s.last())[i],
                d.push(s.last())[j],
            ) by {
                if j == d.len() {
                    if i < d.len() {
                        lemma_dedup_members(s.drop_last(), i);
                        let k = choose|k: int|
                            0 <= k < s.drop_last().len() && s.drop_last()[k] == d[i];
                        assert(cursor_le(s[k], s.last()));
                    }
                }
            }
        }
    }
}

/// Stable insertion sort by cursor position.
fn sort_cursors(input: Vec<Cursor>) -> (r: Vec<Cursor>)
    ensures
        r@ == sorted_cursors(input@),
{
    let mut out: Vec<Cursor> = Vec::new();
    let mut i: usize = 0;
    proof {
        assert(input@.take(0) =~= Seq::<Cursor>::empty());
    }
    while i < input.len()
        invariant
            0 <= i <= input@.len(),
            out@ == sorted_cursors(input@.take(i as int)),
            cursors_sorted(out@),
        decreases input@.len() - i,
    {
        let c = input[i];
        let ghost out0 = out@;
        // Find the insertion point: after every cursor whose position does
        // not exceed the new one.
        let mut j = out.len();
        while j > 0 && !cursor_le_exec(&out[j - 1], &c)
            invariant
                0 <= j <= out@.len(),
                forall|k: int| j <= k < out@.len() ==> !cursor_le(out@[k], c),
            decreases j,
        {
            j = j - 1;
        }
        proof {
            lemma_sorted_insert_at_point(out@, c, j as int);
        }
        out.insert(j, c);
        i = i + 1;
        proof {
            assert(input@.take(i as int).drop_last() =~= input@.take(i as int - 1));
            assert(input@.take(i as int).last() == input@[i as int - 1]);
            lemma_sorted_insert_sorted(out0, c);
        }
    }
    proof {
        assert(input@.take(input@.len() as int) =~= input@);
    }
    out
}

/// Inserting at the first index whose suffix all sorts above the new cursor
/// is exactly the stable insertion step.
pub proof fn lemma_sorted_insert_at_point(s: Seq<Cursor>, c: Cursor, j: int)
    requires
        0 <= j <= s.len(),
        j > 0 ==> cursor_le(s[j - 1], c),
        forall|k: int| j <= k < s.len() ==> !cursor_le(s[k], c),
    ensures
        sorted_insert(s, c) == s.insert(j, c),
    decreases s.len(),
{
    if s.len() == 0 {
        assert(sorted_insert(s, c) =~= s.insert(0, c));
    } else if cursor_le(s.last(), c) {
        assert(j == s.len());
        assert(sorted_insert(s, c) =~= s.insert(j, c));
    } else {
        lemma_sorted_insert_at_point(s.drop_last(), c, j);
        assert(sorted_insert(s, c) =~= s.insert(j, c));
    }
}

/// Exec mirror of `cursor_le`.
fn cursor_le_exec(a: &Cursor, b: &Cursor) -> (r: bool)
    ensures
        r == cursor_le(*a, *b),
{
    a.position.lt(&b.position) || (a.position == b.position && a.anchor.le(&b.anchor))
}

/// Removes each cursor equal to the one directly before it.
fn dedup_cursors(input: Vec<Cursor>) -> (r: Vec<Cursor>)
    ensures
        r@ == dedup_adjacent(input@),
{
    let mut out: Vec<Cursor> = Vec::new();
    let mut i: usize = 0;
    proof {
        assert(input@.take(0) =~= Seq::<Cursor>::empty());
    }
    while i < input.len()
        invariant
            0 <= i <= input@.len(),
            out@ == dedup_adjacent(input@.take(i as int)),
            i > 0 && out@.len() > 0 ==> out@.last() == dedup_adjacent(input@.take(i as int)).last(),
        decreases input@.len() - i,
    {
        let c = input[i];
        proof {
            assert(input@.take(i as int + 1).drop_last() =~= input@.take(i as int));
            assert(input@.take(i as int + 1).last() == input@[i as int]);
        }
        if out.len() == 0 {
            out.push(c);
        } else {
            let last = out[out.len() - 1];
            if !(last == c) {
                out.push(c);
            }
        }
        i = i + 1;
    }
    proof {
        assert(input@.take(input@.len() as int) =~= input@);
    }
    out
}

/// No two cursors of a normalized batch are identical: cursors sort by
/// position and anchor, so equal cursors end up adjacent and merge.
pub proof fn lemma_normalized_no_duplicates(s: Seq<Cursor>)
    ensures
        forall|i: int, j: int|
            0 <= i < j < normalized_cursors(s).len() ==> normalized_cursors(s)[i]
                != normalized_cursors(s)[j],
{
    lemma_sorted_cursors_sorted(s);
    lemma_dedup_adjacent_sorted(sorted_cursors(s));
    let d = normalized_cursors(s);
    assert forall|i: int, j: int|
        0 <= i < j < d.len() implies d[i] != d[j] by {
        if d[i] == d[j] {
            assert(cursor_le(d[i], d[i + 1]));
            assert(cursor_le(d[i + 1], d[j]));
            assert(d[i] == d[i + 1]);
        }
    }
}

/// Fixing a cursor up for an insertion and then for the deletion of the same
/// range moves it back where it started, as long as the insert transform did
/// not saturate on either end.
pub proof fn lemma_insert_delete_inverse_cursor(c: Cursor, range: BufferRange)
    requires
        pos_le(range.from, range.to),
        c.anchor.line_index + range.to.line_index - range.from.line_index <= usize::MAX,
        range.to.column_byte_index + c.anchor.column_byte_index
            - range.from.column_byte_index <= usize::MAX,
        c.position.line_index + range.to.line_index - range.from.line_index <= usize::MAX,
        range.to.column_byte_index + c.position.column_byte_index
            - range.from.column_byte_index <= usize::MAX,
    ensures
        cursor_deleted(cursor_inserted(c, range), range) == c,
{
    crate::buffer_position::lemma_insert_delete_inverse_position(c.anchor, range);
    crate::buffer_position::lemma_insert_delete_inverse_position(c.position, range);
}

} // verus!
