//! The edit history of one buffer: discrete edit records grouped into undo
//! steps.
//!
//! Every text mutation adds an `Edit` to the open group; committing closes
//! the group. Undo hands back the newest applied group, newest edit first
//! and each edit inverted; redo hands back the oldest undone group in its
//! original order. Adding an edit after an undo discards the undone tail.

use vstd::prelude::*;

use crate::buffer_position::BufferRange;

verus! {

/// What an edit did to the text.
#[derive(Clone, Copy, PartialEq, Eq, Structural, Debug)]
pub enum EditKind {
    Insert,
    Delete,
}

/// One recorded text mutation: its kind, the range it occupied, the bytes it
/// inserted or removed, and the index of the cursor that issued it.
#[derive(Clone, Debug)]
pub struct Edit {
    pub kind: EditKind,
    pub range: BufferRange,
    pub text: Vec<u8>,
    pub cursor_index: usize,
}

/// The mathematical content of an edit record.
pub ghost struct EditModel {
    pub kind: EditKind,
    pub range: BufferRange,
    pub text: Seq<u8>,
    pub cursor_index: int,
}

impl View for Edit {
    type V = EditModel;

    open spec fn view(&self) -> EditModel {
        EditModel {
            kind: self.kind,
            range: self.range,
            text: self.text@,
            cursor_index: self.cursor_index as int,
        }
    }
}

impl DeepView for Edit {
    type V = EditModel;

    open spec fn deep_view(&self) -> EditModel {
        self.view()
    }
}

/// The edit that takes back `e`: the same range and text with the opposite
/// kind.
pub open spec fn inverted_edit(e: EditModel) -> EditModel {
    EditModel {
        kind: if e.kind == EditKind::Insert {
            EditKind::Delete
        } else {
            EditKind::Insert
        },
        range: e.range,
        text: e.text,
        cursor_index: e.cursor_index,
    }
}

/// Every edit's range is an ordered pair.
pub open spec fn edits_ranges_ordered(s: Seq<EditModel>) -> bool {
    forall|i: int|
        0 <= i < s.len() ==> crate::buffer_position::pos_le(
            (#[trigger] s[i]).range.from,
            s[i].range.to,
        )
}

/// A group of edits, newest first, each inverted: what undoing the group
/// replays.
pub open spec fn reversed_inverted(s: Seq<EditModel>) -> Seq<EditModel> {
    Seq::new(s.len(), |i: int| inverted_edit(s[s.len() - 1 - i]))
}

/// The edit history of one buffer.
pub struct History {
    groups: Vec<Vec<Edit>>,
    current_group: Vec<Edit>,
    index: usize,
}

impl History {
    /// The committed groups, oldest first.
    pub closed spec fn spec_groups(&self) -> Seq<Seq<EditModel>> {
        self.groups.deep_view()
    }

    /// The edits of the group still open.
    pub closed spec fn spec_current(&self) -> Seq<EditModel> {
        self.current_group.deep_view()
    }

    /// How many committed groups are currently applied to the text; groups
    /// beyond it have been undone.
    pub closed spec fn spec_index(&self) -> int {
        self.index as int
    }

    pub open spec fn wf(&self) -> bool {
        &&& 0 <= self.spec_index() <= self.spec_groups().len()
        &&& forall|g: int|
            0 <= g < self.spec_groups().len() ==> edits_ranges_ordered(
                #[trigger] self.spec_groups()[g],
            )
        &&& edits_ranges_ordered(self.spec_current())
    }

    /// An empty history.
    pub fn new() -> (r: Self)
        ensures
            r.spec_groups() == Seq::<Seq<EditModel>>::empty(),
            r.spec_current() == Seq::<EditModel>::empty(),
            r.spec_index() == 0,
            r.wf(),
    {
        let r = Self { groups: Vec::new(), current_group: Vec::new(), index: 0 };
        proof {
            assert(r.spec_groups() =~~= Seq::<Seq<EditModel>>::empty());
            assert(r.spec_current() =~~= Seq::<EditModel>::empty());
        }
        r
    }

    /// Records one more edit in the open group, discarding any undone
    /// groups.
    pub fn add_edit(&mut self, edit: Edit)
        requires
            old(self).wf(),
            crate::buffer_position::pos_le(edit.range.from, edit.range.to),
        ensures
            final(self).spec_groups() =~~= old(self).spec_groups().take(old(self).spec_index()),
            final(self).spec_current() =~~= old(self).spec_current().push(edit@),
            final(self).spec_index() == old(self).spec_index(),
            final(self).wf(),
    {
        let ghost groups0 = self.groups.deep_view();
        let ghost current0 = self.current_group.deep_view();
        if self.index < self.groups.len() {
            self.groups.truncate(self.index);
        }
        proof {
            assert(self.groups.deep_view() =~~= groups0.take(self.index as int));
        }
        self.current_group.push(edit);
        proof {
            assert(self.current_group.deep_view() =~~= current0.push(edit@));
        }
    }

    /// Closes the open group, making it the newest undoable step.
    pub fn commit(&mut self)
        requires
            old(self).wf(),
        ensures
            final(self).spec_current() =~~= Seq::<EditModel>::empty(),
            final(self).wf(),
            final(self).spec_groups() =~~= spec_committed_groups(*old(self)),
            final(self).spec_index() == spec_committed_index(*old(self)),
    {
        let ghost groups0 = self.groups.deep_view();
        let ghost current0 = self.current_group.deep_view();
        if self.current_group.len() > 0 {
            if self.index < self.groups.len() {
                self.groups.truncate(self.index);
            }
            proof {
                assert(self.groups.deep_view() =~~= groups0.take(self.index as int));
            }
            let ghost groups1 = self.groups.deep_view();
            let mut finished: Vec<Edit> = Vec::new();
            core::mem::swap(&mut finished, &mut self.current_group);
            self.groups.push(finished);
            self.index = self.groups.len();
            proof {
                assert(self.groups.deep_view() =~~= groups1.push(current0));
                assert(self.current_group.deep_view() =~~= Seq::<EditModel>::empty());
            }
        }
    }

    /// The newest applied group, newest edit first and each edit inverted;
    /// empty when there is nothing left to undo. An open group is committed
    /// first, so it is what gets undone.
    pub fn undo_edits(&mut self) -> (r: Vec<Edit>)
        requires
            old(self).wf(),
        ensures
            final(self).wf(),
            final(self).spec_current() =~~= Seq::<EditModel>::empty(),
            final(self).spec_groups() =~~= spec_committed_groups(*old(self)),
            ({
                let committed_groups = spec_committed_groups(*old(self));
                let committed_index = spec_committed_index(*old(self));
                if committed_index > 0 {
                    final(self).spec_index() == committed_index - 1 && r.deep_view()
                        =~~= reversed_inverted(committed_groups[committed_index - 1])
                        && edits_ranges_ordered(r.deep_view())
                } else {
                    final(self).spec_index() == 0 && r.deep_view() =~~= Seq::<
                        EditModel,
                    >::empty()
                }
            }),
    {
        self.commit();
        if self.index > 0 {
            self.index = self.index - 1;
            let group = &self.groups[self.index];
            let ghost gm = group.deep_view();
            let mut r: Vec<Edit> = Vec::new();
            let mut i: usize = group.len();
            while i > 0
                invariant
                    i <= gm.len(),
                    gm == group.deep_view(),
                    gm.len() == group@.len(),
                    r.deep_view().len() == gm.len() - i,
                    forall|k: int|
                        0 <= k < r.deep_view().len() ==> r.deep_view()[k] == inverted_edit(
                            gm[gm.len() - 1 - k],
                        ),
                decreases i,
            {
                let ghost r0 = r.deep_view();
                i = i - 1;
                let e = &group[i];
                let kind = if matches!(e.kind, EditKind::Insert) {
                    EditKind::Delete
                } else {
                    EditKind::Insert
                };
                let text = vstd::slice::slice_to_vec(e.text.as_slice());
                let inv = Edit { kind, range: e.range, text, cursor_index: e.cursor_index };
                proof {
                    assert(inv@ == inverted_edit(gm[i as int]));
                }
                r.push(inv);
                proof {
                    assert(r.deep_view() =~~= r0.push(inv@));
                }
            }
            proof {
                assert(r.deep_view() =~~= reversed_inverted(gm));
                assert(gm == self.spec_groups()[self.spec_index()]);
                assert(edits_ranges_ordered(gm));
                assert forall|k: int|
                    0 <= k < r.deep_view().len() implies crate::buffer_position::pos_le(
                    (#[trigger] r.deep_view()[k]).range.from,
                    r.deep_view()[k].range.to,
                ) by {
                    assert(r.deep_view()[k] == inverted_edit(gm[gm.len() - 1 - k]));
                }
            }
            r
        } else {
            let r: Vec<Edit> = Vec::new();
            proof {
                assert(r.deep_view() =~~= Seq::<EditModel>::empty());
            }
            r
        }
    }

    /// The oldest undone group in its original order; empty when there is
    /// nothing to redo. An open group is committed first, which leaves
    /// nothing to redo.
    pub fn redo_edits(&mut self) -> (r: Vec<Edit>)
        requires
            old(self).wf(),
        ensures
            final(self).wf(),
            final(self).spec_current() =~~= Seq::<EditModel>::empty(),
            final(self).spec_groups() =~~= spec_committed_groups(*old(self)),
            ({
                let committed_groups = spec_committed_groups(*old(self));
                let committed_index = spec_committed_index(*old(self));
                if committed_index < committed_groups.len() {
                    final(self).spec_index() == committed_index + 1 && r.deep_view()
                        =~~= committed_groups[committed_index]
                        && edits_ranges_ordered(r.deep_view())
                } else {
                    final(self).spec_index() == committed_index && r.deep_view() =~~= Seq::<
                        EditModel,
                    >::empty()
                }
            }),
    {
        self.commit();
        if self.index < self.groups.len() {
            let group = &self.groups[self.index];
            let ghost gm = group.deep_view();
            self.index = self.index + 1;
            let mut r: Vec<Edit> = Vec::new();
            let mut i: usize = 0;
            while i < group.len()
                invariant
                    i <= gm.len(),
                    gm == group.deep_view(),
                    gm.len() == group@.len(),
                    r.deep_view().len() == i,
                    forall|k: int| 0 <= k < r.deep_view().len() ==> r.deep_view()[k] == gm[k],
                decreases gm.len() - i,
            {
                let ghost r0 = r.deep_view();
                let e = &group[i];
                let text = vstd::slice::slice_to_vec(e.text.as_slice());
                let copy = Edit { kind: e.kind, range: e.range, text, cursor_index: e.cursor_index };
                proof {
                    assert(copy@ == gm[i as int]);
                }
                r.push(copy);
                i = i + 1;
                proof {
                    assert(r.deep_view() =~~= r0.push(copy@));
                }
            }
            proof {
                assert(r.deep_view() =~~= gm);
                assert(gm == self.spec_groups()[self.spec_index() - 1]);
                assert(edits_ranges_ordered(gm));
            }
            r
        } else {
            let r: Vec<Edit> = Vec::new();
            proof {
                assert(r.deep_view() =~~= Seq::<EditModel>::empty());
            }
            r
        }
    }
}

/// The groups after closing the open group, if any.
pub open spec fn spec_committed_groups(h: History) -> Seq<Seq<EditModel>> {
    if h.spec_current().len() > 0 {
        h.spec_groups().take(h.spec_index()).push(h.spec_current())
    } else {
        h.spec_groups()
    }
}

/// The applied-group count after closing the open group, if any.
pub open spec fn spec_committed_index(h: History) -> int {
    if h.spec_current().len() > 0 {
        h.spec_index() + 1
    } else {
        h.spec_index()
    }
}

} // verus!
