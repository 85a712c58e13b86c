//! Editing modes: the key-driven layer that decides which buffer operation
//! a key sequence performs.
//!
//! A mode consumes the pending key sequence and answers with a transition:
//! stay, wait for more keys, leave the editor, or enter another mode. The
//! two built-in modes are `Normal` (navigation and undo) and `Insert`
//! (typing); hosts may implement further modes against the same trait.

use vstd::prelude::*;

use crate::buffer::{BufferCollection, NEWLINE};
use crate::buffer_view::{BufferViewCollection, BufferViewHandle, CursorMovement, CursorMovementKind};
use crate::platform::Key;

verus! {

/// Which built-in mode to enter.
#[derive(Clone, Copy, PartialEq, Eq, Structural, Debug)]
pub enum ModeKind {
    Normal,
    Insert,
}

/// What a mode answers to a key sequence.
#[derive(Clone, Copy, PartialEq, Eq, Structural, Debug)]
pub enum Transition {
    Stay,
    Waiting,
    Exit,
    EnterMode(ModeKind),
}

/// A mode: maps the pending key sequence to buffer operations and the next
/// transition, keeping every collection it touches well formed.
pub trait Mode {
    fn on_event(
        &mut self,
        views: &mut BufferViewCollection,
        buffers: &mut BufferCollection,
        handle: BufferViewHandle,
        keys: &[Key],
    ) -> (t: Transition)
        requires
            old(views).wf(),
            old(buffers).wf(),
        ensures
            final(views).wf(),
            final(buffers).wf(),
    ;
}

/// The mode an editor starts in.
pub fn initial_mode() -> (r: Normal)
    ensures
        r == (Normal {  }),
{
    Normal {  }
}

/// The UTF-8 encoding of one character.
pub open spec fn spec_char_utf8(c: char) -> Seq<u8> {
    let v = c as u32;
    if v < 0x80 {
        seq![v as u8]
    } else if v < 0x800 {
        seq![(0xC0 + v / 0x40) as u8, (0x80 + v % 0x40) as u8]
    } else if v < 0x10000 {
        seq![
            (0xE0 + v / 0x1000) as u8,
            (0x80 + (v / 0x40) % 0x40) as u8,
            (0x80 + v % 0x40) as u8,
        ]
    } else {
        seq![
            (0xF0 + v / 0x40000) as u8,
            (0x80 + (v / 0x1000) % 0x40) as u8,
            (0x80 + (v / 0x40) % 0x40) as u8,
            (0x80 + v % 0x40) as u8,
        ]
    }
}

/// The UTF-8 bytes of one character.
pub fn char_utf8(c: char) -> (r: Vec<u8>)
    ensures
        r@ == spec_char_utf8(c),
{
    let v = c as u32;
    let mut r: Vec<u8> = Vec::new();
    if v < 0x80 {
        r.push(v as u8);
    } else if v < 0x800 {
        r.push((0xC0 + v / 0x40) as u8);
        r.push((0x80 + v % 0x40) as u8);
    } else if v < 0x10000 {
        r.push((0xE0 + v / 0x1000) as u8);
        r.push((0x80 + (v / 0x40) % 0x40) as u8);
        r.push((0x80 + v % 0x40) as u8);
    } else {
        proof {
            vstd::arithmetic::div_mod::lemma_div_is_ordered_by_denominator(
                v as int,
                0x40000,
                0x40000,
            );
        }
        r.push((0xF0 + v / 0x40000) as u8);
        r.push((0x80 + (v / 0x1000) % 0x40) as u8);
        r.push((0x80 + (v / 0x40) % 0x40) as u8);
        r.push((0x80 + v % 0x40) as u8);
    }
    proof {
        assert(r@ =~= spec_char_utf8(c));
    }
    r
}

/// Navigation: `h`/`j`/`k`/`l` move, `i` enters insert mode, `u` and `U`
/// undo and redo, `q` waits and `qq` leaves.
pub struct Normal {
}

impl Mode for Normal {
    fn on_event(
        &mut self,
        views: &mut BufferViewCollection,
        buffers: &mut BufferCollection,
        handle: BufferViewHandle,
        keys: &[Key],
    ) -> (t: Transition) {
        if keys.len() == 1 {
            match keys[0] {
                Key::Char(c) => {
                    if c == 'q' {
                        return Transition::Waiting;
                    }
                    let movement = if c == 'h' {
                        Some(CursorMovement::ColumnsBackward(1))
                    } else if c == 'j' {
                        Some(CursorMovement::LinesForward(1))
                    } else if c == 'k' {
                        Some(CursorMovement::LinesBackward(1))
                    } else if c == 'l' {
                        Some(CursorMovement::ColumnsForward(1))
                    } else {
                        None
                    };
                    match movement {
                        Some(movement) => {
                            if views.get(handle).is_some() {
                                let view = views.get_mut(handle);
                                view.move_cursors(
                                    buffers,
                                    movement,
                                    CursorMovementKind::PositionAndAnchor,
                                );
                            }
                        },
                        None => {
                            if c == 'i' {
                                return Transition::EnterMode(ModeKind::Insert);
                            }
                            if c == 'u' {
                                views.undo(buffers, handle);
                            }
                            if c == 'U' {
                                views.redo(buffers, handle);
                            }
                        },
                    }
                },
                _ => {},
            }
        } else if keys.len() == 2 {
            if matches!(keys[0], Key::Char('q')) && matches!(keys[1], Key::Char('q')) {
                return Transition::Exit;
            }
        }
        Transition::Stay
    }
}

/// Typing: keys insert their text, `Delete` removes the selections, and
/// `Esc` or `Ctrl-c` commits the edits and returns to normal mode.
pub struct Insert {
}

impl Mode for Insert {
    fn on_event(
        &mut self,
        views: &mut BufferViewCollection,
        buffers: &mut BufferCollection,
        handle: BufferViewHandle,
        keys: &[Key],
    ) -> (t: Transition) {
        if keys.len() != 1 {
            return Transition::Stay;
        }
        match keys[0] {
            Key::Esc | Key::Ctrl('c') => {
                match views.get(handle) {
                    Some(view) => {
                        view.commit_edits(buffers);
                    },
                    None => {},
                }
                return Transition::EnterMode(ModeKind::Normal);
            },
            Key::Tab => {
                let text: [u8; 4] = [32, 32, 32, 32];
                views.insert_text_at_cursor_positions(buffers, handle, &text);
            },
            Key::Enter | Key::Ctrl('m') => {
                let text: [u8; 1] = [NEWLINE];
                views.insert_text_at_cursor_positions(buffers, handle, &text);
            },
            Key::Char(c) => {
                let text = char_utf8(c);
                views.insert_text_at_cursor_positions(buffers, handle, text.as_slice());
            },
            Key::Delete => {
                views.delete_in_cursor_ranges(buffers, handle);
            },
            _ => {},
        }
        Transition::Stay
    }
}

} // verus!
