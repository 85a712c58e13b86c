use pepper::buffer::{Buffer, BufferCollection, BufferContent, Word, WordKind};
use pepper::buffer_position::{BufferPosition, BufferRange};
use pepper::buffer_view::{
    BufferView, BufferViewCollection, BufferViewHandle, CursorMovement, CursorMovementKind,
    TargetClient,
};
use pepper::cursor::Cursor;

struct TestContext {
    buffers: BufferCollection,
    buffer_views: BufferViewCollection,
    buffer_view_handle: BufferViewHandle,
}

fn context_with_buffer(text: &str) -> TestContext {
    let mut buffers = BufferCollection::new();
    let content = BufferContent::from_bytes(text.as_bytes());
    let buffer_handle = buffers.add(Buffer::new(content));
    let mut buffer_views = BufferViewCollection::new();
    let buffer_view_handle = buffer_views.add(BufferView::new(TargetClient::Local, buffer_handle));
    TestContext {
        buffers,
        buffer_views,
        buffer_view_handle,
    }
}

fn set_cursor(ctx: &mut TestContext, position: BufferPosition) {
    let view = ctx.buffer_views.get_mut(ctx.buffer_view_handle);
    let mut cursors = view.cursors.mut_guard();
    cursors.clear();
    cursors.add(Cursor { anchor: position, position });
    view.cursors.release_guard(cursors);
}

fn main_cursor_position(ctx: &TestContext) -> BufferPosition {
    ctx.buffer_views
        .get(ctx.buffer_view_handle)
        .unwrap()
        .cursors
        .main_cursor()
        .position
}

fn assert_movement(
    ctx: &mut TestContext,
    from: (usize, usize),
    movement: CursorMovement,
    to: (usize, usize),
) {
    set_cursor(ctx, BufferPosition::line_col(from.0, from.1));
    let handle = ctx.buffer_view_handle;
    let buffers = &ctx.buffers;
    ctx.buffer_views
        .get_mut(handle)
        .move_cursors(buffers, movement, CursorMovementKind::PositionAndAnchor);
    assert_eq!(BufferPosition::line_col(to.0, to.1), main_cursor_position(ctx));
}

#[test]
fn buffer_view_utf8_support() {
    let mut ctx = context_with_buffer("");

    let buffer_view = ctx.buffer_views.get(ctx.buffer_view_handle).unwrap();
    let main_cursor = buffer_view.cursors.main_cursor();
    assert_eq!(BufferPosition::line_col(0, 0), main_cursor.anchor);
    assert_eq!(BufferPosition::line_col(0, 0), main_cursor.position);

    let handle = ctx.buffer_view_handle;
    ctx.buffer_views
        .insert_text_at_cursor_positions(&mut ctx.buffers, handle, "ç".as_bytes());

    let buffer_view = ctx.buffer_views.get(ctx.buffer_view_handle).unwrap();
    let main_cursor = buffer_view.cursors.main_cursor();
    assert_eq!(BufferPosition::line_col(0, 2), main_cursor.anchor);
    assert_eq!(BufferPosition::line_col(0, 2), main_cursor.position);
}

#[test]
fn buffer_view_cursor_movement() {
    let mut ctx = context_with_buffer("ab\nc e\nefgh\ni k\nlm");

    assert_movement(&mut ctx, (2, 2), CursorMovement::ColumnsForward(0), (2, 2));
    assert_movement(&mut ctx, (2, 2), CursorMovement::ColumnsForward(1), (2, 3));
    assert_movement(&mut ctx, (2, 2), CursorMovement::ColumnsForward(2), (2, 4));
    assert_movement(&mut ctx, (2, 2), CursorMovement::ColumnsForward(3), (3, 0));
    assert_movement(&mut ctx, (2, 2), CursorMovement::ColumnsForward(6), (3, 3));
    assert_movement(&mut ctx, (2, 2), CursorMovement::ColumnsForward(7), (4, 0));
    assert_movement(&mut ctx, (2, 2), CursorMovement::ColumnsForward(999), (4, 2));

    assert_movement(&mut ctx, (2, 2), CursorMovement::ColumnsBackward(0), (2, 2));
    assert_movement(&mut ctx, (2, 2), CursorMovement::ColumnsBackward(1), (2, 1));
    assert_movement(&mut ctx, (2, 0), CursorMovement::ColumnsBackward(1), (1, 3));
    assert_movement(&mut ctx, (2, 2), CursorMovement::ColumnsBackward(3), (1, 3));
    assert_movement(&mut ctx, (2, 2), CursorMovement::ColumnsBackward(7), (0, 2));
    assert_movement(&mut ctx, (2, 2), CursorMovement::ColumnsBackward(999), (0, 0));

    assert_movement(&mut ctx, (2, 2), CursorMovement::WordsForward(0), (2, 2));
    assert_movement(&mut ctx, (2, 0), CursorMovement::WordsForward(1), (2, 4));
    assert_movement(&mut ctx, (2, 0), CursorMovement::WordsForward(2), (3, 0));
    assert_movement(&mut ctx, (2, 2), CursorMovement::WordsForward(3), (3, 2));
    assert_movement(&mut ctx, (2, 2), CursorMovement::WordsForward(4), (3, 3));
    assert_movement(&mut ctx, (2, 2), CursorMovement::WordsForward(5), (4, 0));
    assert_movement(&mut ctx, (2, 2), CursorMovement::WordsForward(6), (4, 2));
    assert_movement(&mut ctx, (2, 2), CursorMovement::WordsForward(999), (4, 2));

    assert_movement(&mut ctx, (2, 2), CursorMovement::WordsBackward(0), (2, 2));
    assert_movement(&mut ctx, (2, 0), CursorMovement::WordsBackward(1), (1, 3));
    assert_movement(&mut ctx, (2, 0), CursorMovement::WordsBackward(2), (1, 2));
    assert_movement(&mut ctx, (2, 2), CursorMovement::WordsBackward(1), (2, 0));
    assert_movement(&mut ctx, (2, 2), CursorMovement::WordsBackward(2), (1, 3));
    assert_movement(&mut ctx, (2, 2), CursorMovement::WordsBackward(3), (1, 2));
    assert_movement(&mut ctx, (2, 2), CursorMovement::WordsBackward(4), (1, 0));
    assert_movement(&mut ctx, (2, 2), CursorMovement::WordsBackward(5), (0, 2));
    assert_movement(&mut ctx, (2, 2), CursorMovement::WordsBackward(6), (0, 0));
    assert_movement(&mut ctx, (2, 2), CursorMovement::WordsBackward(999), (0, 0));
}

fn buffer_lines(ctx: &TestContext) -> Vec<Vec<u8>> {
    let view = ctx.buffer_views.get(ctx.buffer_view_handle).unwrap();
    let buffer = ctx.buffers.get(view.buffer_handle).unwrap();
    let mut lines = Vec::new();
    let mut i = 0;
    while i < buffer.content.line_count() {
        lines.push(buffer.content.line_at(i).clone());
        i += 1;
    }
    lines
}

#[test]
fn saturate_position_clamps_and_is_idempotent() {
    let content = BufferContent::from_bytes(b"ab\ncde");
    let p = content.saturate_position(BufferPosition::line_col(9, 9));
    assert_eq!(BufferPosition::line_col(1, 3), p);
    assert_eq!(p, content.saturate_position(p));
    let q = content.saturate_position(BufferPosition::line_col(0, 9));
    assert_eq!(BufferPosition::line_col(0, 2), q);
    assert_eq!(q, content.saturate_position(q));
    let valid = BufferPosition::line_col(1, 1);
    assert_eq!(valid, content.saturate_position(valid));
}

#[test]
fn saturate_position_snaps_to_character_starts() {
    // "ç" is two bytes; a column clamped into its middle moves back to its
    // start, and line movement onto a shorter multibyte line stays aligned.
    let content = BufferContent::from_bytes("aç".as_bytes());
    assert_eq!(
        BufferPosition::line_col(0, 1),
        content.saturate_position(BufferPosition::line_col(0, 2))
    );
    assert_eq!(
        BufferPosition::line_col(0, 3),
        content.saturate_position(BufferPosition::line_col(0, 3))
    );
    assert_eq!(
        BufferPosition::line_col(0, 1),
        content.saturate_position(BufferPosition::line_col(9, 2))
    );

    let mut ctx = context_with_buffer("abcd
açç");
    set_cursor(&mut ctx, BufferPosition::line_col(0, 4));
    let handle = ctx.buffer_view_handle;
    let buffers = &ctx.buffers;
    ctx.buffer_views
        .get_mut(handle)
        .move_cursors(buffers, CursorMovement::LinesForward(1), CursorMovementKind::PositionAndAnchor);
    // Byte 4 of "aç ç" is the middle of the second "ç"; the cursor lands on
    // that character's start instead.
    assert_eq!(BufferPosition::line_col(1, 3), main_cursor_position(&ctx));
}

#[test]
fn insert_then_delete_restores_content() {
    let mut content = BufferContent::from_bytes(b"ab\ncde");
    let range = content.insert_text(BufferPosition::line_col(1, 1), b"x\nyz");
    assert_eq!(BufferPosition::line_col(1, 1), range.from);
    assert_eq!(BufferPosition::line_col(2, 2), range.to);
    assert_eq!(3, content.line_count());
    assert_eq!(b"cx".as_slice(), content.line_at(1).as_slice());
    assert_eq!(b"yzde".as_slice(), content.line_at(2).as_slice());
    content.delete_range(range);
    assert_eq!(2, content.line_count());
    assert_eq!(b"ab".as_slice(), content.line_at(0).as_slice());
    assert_eq!(b"cde".as_slice(), content.line_at(1).as_slice());
}

#[test]
fn cross_view_cursors_match_direct_fixup() {
    let mut ctx = context_with_buffer("hello\nworld");
    let view = ctx.buffer_views.get(ctx.buffer_view_handle).unwrap();
    let buffer_handle = view.buffer_handle;
    let second = ctx
        .buffer_views
        .add(BufferView::new(TargetClient::Remote(1), buffer_handle));
    {
        let view = ctx.buffer_views.get_mut(second);
        let mut cursors = view.cursors.mut_guard();
        cursors.clear();
        cursors.add(Cursor {
            anchor: BufferPosition::line_col(0, 4),
            position: BufferPosition::line_col(1, 2),
        });
        view.cursors.release_guard(cursors);
    }
    let before = ctx.buffer_views.get(second).unwrap().cursors.main_cursor();

    let handle = ctx.buffer_view_handle;
    ctx.buffer_views.insert_text_at_position(
        &mut ctx.buffers,
        handle,
        BufferPosition::line_col(0, 1),
        b"??",
        0,
    );

    // The sibling view's cursor moved exactly as the raw fixup moves it.
    let mut expected = before;
    expected.insert(BufferRange {
        from: BufferPosition::line_col(0, 1),
        to: BufferPosition::line_col(0, 3),
    });
    let after = ctx.buffer_views.get(second).unwrap().cursors.main_cursor();
    assert_eq!(expected, after);
    assert_eq!(BufferPosition::line_col(0, 6), after.anchor);
    assert_eq!(BufferPosition::line_col(1, 2), after.position);
}

#[test]
fn undo_collapses_issuing_view_and_shifts_sibling() {
    let mut ctx = context_with_buffer("abc");
    let view = ctx.buffer_views.get(ctx.buffer_view_handle).unwrap();
    let buffer_handle = view.buffer_handle;
    let sibling = ctx
        .buffer_views
        .add(BufferView::new(TargetClient::Remote(1), buffer_handle));
    {
        let view = ctx.buffer_views.get_mut(sibling);
        let mut cursors = view.cursors.mut_guard();
        cursors.clear();
        cursors.add(Cursor {
            anchor: BufferPosition::line_col(0, 3),
            position: BufferPosition::line_col(0, 3),
        });
        view.cursors.release_guard(cursors);
    }

    let handle = ctx.buffer_view_handle;
    ctx.buffer_views.insert_text_at_position(
        &mut ctx.buffers,
        handle,
        BufferPosition::line_col(0, 1),
        b"xx",
        0,
    );
    assert_eq!(vec![b"axxbc".to_vec()], buffer_lines(&ctx));
    assert_eq!(
        BufferPosition::line_col(0, 5),
        ctx.buffer_views.get(sibling).unwrap().cursors.main_cursor().position
    );

    ctx.buffer_views.undo(&mut ctx.buffers, handle);
    assert_eq!(vec![b"abc".to_vec()], buffer_lines(&ctx));

    // The issuing view collapses onto the undone edit's origin.
    let issuing = ctx
        .buffer_views
        .get(ctx.buffer_view_handle)
        .unwrap()
        .cursors
        .main_cursor();
    assert_eq!(BufferPosition::line_col(0, 1), issuing.anchor);
    assert_eq!(BufferPosition::line_col(0, 1), issuing.position);

    // The sibling view's cursor is shifted back by the undone span, not reset.
    let sibling_cursor = ctx.buffer_views.get(sibling).unwrap().cursors.main_cursor();
    assert_eq!(BufferPosition::line_col(0, 3), sibling_cursor.position);
}

#[test]
fn redo_replays_undone_edit() {
    let mut ctx = context_with_buffer("abc");
    let handle = ctx.buffer_view_handle;
    ctx.buffer_views.insert_text_at_position(
        &mut ctx.buffers,
        handle,
        BufferPosition::line_col(0, 3),
        b"!",
        0,
    );
    assert_eq!(vec![b"abc!".to_vec()], buffer_lines(&ctx));
    ctx.buffer_views.undo(&mut ctx.buffers, handle);
    assert_eq!(vec![b"abc".to_vec()], buffer_lines(&ctx));
    ctx.buffer_views.redo(&mut ctx.buffers, handle);
    assert_eq!(vec![b"abc!".to_vec()], buffer_lines(&ctx));
}

#[test]
fn mut_guard_release_merges_identical_cursors() {
    let mut ctx = context_with_buffer("ab\ncd");
    let view = ctx.buffer_views.get_mut(ctx.buffer_view_handle);
    let mut cursors = view.cursors.mut_guard();
    cursors.clear();
    let cursor = Cursor {
        anchor: BufferPosition::line_col(1, 1),
        position: BufferPosition::line_col(1, 1),
    };
    cursors.add(cursor);
    cursors.add(cursor);
    view.cursors.release_guard(cursors);
    assert_eq!(1, view.cursors.len());
    assert_eq!(cursor, view.cursors.main_cursor());
}

#[test]
fn mut_guard_release_sorts_cursors_by_position() {
    let mut ctx = context_with_buffer("ab\ncd");
    let view = ctx.buffer_views.get_mut(ctx.buffer_view_handle);
    let mut cursors = view.cursors.mut_guard();
    cursors.clear();
    let late = Cursor {
        anchor: BufferPosition::line_col(1, 2),
        position: BufferPosition::line_col(1, 2),
    };
    let early = Cursor {
        anchor: BufferPosition::line_col(0, 1),
        position: BufferPosition::line_col(0, 1),
    };
    cursors.add(late);
    cursors.add(early);
    view.cursors.release_guard(cursors);
    assert_eq!(2, view.cursors.len());
    assert_eq!(early, view.cursors.get(0));
    assert_eq!(late, view.cursors.get(1));
}

#[test]
fn selection_text_joins_cursor_ranges() {
    let mut ctx = context_with_buffer("hello\nworld");
    {
        let view = ctx.buffer_views.get_mut(ctx.buffer_view_handle);
        let mut cursors = view.cursors.mut_guard();
        cursors.clear();
        cursors.add(Cursor {
            anchor: BufferPosition::line_col(0, 0),
            position: BufferPosition::line_col(0, 3),
        });
        cursors.add(Cursor {
            anchor: BufferPosition::line_col(1, 1),
            position: BufferPosition::line_col(1, 4),
        });
        view.cursors.release_guard(cursors);
    }
    let mut text = Vec::new();
    let view = ctx.buffer_views.get(ctx.buffer_view_handle).unwrap();
    view.get_selection_text(&ctx.buffers, &mut text);
    assert_eq!(b"hel\norl".to_vec(), text);
}

#[test]
fn multi_line_selection_text() {
    let mut ctx = context_with_buffer("hello\nworld");
    {
        let view = ctx.buffer_views.get_mut(ctx.buffer_view_handle);
        let mut cursors = view.cursors.mut_guard();
        cursors.clear();
        cursors.add(Cursor {
            anchor: BufferPosition::line_col(0, 3),
            position: BufferPosition::line_col(1, 2),
        });
        view.cursors.release_guard(cursors);
    }
    let mut text = Vec::new();
    let view = ctx.buffer_views.get(ctx.buffer_view_handle).unwrap();
    view.get_selection_text(&ctx.buffers, &mut text);
    assert_eq!(b"lo\nwo".to_vec(), text);
}

#[test]
fn word_at_classifies_runs() {
    let content = BufferContent::from_bytes(b"a1_ ,;x");
    let word = content.word_at(BufferPosition::line_col(0, 1));
    assert_eq!(
        Word {
            kind: WordKind::Identifier,
            position: BufferPosition::line_col(0, 0)
        },
        word
    );
    let word = content.word_at(BufferPosition::line_col(0, 3));
    assert_eq!(WordKind::Whitespace, word.kind);
    assert_eq!(BufferPosition::line_col(0, 3), word.position);
    let word = content.word_at(BufferPosition::line_col(0, 5));
    assert_eq!(WordKind::Symbol, word.kind);
    assert_eq!(BufferPosition::line_col(0, 4), word.position);
}

#[test]
fn words_from_lists_line_words() {
    let content = BufferContent::from_bytes(b"c e
x");
    let (word, left, right) = content.words_from(BufferPosition::line_col(0, 2));
    assert_eq!(WordKind::Identifier, word.kind);
    assert_eq!(BufferPosition::line_col(0, 2), word.position);
    assert_eq!(2, left.len());
    assert_eq!(WordKind::Whitespace, left[0].kind);
    assert_eq!(BufferPosition::line_col(0, 1), left[0].position);
    assert_eq!(WordKind::Identifier, left[1].kind);
    assert_eq!(BufferPosition::line_col(0, 0), left[1].position);
    assert_eq!(0, right.len());

    let (word, left, right) = content.words_from(BufferPosition::line_col(0, 0));
    assert_eq!(BufferPosition::line_col(0, 0), word.position);
    assert_eq!(0, left.len());
    assert_eq!(2, right.len());
    assert_eq!(BufferPosition::line_col(0, 1), right[0].position);
    assert_eq!(BufferPosition::line_col(0, 2), right[1].position);
}

#[test]
fn apply_completion_replaces_word_prefix() {
    let mut ctx = context_with_buffer("let va = 1");
    set_cursor(&mut ctx, BufferPosition::line_col(0, 6));
    let handle = ctx.buffer_view_handle;
    ctx.buffer_views
        .apply_completion(&mut ctx.buffers, handle, b"value");
    assert_eq!(vec![b"let value = 1".to_vec()], buffer_lines(&ctx));
}

#[test]
fn delete_in_cursor_ranges_removes_selections() {
    let mut ctx = context_with_buffer("abcdef");
    {
        let view = ctx.buffer_views.get_mut(ctx.buffer_view_handle);
        let mut cursors = view.cursors.mut_guard();
        cursors.clear();
        cursors.add(Cursor {
            anchor: BufferPosition::line_col(0, 0),
            position: BufferPosition::line_col(0, 2),
        });
        cursors.add(Cursor {
            anchor: BufferPosition::line_col(0, 4),
            position: BufferPosition::line_col(0, 6),
        });
        view.cursors.release_guard(cursors);
    }
    let handle = ctx.buffer_view_handle;
    ctx.buffer_views
        .delete_in_cursor_ranges(&mut ctx.buffers, handle);
    assert_eq!(vec![b"cd".to_vec()], buffer_lines(&ctx));
}

#[test]
fn remove_where_drops_views_and_orphan_buffers() {
    let mut ctx = context_with_buffer("abc");
    let view = ctx.buffer_views.get(ctx.buffer_view_handle).unwrap();
    let buffer_handle = view.buffer_handle;
    let other_buffer = ctx
        .buffers
        .add(Buffer::new(BufferContent::from_bytes(b"other")));
    let other_view = ctx
        .buffer_views
        .add(BufferView::new(TargetClient::Remote(1), other_buffer));
    ctx.buffer_views
        .remove_where(&mut ctx.buffers, |v| v.buffer_handle == buffer_handle);
    // The selected view and its now-orphaned buffer are gone; the other
    // view and its buffer survive untouched.
    assert!(ctx.buffer_views.get(ctx.buffer_view_handle).is_none());
    assert!(ctx.buffers.get(buffer_handle).is_none());
    let kept = ctx.buffer_views.get(other_view).unwrap();
    assert_eq!(other_buffer, kept.buffer_handle);
    assert!(ctx.buffers.get(other_buffer).is_some());
}

#[test]
fn stale_handles_are_no_ops() {
    let mut ctx = context_with_buffer("abc");
    let view = ctx.buffer_views.get(ctx.buffer_view_handle).unwrap();
    let buffer_handle = view.buffer_handle;
    ctx.buffers.remove(buffer_handle);
    let handle = ctx.buffer_view_handle;
    ctx.buffer_views
        .insert_text_at_position(&mut ctx.buffers, handle, BufferPosition::line_col(0, 0), b"x", 0);
    ctx.buffer_views.undo(&mut ctx.buffers, handle);
    let view = ctx.buffer_views.get(handle).unwrap();
    assert_eq!(BufferPosition::line_col(0, 0), view.cursors.main_cursor().position);
}

#[test]
fn clone_with_target_client_copies_cursors() {
    let mut ctx = context_with_buffer("abc");
    set_cursor(&mut ctx, BufferPosition::line_col(0, 2));
    let view = ctx.buffer_views.get(ctx.buffer_view_handle).unwrap();
    let copy = view.clone_with_target_client(TargetClient::Remote(7));
    assert_eq!(TargetClient::Remote(7), copy.target_client);
    assert_eq!(view.buffer_handle, copy.buffer_handle);
    assert_eq!(view.cursors.main_cursor(), copy.cursors.main_cursor());
}
