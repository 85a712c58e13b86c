use pepper::buffer::{Buffer, BufferCollection, BufferContent};
use pepper::buffer_position::BufferPosition;
use pepper::buffer_view::{BufferView, BufferViewCollection, BufferViewHandle, TargetClient};
use pepper::command::parsing_error;
use pepper::mode::{char_utf8, initial_mode, Insert, Mode, ModeKind, Normal, Transition};
use pepper::platform::Key;

fn setup(text: &str) -> (BufferCollection, BufferViewCollection, BufferViewHandle) {
    let mut buffers = BufferCollection::new();
    let handle = buffers.add(Buffer::new(BufferContent::from_bytes(text.as_bytes())));
    let mut views = BufferViewCollection::new();
    let view = views.add(BufferView::new(TargetClient::Local, handle));
    (buffers, views, view)
}

fn main_position(views: &BufferViewCollection, view: BufferViewHandle) -> BufferPosition {
    views.get(view).unwrap().cursors.main_cursor().position
}

#[test]
fn normal_mode_moves_and_waits() {
    let (mut buffers, mut views, view) = setup("ab\ncd");
    let mut mode = initial_mode();
    let t = mode.on_event(&mut views, &mut buffers, view, &[Key::Char('l')]);
    assert_eq!(Transition::Stay, t);
    assert_eq!(BufferPosition::line_col(0, 1), main_position(&views, view));
    mode.on_event(&mut views, &mut buffers, view, &[Key::Char('j')]);
    assert_eq!(BufferPosition::line_col(1, 1), main_position(&views, view));
    mode.on_event(&mut views, &mut buffers, view, &[Key::Char('k')]);
    mode.on_event(&mut views, &mut buffers, view, &[Key::Char('h')]);
    assert_eq!(BufferPosition::line_col(0, 0), main_position(&views, view));

    assert_eq!(
        Transition::Waiting,
        mode.on_event(&mut views, &mut buffers, view, &[Key::Char('q')])
    );
    assert_eq!(
        Transition::Exit,
        mode.on_event(
            &mut views,
            &mut buffers,
            view,
            &[Key::Char('q'), Key::Char('q')]
        )
    );
    assert_eq!(
        Transition::EnterMode(ModeKind::Insert),
        mode.on_event(&mut views, &mut buffers, view, &[Key::Char('i')])
    );
}

#[test]
fn insert_mode_types_and_leaves() {
    let (mut buffers, mut views, view) = setup("");
    let mut normal = Normal {};
    let mut insert = Insert {};
    assert_eq!(
        Transition::EnterMode(ModeKind::Insert),
        normal.on_event(&mut views, &mut buffers, view, &[Key::Char('i')])
    );
    insert.on_event(&mut views, &mut buffers, view, &[Key::Char('h')]);
    insert.on_event(&mut views, &mut buffers, view, &[Key::Char('i')]);
    insert.on_event(&mut views, &mut buffers, view, &[Key::Enter]);
    insert.on_event(&mut views, &mut buffers, view, &[Key::Char('ç')]);
    assert_eq!(
        Transition::EnterMode(ModeKind::Normal),
        insert.on_event(&mut views, &mut buffers, view, &[Key::Esc])
    );
    let buffer_handle = views.get(view).unwrap().buffer_handle;
    let buffer = buffers.get(buffer_handle).unwrap();
    assert_eq!(2, buffer.content.line_count());
    assert_eq!(b"hi".as_slice(), buffer.content.line_at(0).as_slice());
    assert_eq!("ç".as_bytes(), buffer.content.line_at(1).as_slice());
    assert_eq!(BufferPosition::line_col(1, 2), main_position(&views, view));

    // Undo in normal mode takes the typed group back.
    normal.on_event(&mut views, &mut buffers, view, &[Key::Char('u')]);
    let buffer = buffers.get(buffer_handle).unwrap();
    assert_eq!(1, buffer.content.line_count());
    assert_eq!(b"".as_slice(), buffer.content.line_at(0).as_slice());
}

#[test]
fn char_utf8_encodes_by_width() {
    assert_eq!("a".as_bytes().to_vec(), char_utf8('a'));
    assert_eq!("ç".as_bytes().to_vec(), char_utf8('ç'));
    assert_eq!("€".as_bytes().to_vec(), char_utf8('€'));
    assert_eq!("𝄞".as_bytes().to_vec(), char_utf8('𝄞'));
}

#[test]
fn parsing_error_shows_both_halves() {
    assert_eq!(
        b"bad at ''".to_vec(),
        parsing_error(b"bad", b"", 0)
    );
    assert_eq!(
        b"bad at 'ab' <- here".to_vec(),
        parsing_error(b"bad", b"ab", 2)
    );
    assert_eq!(
        b"bad at here -> 'ab'".to_vec(),
        parsing_error(b"bad", b"ab", 0)
    );
    assert_eq!(
        b"bad at 'a' <- here 'b'".to_vec(),
        parsing_error(b"bad", b"ab", 1)
    );
}
