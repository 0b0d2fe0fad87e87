use caelum::api::{get_arg, invalid_arg};
use caelum::buffer_registry::BufferRegistry;
use caelum::buffer::Buffer;
use caelum::buffer_plugin::BufferPlugin;
use caelum::data::id::BufferId;
use caelum::data::{BufferPosition, LockToken};
use caelum::registry::{pop_event, Registry};
use caelum::value::Value;

type Reg = Registry<u32, (), (), ()>;

fn pos(line_idx: usize, byte_col_idx: usize) -> BufferPosition {
    BufferPosition { line_idx, byte_col_idx }
}

fn text_of(b: &Buffer) -> String {
    b.rope().to_string()
}

fn plugin_with(text: &str) -> (BufferPlugin, BufferId) {
    let mut p = BufferPlugin::new();
    let id = p.reserve_id();
    p.add_opened(id, "/tmp/file.txt".to_string(), text);
    (p, id)
}

#[test]
fn new_buffer_is_empty_and_clean() {
    let b = Buffer::new(BufferId(3));
    assert_eq!(text_of(&b), "");
    assert_eq!(b.id(), BufferId(3));
    assert!(!b.is_dirty());
    assert!(!b.is_locked());
    assert_eq!(b.file_path(), None);
}

#[test]
fn insert_then_undo_then_redo() {
    let mut b = Buffer::from_file_contents(BufferId(0), "a.txt".to_string(), "hello\nworld");
    b.insert_text(pos(1, 5), "!", None).unwrap();
    assert_eq!(text_of(&b), "hello\nworld!");
    assert!(b.is_dirty());
    b.undo();
    assert_eq!(text_of(&b), "hello\nworld");
    b.redo();
    assert_eq!(text_of(&b), "hello\nworld!");
}

#[test]
fn edit_after_undo_drops_redo() {
    let mut b = Buffer::new(BufferId(0));
    b.insert_text(pos(0, 0), "ab", None).unwrap();
    b.undo();
    b.insert_text(pos(0, 0), "x", None).unwrap();
    b.redo();
    assert_eq!(text_of(&b), "x");
}

#[test]
fn positions_out_of_range_are_refused() {
    let b = Buffer::from_file_contents(BufferId(0), "a".to_string(), "ab\ncd");
    assert_eq!(b.convert_position(pos(1, 1)), Ok(4));
    assert_eq!(b.convert_position(pos(3, 0)), Err("line_idx is out of range".to_string()));
    assert_eq!(b.convert_position(pos(1, 3)), Err("byte_idx is out of range".to_string()));
}

#[test]
fn lock_admits_only_its_token() {
    let mut b = Buffer::new(BufferId(0));
    let token = b.lock().unwrap();
    assert_eq!(b.lock(), Err("buffer is locked".to_string()));
    assert_eq!(
        b.insert_text(pos(0, 0), "x", None),
        Err("this buffer is locked".to_string())
    );
    b.insert_text(pos(0, 0), "x", Some(token)).unwrap();
    b.insert_text(pos(0, 1), "y", Some(token)).unwrap();
    assert_eq!(text_of(&b), "xy");
    assert_eq!(b.unlock(LockToken(token.0.wrapping_add(1))), Err("invalid key".to_string()));
    assert_eq!(b.unlock(token), Ok(()));
    assert_eq!(b.unlock(token), Err("buffer is not locked".to_string()));
    b.undo();
    assert_eq!(text_of(&b), "");
}

#[test]
fn remove_returns_the_removed_text() {
    let mut b = Buffer::from_file_contents(BufferId(0), "a".to_string(), "héllo\nworld");
    let removed = b.remove_text(pos(0, 1), pos(0, 3), None).unwrap();
    assert_eq!(removed, "é");
    assert_eq!(text_of(&b), "hllo\nworld");
}

#[test]
fn save_path_needs_a_file_and_no_lock() {
    let mut b = Buffer::new(BufferId(0));
    assert_eq!(b.save_path(), Err("no file name".to_string()));
    let mut f = Buffer::from_file_contents(BufferId(1), "f.txt".to_string(), "");
    assert_eq!(f.save_path(), Ok("f.txt".to_string()));
    let _ = f.lock().unwrap();
    assert_eq!(f.save_path(), Err("buffer is locked".to_string()));
    b.mark_saved();
    assert!(!b.is_dirty());
}

#[test]
fn plugin_lines_and_positions() {
    let (p, id) = plugin_with("one\r\ntwo\nthree");
    assert_eq!(p.len_lines(id), Ok(3));
    assert_eq!(p.len_bytes(id), Ok(14));
    assert_eq!(p.line(id, 0), Ok("one".to_string()));
    assert_eq!(p.line_len_bytes(id, 1), Ok(3));
    assert_eq!(p.line(id, 4), Err("line_idx is out of range".to_string()));
    assert_eq!(p.lines(id, 1, 10), Ok(vec!["two".to_string(), "three".to_string()]));
    assert_eq!(p.pos_to_byte(id, pos(2, 2)), Ok(11));
    assert_eq!(p.byte_to_pos(id, 11), Ok(pos(2, 2)));
    assert_eq!(p.byte_to_pos(id, 99), Err("byte_idx is out of range".to_string()));
    assert_eq!(p.len_lines(BufferId(42)), Err("buffer not found".to_string()));
}

#[test]
fn plugin_insert_announces_the_change() {
    let (mut p, id) = plugin_with("ab");
    let mut reg: Reg = Registry::new();
    p.insert(&mut reg, id, pos(0, 1), "xyz".to_string(), None).unwrap();
    assert_eq!(p.line(id, 0), Ok("axyzb".to_string()));
    let (event, _) = pop_event(&mut reg).unwrap();
    assert_eq!(event.kind.0, "buffer_changed");
    let expected = Value::Dict(vec![(
        "Insert".to_string(),
        Value::Dict(vec![
            ("buffer_id".to_string(), Value::Uint(0)),
            (
                "start_position".to_string(),
                Value::Dict(vec![
                    ("line_idx".to_string(), Value::Uint(0)),
                    ("byte_col_idx".to_string(), Value::Uint(1)),
                ]),
            ),
            (
                "end_position".to_string(),
                Value::Dict(vec![
                    ("line_idx".to_string(), Value::Uint(0)),
                    ("byte_col_idx".to_string(), Value::Uint(4)),
                ]),
            ),
        ]),
    )]);
    assert_eq!(event.data, expected);
}

#[test]
fn plugin_remove_then_undo() {
    let (mut p, id) = plugin_with("hello");
    let mut reg: Reg = Registry::new();
    assert_eq!(p.remove(&mut reg, id, pos(0, 1), pos(0, 3), None), Ok("el".to_string()));
    assert_eq!(p.line(id, 0), Ok("hlo".to_string()));
    p.undo(&mut reg, id).unwrap();
    assert_eq!(p.line(id, 0), Ok("hello".to_string()));
    p.redo(&mut reg, id).unwrap();
    assert_eq!(p.line(id, 0), Ok("hlo".to_string()));
}

#[test]
fn plugin_create_close_and_ids() {
    let mut p = BufferPlugin::new();
    let a = p.create().unwrap();
    let b = p.create().unwrap();
    assert_eq!((a, b), (BufferId(0), BufferId(1)));
    let token = p.lock(b).unwrap();
    assert_eq!(p.close(b), Err("this buffer is locked".to_string()));
    assert_eq!(p.is_locked(b), Ok(true));
    p.unlock(b, token).unwrap();
    assert_eq!(p.close(b), Ok(()));
    assert_eq!(p.id_list(), Ok(vec![a]));
    assert_eq!(p.close(b), Err("buffer not found".to_string()));
}

#[test]
fn plugin_finds_an_open_file() {
    let (p, id) = plugin_with("x");
    assert_eq!(p.find_path("/tmp/file.txt"), Some(id));
    assert_eq!(p.find_path("/tmp/other.txt"), None);
    assert_eq!(p.file_path(id), Ok(Some("/tmp/file.txt")));
    assert_eq!(
        p.save_contents(id),
        Ok(("/tmp/file.txt".to_string(), "x".to_string()))
    );
}

#[test]
fn registry_hands_out_increasing_ids() {
    let mut r = BufferRegistry::new();
    let a = r.create();
    let b = r.open("/tmp/x.txt".to_string(), "hello");
    assert_eq!(a, BufferId(0));
    assert_eq!(b, BufferId(1));
    assert_eq!(text_of(r.get(b).unwrap()), "hello");
    assert_eq!(text_of(r.get(a).unwrap()), "");
    assert!(r.get(BufferId(7)).is_none());
    r.remove(a);
    assert!(r.get(a).is_none());
    assert_eq!(r.get(b).unwrap().id(), b);
    assert_eq!(r.create(), BufferId(2));
}

#[test]
fn args_are_read_by_index() {
    let args = vec![Value::Int(4), Value::Bool(true)];
    assert_eq!(get_arg(&args, 1), Ok(Value::Bool(true)));
    assert_eq!(get_arg(&args, 2), Err("arg not found".to_string()));
    let n = get_arg(&args, 0).and_then(|v| invalid_arg(v.into_i64()));
    assert_eq!(n, Ok(4));
    let bad = get_arg(&args, 1).and_then(|v| invalid_arg(v.into_i64()));
    assert_eq!(bad, Err("invalid arg".to_string()));
}

#[test]
fn only_line_feeds_and_carriage_returns_split_lines() {
    let (p, id) = plugin_with("a\u{2028}b\r\nc\rd");
    assert_eq!(p.len_lines(id), Ok(3));
    assert_eq!(p.line(id, 0), Ok("a\u{2028}b".to_string()));
    assert_eq!(p.line(id, 1), Ok("c".to_string()));
    assert_eq!(p.line(id, 2), Ok("d".to_string()));
}

#[test]
fn registry_changes_a_buffer_in_place() {
    let mut r = BufferRegistry::new();
    let a = r.open("/tmp/y.txt".to_string(), "ab");
    r.get_mut(a).unwrap().insert_text(pos(0, 1), "X", None).unwrap();
    assert_eq!(text_of(r.get(a).unwrap()), "aXb");
    assert!(r.get_mut(BufferId(9)).is_none());
}

#[test]
fn plugin_hands_out_a_buffer_to_change() {
    let mut p = BufferPlugin::new();
    let a = p.create().unwrap();
    p.get_buffer_mut(a).unwrap().insert_text(pos(0, 0), "hi", None).unwrap();
    assert_eq!(text_of(p.get_buffer(a).unwrap()), "hi");
    assert_eq!(p.get_buffer_mut(BufferId(5)).err(), Some("buffer not found".to_string()));
}

#[test]
fn inserting_what_was_removed_restores_the_text() {
    let (mut p, id) = plugin_with("abc\r\ndef\nghi");
    let mut reg = Reg::new();
    let removed = p.remove(&mut reg, id, pos(0, 1), pos(1, 2), None).unwrap();
    assert_eq!(removed, "bc\r\nde");
    assert_eq!(text_of(p.get_buffer(id).unwrap()), "af\nghi");
    p.insert(&mut reg, id, pos(0, 1), removed, None).unwrap();
    assert_eq!(text_of(p.get_buffer(id).unwrap()), "abc\r\ndef\nghi");
}

#[test]
fn only_the_lock_token_releases_the_lock() {
    let mut b = Buffer::new(BufferId(0));
    let t = b.lock().unwrap();
    assert_eq!(b.lock().err(), Some("buffer is locked".to_string()));
    let other = LockToken(t.0.wrapping_add(1));
    assert_eq!(b.unlock(other), Err("invalid key".to_string()));
    assert!(b.is_locked());
    assert_eq!(b.unlock(t), Ok(()));
    assert!(!b.is_locked());
    assert_eq!(b.unlock(t), Err("buffer is not locked".to_string()));
}
