use caelum::buffer_plugin::BufferPlugin;
use caelum::data::id::{BufferId, PaneId};
use caelum::data::{BufferPosition, CommandLineAction, CursorMove, EditAction, Mode};
use caelum::draw::{CursorStyle, DrawCommand};
use caelum::event::DispatchDescriptor;
use caelum::modal::{edit_target, last_char_start, mode_to_value, step_left, step_right, ModalPlugin, PaneState};
use caelum::registry::{pop_command, pop_event, Registry};
use caelum::value::Value;

type Reg = Registry<u32, (), (), ()>;

fn setup(text: &str) -> (ModalPlugin, BufferPlugin, BufferId, Reg) {
    let mut buffers = BufferPlugin::new();
    let id = buffers.reserve_id();
    buffers.add_opened(id, "/tmp/modal.txt".to_string(), text);
    let mut modal = ModalPlugin::new();
    modal.attach_pane(&mut buffers, PaneId(1), Some(id)).unwrap();
    modal.pane_active(PaneId(1)).unwrap();
    (modal, buffers, id, Registry::new())
}

fn cursor_of(modal: &mut ModalPlugin, buffers: &BufferPlugin) -> (u16, u16) {
    let cmds = modal.render_pane(buffers, PaneId(1), (20, 5)).unwrap();
    for c in cmds {
        if let DrawCommand::SetCursor { position, .. } = c {
            return position;
        }
    }
    panic!("no cursor drawn");
}

fn text_of(buffers: &BufferPlugin, id: BufferId) -> String {
    buffers.get_buffer(id).unwrap().rope().to_string()
}

#[test]
fn new_plugin_starts_in_normal_mode_with_empty_command_line() {
    let modal = ModalPlugin::new();
    assert_eq!(modal.mode(), Ok(Mode::Normal));
    assert_eq!(modal.command_line(), Ok(String::new()));
}

#[test]
fn cursor_moves_right_and_down() {
    let (mut modal, buffers, _, mut reg) = setup("abc\ndef\n");
    modal.cursor_move(&mut reg, &buffers, CursorMove::Right { count: 2 }).unwrap();
    assert_eq!(cursor_of(&mut modal, &buffers), (2, 0));
    modal.cursor_move(&mut reg, &buffers, CursorMove::Down { count: 1 }).unwrap();
    assert_eq!(cursor_of(&mut modal, &buffers), (2, 1));
    match pop_event(&mut reg) {
        Some((e, DispatchDescriptor::Consumable(_))) => assert_eq!(e.kind.0, "request_redraw"),
        _ => panic!("expected a redraw request"),
    }
}

#[test]
fn cursor_stops_at_last_character_in_normal_mode() {
    let (mut modal, buffers, _, mut reg) = setup("abc\n");
    modal.cursor_move(&mut reg, &buffers, CursorMove::Right { count: 10 }).unwrap();
    assert_eq!(cursor_of(&mut modal, &buffers), (2, 0));
    modal.cursor_move(&mut reg, &buffers, CursorMove::Left { count: 10 }).unwrap();
    assert_eq!(cursor_of(&mut modal, &buffers), (0, 0));
}

#[test]
fn cursor_move_without_active_pane_fails() {
    let buffers = BufferPlugin::new();
    let mut modal = ModalPlugin::new();
    let mut reg: Reg = Registry::new();
    assert_eq!(
        modal.cursor_move(&mut reg, &buffers, CursorMove::Right { count: 1 }),
        Err("no active pane".to_string())
    );
}

#[test]
fn insert_mode_edits_the_buffer() {
    let (mut modal, mut buffers, id, mut reg) = setup("abc\n");
    modal.set_mode(&mut reg, &mut buffers, Mode::Insert).unwrap();
    assert_eq!(modal.mode(), Ok(Mode::Insert));
    assert_eq!(buffers.is_locked(id), Ok(true));
    modal.edit(&mut reg, &mut buffers, EditAction::InsertText("xy".to_string())).unwrap();
    assert_eq!(text_of(&buffers, id), "xyabc\n");
    assert_eq!(cursor_of(&mut modal, &buffers), (2, 0));
    modal.edit(&mut reg, &mut buffers, EditAction::DeleteCharBackward).unwrap();
    assert_eq!(text_of(&buffers, id), "xabc\n");
    modal.edit(&mut reg, &mut buffers, EditAction::NewLine).unwrap();
    assert_eq!(text_of(&buffers, id), "x\nabc\n");
    assert_eq!(cursor_of(&mut modal, &buffers), (0, 1));
    modal.set_mode(&mut reg, &mut buffers, Mode::Normal).unwrap();
    assert_eq!(buffers.is_locked(id), Ok(false));
}

#[test]
fn delete_char_forward_removes_the_character_under_the_cursor() {
    let (mut modal, mut buffers, id, mut reg) = setup("abc\n");
    modal.set_mode(&mut reg, &mut buffers, Mode::Insert).unwrap();
    modal.edit(&mut reg, &mut buffers, EditAction::DeleteCharForward).unwrap();
    assert_eq!(text_of(&buffers, id), "bc\n");
}

#[test]
fn command_line_collects_text_and_executes() {
    let mut modal = ModalPlugin::new();
    let mut reg: Reg = Registry::new();
    let mut buffers = BufferPlugin::new();
    modal.set_mode(&mut reg, &mut buffers, Mode::Command).unwrap();
    modal.command_line_action(&mut reg, CommandLineAction::InsertText("write a.txt".to_string())).unwrap();
    assert_eq!(modal.command_line(), Ok("write a.txt".to_string()));
    modal.command_line_action(&mut reg, CommandLineAction::Execute).unwrap();
    assert_eq!(modal.command_line(), Ok(String::new()));
    assert_eq!(modal.mode(), Ok(Mode::Normal));
    assert_eq!(pop_command(&mut reg), Some(("write".to_string(), vec!["a.txt".to_string()])));
}

#[test]
fn command_line_clear_empties_it() {
    let mut modal = ModalPlugin::new();
    let mut reg: Reg = Registry::new();
    modal.command_line_action(&mut reg, CommandLineAction::InsertText("abc".to_string())).unwrap();
    modal.command_line_action(&mut reg, CommandLineAction::Clear).unwrap();
    assert_eq!(modal.command_line(), Ok(String::new()));
}

#[test]
fn executing_a_blank_command_line_runs_nothing() {
    let mut modal = ModalPlugin::new();
    let mut reg: Reg = Registry::new();
    modal.command_line_action(&mut reg, CommandLineAction::InsertText("   ".to_string())).unwrap();
    modal.command_line_action(&mut reg, CommandLineAction::Execute).unwrap();
    assert_eq!(pop_command(&mut reg), None);
}

#[test]
fn split_pane_of_unknown_source_fails() {
    let mut modal = ModalPlugin::new();
    assert_eq!(
        modal.split_pane(PaneId(2), PaneId(7)),
        Err("modal don't have pane: PaneId(7)".to_string())
    );
}

#[test]
fn split_pane_shows_the_source_buffer_from_its_start() {
    let (mut modal, buffers, _, mut reg) = setup("abc\n");
    modal.cursor_move(&mut reg, &buffers, CursorMove::Right { count: 1 }).unwrap();
    modal.split_pane(PaneId(2), PaneId(1)).unwrap();
    let cmds = modal.render_pane(&buffers, PaneId(2), (20, 5)).unwrap();
    assert!(cmds.iter().any(|c| matches!(c, DrawCommand::DrawString { text, .. } if text == "abc")));
    let found = cmds.iter().any(|c| matches!(c, DrawCommand::SetCursor { position: (0, 0), .. }));
    assert!(found);
}

#[test]
fn switch_buffer_resets_the_cursor() {
    let (mut modal, mut buffers, _, mut reg) = setup("abc\n");
    let other = buffers.reserve_id();
    buffers.add_opened(other, "/tmp/other.txt".to_string(), "xyz\n");
    modal.cursor_move(&mut reg, &buffers, CursorMove::Right { count: 2 }).unwrap();
    modal.switch_buffer(&mut reg, &buffers, other).unwrap();
    assert_eq!(cursor_of(&mut modal, &buffers), (0, 0));
}

#[test]
fn pane_state_render_draws_lines_and_cursor() {
    let mut buffers = BufferPlugin::new();
    let id = buffers.reserve_id();
    buffers.add_opened(id, "/tmp/r.txt".to_string(), "hello\nworld\n");
    let mut state = PaneState::new(id);
    let cmds = state.render(Mode::Normal, (10, 3), &buffers).unwrap();
    let strings: Vec<String> = cmds
        .iter()
        .filter_map(|c| match c {
            DrawCommand::DrawString { text, .. } => Some(text.clone()),
            _ => None,
        })
        .collect();
    assert!(strings.contains(&"hello".to_string()));
    assert!(strings.contains(&"world".to_string()));
    let style = cmds.iter().find_map(|c| match c {
        DrawCommand::SetCursor { style, .. } => Some(*style),
        _ => None,
    });
    assert_eq!(style, Some(CursorStyle::SteadyBlock));
}

#[test]
fn mode_values_are_lower_case_names() {
    assert_eq!(mode_to_value(Mode::Normal), Value::Str("normal".to_string()));
    assert_eq!(mode_to_value(Mode::Insert), Value::Str("insert".to_string()));
    assert_eq!(mode_to_value(Mode::Command), Value::Str("command".to_string()));
}

#[test]
fn last_char_start_finds_the_final_character() {
    assert_eq!(last_char_start("abc"), 2);
    assert_eq!(last_char_start("aé"), 1);
    assert_eq!(last_char_start(""), 0);
}

#[test]
fn column_steps_stay_within_the_line() {
    let cs: Vec<char> = "aéb".chars().collect();
    assert_eq!(step_right(&cs, 0, 1), 1);
    assert_eq!(step_right(&cs, 1, 1), 3);
    assert_eq!(step_left(&cs, 3, 1), 1);
    assert_eq!(step_left(&cs, 1, 5), 0);
}

#[test]
fn position_helpers_compare() {
    let a = BufferPosition { line_idx: 0, byte_col_idx: 1 };
    assert!(a < BufferPosition { line_idx: 1, byte_col_idx: 0 });
}

#[test]
fn motions_and_edits_inside_a_character_are_refused_beforehand() {
    let (mut modal, mut buffers, id, mut reg) = setup("ab\n");
    modal.cursor_move(&mut reg, &buffers, CursorMove::Right { count: 1 }).unwrap();
    assert!(modal.motion_allowed(&buffers, CursorMove::Right { count: 1 }));
    assert!(modal.edit_allowed(&buffers, &EditAction::InsertText("x".to_string())));
    let at_start = BufferPosition { line_idx: 0, byte_col_idx: 0 };
    buffers.get_buffer_mut(id).unwrap().insert_text(at_start, "é", None).unwrap();
    assert!(!modal.motion_allowed(&buffers, CursorMove::Right { count: 1 }));
    assert!(modal.motion_allowed(&buffers, CursorMove::Left { count: 0 }));
    assert!(modal.motion_allowed(&buffers, CursorMove::Down { count: 1 }));
    assert!(!modal.edit_allowed(&buffers, &EditAction::InsertText("x".to_string())));
    assert!(!modal.edit_allowed(&buffers, &EditAction::DeleteCharBackward));
    assert!(modal.edit_allowed(&buffers, &EditAction::Undo));
}

#[test]
fn the_edit_command_opens_its_argument_or_the_current_file() {
    assert_eq!(edit_target(&vec!["a.txt".to_string()], None), Some("a.txt".to_string()));
    assert_eq!(edit_target(&vec![], Some("b.txt".to_string())), Some("b.txt".to_string()));
    assert_eq!(edit_target(&vec![], None), None);
}

#[test]
fn rendering_is_allowed_only_where_the_cursor_sits_between_characters() {
    let (mut modal, mut buffers, id, mut reg) = setup("ab\n");
    assert!(modal.render_allowed(&buffers, PaneId(1), (20, 5)));
    assert!(!modal.render_allowed(&buffers, PaneId(1), (20, 0)));
    assert!(!modal.render_allowed(&buffers, PaneId(7), (20, 5)));
    modal.cursor_move(&mut reg, &buffers, CursorMove::Right { count: 1 }).unwrap();
    let at_start = BufferPosition { line_idx: 0, byte_col_idx: 0 };
    buffers.get_buffer_mut(id).unwrap().insert_text(at_start, "é", None).unwrap();
    assert!(!modal.render_allowed(&buffers, PaneId(1), (20, 5)));
}
