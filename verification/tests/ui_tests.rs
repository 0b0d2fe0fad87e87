use caelum::cmdline::CommandLinePlugin;
use caelum::command::{CommandHandler, CommandRegistry};
use caelum::compositor::TuiCompositorPlugin;
use caelum::data::id::{FloatId, PaneId};
use caelum::data::input::{
    ElementState, KeyEvent, KeyLocation, LogicalKey, Modifiers, NamedKey, PhysicalKey,
};
use caelum::data::tui_layout::{
    range_bounds_into_range, Direction, LayoutNode, Rect, ResolvedLayout, SizeBound, SizeRange,
};
use caelum::data::{CommandLineAction, CursorMove, EditAction, Mode, OpenFloatWindowConfig};
use caelum::draw::{CursorStyle, DrawCommand};
use caelum::editor::EditorState;
use caelum::frame::{compose_frame, compose_frame_checked};
use caelum::event::EventResult;
use caelum::input::{KeyCode, KeyModifiers, KeyState};
use caelum::motion::{MotionAction, MotionPlugin};
use caelum::query::{
    command_line_to_value, edit_to_value, move_to_value, query_command_line, query_cursor_move,
    query_edit, query_set_mode,
};
use caelum::registry::{pop_event, Registry};
use caelum::screen::{clip_checked, trim_display_range, translate_and_clip};
use caelum::tui::TuiPlugin;
use caelum::tui_modal::{ContextCall, ModalPlugin};
use caelum::value::Value;

fn entry(k: &str, v: Value) -> (String, Value) {
    (k.to_string(), v)
}

fn press(logical_key: LogicalKey) -> KeyEvent {
    KeyEvent {
        physical_key: PhysicalKey::Unknown,
        logical_key,
        text: None,
        modifiers: Modifiers { shift: false, ctrl: false, alt: false, super_key: false },
        location: KeyLocation::Standard,
        state: ElementState::Pressed,
        repeat: false,
    }
}

fn ch(c: &str) -> KeyEvent {
    press(LogicalKey::Character(c.to_string()))
}

fn strings(cmds: &[DrawCommand]) -> Vec<String> {
    cmds.iter()
        .filter_map(|c| match c {
            DrawCommand::DrawString { text, .. } => Some(text.clone()),
            _ => None,
        })
        .collect()
}

#[test]
fn split_adds_the_new_pane_after_its_source() {
    let mut layout = LayoutNode::Pane(PaneId(0));
    layout.split(PaneId(1), PaneId(0), Direction::Vertical);
    assert_eq!(layout.pane_ids(), vec![PaneId(0), PaneId(1)]);
    layout.split(PaneId(2), PaneId(0), Direction::Vertical);
    assert_eq!(layout.pane_ids(), vec![PaneId(0), PaneId(2), PaneId(1)]);
    layout.split(PaneId(3), PaneId(2), Direction::Horizontal);
    assert_eq!(layout.pane_ids(), vec![PaneId(0), PaneId(2), PaneId(3), PaneId(1)]);
}

#[test]
fn split_of_a_missing_source_changes_nothing() {
    let mut layout = LayoutNode::Pane(PaneId(0));
    layout.split(PaneId(1), PaneId(5), Direction::Vertical);
    assert_eq!(layout.pane_ids(), vec![PaneId(0)]);
}

#[test]
fn size_ranges_add_saturating_and_read_bounds() {
    assert_eq!(SizeRange(1, 2).add(SizeRange(3, 4)), SizeRange(4, 6));
    assert_eq!(SizeRange(1, 65535).add(SizeRange(1, 1)), SizeRange(2, 65535));
    assert_eq!(
        range_bounds_into_range(SizeBound::Excluded(2), SizeBound::Excluded(10)),
        SizeRange(3, 9)
    );
    assert_eq!(
        range_bounds_into_range(SizeBound::Unbounded, SizeBound::Included(7)),
        SizeRange(0, 7)
    );
    assert_eq!(
        range_bounds_into_range(SizeBound::Included(4), SizeBound::Unbounded),
        SizeRange(4, 65535)
    );
}

#[test]
fn rect_offset_and_clip() {
    let mut r = Rect { offset: (2, 3), size: (10, 10) };
    r.apply_offset((1, 1));
    assert_eq!(r.offset, (3, 4));
    r.clip(Rect { offset: (0, 0), size: (8, 20) });
    assert_eq!(r.offset, (3, 4));
    assert_eq!(r.size, (5, 10));
}

#[test]
fn trim_display_range_cuts_by_columns() {
    assert_eq!(trim_display_range("hello world", 2, 7), "llo w");
    assert_eq!(trim_display_range("abc", 0, 10), "abc");
    assert_eq!(trim_display_range("abc\n", 0, 10), "abc");
    assert_eq!(trim_display_range("abc", 5, 10), "");
}

#[test]
fn wide_characters_cut_in_half_become_spaces() {
    assert_eq!(trim_display_range("あい", 1, 4), " い");
}

#[test]
fn translate_and_clip_moves_and_cuts() {
    let cmds = vec![
        DrawCommand::DrawString { position: (0, 0), text: "abcdef".to_string() },
        DrawCommand::DrawString { position: (0, 5), text: "gone".to_string() },
        DrawCommand::SetCursor { position: (1, 0), style: CursorStyle::SteadyBar },
    ];
    let rect = Rect { offset: (10, 20), size: (4, 2) };
    let out = translate_and_clip(cmds, rect, true);
    assert_eq!(out.len(), 2);
    match &out[0] {
        DrawCommand::DrawString { position, text } => {
            assert_eq!(*position, (10, 20));
            assert_eq!(text, "abcd");
        }
        _ => panic!("expected a string"),
    }
    match &out[1] {
        DrawCommand::SetCursor { position, .. } => assert_eq!(*position, (11, 20)),
        _ => panic!("expected a cursor"),
    }
}

#[test]
fn unfocused_panes_draw_no_cursor() {
    let cmds = vec![DrawCommand::SetCursor { position: (0, 0), style: CursorStyle::SteadyBar }];
    let out = translate_and_clip(cmds, Rect { offset: (0, 0), size: (4, 2) }, false);
    assert!(out.is_empty());
}

#[test]
fn command_line_plugin_frames_its_window() {
    let mut p = CommandLinePlugin::new();
    p.attach_float_window(FloatId(0)).unwrap();
    p.attach_pane(PaneId(4)).unwrap();
    assert_eq!(p.is_focusable(), Ok(true));
    let layout = p.resolve_layout(LayoutNode::Pane(PaneId(4)), (5, 3)).unwrap();
    assert_eq!(layout.pane_rects.len(), 1);
    assert_eq!(layout.pane_rects[0].0, PaneId(4));
    assert_eq!(layout.pane_rects[0].1.offset, (1, 1));
    assert_eq!(layout.pane_rects[0].1.size, (3, 1));
    assert_eq!(strings(&layout.back_draw_commands), vec!["╔═══╗", "║   ║", "╚═══╝"]);
    let drawn = p.render_pane(PaneId(4)).unwrap();
    assert_eq!(drawn.len(), 1);
}

#[test]
fn compositor_hands_out_ids_and_splits() {
    let mut c = TuiCompositorPlugin::new("modal");
    assert_eq!(c.focus_pane(), Ok(PaneId(0)));
    let (new_id, source, handler) = c.begin_split();
    assert_eq!(new_id, PaneId(1));
    assert_eq!(source, PaneId(0));
    assert_eq!(handler, "modal");
    c.finish_split(new_id, source, None, handler, Direction::Vertical);
    assert_eq!(c.main_window().pane_ids(), vec![PaneId(0), PaneId(1)]);
    assert_eq!(c.get_next_float_id(), FloatId(0));
    assert_eq!(c.get_next_pane_id(), PaneId(2));
}

#[test]
fn compositor_opens_and_focuses_floats() {
    let mut c = TuiCompositorPlugin::new("modal");
    let config = OpenFloatWindowConfig {
        float_window_handler: "cmdline".to_string(),
        pane_handler: "cmdline".to_string(),
    };
    let (float_id, pane_id) = c.open_float_window(&config);
    assert_eq!(float_id, FloatId(0));
    assert_eq!(pane_id, PaneId(1));
    let mut reg: Registry<u32, (), (), ()> = Registry::new();
    c.focus_float(&mut reg, float_id, pane_id);
    assert_eq!(c.focus_pane(), Ok(PaneId(1)));
    let (e, _) = pop_event(&mut reg).unwrap();
    assert_eq!(e.kind.0, "change_focus");
    assert_eq!(e.data, Value::Uint(1));
}

#[test]
fn motion_keys_in_normal_mode() {
    let mut m = MotionPlugin::new();
    let (acts, res) = m.on_key_input(&ch("d"), Mode::Normal);
    assert_eq!(res, EventResult::Handled);
    assert!(matches!(acts[..], [MotionAction::CursorMove(CursorMove::Right { count: 1 })]));
    let (acts, _) = m.on_key_input(&ch("W"), Mode::Normal);
    assert!(matches!(acts[..], [MotionAction::CursorMove(CursorMove::Up { count: 5 })]));
    let (acts, _) = m.on_key_input(&ch("k"), Mode::Normal);
    assert!(matches!(
        acts[..],
        [MotionAction::SetMode(Mode::Insert), MotionAction::CursorMove(CursorMove::Right { count: 1 })]
    ));
    let (acts, res) = m.on_key_input(&ch("z"), Mode::Normal);
    assert_eq!(res, EventResult::Propagate);
    assert!(acts.is_empty());
}

#[test]
fn motion_keys_in_insert_and_command_mode() {
    let mut m = MotionPlugin::new();
    let (acts, _) = m.on_key_input(&ch("q"), Mode::Insert);
    assert!(matches!(&acts[..], [MotionAction::Edit(EditAction::InsertText(t))] if t == "q"));
    let (acts, _) = m.on_key_input(&press(LogicalKey::Named(NamedKey::Enter)), Mode::Insert);
    assert!(matches!(acts[..], [MotionAction::Edit(EditAction::NewLine)]));
    let (acts, _) = m.on_key_input(&press(LogicalKey::Named(NamedKey::Escape)), Mode::Command);
    assert!(matches!(
        acts[..],
        [MotionAction::CommandLine(CommandLineAction::Clear), MotionAction::SetMode(Mode::Normal)]
    ));
    let (acts, _) = m.on_key_input(&ch("ab"), Mode::Command);
    assert!(matches!(
        acts[..],
        [
            MotionAction::CommandLine(CommandLineAction::AddChar('a')),
            MotionAction::CommandLine(CommandLineAction::AddChar('b'))
        ]
    ));
}

#[test]
fn released_keys_ask_nothing() {
    let mut m = MotionPlugin::new();
    let mut k = ch("d");
    k.state = ElementState::Released;
    let (acts, res) = m.on_key_input(&k, Mode::Normal);
    assert_eq!(res, EventResult::Handled);
    assert!(acts.is_empty());
}

#[test]
fn queries_encode_their_arguments() {
    let q = query_set_mode(Mode::Insert);
    assert_eq!(q.name, "modal.set_mode");
    assert_eq!(q.args, vec![Value::Str("insert".to_string())]);
    let q = query_cursor_move(&CursorMove::Down { count: 3 });
    assert_eq!(q.name, "modal.cursor_move");
    assert_eq!(
        q.args,
        vec![Value::Dict(vec![entry("type", Value::Str("down".to_string())), entry("count", Value::Uint(3))])]
    );
    assert_eq!(
        move_to_value(CursorMove::LineEnd),
        Value::Dict(vec![entry("type", Value::Str("line_end".to_string()))])
    );
    let q = query_edit(&EditAction::InsertText("hi".to_string()));
    assert_eq!(q.name, "modal.edit");
    assert_eq!(q.args, vec![Value::Dict(vec![entry("insert_text", Value::Str("hi".to_string()))])]);
    assert_eq!(edit_to_value(&EditAction::Undo), Value::Str("undo".to_string()));
    let q = query_command_line(&CommandLineAction::AddChar('x'));
    assert_eq!(q.name, "modal.command_line_action");
    assert_eq!(q.args, vec![Value::Dict(vec![entry("AddChar", Value::Str("x".to_string()))])]);
    assert_eq!(command_line_to_value(&CommandLineAction::Execute), Value::Str("Execute".to_string()));
}

#[test]
fn tui_scrolls_to_show_the_cursor() {
    let mut t = TuiPlugin::new();
    t.scroll(10, 0, 3, 80, 5);
    assert_eq!(t.view_offset, (0, 6));
    t.scroll(2, 0, 3, 80, 5);
    assert_eq!(t.view_offset, (0, 2));
    t.scroll(2, 0, 100, 80, 5);
    assert_eq!(t.view_offset, (20, 2));
}

struct Counter(u32);

impl CommandHandler for Counter {
    fn handle(&mut self, args: &[String]) -> u32 {
        self.0 += args.len() as u32;
        self.0
    }
}

#[test]
fn command_registry_runs_registered_commands() {
    let mut r: CommandRegistry<Counter> = CommandRegistry::new();
    r.register("count", Counter(0));
    assert_eq!(r.execute("count", &["a".to_string(), "b".to_string()]), Some(2));
    assert_eq!(r.execute("count", &["c".to_string()]), Some(3));
    assert_eq!(r.execute("missing", &[]), None);
    r.register("other", Counter(10));
    let mut names = r.list();
    names.sort();
    assert_eq!(names, vec!["count".to_string(), "other".to_string()]);
}

#[test]
fn editor_starts_running() {
    let s = EditorState::new();
    assert!(s.running);
}

#[test]
fn terminal_modal_keys_map_to_calls() {
    let mut p = ModalPlugin::new();
    let k = caelum::input::KeyEvent {
        code: KeyCode::Char('j'),
        modifiers: KeyModifiers { shift: false, ctrl: false, alt: false },
        state: KeyState::Press,
    };
    let (res, calls) = p.handle(Some(&k), Mode::Normal);
    assert_eq!(res, EventResult::Handled);
    assert_eq!(calls, vec![ContextCall::SetMode(Mode::Insert)]);
    let esc = caelum::input::KeyEvent { code: KeyCode::Escape, ..k };
    let (_, calls) = p.handle(Some(&esc), Mode::Command);
    assert_eq!(calls, vec![ContextCall::CommandClear, ContextCall::SetMode(Mode::Normal)]);
    let (res, calls) = p.handle(None, Mode::Normal);
    assert_eq!(res, EventResult::Propagate);
    assert!(calls.is_empty());
}

fn text_at(c: &DrawCommand) -> ((u16, u16), String) {
    match c {
        DrawCommand::DrawString { position, text } => (*position, text.clone()),
        DrawCommand::SetCursor { position, .. } => (*position, "<cursor>".to_string()),
    }
}

#[test]
fn a_frame_clips_each_pane_and_keeps_only_the_focused_cursor() {
    let s = |p: (u16, u16), t: &str| DrawCommand::DrawString { position: p, text: t.to_string() };
    let cur = |p: (u16, u16)| DrawCommand::SetCursor { position: p, style: CursorStyle::SteadyBar };
    let main = ResolvedLayout {
        pane_rects: vec![
            (PaneId(0), Rect { offset: (0, 0), size: (4, 3) }),
            (PaneId(1), Rect { offset: (5, 0), size: (5, 3) }),
        ],
        back_draw_commands: vec![s((4, 0), "|")],
    };
    let main_panes = vec![
        (PaneId(0), vec![s((0, 0), "abcdef"), cur((1, 1))]),
        (PaneId(1), vec![s((0, 0), "xy"), cur((0, 0)), s((0, 3), "below")]),
    ];
    let float = ResolvedLayout {
        pane_rects: vec![(PaneId(2), Rect { offset: (0, 0), size: (2, 2) })],
        back_draw_commands: vec![],
    };
    let floats = vec![(
        Rect { offset: (8, 1), size: (5, 5) },
        float,
        vec![(PaneId(2), vec![s((0, 1), "pqr")])],
    )];
    let frame = compose_frame((10, 3), main, main_panes, floats, PaneId(1));
    let got: Vec<((u16, u16), String)> = frame.iter().map(text_at).collect();
    assert_eq!(
        got,
        vec![
            ((4, 0), "|".to_string()),
            ((0, 0), "abcd".to_string()),
            ((5, 0), "xy".to_string()),
            ((5, 0), "<cursor>".to_string()),
            ((8, 2), "pq".to_string()),
        ]
    );
}

fn cursor_of(c: &DrawCommand) -> ((u16, u16), CursorStyle) {
    match c {
        DrawCommand::SetCursor { position, style } => (*position, *style),
        _ => panic!("expected a cursor"),
    }
}

#[test]
fn the_view_shows_rows_status_and_cursor() {
    let p = TuiPlugin { view_offset: (0, 0) };
    let rows = vec!["hello".to_string(), "wörld".to_string()];
    let out = p.draw((10, 3), Mode::Insert, rows, 1, "wörld", 3, "", 0);
    assert_eq!(out.len(), 4);
    assert_eq!(text_at(&out[0]), ((0, 0), "hello".to_string()));
    assert_eq!(text_at(&out[1]), ((0, 1), "wörld".to_string()));
    assert_eq!(text_at(&out[2]), ((0, 2), "-- INSERT --".to_string()));
    assert!(matches!(cursor_of(&out[3]), ((2, 1), CursorStyle::SteadyBar)));
}

#[test]
fn the_view_scrolls_and_command_mode_puts_the_cursor_on_the_status_line() {
    let p = TuiPlugin { view_offset: (1, 4) };
    let out = p.draw((3, 2), Mode::Normal, vec!["abcdef".to_string()], 4, "abcdef", 2, "", 0);
    assert_eq!(text_at(&out[0]), ((0, 0), "bcd".to_string()));
    assert_eq!(text_at(&out[1]), ((0, 1), "-- NORMAL --".to_string()));
    assert!(matches!(cursor_of(&out[2]), ((1, 0), CursorStyle::SteadyBlock)));
    let out = p.draw((20, 2), Mode::Command, vec![], 4, "abcdef", 2, "w q", 1);
    assert_eq!(text_at(&out[0]), ((0, 1), "-- COMMAND -- :w q".to_string()));
    assert!(matches!(cursor_of(&out[1]), ((16, 1), CursorStyle::SteadyBar)));
}

#[test]
fn checked_clipping_refuses_strings_past_the_rectangle() {
    let ok = vec![DrawCommand::DrawString { position: (1, 0), text: "abc".to_string() }];
    let out = clip_checked(ok, Rect { offset: (2, 3), size: (3, 1) }, false).unwrap();
    assert_eq!(text_at(&out[0]), ((3, 3), "ab".to_string()));
    let past = vec![DrawCommand::DrawString { position: (5, 0), text: "x".to_string() }];
    assert!(clip_checked(past, Rect { offset: (0, 0), size: (3, 1) }, false).is_none());
    let below = vec![DrawCommand::DrawString { position: (5, 4), text: "x".to_string() }];
    assert_eq!(clip_checked(below, Rect { offset: (0, 0), size: (3, 1) }, false).unwrap().len(), 0);
}

#[test]
fn checked_frames_and_views_refuse_what_does_not_fit() {
    let main = ResolvedLayout { pane_rects: vec![(PaneId(0), Rect { offset: (0, 0), size: (4, 2) })], back_draw_commands: vec![] };
    assert!(compose_frame_checked((4, 2), main, vec![], vec![], PaneId(0)).is_none());
    let main = ResolvedLayout { pane_rects: vec![(PaneId(0), Rect { offset: (0, 0), size: (4, 2) })], back_draw_commands: vec![] };
    let panes = vec![(PaneId(0), vec![DrawCommand::DrawString { position: (0, 0), text: "hello".to_string() }])];
    let frame = compose_frame_checked((4, 2), main, panes, vec![], PaneId(0)).unwrap();
    assert_eq!(text_at(&frame[0]), ((0, 0), "hell".to_string()));
    let p = TuiPlugin { view_offset: (0, 0) };
    assert!(p.draw_checked((10, 3), Mode::Insert, vec![], 0, "é", 1, "", 0).is_none());
    assert!(p.draw_checked((10, 1), Mode::Insert, vec!["a".to_string()], 0, "a", 0, "", 0).is_none());
    assert_eq!(p.draw_checked((10, 3), Mode::Insert, vec![], 0, "é", 2, "", 0).unwrap().len(), 2);
}
