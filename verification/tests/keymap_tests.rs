use caelum::data::id::PaneId;
use caelum::data::input::{
    ElementState, KeyEvent, KeyLocation, LogicalKey, Modifiers, NamedKey, PhysicalKey,
};
use caelum::data::Mode;
use caelum::event::EventResult;
use caelum::keymap::{
    parse_key_pattern, parse_key_pattern_key, parse_key_pattern_named_key, parse_key_sequence,
    table_to_command, table_to_event, table_to_service_query, toml_to_binding, toml_to_bindings,
    Binding, KeyPattern, KeyPatternKey, Keymap,
};
use caelum::keymap_plugin::{mode_from_value, KeymapPlugin};
use caelum::value::Value;

fn s(x: &str) -> Value {
    Value::Str(x.to_string())
}

fn entry(k: &str, v: Value) -> (String, Value) {
    (k.to_string(), v)
}

fn key(c: &str) -> KeyEvent {
    KeyEvent {
        physical_key: PhysicalKey::Unknown,
        logical_key: LogicalKey::Character(c.to_string()),
        text: Some(c.to_string()),
        modifiers: Modifiers { shift: false, ctrl: false, alt: false, super_key: false },
        location: KeyLocation::Standard,
        state: ElementState::Pressed,
        repeat: false,
    }
}

fn pat(c: char) -> KeyPattern {
    KeyPattern { key: KeyPatternKey::Char(c), shift: false, ctrl: false, alt: false }
}

fn command_binding(name: &str) -> Value {
    Value::Dict(vec![entry("command", s(name))])
}

fn sample_keymap() -> Keymap {
    let normal = Value::Dict(vec![
        entry("g g", command_binding("top")),
        entry("x", command_binding("cut")),
    ]);
    let insert = Value::Dict(vec![entry("C-c", command_binding("leave"))]);
    Keymap::new(vec![entry("normal", normal), entry("insert", insert)]).unwrap()
}

fn command_name(b: &Binding) -> String {
    match b {
        Binding::Command(c) => c.name.clone(),
        _ => panic!("expected a command binding"),
    }
}

#[test]
fn named_keys_parse_by_name() {
    assert_eq!(parse_key_pattern_named_key("enter").unwrap(), NamedKey::Enter);
    assert_eq!(parse_key_pattern_named_key("pagedown").unwrap(), NamedKey::PageDown);
    assert_eq!(
        parse_key_pattern_named_key("hyper").unwrap_err().0,
        "unknown named key: hyper"
    );
}

#[test]
fn single_characters_are_keys_and_upper_case_is_refused() {
    assert_eq!(parse_key_pattern_key("a").unwrap(), KeyPatternKey::Char('a'));
    assert_eq!(parse_key_pattern_key("up").unwrap(), KeyPatternKey::Named(NamedKey::ArrowUp));
    assert_eq!(
        parse_key_pattern_key("A").unwrap_err().0,
        "\"A\" should be written as \"S-a\""
    );
}

#[test]
fn key_patterns_take_modifiers() {
    let p = parse_key_pattern("C-S-x").unwrap();
    assert_eq!(p, KeyPattern { key: KeyPatternKey::Char('x'), shift: true, ctrl: true, alt: false });
    let p = parse_key_pattern("A-enter").unwrap();
    assert_eq!(
        p,
        KeyPattern { key: KeyPatternKey::Named(NamedKey::Enter), shift: false, ctrl: false, alt: true }
    );
    assert_eq!(parse_key_pattern("Q-x").unwrap_err().0, "invalid modifier: Q");
}

#[test]
fn key_sequences_split_on_spaces() {
    let seq = parse_key_sequence("g C-g").unwrap();
    assert_eq!(seq.len(), 2);
    assert_eq!(seq[0], pat('g'));
    assert!(seq[1].ctrl);
    assert!(parse_key_sequence("g Z").is_err());
}

#[test]
fn key_event_pattern_is_lower_case_first_character() {
    let p = KeyPattern::from_key_event(&key("Q")).unwrap();
    assert_eq!(p, pat('q'));
    assert!(KeyPattern::from_key_event(&key("")).is_none());
}

#[test]
fn event_tables_read_kind_and_data() {
    let e = table_to_event(vec![entry("event", s("quit")), entry("data", Value::Int(3))]).unwrap();
    assert_eq!(e.kind.0, "quit");
    assert_eq!(e.data, Value::Int(3));
    let e = table_to_event(vec![entry("event", s("open")), entry("path", s("a"))]).unwrap();
    assert_eq!(e.data, Value::Dict(vec![entry("path", s("a"))]));
    assert_eq!(table_to_event(vec![]).unwrap_err().0, "this in not event");
    assert_eq!(
        table_to_event(vec![entry("event", Value::Int(1))]).unwrap_err().0,
        "event kind should string"
    );
    assert_eq!(
        table_to_event(vec![entry("event", s("a")), entry("data", Value::Null), entry("x", Value::Null)])
            .unwrap_err()
            .0,
        "should use the data key alone"
    );
}

#[test]
fn service_tables_read_name_and_args() {
    let q = table_to_service_query(vec![entry("service", s("cursor_move")), entry("args", Value::Int(1))])
        .unwrap();
    assert_eq!(q.name, "cursor_move");
    assert_eq!(q.args, vec![Value::Int(1)]);
    let q = table_to_service_query(vec![
        entry("service", s("set")),
        entry("args", Value::List(vec![Value::Int(1), Value::Int(2)])),
    ])
    .unwrap();
    assert_eq!(q.args, vec![Value::Int(1), Value::Int(2)]);
    let q = table_to_service_query(vec![entry("service", s("edit")), entry("k", Value::Bool(true))]).unwrap();
    assert_eq!(q.args, vec![Value::Dict(vec![entry("k", Value::Bool(true))])]);
    assert_eq!(table_to_service_query(vec![]).unwrap_err().0, "this in not service");
}

#[test]
fn command_tables_read_name_and_string_args() {
    let c = table_to_command(vec![entry("command", s("write"))]).unwrap();
    assert_eq!(c.name, "write");
    assert!(c.args.is_empty());
    let c = table_to_command(vec![entry("command", s("write")), entry("args", s("a.txt"))]).unwrap();
    assert_eq!(c.args, vec!["a.txt".to_string()]);
    assert_eq!(
        table_to_command(vec![entry("command", s("w")), entry("args", Value::List(vec![Value::Int(1)]))])
            .unwrap_err()
            .0,
        "args should string array"
    );
    assert_eq!(
        table_to_command(vec![entry("command", s("w")), entry("args", Value::Int(1))]).unwrap_err().0,
        "args should string array or string"
    );
}

#[test]
fn bindings_are_told_apart_by_their_keys() {
    assert!(matches!(toml_to_binding(command_binding("x")), Ok(Binding::Command(_))));
    assert_eq!(toml_to_binding(Value::Dict(vec![])).unwrap_err().0, "no binding name");
    assert_eq!(
        toml_to_binding(Value::Dict(vec![entry("event", s("a")), entry("command", s("b"))])).unwrap_err().0,
        "conflict binding name"
    );
    let list = toml_to_bindings(Value::List(vec![command_binding("a"), command_binding("b")])).unwrap();
    assert_eq!(list.len(), 2);
    assert_eq!(command_name(&list[1]), "b");
    assert_eq!(toml_to_bindings(command_binding("c")).unwrap().len(), 1);
}

#[test]
fn keymap_feeds_sequences_to_their_bindings() {
    let mut k = sample_keymap();
    assert!(k.feed(&pat('g')).is_none());
    let out = k.feed(&pat('g')).unwrap();
    assert_eq!(command_name(&out[0]), "top");
    let out = k.feed(&pat('x')).unwrap();
    assert_eq!(command_name(&out[0]), "cut");
}

#[test]
fn unknown_key_starts_over() {
    let mut k = sample_keymap();
    assert!(k.feed(&pat('q')).is_none());
    assert!(k.feed(&pat('g')).is_none());
    assert!(k.feed(&pat('q')).is_none());
    assert_eq!(command_name(&k.feed(&pat('x')).unwrap()[0]), "cut");
}

#[test]
fn change_mode_switches_the_trie() {
    let mut k = sample_keymap();
    k.change_mode("insert");
    assert!(k.feed(&pat('x')).is_none());
    let c = KeyPattern { key: KeyPatternKey::Char('c'), shift: false, ctrl: true, alt: false };
    assert_eq!(command_name(&k.feed(&c).unwrap()[0]), "leave");
    k.change_mode("visual");
    assert!(k.feed(&c).is_none());
}

#[test]
fn mode_values_parse() {
    assert_eq!(mode_from_value(&s("insert")), Some(Mode::Insert));
    assert_eq!(mode_from_value(&s("command")), Some(Mode::Command));
    assert_eq!(mode_from_value(&Value::Int(0)), None);
}

#[test]
fn keymap_plugin_hands_bindings_of_known_panes() {
    let mut p = KeymapPlugin::new(sample_keymap());
    p.add_pane(PaneId(1), "modal".to_string()).unwrap();
    let (res, out) = p.on_key_input(&key("x"), PaneId(1));
    assert_eq!(res, EventResult::Handled);
    assert_eq!(out.len(), 1);
    let (res, out) = p.on_key_input(&key("x"), PaneId(9));
    assert_eq!(res, EventResult::Handled);
    assert!(out.is_empty());
    p.remove_pane(PaneId(1)).unwrap();
    let (_, out) = p.on_key_input(&key("x"), PaneId(1));
    assert!(out.is_empty());
}

#[test]
fn keymap_plugin_follows_mode_changes() {
    let mut p = KeymapPlugin::new(sample_keymap());
    assert_eq!(p.on_mode_changed(&s("insert")), EventResult::Handled);
    assert_eq!(p.on_mode_changed(&Value::Null), EventResult::Propagate);
}

#[test]
fn keymap_refuses_bad_tables() {
    let bad_mode = Keymap::new(vec![entry("normal", Value::Int(1))]);
    assert_eq!(bad_mode.err().unwrap().0, "keymap is not table");
    let bad_key = Keymap::new(vec![entry("normal", Value::Dict(vec![entry("X", command_binding("a"))]))]);
    assert_eq!(bad_key.err().unwrap().0, "\"X\" should be written as \"S-x\"");
    let bad_binding = Keymap::new(vec![entry("normal", Value::Dict(vec![entry("x", Value::Int(3))]))]);
    assert_eq!(bad_binding.err().unwrap().0, "invalid value");
}

#[test]
fn feeding_keys_gives_the_bindings_of_the_table() {
    let normal = Value::Dict(vec![entry("g g", command_binding("q")), entry("x", command_binding("w"))]);
    let mut km = Keymap::new(vec![entry("normal", normal)]).unwrap();
    let g = parse_key_pattern("g").unwrap();
    let x = parse_key_pattern("x").unwrap();
    assert!(km.feed(&g).is_none());
    assert_eq!(km.feed(&g).unwrap().iter().map(command_name).collect::<Vec<_>>(), vec!["q"]);
    assert_eq!(km.feed(&x).unwrap().iter().map(command_name).collect::<Vec<_>>(), vec!["w"]);
    assert!(km.feed(&g).is_none());
    assert!(km.feed(&x).is_none());
    assert_eq!(km.feed(&x).unwrap().iter().map(command_name).collect::<Vec<_>>(), vec!["w"]);
}

#[test]
fn the_configuration_text_gives_the_keymap() {
    let text = "[normal]\n\"g g\" = { command = \"q\" }\nx = [{ command = \"w\" }, { command = \"v\" }]\n";
    let mut p = KeymapPlugin::from_config(text).unwrap();
    p.add_pane(PaneId(1), "modal".to_string()).unwrap();
    let (_, out) = p.on_key_input(&key("x"), PaneId(1));
    assert_eq!(out.len(), 2);
    let (_, out) = p.on_key_input(&key("g"), PaneId(1));
    assert!(out.is_empty());
    let (_, out) = p.on_key_input(&key("g"), PaneId(1));
    assert_eq!(out.len(), 1);
    assert!(KeymapPlugin::from_config("[normal\n").is_err());
    assert_eq!(
        KeymapPlugin::from_config("[normal]\nX = { command = \"q\" }\n").err().unwrap().0,
        "\"X\" should be written as \"S-x\""
    );
}
