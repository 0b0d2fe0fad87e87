use vstd::prelude::*;

use crate::data::{CommandLineAction, CursorMove, EditAction, Mode};
use crate::keymap::ServiceQuery;
use crate::modal::{mode_to_value, mode_value};
use crate::text::char_to_string;
use crate::value::{Value, ValueModel};

verus! {

/// The snake-case name of a cursor motion.
pub open spec fn move_name(mv: CursorMove) -> Seq<char> {
    match mv {
        CursorMove::Up { .. } => "up"@,
        CursorMove::Down { .. } => "down"@,
        CursorMove::Left { .. } => "left"@,
        CursorMove::Right { .. } => "right"@,
        CursorMove::LineStart => "line_start"@,
        CursorMove::LineEnd => "line_end"@,
        CursorMove::FileTop => "file_top"@,
        CursorMove::FileBottom => "file_bottom"@,
        CursorMove::WordForward => "word_forward"@,
        CursorMove::WordBackward => "word_backward"@,
    }
}

/// The count of a motion that has one.
pub open spec fn move_count(mv: CursorMove) -> Option<usize> {
    match mv {
        CursorMove::Up { count } => Some(count),
        CursorMove::Down { count } => Some(count),
        CursorMove::Left { count } => Some(count),
        CursorMove::Right { count } => Some(count),
        _ => None,
    }
}

/// The value of a motion: a map with its name under `type`, and its count
/// under `count` where it has one.
pub open spec fn move_value(mv: CursorMove) -> ValueModel {
    match move_count(mv) {
        Some(n) => ValueModel::Dict(
            seq![("type"@, ValueModel::Str(move_name(mv))), ("count"@, ValueModel::Uint(n as u64))],
        ),
        None => ValueModel::Dict(seq![("type"@, ValueModel::Str(move_name(mv)))]),
    }
}

fn move_name_str(mv: CursorMove) -> (r: &'static str)
    ensures
        r@ == move_name(mv),
{
    match mv {
        CursorMove::Up { .. } => "up",
        CursorMove::Down { .. } => "down",
        CursorMove::Left { .. } => "left",
        CursorMove::Right { .. } => "right",
        CursorMove::LineStart => "line_start",
        CursorMove::LineEnd => "line_end",
        CursorMove::FileTop => "file_top",
        CursorMove::FileBottom => "file_bottom",
        CursorMove::WordForward => "word_forward",
        CursorMove::WordBackward => "word_backward",
    }
}

fn entries_value(entries: Vec<(String, Value)>) -> (v: Value)
    ensures
        v@ == ValueModel::Dict(Value::entry_models(entries@)),
{
    Value::Dict(entries)
}

/// Appends a named entry.
fn push_named(entries: &mut Vec<(String, Value)>, name: &str, v: Value)
    ensures
        Value::entry_models(final(entries)@) == Value::entry_models(old(entries)@).push((name@, v@)),
{
    entries.push((name.to_owned(), v));
    assert(final(entries)@.drop_last() =~= old(entries)@);
}

/// Encodes a motion; see `move_value`.
pub fn move_to_value(mv: CursorMove) -> (v: Value)
    ensures
        v@ == move_value(mv),
{
    let mut entries: Vec<(String, Value)> = Vec::new();
    assert(Value::entry_models(entries@) =~= Seq::<(Seq<char>, ValueModel)>::empty());
    push_named(&mut entries, "type", Value::Str(move_name_str(mv).to_owned()));
    let count = match mv {
        CursorMove::Up { count } => Some(count),
        CursorMove::Down { count } => Some(count),
        CursorMove::Left { count } => Some(count),
        CursorMove::Right { count } => Some(count),
        _ => None,
    };
    match count {
        Some(n) => {
            push_named(&mut entries, "count", Value::Uint(n as u64));
        },
        None => {},
    }
    proof {
        let m = Value::entry_models(entries@);
        match move_count(mv) {
            Some(n) => assert(m =~= seq![("type"@, ValueModel::Str(move_name(mv))), ("count"@, ValueModel::Uint(n as u64))]),
            None => assert(m =~= seq![("type"@, ValueModel::Str(move_name(mv)))]),
        }
    }
    entries_value(entries)
}

/// The value of an edit: the snake-case name of a variant without data, or
/// a map from that name to the text it inserts.
pub open spec fn edit_value(e: EditAction) -> ValueModel {
    match e {
        EditAction::InsertText(t) => ValueModel::Dict(seq![("insert_text"@, ValueModel::Str(t@))]),
        EditAction::DeleteCharForward => ValueModel::Str("delete_char_forward"@),
        EditAction::DeleteCharBackward => ValueModel::Str("delete_char_backward"@),
        EditAction::DeleteWord => ValueModel::Str("delete_word"@),
        EditAction::NewLine => ValueModel::Str("new_line"@),
        EditAction::NewLineBelow => ValueModel::Str("new_line_below"@),
        EditAction::NewLineAbove => ValueModel::Str("new_line_above"@),
        EditAction::Undo => ValueModel::Str("undo"@),
        EditAction::Redo => ValueModel::Str("redo"@),
    }
}

/// Encodes an edit; see `edit_value`.
pub fn edit_to_value(e: &EditAction) -> (v: Value)
    ensures
        v@ == edit_value(*e),
{
    match e {
        EditAction::InsertText(t) => {
            let mut entries: Vec<(String, Value)> = Vec::new();
            assert(Value::entry_models(entries@) =~= Seq::<(Seq<char>, ValueModel)>::empty());
            push_named(&mut entries, "insert_text", Value::Str(t.clone()));
            assert(Value::entry_models(entries@) =~= seq![("insert_text"@, ValueModel::Str(t@))]);
            entries_value(entries)
        },
        EditAction::DeleteCharForward => Value::Str("delete_char_forward".to_owned()),
        EditAction::DeleteCharBackward => Value::Str("delete_char_backward".to_owned()),
        EditAction::DeleteWord => Value::Str("delete_word".to_owned()),
        EditAction::NewLine => Value::Str("new_line".to_owned()),
        EditAction::NewLineBelow => Value::Str("new_line_below".to_owned()),
        EditAction::NewLineAbove => Value::Str("new_line_above".to_owned()),
        EditAction::Undo => Value::Str("undo".to_owned()),
        EditAction::Redo => Value::Str("redo".to_owned()),
    }
}

/// The value of a command-line action: the variant's name, or a map from
/// it to the character or text it carries.
pub open spec fn command_line_value(a: CommandLineAction) -> ValueModel {
    match a {
        CommandLineAction::AddChar(c) => ValueModel::Dict(seq![("AddChar"@, ValueModel::Str(seq![c]))]),
        CommandLineAction::InsertText(t) => ValueModel::Dict(seq![("InsertText"@, ValueModel::Str(t@))]),
        CommandLineAction::Backspace => ValueModel::Str("Backspace"@),
        CommandLineAction::DeleteCharForward => ValueModel::Str("DeleteCharForward"@),
        CommandLineAction::DeleteCharBackward => ValueModel::Str("DeleteCharBackward"@),
        CommandLineAction::Execute => ValueModel::Str("Execute"@),
        CommandLineAction::Clear => ValueModel::Str("Clear"@),
    }
}

fn one_entry(name: &str, v: Value) -> (r: Value)
    ensures
        r@ == ValueModel::Dict(seq![(name@, v@)]),
{
    let mut entries: Vec<(String, Value)> = Vec::new();
    assert(Value::entry_models(entries@) =~= Seq::<(Seq<char>, ValueModel)>::empty());
    let ghost m = v@;
    push_named(&mut entries, name, v);
    assert(Value::entry_models(entries@) =~= seq![(name@, m)]);
    entries_value(entries)
}

/// Encodes a command-line action; see `command_line_value`.
pub fn command_line_to_value(a: &CommandLineAction) -> (v: Value)
    ensures
        v@ == command_line_value(*a),
{
    match a {
        CommandLineAction::AddChar(c) => one_entry("AddChar", Value::Str(char_to_string(*c))),
        CommandLineAction::InsertText(t) => one_entry("InsertText", Value::Str(t.clone())),
        CommandLineAction::Backspace => Value::Str("Backspace".to_owned()),
        CommandLineAction::DeleteCharForward => Value::Str("DeleteCharForward".to_owned()),
        CommandLineAction::DeleteCharBackward => Value::Str("DeleteCharBackward".to_owned()),
        CommandLineAction::Execute => Value::Str("Execute".to_owned()),
        CommandLineAction::Clear => Value::Str("Clear".to_owned()),
    }
}

/// The query `q` asks service `name` with the one argument `arg`.
pub open spec fn asks(q: ServiceQuery, name: Seq<char>, arg: ValueModel) -> bool {
    q.name@ == name && q.args@.len() == 1 && q.args@[0]@ == arg
}

fn query_of(name: &str, arg: Value) -> (q: ServiceQuery)
    ensures
        asks(q, name@, arg@),
{
    let mut args: Vec<Value> = Vec::new();
    args.push(arg);
    ServiceQuery { name: name.to_owned(), args }
}

/// The query that switches the modal editor to `mode`.
pub fn query_set_mode(mode: Mode) -> (q: ServiceQuery)
    ensures
        asks(q, "modal.set_mode"@, mode_value(mode)),
{
    query_of("modal.set_mode", mode_to_value(mode))
}

/// The query that moves the modal editor's cursor.
pub fn query_cursor_move(cursor_move: &CursorMove) -> (q: ServiceQuery)
    ensures
        asks(q, "modal.cursor_move"@, move_value(*cursor_move)),
{
    query_of("modal.cursor_move", move_to_value(*cursor_move))
}

/// The query that edits at the modal editor's cursor.
pub fn query_edit(edit: &EditAction) -> (q: ServiceQuery)
    ensures
        asks(q, "modal.edit"@, edit_value(*edit)),
{
    query_of("modal.edit", edit_to_value(edit))
}

/// The query that acts on the modal editor's command line.
pub fn query_command_line(cmd_action: &CommandLineAction) -> (q: ServiceQuery)
    ensures
        asks(q, "modal.command_line_action"@, command_line_value(*cmd_action)),
{
    query_of("modal.command_line_action", command_line_to_value(cmd_action))
}

} // verus!
