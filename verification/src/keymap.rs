use vstd::prelude::*;

use crate::assoc::{assoc_find, assoc_get, assoc_remove, assoc_view, keys_distinct};
use crate::data::input::{KeyEvent, LogicalKey, NamedKey};
use crate::event::{Event, EventKind};
use crate::text::{
    ascii_lower, is_ascii_upper, split_chars, split_on, str_chars, str_concat, str_eq,
    string_from_chars, to_ascii_lowercase,
};
use crate::value::{Value, ValueModel};

verus! {

/// Why a keymap could not be read.
#[derive(Debug)]
pub struct ParseError(pub String);

/// A key of a key pattern: a character or a named key.
#[derive(Debug, Clone, Copy, PartialEq, Eq, Structural, Hash)]
pub enum KeyPatternKey {
    Char(char),
    Named(NamedKey),
}

/// The named key written as `s`.
pub open spec fn named_key_of(s: Seq<char>) -> Option<NamedKey> {
    if s == "enter"@ {
        Some(NamedKey::Enter)
    } else if s == "tab"@ {
        Some(NamedKey::Tab)
    } else if s == "backtab"@ {
        Some(NamedKey::BackTab)
    } else if s == "space"@ {
        Some(NamedKey::Space)
    } else if s == "backspace"@ {
        Some(NamedKey::Backspace)
    } else if s == "delete"@ {
        Some(NamedKey::Delete)
    } else if s == "escape"@ {
        Some(NamedKey::Escape)
    } else if s == "insert"@ {
        Some(NamedKey::Insert)
    } else if s == "printscreen"@ {
        Some(NamedKey::PrintScreen)
    } else if s == "up"@ {
        Some(NamedKey::ArrowUp)
    } else if s == "down"@ {
        Some(NamedKey::ArrowDown)
    } else if s == "left"@ {
        Some(NamedKey::ArrowLeft)
    } else if s == "right"@ {
        Some(NamedKey::ArrowRight)
    } else if s == "home"@ {
        Some(NamedKey::Home)
    } else if s == "end"@ {
        Some(NamedKey::End)
    } else if s == "pageup"@ {
        Some(NamedKey::PageUp)
    } else if s == "pagedown"@ {
        Some(NamedKey::PageDown)
    } else if s == "f1"@ {
        Some(NamedKey::F1)
    } else if s == "f2"@ {
        Some(NamedKey::F2)
    } else if s == "f3"@ {
        Some(NamedKey::F3)
    } else if s == "f4"@ {
        Some(NamedKey::F4)
    } else if s == "f5"@ {
        Some(NamedKey::F5)
    } else if s == "f6"@ {
        Some(NamedKey::F6)
    } else if s == "f7"@ {
        Some(NamedKey::F7)
    } else if s == "f8"@ {
        Some(NamedKey::F8)
    } else if s == "f9"@ {
        Some(NamedKey::F9)
    } else if s == "f10"@ {
        Some(NamedKey::F10)
    } else if s == "f11"@ {
        Some(NamedKey::F11)
    } else if s == "f12"@ {
        Some(NamedKey::F12)
    } else if s == "capslock"@ {
        Some(NamedKey::CapsLock)
    } else if s == "numlock"@ {
        Some(NamedKey::NumLock)
    } else if s == "scrolllock"@ {
        Some(NamedKey::ScrollLock)
    } else {
        None
    }
}

/// Reads the name of a named key.
pub fn parse_key_pattern_named_key(input: &str) -> (r: Result<NamedKey, ParseError>)
    ensures
        match named_key_of(input@) {
            Some(k) => r matches Ok(k2) && k2 == k,
            None => r matches Err(e) && e.0@ == "unknown named key: "@ + input@,
        },
{
    let k = if str_eq(input, "enter") {
        NamedKey::Enter
    } else if str_eq(input, "tab") {
        NamedKey::Tab
    } else if str_eq(input, "backtab") {
        NamedKey::BackTab
    } else if str_eq(input, "space") {
        NamedKey::Space
    } else if str_eq(input, "backspace") {
        NamedKey::Backspace
    } else if str_eq(input, "delete") {
        NamedKey::Delete
    } else if str_eq(input, "escape") {
        NamedKey::Escape
    } else if str_eq(input, "insert") {
        NamedKey::Insert
    } else if str_eq(input, "printscreen") {
        NamedKey::PrintScreen
    } else if str_eq(input, "up") {
        NamedKey::ArrowUp
    } else if str_eq(input, "down") {
        NamedKey::ArrowDown
    } else if str_eq(input, "left") {
        NamedKey::ArrowLeft
    } else if str_eq(input, "right") {
        NamedKey::ArrowRight
    } else if str_eq(input, "home") {
        NamedKey::Home
    } else if str_eq(input, "end") {
        NamedKey::End
    } else if str_eq(input, "pageup") {
        NamedKey::PageUp
    } else if str_eq(input, "pagedown") {
        NamedKey::PageDown
    } else if str_eq(input, "f1") {
        NamedKey::F1
    } else if str_eq(input, "f2") {
        NamedKey::F2
    } else if str_eq(input, "f3") {
        NamedKey::F3
    } else if str_eq(input, "f4") {
        NamedKey::F4
    } else if str_eq(input, "f5") {
        NamedKey::F5
    } else if str_eq(input, "f6") {
        NamedKey::F6
    } else if str_eq(input, "f7") {
        NamedKey::F7
    } else if str_eq(input, "f8") {
        NamedKey::F8
    } else if str_eq(input, "f9") {
        NamedKey::F9
    } else if str_eq(input, "f10") {
        NamedKey::F10
    } else if str_eq(input, "f11") {
        NamedKey::F11
    } else if str_eq(input, "f12") {
        NamedKey::F12
    } else if str_eq(input, "capslock") {
        NamedKey::CapsLock
    } else if str_eq(input, "numlock") {
        NamedKey::NumLock
    } else if str_eq(input, "scrolllock") {
        NamedKey::ScrollLock
    } else {
        return Err(ParseError(str_concat("unknown named key: ", input)));
    };
    Ok(k)
}

/// The key of a pattern written as `s`: one character, or the name of a key.
pub open spec fn key_pattern_key_spec(s: Seq<char>) -> Result<KeyPatternKey, Seq<char>> {
    if s.len() == 1 {
        let c = s[0];
        if is_ascii_upper(c) {
            Err(
                "\""@ + seq![c] + "\" should be written as \"S-"@ + seq![ascii_lower(c)]
                    + "\""@,
            )
        } else {
            Ok(KeyPatternKey::Char(c))
        }
    } else {
        match named_key_of(s) {
            Some(k) => Ok(KeyPatternKey::Named(k)),
            None => Err("unknown named key: "@ + s),
        }
    }
}

/// Reads the key of a pattern. A capital letter must be written with the
/// shift modifier.
pub fn parse_key_pattern_key(input: &str) -> (r: Result<KeyPatternKey, ParseError>)
    ensures
        match key_pattern_key_spec(input@) {
            Ok(k) => r matches Ok(k2) && k2 == k,
            Err(m) => r matches Err(e) && e.0@ == m,
        },
{
    if input.unicode_len() == 1 {
        let c = input.get_char(0);
        if 'A' <= c && c <= 'Z' {
            let lower = to_ascii_lowercase(c);
            let m = str_concat("\"", crate::text::char_to_string(c).as_str());
            let m = str_concat(m.as_str(), "\" should be written as \"S-");
            let m = str_concat(m.as_str(), crate::text::char_to_string(lower).as_str());
            let m = str_concat(m.as_str(), "\"");
            return Err(ParseError(m));
        }
        Ok(KeyPatternKey::Char(c))
    } else {
        match parse_key_pattern_named_key(input) {
            Ok(k) => Ok(KeyPatternKey::Named(k)),
            Err(e) => Err(e),
        }
    }
}

/// A key and the modifiers that must be held with it.
#[derive(Debug, Clone, Copy, PartialEq, Eq, Structural, Hash)]
pub struct KeyPattern {
    pub key: KeyPatternKey,
    pub shift: bool,
    pub ctrl: bool,
    pub alt: bool,
}

impl KeyPattern {
    /// The pattern that a key event matches: its first character in lower
    /// case, or its named key, with the shift, control and alt modifiers.
    pub open spec fn from_key_event_spec(event: &KeyEvent) -> Option<Self> {
        match event.logical_key {
                LogicalKey::Character(s) => if s@.len() == 0 {
                    None
                } else {
                    Some(
                        KeyPattern {
                            key: KeyPatternKey::Char(ascii_lower(s@[0])),
                            shift: event.modifiers.shift,
                            ctrl: event.modifiers.ctrl,
                            alt: event.modifiers.alt,
                        },
                    )
                },
                LogicalKey::Named(n) => Some(
                    KeyPattern {
                        key: KeyPatternKey::Named(n),
                        shift: event.modifiers.shift,
                        ctrl: event.modifiers.ctrl,
                        alt: event.modifiers.alt,
                    },
                ),
                _ => None,
            }
    }

    pub fn from_key_event(event: &KeyEvent) -> (r: Option<Self>)
        ensures
            r == KeyPattern::from_key_event_spec(event),
    {
        let key = match &event.logical_key {
            LogicalKey::Character(s) => {
                if s.as_str().unicode_len() == 0 {
                    return None;
                }
                KeyPatternKey::Char(to_ascii_lowercase(s.as_str().get_char(0)))
            },
            LogicalKey::Named(n) => KeyPatternKey::Named(*n),
            _ => return None,
        };
        Some(
            KeyPattern {
                key,
                shift: event.modifiers.shift,
                ctrl: event.modifiers.ctrl,
                alt: event.modifiers.alt,
            },
        )
    }
}

/// The modifiers written before a key: `S` shift, `C` control, `A` alt.
pub open spec fn modifiers_spec(mods: Seq<Seq<char>>) -> Result<(bool, bool, bool), Seq<char>>
    decreases mods.len(),
{
    if mods.len() == 0 {
        Ok((false, false, false))
    } else {
        match modifiers_spec(mods.drop_last()) {
            Err(e) => Err(e),
            Ok((s, c, a)) => {
                let m = mods.last();
                if m == seq!['S'] {
                    Ok((true, c, a))
                } else if m == seq!['C'] {
                    Ok((s, true, a))
                } else if m == seq!['A'] {
                    Ok((s, c, true))
                } else {
                    Err("invalid modifier: "@ + m)
                }
            },
        }
    }
}

/// The pattern written as `s`: modifiers and a key, joined by `-`. The key is
/// read first; then the modifiers, in order.
pub open spec fn key_pattern_spec(s: Seq<char>) -> Result<KeyPattern, Seq<char>> {
    let segs = split_on(s, '-');
    match key_pattern_key_spec(segs.last()) {
        Err(e) => Err(e),
        Ok(k) => match modifiers_spec(segs.drop_last()) {
            Err(e) => Err(e),
            Ok((sh, c, a)) => Ok(KeyPattern { key: k, shift: sh, ctrl: c, alt: a }),
        },
    }
}

proof fn lemma_modifiers_err_prefix(s: Seq<Seq<char>>, k: int)
    requires
        0 <= k <= s.len(),
        modifiers_spec(s.subrange(0, k)) is Err,
    ensures
        modifiers_spec(s) == modifiers_spec(s.subrange(0, k)),
    decreases s.len() - k,
{
    if k < s.len() {
        assert(s.subrange(0, k + 1).drop_last() =~= s.subrange(0, k));
        lemma_modifiers_err_prefix(s, k + 1);
    } else {
        assert(s.subrange(0, k) =~= s);
    }
}

proof fn lemma_key_patterns_err_prefix(s: Seq<Seq<char>>, k: int)
    requires
        0 <= k <= s.len(),
        key_patterns_spec(s.subrange(0, k)) is Err,
    ensures
        key_patterns_spec(s) == key_patterns_spec(s.subrange(0, k)),
    decreases s.len() - k,
{
    if k < s.len() {
        assert(s.subrange(0, k + 1).drop_last() =~= s.subrange(0, k));
        lemma_key_patterns_err_prefix(s, k + 1);
    } else {
        assert(s.subrange(0, k) =~= s);
    }
}

/// Reads a key pattern such as `C-S-x`.
pub fn parse_key_pattern(input: &str) -> (r: Result<KeyPattern, ParseError>)
    ensures
        match key_pattern_spec(input@) {
            Ok(p) => r matches Ok(p2) && p2 == p,
            Err(m) => r matches Err(e) && e.0@ == m,
        },
{
    let chars = str_chars(input);
    let segs = split_chars(chars.as_slice(), '-');
    proof {
        crate::text::lemma_split_on_nonempty(input@, '-');
    }
    let n = segs.len();
    let key_text = string_from_chars(segs[n - 1].as_slice());
    let key = match parse_key_pattern_key(key_text.as_str()) {
        Ok(k) => k,
        Err(e) => return Err(e),
    };
    let ghost all = split_on(input@, '-');
    assert(key_text@ == all.last());
    let mut shift = false;
    let mut ctrl = false;
    let mut alt = false;
    let mut i: usize = 0;
    while i < n - 1
        invariant
            n == segs@.len(),
            n == all.len(),
            all == split_on(input@, '-'),
            key_pattern_key_spec(all.last()) == Ok::<KeyPatternKey, Seq<char>>(key),
            n >= 1,
            i <= n - 1,
            forall|j: int| 0 <= j < n ==> #[trigger] segs@[j]@ == all[j],
            modifiers_spec(all.subrange(0, i as int)) == Ok::<(bool, bool, bool), Seq<char>>(
                (shift, ctrl, alt),
            ),
        decreases n - 1 - i,
    {
        proof {
            assert(all.subrange(0, i + 1).drop_last() =~= all.subrange(0, i as int));
            assert(all.subrange(0, i + 1).last() == segs@[i as int]@);
        }
        let m = &segs[i];
        if m.len() == 1 && m[0] == 'S' {
            assert(m@ =~= seq!['S']);
            shift = true;
        } else if m.len() == 1 && m[0] == 'C' {
            assert(m@ =~= seq!['C']);
            ctrl = true;
        } else if m.len() == 1 && m[0] == 'A' {
            assert(m@ =~= seq!['A']);
            alt = true;
        } else {
            assert(m@ != seq!['S'] && m@ != seq!['C'] && m@ != seq!['A']);
            let text = string_from_chars(m.as_slice());
            proof {
                assert(text@ == m@);
                assert(modifiers_spec(all.subrange(0, i + 1)) == Err::<(bool, bool, bool), Seq<char>>(
                    "invalid modifier: "@ + m@,
                ));
                assert(all.drop_last().subrange(0, i + 1) =~= all.subrange(0, i + 1));
                lemma_modifiers_err_prefix(all.drop_last(), i + 1);
            }
            return Err(ParseError(str_concat("invalid modifier: ", text.as_str())));
        }
        i = i + 1;
    }
    assert(all.subrange(0, n - 1) =~= all.drop_last());
    Ok(KeyPattern { key, shift, ctrl, alt })
}

/// The patterns of a key sequence, read one by one; the first that fails
/// gives the error.
pub open spec fn key_patterns_spec(segs: Seq<Seq<char>>) -> Result<Seq<KeyPattern>, Seq<char>>
    decreases segs.len(),
{
    if segs.len() == 0 {
        Ok(Seq::empty())
    } else {
        match key_patterns_spec(segs.drop_last()) {
            Err(e) => Err(e),
            Ok(ps) => match key_pattern_spec(segs.last()) {
                Err(e) => Err(e),
                Ok(p) => Ok(ps.push(p)),
            },
        }
    }
}

/// Reads a key sequence: key patterns separated by spaces.
pub fn parse_key_sequence(input: &str) -> (r: Result<Vec<KeyPattern>, ParseError>)
    ensures
        match key_patterns_spec(split_on(input@, ' ')) {
            Ok(ps) => r matches Ok(v) && v@ == ps,
            Err(m) => r matches Err(e) && e.0@ == m,
        },
{
    let chars = str_chars(input);
    let segs = split_chars(chars.as_slice(), ' ');
    let ghost all = split_on(input@, ' ');
    let mut out: Vec<KeyPattern> = Vec::new();
    let mut i: usize = 0;
    while i < segs.len()
        invariant
            segs@.len() == all.len(),
            all == split_on(input@, ' '),
            i <= segs@.len(),
            forall|j: int| 0 <= j < segs@.len() ==> #[trigger] segs@[j]@ == all[j],
            key_patterns_spec(all.subrange(0, i as int)) == Ok::<Seq<KeyPattern>, Seq<char>>(out@),
        decreases segs@.len() - i,
    {
        proof {
            assert(all.subrange(0, i + 1).drop_last() =~= all.subrange(0, i as int));
            assert(all.subrange(0, i + 1).last() == segs@[i as int]@);
        }
        let text = string_from_chars(segs[i].as_slice());
        match parse_key_pattern(text.as_str()) {
            Ok(p) => out.push(p),
            Err(e) => {
                proof {
                    lemma_key_patterns_err_prefix(all, i + 1);
                }
                return Err(e);
            },
        }
        i = i + 1;
    }
    assert(all.subrange(0, all.len() as int) =~= all);
    Ok(out)
}


/// A service call: the service's name, relative to the focused pane's
/// plugin, and its arguments.
#[derive(Debug)]
pub struct ServiceQuery {
    pub name: String,
    pub args: Vec<Value>,
}

/// A command call: the command's name and its arguments.
#[derive(Debug)]
pub struct Command {
    pub name: String,
    pub args: Vec<String>,
}

/// What a key sequence does.
#[derive(Debug)]
pub enum Binding {
    Event(Event),
    Service(ServiceQuery),
    Command(Command),
}

/// The content of a [`Binding`].
pub enum BindingModel {
    Event(Seq<char>, ValueModel),
    Service(Seq<char>, Seq<ValueModel>),
    Command(Seq<char>, Seq<Seq<char>>),
}

impl View for Binding {
    type V = BindingModel;

    open spec fn view(&self) -> BindingModel {
        match self {
            Binding::Event(e) => BindingModel::Event(e.kind.0@, e.data@),
            Binding::Service(q) => BindingModel::Service(q.name@, Value::models(q.args@)),
            Binding::Command(c) => BindingModel::Command(
                c.name@,
                c.args@.map_values(|a: String| a@),
            ),
        }
    }
}

/// `a` and `b` hold bindings with the same contents, in order.
pub open spec fn same_bindings(a: Seq<Binding>, b: Seq<Binding>) -> bool {
    a.len() == b.len() && forall|j: int| 0 <= j < a.len() ==> #[trigger] a[j]@ == b[j]@
}

/// The entries of a table with the keys `ks` removed.
pub open spec fn without(m: Map<Seq<char>, Value>, k: Seq<char>) -> Map<Seq<char>, Value> {
    m.remove(k)
}

/// What table_to_event gives for the table `t`.
pub open spec fn event_outcome(t: Seq<(String, Value)>, r: Result<Event, ParseError>) -> bool {
    let m = assoc_view(t);
    let rest = m.remove("event"@);
    if !m.dom().contains("event"@) {
        r matches Err(e) && e.0@ == "this in not event"@
    } else if !(m["event"@] is Str) {
        r matches Err(e) && e.0@ == "event kind should string"@
    } else if rest.dom().contains("data"@) {
        if rest.remove("data"@).dom() != Set::<Seq<char>>::empty() {
            r matches Err(e) && e.0@ == "should use the data key alone"@
        } else {
            r matches Ok(ev) && ev.kind.0@ == m["event"@]->Str_0@ && ev.data == rest["data"@]
        }
    } else {
        r matches Ok(ev) && ev.kind.0@ == m["event"@]->Str_0@ && (ev.data matches Value::Dict(d)
            && keys_distinct(d@) && assoc_view(d@) == rest)
    }
}

/// An event binding: `event` names the kind; the payload is `data` alone, or
/// else the rest of the table.
pub fn table_to_event(table: Vec<(String, Value)>) -> (r: Result<Event, ParseError>)
    requires
        keys_distinct(table@),
    ensures
        event_outcome(table@, r),
{
    let mut table = table;
    let kind = match assoc_remove(&mut table, "event") {
        None => return Err(ParseError("this in not event".to_owned())),
        Some(k) => k,
    };
    let kind = match kind {
        Value::Str(k) => EventKind(k),
        _ => return Err(ParseError("event kind should string".to_owned())),
    };
    let ghost rest = table@;
    match assoc_remove(&mut table, "data") {
        Some(data) => {
            if table.len() != 0 {
                proof {
                    crate::assoc::lemma_assoc_index(table@, table@[0].0@);
                    assert(crate::assoc::has_key_at(table@, table@[0].0@, 0));
                }
                return Err(ParseError("should use the data key alone".to_owned()));
            }
            assert(assoc_view(table@) =~= Map::<Seq<char>, Value>::empty());
            Ok(Event { kind, data })
        },
        None => {
            assert(assoc_view(table@) =~= assoc_view(rest));
            Ok(Event { kind, data: Value::Dict(table) })
        },
    }
}

/// What table_to_service_query gives for the table `t`.
pub open spec fn service_outcome(t: Seq<(String, Value)>, r: Result<ServiceQuery, ParseError>) -> bool {
    let m = assoc_view(t);
    let rest = m.remove("service"@);
    if !m.dom().contains("service"@) {
        r matches Err(e) && e.0@ == "this in not service"@
    } else if !(m["service"@] is Str) {
        r matches Err(e) && e.0@ == "service name should string"@
    } else if rest.dom().contains("args"@) {
        if rest.remove("args"@).dom() != Set::<Seq<char>>::empty() {
            r matches Err(e) && e.0@ == "should use the args key alone"@
        } else {
            r matches Ok(q) && q.name@ == m["service"@]->Str_0@ && match rest["args"@] {
                Value::List(items) => q.args@ == items@,
                other => q.args@ == seq![other],
            }
        }
    } else {
        r matches Ok(q) && q.name@ == m["service"@]->Str_0@ && q.args@.len() == 1
            && (q.args@[0] matches Value::Dict(d) && keys_distinct(d@) && assoc_view(d@) == rest)
    }
}

/// A service binding: `service` names the service; the arguments are `args`
/// alone (a list, or one value), or else the rest of the table as one value.
pub fn table_to_service_query(table: Vec<(String, Value)>) -> (r: Result<ServiceQuery, ParseError>)
    requires
        keys_distinct(table@),
    ensures
        service_outcome(table@, r),
{
    let mut table = table;
    let name = match assoc_remove(&mut table, "service") {
        None => return Err(ParseError("this in not service".to_owned())),
        Some(k) => k,
    };
    let name = match name {
        Value::Str(k) => k,
        _ => return Err(ParseError("service name should string".to_owned())),
    };
    let ghost rest = table@;
    match assoc_remove(&mut table, "args") {
        Some(args) => {
            let args = match args {
                Value::List(items) => items,
                other => {
                    let mut v: Vec<Value> = Vec::new();
                    v.push(other);
                    v
                },
            };
            if table.len() != 0 {
                proof {
                    crate::assoc::lemma_assoc_index(table@, table@[0].0@);
                    assert(crate::assoc::has_key_at(table@, table@[0].0@, 0));
                }
                return Err(ParseError("should use the args key alone".to_owned()));
            }
            assert(assoc_view(table@) =~= Map::<Seq<char>, Value>::empty());
            Ok(ServiceQuery { name, args })
        },
        None => {
            assert(assoc_view(table@) =~= assoc_view(rest));
            let mut args: Vec<Value> = Vec::new();
            args.push(Value::Dict(table));
            Ok(ServiceQuery { name, args })
        },
    }
}

/// Whether every value is a string.
pub open spec fn all_strings(items: Seq<Value>) -> bool {
    forall|i: int| 0 <= i < items.len() ==> items[i] is Str
}

/// What table_to_command gives for the table `t`.
pub open spec fn command_outcome(t: Seq<(String, Value)>, r: Result<Command, ParseError>) -> bool {
    let m = assoc_view(t);
    let rest = m.remove("command"@);
    if !m.dom().contains("command"@) {
        r matches Err(e) && e.0@ == "this in not command"@
    } else if !(m["command"@] is Str) {
        r matches Err(e) && e.0@ == "command name should string"@
    } else if !rest.dom().contains("args"@) {
        r matches Ok(c) && c.name@ == m["command"@]->Str_0@ && c.args@.len() == 0
    } else {
        match rest["args"@] {
            Value::Str(a) => r matches Ok(c) && c.name@ == m["command"@]->Str_0@
                && c.args@.len() == 1 && c.args@[0]@ == a@,
            Value::List(items) => if all_strings(items@) {
                r matches Ok(c) && c.name@ == m["command"@]->Str_0@ && c.args@.len()
                    == items@.len() && forall|i: int|
                    0 <= i < items@.len() ==> #[trigger] c.args@[i]@ == items@[i]->Str_0@
            } else {
                r matches Err(e) && e.0@ == "args should string array"@
            },
            _ => r matches Err(e) && e.0@ == "args should string array or string"@,
        }
    }
}

/// A command binding: `command` names the command; `args` is absent, one
/// string, or a list of strings.
#[verifier::loop_isolation(false)]
pub fn table_to_command(table: Vec<(String, Value)>) -> (r: Result<Command, ParseError>)
    requires
        keys_distinct(table@),
    ensures
        command_outcome(table@, r),
{
    let mut table = table;
    let name = match assoc_remove(&mut table, "command") {
        None => return Err(ParseError("this in not command".to_owned())),
        Some(k) => k,
    };
    let name = match name {
        Value::Str(k) => k,
        _ => return Err(ParseError("command name should string".to_owned())),
    };
    let args = match assoc_remove(&mut table, "args") {
        None => return Ok(Command { name, args: Vec::new() }),
        Some(a) => a,
    };
    match args {
        Value::Str(arg) => {
            let mut v: Vec<String> = Vec::new();
            v.push(arg);
            Ok(Command { name, args: v })
        },
        Value::List(items) => {
            let mut i: usize = 0;
            while i < items.len()
                invariant
                    i <= items@.len(),
                    forall|j: int| 0 <= j < i ==> items@[j] is Str,
                decreases items@.len() - i,
            {
                if !(matches!(&items[i], Value::Str(_))) {
                    assert(!all_strings(items@)) by {
                        assert(!(items@[i as int] is Str));
                    }
                    return Err(ParseError("args should string array".to_owned()));
                }
                i = i + 1;
            }
            let mut out: Vec<String> = Vec::new();
            let mut i: usize = 0;
            while i < items.len()
                invariant
                    i <= items@.len(),
                    all_strings(items@),
                    out@.len() == i,
                    forall|j: int| 0 <= j < i ==> #[trigger] out@[j]@ == items@[j]->Str_0@,
                decreases items@.len() - i,
            {
                match &items[i] {
                    Value::Str(a) => out.push(a.clone()),
                    _ => {},
                }
                i = i + 1;
            }
            Ok(Command { name, args: out })
        },
        _ => Err(ParseError("args should string array or string".to_owned())),
    }
}

/// What reading one binding table gives: by which of `event`, `service` and
/// `command` it holds, an event, a service call or a command, or an error.
pub open spec fn binding_outcome(value: Value, r: Result<Binding, ParseError>) -> bool {
    match value {
        Value::Dict(t) => {
            let m = assoc_view(t@);
            let ev = m.dom().contains("event"@);
            let sv = m.dom().contains("service"@);
            let cm = m.dom().contains("command"@);
            if ev && !sv && !cm {
                match r {
                    Ok(Binding::Event(e)) => event_outcome(t@, Ok(e)),
                    Err(e) => event_outcome(t@, Err(e)),
                    _ => false,
                }
            } else if !ev && sv && !cm {
                match r {
                    Ok(Binding::Service(q)) => service_outcome(t@, Ok(q)),
                    Err(e) => service_outcome(t@, Err(e)),
                    _ => false,
                }
            } else if !ev && !sv && cm {
                match r {
                    Ok(Binding::Command(c)) => command_outcome(t@, Ok(c)),
                    Err(e) => command_outcome(t@, Err(e)),
                    _ => false,
                }
            } else if !ev && !sv && !cm {
                r matches Err(e) && e.0@ == "no binding name"@
            } else {
                r matches Err(e) && e.0@ == "conflict binding name"@
            }
        },
        _ => r matches Err(e) && e.0@ == "invalid value"@,
    }
}

/// A binding read from a table: which one it is depends on which of the keys
/// `event`, `service` and `command` it has; it must have exactly one.
pub fn toml_to_binding(value: Value) -> (r: Result<Binding, ParseError>)
    requires
        value matches Value::Dict(t) ==> keys_distinct(t@),
    ensures
        binding_outcome(value, r),
{
    let table = match value {
        Value::Dict(t) => t,
        _ => return Err(ParseError("invalid value".to_owned())),
    };
    proof {
        crate::assoc::lemma_assoc_index(table@, "event"@);
        crate::assoc::lemma_assoc_index(table@, "service"@);
        crate::assoc::lemma_assoc_index(table@, "command"@);
    }
    let is_event = assoc_get(&table, "event").is_some();
    let is_service = assoc_get(&table, "service").is_some();
    let is_command = assoc_get(&table, "command").is_some();
    if is_event && !is_service && !is_command {
        match table_to_event(table) {
            Ok(e) => Ok(Binding::Event(e)),
            Err(e) => Err(e),
        }
    } else if !is_event && is_service && !is_command {
        match table_to_service_query(table) {
            Ok(q) => Ok(Binding::Service(q)),
            Err(e) => Err(e),
        }
    } else if !is_event && !is_service && is_command {
        match table_to_command(table) {
            Ok(c) => Ok(Binding::Command(c)),
            Err(e) => Err(e),
        }
    } else if !is_event && !is_service && !is_command {
        Err(ParseError("no binding name".to_owned()))
    } else {
        Err(ParseError("conflict binding name".to_owned()))
    }
}


/// Whether a binding table reads without error.
pub open spec fn binding_ok(value: Value) -> bool {
    exists|b: Binding| binding_outcome(value, Ok(b))
}

/// Whether a binding value reads without error: every table of a list, or
/// the one table.
pub open spec fn bindings_ok(v: Value) -> bool {
    match v {
        Value::List(items) => forall|i: int| 0 <= i < items@.len() ==> binding_ok(#[trigger] items@[i]),
        _ => binding_ok(v),
    }
}

/// Whether an entry of a mode's table reads: its key sequence parses and its
/// bindings read.
pub open spec fn entry_ok(e: (String, Value)) -> bool {
    key_patterns_spec(split_on(e.0@, ' ')) is Ok && bindings_ok(e.1)
}

/// Whether a mode's table reads: it is a table and every entry reads.
pub open spec fn mode_table_ok(v: Value) -> bool {
    v matches Value::Dict(t) && forall|i: int| 0 <= i < t@.len() ==> entry_ok(#[trigger] t@[i])
}

/// Whether each table in a binding value has distinct keys.
pub open spec fn bindings_wf(v: Value) -> bool {
    match v {
        Value::List(items) => forall|i: int|
            0 <= i < items@.len() ==> (#[trigger] items@[i] matches Value::Dict(t) ==> keys_distinct(t@)),
        Value::Dict(t) => keys_distinct(t@),
        _ => true,
    }
}

/// The bindings of a key sequence: a list of binding tables, or one table.
pub fn toml_to_bindings(value: Value) -> (r: Result<Vec<Binding>, ParseError>)
    requires
        bindings_wf(value),
    ensures
        match value {
            Value::List(items) => match r {
                Ok(bs) => bs@.len() == items@.len() && forall|i: int|
                    0 <= i < items@.len() ==> binding_outcome(#[trigger] items@[i], Ok(bs@[i])),
                Err(e) => exists|i: int|
                    0 <= i < items@.len() && binding_outcome(#[trigger] items@[i], Err(e)) && forall|j: int|
                        0 <= j < i ==> binding_ok(#[trigger] items@[j]),
            },
            _ => match r {
                Ok(bs) => bs@.len() == 1 && binding_outcome(value, Ok(bs@[0])),
                Err(e) => binding_outcome(value, Err(e)),
            },
        },
        r is Ok <==> bindings_ok(value),
{
    match value {
        Value::List(items) => {
            let ghost n = items@.len();
            let ghost orig = items@;
            let mut items = items;
            let mut rev: Vec<Value> = Vec::new();
            while items.len() > 0
                invariant
                    items@.len() + rev@.len() == n,
                    items@ + rev@.reverse() == orig,
                    forall|i: int| 0 <= i < items@.len() ==> (#[trigger] items@[i] matches Value::Dict(t) ==> keys_distinct(t@)),
                    forall|i: int| 0 <= i < rev@.len() ==> (#[trigger] rev@[i] matches Value::Dict(t) ==> keys_distinct(t@)),
                decreases items@.len(),
            {
                let ghost before = rev@;
                let x = items.pop().unwrap();
                rev.push(x);
                assert(rev@.reverse() =~= seq![x] + before.reverse());
            }
            assert(rev@.reverse() =~= orig);
            let mut out: Vec<Binding> = Vec::new();
            while rev.len() > 0
                invariant
                    out@.len() + rev@.len() == n,
                    n == orig.len(),
                    value matches Value::List(its) && its@ == orig,
                    rev@.reverse() == orig.skip(out@.len() as int),
                    forall|i: int| 0 <= i < rev@.len() ==> (#[trigger] rev@[i] matches Value::Dict(t) ==> keys_distinct(t@)),
                    forall|j: int| 0 <= j < out@.len() ==> binding_outcome(#[trigger] orig[j], Ok(out@[j])),
                decreases rev@.len(),
            {
                let ghost before = rev@;
                let x = rev.pop().unwrap();
                proof {
                    assert(before.reverse()[0] == x);
                    assert(orig[out@.len() as int] == before.reverse()[0]);
                    assert(rev@.reverse() =~= before.reverse().drop_first());
                }
                let ghost k = out@.len() as int;
                match toml_to_binding(x) {
                    Ok(b) => {
                        out.push(b);
                        assert(orig.skip(k + 1) =~= orig.skip(k).drop_first());
                    },
                    Err(e) => {
                        proof {
                            assert forall|j: int| 0 <= j < k implies binding_ok(#[trigger] orig[j]) by {
                                assert(binding_outcome(orig[j], Ok(out@[j])));
                            }
                            assert(binding_outcome(orig[k], Err(e)));
                            assert(exists|i: int|
                                0 <= i < orig.len() && binding_outcome(#[trigger] orig[i], Err(e)) && forall|j: int|
                                    0 <= j < i ==> binding_ok(#[trigger] orig[j]));
                        }
                        return Err(e);
                    },
                }
            }
            Ok(out)
        },
        other => {
            let b = match toml_to_binding(other) {
                Ok(b) => b,
                Err(e) => return Err(e),
            };
            let mut out: Vec<Binding> = Vec::new();
            out.push(b);
            Ok(out)
        },
    }
}

/// Copies a binding.
pub fn clone_binding(b: &Binding) -> (r: Binding)
    ensures
        r@ == b@,
{
    match b {
        Binding::Event(e) => Binding::Event(e.clone_event()),
        Binding::Service(q) => {
            let mut args: Vec<Value> = Vec::new();
            let mut i: usize = 0;
            while i < q.args.len()
                invariant
                    i <= q.args@.len(),
                    args@.len() == i,
                    forall|j: int| 0 <= j < i ==> #[trigger] args@[j]@ == q.args@[j]@,
                decreases q.args@.len() - i,
            {
                args.push(q.args[i].deep_clone());
                i = i + 1;
            }
            proof {
                crate::registry::lemma_models_pointwise(args@, q.args@);
            }
            Binding::Service(ServiceQuery { name: q.name.clone(), args })
        },
        Binding::Command(c) => {
            let args = crate::registry::clone_strings(c.args.as_slice());
            assert(args@.map_values(|a: String| a@) =~= c.args@.map_values(|a: String| a@));
            Binding::Command(Command { name: c.name.clone(), args })
        },
    }
}

/// Copies a list of bindings.
pub fn clone_bindings(bs: &Vec<Binding>) -> (r: Vec<Binding>)
    ensures
        same_bindings(r@, bs@),
{
    let mut out: Vec<Binding> = Vec::new();
    let mut i: usize = 0;
    while i < bs.len()
        invariant
            i <= bs@.len(),
            out@.len() == i,
            forall|j: int| 0 <= j < i ==> #[trigger] out@[j]@ == bs@[j]@,
        decreases bs@.len() - i,
    {
        out.push(clone_binding(&bs[i]));
        i = i + 1;
    }
    out
}

/// The nodes of the key tries of all modes. Node `n` has the bindings
/// `bindings[n]` and the children `children[n]`, each reached by a key pattern.
pub struct Keymap {
    pub children: Vec<Vec<(KeyPattern, usize)>>,
    pub bindings: Vec<Option<Vec<Binding>>>,
    /// The root node of each mode's trie, by mode name.
    pub modes: Vec<(String, usize)>,
    /// The root of the current mode's trie.
    pub root: Option<usize>,
    /// The node that the keys fed so far lead to.
    pub head: Option<usize>,
}

/// `new` is `old` switched to the trie of the mode named `mode`, or to
/// none, with the keys fed so far forgotten.
pub open spec fn mode_switched(old: Keymap, new: Keymap, mode: Seq<char>) -> bool {
    &&& new.children == old.children
    &&& new.bindings == old.bindings
    &&& new.modes == old.modes
    &&& assoc_view(old.modes@).dom().contains(mode) ==> new.root == Some(assoc_view(old.modes@)[mode])
    &&& !assoc_view(old.modes@).dom().contains(mode) ==> new.root is None
    &&& new.head == new.root
}

/// The keymap state after feeding `key` to `old`: see `Keymap::feed`.
pub open spec fn fed(old: Keymap, new: Keymap, key: KeyPattern) -> bool {
    &&& new.children == old.children
    &&& new.bindings == old.bindings
    &&& new.modes == old.modes
    &&& new.root == old.root
    &&& match old.head {
        None => new.head is None,
        Some(h) => match child_of(old.children@, h as int, key) {
            Some(c) => if old.children@[c]@.len() == 0 && old.bindings@[c] is Some {
                new.head == old.root
            } else {
                new.head == Some(c as usize)
            },
            None => new.head == old.root,
        },
    }
}

/// The bindings that feeding `key` to `old` gives: those of a childless
/// node that the key reaches, or, when the key leads nowhere, those of the
/// node reached so far.
pub open spec fn fed_bindings(old: Keymap, key: KeyPattern) -> Option<Seq<Binding>> {
    match old.head {
        None => None,
        Some(h) => match child_of(old.children@, h as int, key) {
            Some(c) => if old.children@[c]@.len() == 0 && old.bindings@[c] is Some {
                Some(old.bindings@[c]->0@)
            } else {
                None
            },
            None => match old.bindings@[h as int] {
                Some(bs) => Some(bs@),
                None => None,
            },
        },
    }
}

/// The child of node `n` reached by `key`.
pub open spec fn child_of(children: Seq<Vec<(KeyPattern, usize)>>, n: int, key: KeyPattern) -> Option<int>
    decreases children[n]@.len(),
{
    child_in(children[n]@, key)
}

/// The node that an edge list leads to by `key`: the first edge of that key.
pub open spec fn child_in(edges: Seq<(KeyPattern, usize)>, key: KeyPattern) -> Option<int>
    decreases edges.len(),
{
    if edges.len() == 0 {
        None
    } else if edges[0].0 == key {
        Some(edges[0].1 as int)
    } else {
        child_in(edges.drop_first(), key)
    }
}

/// The node that a key sequence leads to from node `n`.
pub open spec fn follow(children: Seq<Vec<(KeyPattern, usize)>>, n: int, keys: Seq<KeyPattern>) -> Option<int>
    decreases keys.len(),
{
    if keys.len() == 0 {
        Some(n)
    } else {
        match child_of(children, n, keys[0]) {
            Some(c) => follow(children, c, keys.drop_first()),
            None => None,
        }
    }
}

impl Keymap {
    /// Every node's edges lead to nodes, the two tables have one entry per
    /// node, and the roots and the head are nodes.
    pub open spec fn wf(&self) -> bool {
        &&& self.children@.len() == self.bindings@.len()
        &&& forall|n: int, e: int|
            0 <= n < self.children@.len() && 0 <= e < self.children@[n]@.len()
                ==> #[trigger] self.children@[n]@[e].1 < self.children@.len()
        &&& keys_distinct(self.modes@)
        &&& forall|m: int| 0 <= m < self.modes@.len() ==> #[trigger] self.modes@[m].1 < self.children@.len()
        &&& (self.root matches Some(r) ==> r < self.children@.len())
        &&& (self.head matches Some(h) ==> h < self.children@.len())
    }

    /// The child of node `n` reached by `key`.
    pub fn child(&self, n: usize, key: &KeyPattern) -> (r: Option<usize>)
        requires
            self.wf(),
            n < self.children@.len(),
        ensures
            match r {
                Some(c) => child_of(self.children@, n as int, *key) == Some(c as int) && c < self.children@.len(),
                None => child_of(self.children@, n as int, *key) is None,
            },
    {
        let edges = &self.children[n];
        let mut i: usize = 0;
        assert(edges@.skip(0) =~= edges@);
        while i < edges.len()
            invariant
                self.wf(),
                n < self.children@.len(),
                *edges == self.children@[n as int],
                i <= edges@.len(),
                child_of(self.children@, n as int, *key) == child_in(edges@.skip(i as int), *key),
            decreases edges@.len() - i,
        {
            assert(edges@.skip(i as int).drop_first() =~= edges@.skip(i + 1));
            if edges[i].0 == *key {
                return Some(edges[i].1);
            }
            i = i + 1;
        }
        None
    }
}

/// The node that `child_in` finds is the target of one of the edges.
proof fn lemma_child_in_target(edges: Seq<(KeyPattern, usize)>, key: KeyPattern)
    requires
        child_in(edges, key) is Some,
    ensures
        edges.len() > 0,
        exists|e: int| 0 <= e < edges.len() && edges[e].1 as int == child_in(edges, key)->0,
    decreases edges.len(),
{
    if edges[0].0 != key {
        lemma_child_in_target(edges.drop_first(), key);
        let e = choose|e: int|
            0 <= e < edges.drop_first().len() && edges.drop_first()[e].1 as int == child_in(
                edges.drop_first(),
                key,
            )->0;
        assert(edges[e + 1] == edges.drop_first()[e]);
    }
}

/// Feeding, one after the other, the keys of a path from the node reached so
/// far to a node without children that has bindings: every key but the last
/// gives nothing, the last gives that node's bindings, and the keys start over
/// at the root. `runs[i + 1]` is the keymap after feeding `keys[i]` to
/// `runs[i]`.
pub proof fn law_path_to_leaf_gives_its_bindings(runs: Seq<Keymap>, keys: Seq<KeyPattern>, n: int)
    requires
        runs[0].wf(),
        keys.len() > 0,
        runs.len() == keys.len() + 1,
        forall|i: int| 0 <= i < keys.len() ==> fed(#[trigger] runs[i], runs[i + 1], keys[i]),
        runs[0].head matches Some(h) && follow(runs[0].children@, h as int, keys) == Some(n),
        runs[0].children@[n]@.len() == 0,
        runs[0].bindings@[n] is Some,
    ensures
        forall|i: int| 0 <= i < keys.len() - 1 ==> fed_bindings(#[trigger] runs[i], keys[i]) is None,
        fed_bindings(runs[keys.len() - 1], keys.last()) == Some(runs[0].bindings@[n]->0@),
        runs[keys.len() as int].head == runs[0].root,
    decreases keys.len(),
{
    let k = runs[0];
    let h = k.head->0 as int;
    let c = child_of(k.children@, h, keys[0])->0;
    assert(child_of(k.children@, h, keys[0]) is Some);
    lemma_child_in_target(k.children@[h]@, keys[0]);
    assert(fed(runs[0], runs[1], keys[0]));
    if keys.len() == 1 {
        assert(keys.drop_first().len() == 0);
        assert(c == n);
        assert(keys.last() == keys[0]);
    } else {
        let rest = keys.drop_first();
        assert(follow(k.children@, c, rest) == Some(n));
        assert(child_of(k.children@, c, rest[0]) is Some);
        lemma_child_in_target(k.children@[c]@, rest[0]);
        assert(runs[1].head == Some(c as usize));
        assert(runs[1].children == k.children);
        assert(runs[1].bindings == k.bindings);
        let tail = runs.drop_first();
        assert forall|i: int| 0 <= i < rest.len() implies fed(#[trigger] tail[i], tail[i + 1], rest[i]) by {
            assert(tail[i] == runs[i + 1]);
            assert(tail[i + 1] == runs[i + 2]);
            assert(rest[i] == keys[i + 1]);
            assert(fed(runs[i + 1], runs[i + 2], keys[i + 1]));
        }
        assert(tail[0] == runs[1]);
        law_path_to_leaf_gives_its_bindings(tail, rest, n);
        assert forall|i: int| 0 <= i < keys.len() - 1 implies fed_bindings(#[trigger] runs[i], keys[i]) is None by {
            if i > 0 {
                assert(tail[i - 1] == runs[i]);
                assert(rest[i - 1] == keys[i]);
            }
        }
        assert(tail[rest.len() - 1] == runs[keys.len() - 1]);
        assert(rest.last() == keys.last());
        assert(tail[rest.len() as int] == runs[keys.len() as int]);
    }
}



/// The nodes from `lo` on form a tree under `lo`: their edges lead to nodes
/// after `lo`, and every such node is the end of one edge only.
pub open spec fn tree_from(children: Seq<Vec<(KeyPattern, usize)>>, lo: int) -> bool {
    &&& 0 <= lo < children.len()
    &&& forall|n: int, e: int|
        lo <= n < children.len() && 0 <= e < children[n]@.len() ==> lo < #[trigger] children[n]@[e].1
            < children.len()
    &&& forall|n1: int, e1: int, n2: int, e2: int|
        #![trigger children[n1]@[e1], children[n2]@[e2]]
        lo <= n1 < children.len() && lo <= n2 < children.len() && 0 <= e1 < children[n1]@.len() && 0 <= e2
            < children[n2]@.len() && children[n1]@[e1].1 == children[n2]@[e2].1 ==> n1 == n2 && e1 == e2
}

/// Node `n` lies on the path of the first `bound` keys of `ks` from `node`.
pub open spec fn on_path(
    children: Seq<Vec<(KeyPattern, usize)>>,
    node: int,
    ks: Seq<KeyPattern>,
    bound: int,
    n: int,
) -> bool {
    exists|k: int| 0 <= k <= bound && #[trigger] follow(children, node, ks.take(k)) == Some(n)
}

proof fn lemma_child_in_edge(edges: Seq<(KeyPattern, usize)>, key: KeyPattern)
    ensures
        child_in(edges, key) matches Some(c) ==> exists|e: int|
            0 <= e < edges.len() && (#[trigger] edges[e]).0 == key && edges[e].1 == c,
        child_in(edges, key) is None ==> forall|e: int| 0 <= e < edges.len() ==> (#[trigger] edges[e]).0 != key,
    decreases edges.len(),
{
    if edges.len() > 0 && edges[0].0 != key {
        lemma_child_in_edge(edges.drop_first(), key);
        if let Some(c) = child_in(edges, key) {
            let e = choose|e: int| 0 <= e < edges.drop_first().len() && (#[trigger] edges.drop_first()[e]).0 == key
                && edges.drop_first()[e].1 == c;
            assert(edges[e + 1] == edges.drop_first()[e]);
        } else {
            assert forall|e: int| 0 <= e < edges.len() implies (#[trigger] edges[e]).0 != key by {
                if e > 0 {
                    assert(edges[e] == edges.drop_first()[e - 1]);
                }
            }
        }
    } else if edges.len() > 0 {
        assert(edges[0].0 == key);
    }
}

/// The last key of a path leads from the node that the rest reaches.
proof fn lemma_follow_last(children: Seq<Vec<(KeyPattern, usize)>>, n: int, ks: Seq<KeyPattern>)
    requires
        ks.len() > 0,
        follow(children, n, ks) is Some,
    ensures
        follow(children, n, ks.drop_last()) matches Some(p) && child_of(children, p, ks.last())
            == follow(children, n, ks),
    decreases ks.len(),
{
    let c = child_of(children, n, ks[0])->0;
    if ks.len() == 1 {
        assert(ks.drop_last() =~= Seq::<KeyPattern>::empty());
        assert(ks.drop_first() =~= Seq::<KeyPattern>::empty());
    } else {
        lemma_follow_last(children, c, ks.drop_first());
        assert(ks.drop_first().drop_last() =~= ks.drop_last().drop_first());
        assert(ks.drop_last()[0] == ks[0]);
    }
}

/// Paths from a node of a tree stay in it, and a path with a key ends past
/// its root.
proof fn lemma_follow_in_tree(children: Seq<Vec<(KeyPattern, usize)>>, lo: int, n: int, ks: Seq<KeyPattern>)
    requires
        tree_from(children, lo),
        lo <= n < children.len(),
        follow(children, n, ks) is Some,
    ensures
        lo <= follow(children, n, ks)->0 < children.len(),
        ks.len() > 0 ==> lo < follow(children, n, ks)->0,
    decreases ks.len(),
{
    if ks.len() > 0 {
        let c = child_of(children, n, ks[0])->0;
        lemma_child_in_edge(children[n]@, ks[0]);
        lemma_follow_in_tree(children, lo, c, ks.drop_first());
    }
}

/// In a tree, two paths from the root that end at the same node are equal.
proof fn lemma_follow_injective(
    children: Seq<Vec<(KeyPattern, usize)>>,
    lo: int,
    a: Seq<KeyPattern>,
    b: Seq<KeyPattern>,
)
    requires
        tree_from(children, lo),
        follow(children, lo, a) is Some,
        follow(children, lo, a) == follow(children, lo, b),
    ensures
        a == b,
    decreases a.len() + b.len(),
{
    lemma_follow_in_tree(children, lo, lo, a);
    lemma_follow_in_tree(children, lo, lo, b);
    if a.len() == 0 && b.len() == 0 {
        assert(a =~= b);
    } else if a.len() > 0 && b.len() > 0 {
        lemma_follow_last(children, lo, a);
        lemma_follow_last(children, lo, b);
        let pa = follow(children, lo, a.drop_last())->0;
        let pb = follow(children, lo, b.drop_last())->0;
        lemma_follow_in_tree(children, lo, lo, a.drop_last());
        lemma_follow_in_tree(children, lo, lo, b.drop_last());
        lemma_child_in_edge(children[pa]@, a.last());
        lemma_child_in_edge(children[pb]@, b.last());
        let ea = choose|e: int| 0 <= e < children[pa]@.len() && (#[trigger] children[pa]@[e]).0 == a.last()
            && children[pa]@[e].1 == follow(children, lo, a)->0;
        let eb = choose|e: int| 0 <= e < children[pb]@.len() && (#[trigger] children[pb]@[e]).0 == b.last()
            && children[pb]@[e].1 == follow(children, lo, b)->0;
        assert(children[pa]@[ea].1 == children[pb]@[eb].1);
        lemma_follow_injective(children, lo, a.drop_last(), b.drop_last());
        assert(a =~= a.drop_last().push(a.last()));
        assert(b =~= b.drop_last().push(b.last()));
    } else if a.len() == 0 {
        assert(follow(children, lo, a) == Some(lo));
    } else {
        assert(follow(children, lo, b) == Some(lo));
    }
}

/// Every edge list of `old` is a prefix of the one of the same node in `new`,
/// which may have more nodes.
pub open spec fn edges_extended(old: Seq<Vec<(KeyPattern, usize)>>, new: Seq<Vec<(KeyPattern, usize)>>) -> bool {
    &&& old.len() <= new.len()
    &&& forall|n: int| 0 <= n < old.len() ==> #[trigger] old[n]@.is_prefix_of(new[n]@)
}

proof fn lemma_child_in_prefix(a: Seq<(KeyPattern, usize)>, b: Seq<(KeyPattern, usize)>, key: KeyPattern)
    requires
        a.is_prefix_of(b),
        child_in(a, key) is Some,
    ensures
        child_in(b, key) == child_in(a, key),
    decreases a.len(),
{
    assert(b[0] == a[0]);
    if a[0].0 != key {
        assert(a.drop_first().is_prefix_of(b.drop_first())) by {
            assert forall|i: int| 0 <= i < a.drop_first().len() implies a.drop_first()[i] == b.drop_first()[i] by {
                assert(a[i + 1] == b[i + 1]);
            }
        }
        lemma_child_in_prefix(a.drop_first(), b.drop_first(), key);
    }
}

proof fn lemma_follow_extended(
    old: Seq<Vec<(KeyPattern, usize)>>,
    new: Seq<Vec<(KeyPattern, usize)>>,
    n: int,
    keys: Seq<KeyPattern>,
)
    requires
        edges_extended(old, new),
        0 <= n < old.len(),
        forall|m: int, e: int| 0 <= m < old.len() && 0 <= e < old[m]@.len() ==> #[trigger] old[m]@[e].1 < old.len(),
        follow(old, n, keys) is Some,
    ensures
        follow(new, n, keys) == follow(old, n, keys),
    decreases keys.len(),
{
    if keys.len() > 0 {
        let c = child_of(old, n, keys[0]);
        lemma_child_in_prefix(old[n]@, new[n]@, keys[0]);
        lemma_child_in_bound(old[n]@, keys[0], old.len() as int);
        lemma_follow_extended(old, new, c->0, keys.drop_first());
    }
}

proof fn lemma_child_in_bound(edges: Seq<(KeyPattern, usize)>, key: KeyPattern, bound: int)
    requires
        forall|e: int| 0 <= e < edges.len() ==> #[trigger] edges[e].1 < bound,
    ensures
        child_in(edges, key) matches Some(c) ==> 0 <= c < bound,
    decreases edges.len(),
{
    if edges.len() > 0 && edges[0].0 != key {
        assert forall|e: int| 0 <= e < edges.drop_first().len() implies #[trigger] edges.drop_first()[e].1 < bound by {
            assert(edges.drop_first()[e] == edges[e + 1]);
        }
        lemma_child_in_bound(edges.drop_first(), key, bound);
    }
}

proof fn lemma_child_in_push(edges: Seq<(KeyPattern, usize)>, key: KeyPattern, c: usize)
    requires
        child_in(edges, key) is None,
    ensures
        child_in(edges.push((key, c)), key) == Some(c as int),
    decreases edges.len(),
{
    if edges.len() > 0 {
        assert(edges.push((key, c)).drop_first() =~= edges.drop_first().push((key, c)));
        lemma_child_in_push(edges.drop_first(), key, c);
    }
}

/// A copy of an edge list.
fn copy_edges(edges: &Vec<(KeyPattern, usize)>) -> (r: Vec<(KeyPattern, usize)>)
    ensures
        r@ == edges@,
{
    let mut r: Vec<(KeyPattern, usize)> = Vec::new();
    let mut i: usize = 0;
    while i < edges.len()
        invariant
            i <= edges@.len(),
            r@ == edges@.take(i as int),
        decreases edges@.len() - i,
    {
        r.push(edges[i]);
        assert(edges@.take(i + 1) =~= edges@.take(i as int).push(edges@[i as int]));
        i = i + 1;
    }
    assert(edges@.take(edges@.len() as int) =~= edges@);
    r
}

impl Keymap {
    /// An empty set of tries, with no mode.
    pub fn empty() -> (r: Keymap)
        ensures
            r.wf(),
            r.children@.len() == 0,
            r.modes@.len() == 0,
            r.root is None,
            r.head is None,
    {
        Keymap { children: Vec::new(), bindings: Vec::new(), modes: Vec::new(), root: None, head: None }
    }

    /// Adds a node without bindings or children.
    fn new_node(&mut self) -> (n: usize)
        requires
            old(self).wf(),
            old(self).children@.len() < usize::MAX,
        ensures
            final(self).wf(),
            n == old(self).children@.len(),
            final(self).children@.len() == old(self).children@.len() + 1,
            forall|m: int| 0 <= m < n ==> final(self).children@[m] == old(self).children@[m],
            final(self).children@[n as int]@.len() == 0,
            final(self).bindings@ == old(self).bindings@.push(None),
            final(self).modes == old(self).modes,
            final(self).root == old(self).root,
            final(self).head == old(self).head,
    {
        let n = self.children.len();
        self.children.push(Vec::new());
        self.bindings.push(None);
        proof {
            assert forall|m: int, e: int|
                0 <= m < self.children@.len() && 0 <= e < self.children@[m]@.len() implies #[trigger] self.children@[m]@[e].1 < self.children@.len() by {
                if m < n {
                    assert(self.children@[m] == old(self).children@[m]);
                }
            }
        }
        n
    }

    /// Binds a key sequence, starting at `node`, creating the nodes on its
    /// path that are missing. Existing paths are kept.
    pub fn add_bindings(&mut self, node: usize, key_sequence: &[KeyPattern], bindings: Vec<Binding>)
        requires
            old(self).wf(),
            node < old(self).children@.len(),
            old(self).children@.len() + key_sequence@.len() < usize::MAX,
        ensures
            final(self).wf(),
            edges_extended(old(self).children@, final(self).children@),
            follow(final(self).children@, node as int, key_sequence@) matches Some(t) && final(self).bindings@[t]
                == Some(bindings),
            final(self).modes == old(self).modes,
            final(self).root == old(self).root,
            final(self).head == old(self).head,
            final(self).children@.len() <= old(self).children@.len() + key_sequence@.len(),
            follow(final(self).children@, node as int, key_sequence@) matches Some(t) && final(self).bindings@
                == (old(self).bindings@ + Seq::new(
                (final(self).bindings@.len() - old(self).bindings@.len()) as nat,
                |i: int| None::<Vec<Binding>>,
            )).update(t, Some(bindings)),
            forall|n: int|
                old(self).children@.len() <= n < final(self).children@.len() ==> #[trigger] on_path(
                    final(self).children@,
                    node as int,
                    key_sequence@,
                    key_sequence@.len() as int,
                    n,
                ),
            tree_from(old(self).children@, node as int) ==> tree_from(final(self).children@, node as int)
                && final(self).children@.take(node as int) == old(self).children@.take(node as int),
    {
        let ghost tr = tree_from(old(self).children@, node as int);
        let ghost ks = key_sequence@;
        assert(old(self).bindings@ + Seq::new(0, |i: int| None::<Vec<Binding>>) =~= old(self).bindings@);
        let mut cur = node;
        let mut i: usize = 0;
        while i < key_sequence.len()
            invariant
                self.wf(),
                i <= key_sequence@.len(),
                node < old(self).children@.len(),
                cur < self.children@.len(),
                edges_extended(old(self).children@, self.children@),
                self.children@.len() <= old(self).children@.len() + i,
                old(self).children@.len() + key_sequence@.len() < usize::MAX,
                follow(self.children@, node as int, key_sequence@.take(i as int)) == Some(cur as int),
                self.modes == old(self).modes,
                self.root == old(self).root,
                self.head == old(self).head,
                ks == key_sequence@,
                tr == tree_from(old(self).children@, node as int),
                self.bindings@ == old(self).bindings@ + Seq::new(
                    (self.bindings@.len() - old(self).bindings@.len()) as nat,
                    |j: int| None::<Vec<Binding>>,
                ),
                forall|n: int|
                    old(self).children@.len() <= n < self.children@.len() ==> #[trigger] on_path(
                        self.children@,
                        node as int,
                        ks,
                        i as int,
                        n,
                    ),
                tr ==> tree_from(self.children@, node as int) && self.children@.take(node as int)
                    == old(self).children@.take(node as int) && node <= cur,
            decreases key_sequence@.len() - i,
        {
            let key = key_sequence[i];
            let ghost before = self.children@;
            match self.child(cur, &key) {
                Some(c) => {
                    proof {
                        if tr {
                            lemma_child_in_edge(self.children@[cur as int]@, key);
                        }
                    }
                    cur = c;
                },
                None => {
                    let ghost bb = self.bindings@;
                    let c = self.new_node();
                    assert(self.bindings@ =~= old(self).bindings@ + Seq::new(
                        (self.bindings@.len() - old(self).bindings@.len()) as nat,
                        |j: int| None::<Vec<Binding>>,
                    ));
                    let ghost mid = self.children@;
                    let mut edges = copy_edges(&self.children[cur]);
                    assert(edges@ == mid[cur as int]@);
                    edges.push((key, c));
                    self.children.set(cur, edges);
                    proof {
                        assert forall|m: int, e: int|
                            0 <= m < self.children@.len() && 0 <= e < self.children@[m]@.len() implies #[trigger] self.children@[m]@[e].1 < self.children@.len() by {
                            if m != cur {
                                assert(self.children@[m] == mid[m]);
                            } else if e < mid[m]@.len() {
                                assert(self.children@[m]@[e] == mid[m]@[e]);
                            }
                        }
                        assert(edges_extended(before, self.children@)) by {
                            assert forall|m: int| 0 <= m < before.len() implies #[trigger] before[m]@.is_prefix_of(self.children@[m]@) by {
                                if m != cur {
                                    assert(self.children@[m] == mid[m]);
                                    assert(mid[m] == before[m]);
                                }
                                assert(mid[m] == before[m]);
                            }
                        }
                        assert(edges_extended(old(self).children@, self.children@)) by {
                            assert forall|m: int| 0 <= m < old(self).children@.len() implies #[trigger] old(self).children@[m]@.is_prefix_of(self.children@[m]@) by {
                                assert(old(self).children@[m]@.is_prefix_of(before[m]@));
                                assert(before[m]@.is_prefix_of(self.children@[m]@));
                            }
                        }
                        assert(mid[cur as int] == before[cur as int]);
                        lemma_child_in_push(before[cur as int]@, key, c);
                        assert(child_of(self.children@, cur as int, key) == Some(c as int));
                        lemma_follow_extended(before, self.children@, node as int, key_sequence@.take(i as int));
                        assert forall|n: int| old(self).children@.len() <= n < before.len() implies #[trigger] on_path(
                            self.children@,
                            node as int,
                            ks,
                            i as int,
                            n,
                        ) by {
                            assert(on_path(before, node as int, ks, i as int, n));
                            let k = choose|k: int| 0 <= k <= i && #[trigger] follow(before, node as int, ks.take(k)) == Some(n);
                            lemma_follow_extended(before, self.children@, node as int, ks.take(k));
                        }
                        if tr {
                            lemma_child_in_edge(before[cur as int]@, key);
                            assert(self.children@.take(node as int) =~= before.take(node as int));
                            let len = self.children@.len() as int;
                            assert forall|m: int, e: int|
                                node <= m < len && 0 <= e < self.children@[m]@.len() implies node < #[trigger] self.children@[m]@[e].1
                                    < len by {
                                if m == c as int {
                                } else if m != cur as int {
                                    assert(self.children@[m] == before[m]);
                                } else if e < before[m]@.len() {
                                    assert(self.children@[m]@[e] == before[m]@[e]);
                                }
                            }
                            assert forall|n1: int, e1: int, n2: int, e2: int|
                                #![trigger self.children@[n1]@[e1], self.children@[n2]@[e2]]
                                node <= n1 < len && node <= n2 < len && 0 <= e1 < self.children@[n1]@.len() && 0 <= e2
                                    < self.children@[n2]@.len() && self.children@[n1]@[e1].1 == self.children@[n2]@[e2].1
                                    implies n1 == n2 && e1 == e2 by {
                                let new1 = n1 == cur as int && e1 == before[cur as int]@.len();
                                let new2 = n2 == cur as int && e2 == before[cur as int]@.len();
                                if n1 != c as int && n1 != cur as int {
                                    assert(self.children@[n1] == before[n1]);
                                } else if n1 == cur as int && !new1 {
                                    assert(self.children@[n1]@[e1] == before[n1]@[e1]);
                                }
                                if n2 != c as int && n2 != cur as int {
                                    assert(self.children@[n2] == before[n2]);
                                } else if n2 == cur as int && !new2 {
                                    assert(self.children@[n2]@[e2] == before[n2]@[e2]);
                                }
                                if !new1 && !new2 {
                                    assert(before[n1]@[e1] == self.children@[n1]@[e1]);
                                    assert(before[n2]@[e2] == self.children@[n2]@[e2]);
                                }
                            }
                        }
                    }
                    cur = c;
                },
            }
            proof {
                lemma_follow_snoc(self.children@, node as int, key_sequence@.take(i as int), key, cur as int);
                assert(key_sequence@.take(i as int).push(key) =~= key_sequence@.take(i + 1));
                assert forall|n: int| old(self).children@.len() <= n < self.children@.len() implies #[trigger] on_path(
                    self.children@,
                    node as int,
                    ks,
                    i + 1,
                    n,
                ) by {
                    if n == cur as int {
                        assert(follow(self.children@, node as int, ks.take(i + 1)) == Some(n));
                    } else {
                        assert(on_path(self.children@, node as int, ks, i as int, n));
                        let k = choose|k: int| 0 <= k <= i && #[trigger] follow(self.children@, node as int, ks.take(k)) == Some(n);
                    }
                }
            }
            i = i + 1;
        }
        let ghost ch = self.children@;
        self.bindings.set(cur, Some(bindings));
        assert(key_sequence@.take(key_sequence@.len() as int) =~= key_sequence@);
        assert forall|n: int| old(self).children@.len() <= n < self.children@.len() implies #[trigger] on_path(
            self.children@,
            node as int,
            key_sequence@,
            key_sequence@.len() as int,
            n,
        ) by {
            assert(on_path(ch, node as int, ks, i as int, n));
        }
    }
}

proof fn lemma_follow_snoc(
    children: Seq<Vec<(KeyPattern, usize)>>,
    n: int,
    keys: Seq<KeyPattern>,
    key: KeyPattern,
    c: int,
)
    requires
        follow(children, n, keys) matches Some(m) && child_of(children, m, key) == Some(c),
    ensures
        follow(children, n, keys.push(key)) == Some(c),
    decreases keys.len(),
{
    if keys.len() > 0 {
        let first = child_of(children, n, keys[0])->0;
        assert(keys.push(key).drop_first() =~= keys.drop_first().push(key));
        lemma_follow_snoc(children, first, keys.drop_first(), key, c);
    } else {
        assert(keys.push(key).drop_first() =~= Seq::<KeyPattern>::empty());
        assert(follow(children, c, Seq::<KeyPattern>::empty()) == Some(c));
        assert(keys.push(key)[0] == key);
    }
}


/// The key sequence that an entry's key text reads as, if it reads.
pub open spec fn entry_keys(e: (String, Value)) -> Option<Seq<KeyPattern>> {
    match key_patterns_spec(split_on(e.0@, ' ')) {
        Ok(ks) => Some(ks),
        Err(_) => None,
    }
}

/// The number of keys in the key sequences of a mode's table.
pub open spec fn key_count(t: Seq<(String, Value)>) -> int
    decreases t.len(),
{
    if t.len() == 0 {
        0
    } else {
        key_count(t.drop_last()) + match entry_keys(t.last()) {
            Some(ks) => ks.len() as int,
            None => 0int,
        }
    }
}

/// The number of nodes that the tables of all modes may need: a root per
/// mode table and one node per key.
pub open spec fn table_key_count(t: Seq<(String, Value)>) -> int
    decreases t.len(),
{
    if t.len() == 0 {
        0
    } else {
        table_key_count(t.drop_last()) + match t.last().1 {
            Value::Dict(d) => key_count(d@) + 1,
            _ => 0int,
        }
    }
}

/// A mode table does not fit in the machine's node numbers after `nodes`
/// nodes: with a root and a node per key, they would come near `usize::MAX`.
pub open spec fn past_limit(nodes: int, value: Value) -> bool {
    match value {
        Value::Dict(t) => nodes + key_count(t@) + 2 >= usize::MAX,
        _ => false,
    }
}

/// `bs` are the bindings that a binding value reads as (see
/// `toml_to_bindings`).
pub open spec fn bindings_from(v: Value, bs: Seq<Binding>) -> bool {
    match v {
        Value::List(items) => bs.len() == items@.len() && forall|i: int|
            0 <= i < items@.len() ==> binding_outcome(#[trigger] items@[i], Ok(bs[i])),
        _ => bs.len() == 1 && binding_outcome(v, Ok(bs[0])),
    }
}

/// Entry `i` of `t` is the last one whose key text reads as `ks`.
pub open spec fn last_entry(t: Seq<(String, Value)>, i: int, ks: Seq<KeyPattern>) -> bool {
    &&& 0 <= i < t.len()
    &&& entry_keys(t[i]) == Some(ks)
    &&& forall|j: int| i < j < t.len() ==> entry_keys(#[trigger] t[j]) != Some(ks)
}

/// The trie under `root` holds the mode table `t`: every key text reads;
/// each key sequence leads to a node that holds the bindings of the last
/// entry with that sequence; a node that no key sequence of the table ends
/// at holds none; and a path goes on from a node only towards a key
/// sequence of the table.
pub open spec fn holds_table(
    children: Seq<Vec<(KeyPattern, usize)>>,
    bindings: Seq<Option<Vec<Binding>>>,
    root: int,
    t: Seq<(String, Value)>,
) -> bool {
    &&& forall|i: int| 0 <= i < t.len() ==> (#[trigger] entry_keys(t[i])) is Some
    &&& forall|i: int, ks: Seq<KeyPattern>|
        #[trigger] last_entry(t, i, ks) ==> holds_last(children, bindings, root, t[i].1, ks)
    &&& forall|ks: Seq<KeyPattern>|
        #[trigger] follow(children, root, ks) is Some && (forall|i: int|
            0 <= i < t.len() ==> entry_keys(#[trigger] t[i]) != Some(ks)) ==> bindings[follow(children, root, ks)->0] is None
    &&& forall|ks: Seq<KeyPattern>, key: KeyPattern|
        #[trigger] follow(children, root, ks.push(key)) is Some ==> exists|i: int|
            0 <= i < t.len() && (#[trigger] entry_keys(t[i])) is Some && ks.push(key).is_prefix_of(entry_keys(t[i])->0)
}

/// The bindings that `ks` leads to under `root` are those that `v` reads as.
pub open spec fn holds_last(
    children: Seq<Vec<(KeyPattern, usize)>>,
    bindings: Seq<Option<Vec<Binding>>>,
    root: int,
    v: Value,
    ks: Seq<KeyPattern>,
) -> bool {
    match follow(children, root, ks) {
        Some(n) => match bindings[n] {
            Some(bs) => bindings_from(v, bs@),
            None => false,
        },
        None => false,
    }
}

/// Node `n` lies on the path of an entry of `t`.
pub open spec fn made_by(children: Seq<Vec<(KeyPattern, usize)>>, root: int, t: Seq<(String, Value)>, n: int) -> bool {
    exists|i: int|
        0 <= i < t.len() && (#[trigger] entry_keys(t[i])) is Some && on_path(
            children,
            root,
            entry_keys(t[i])->0,
            entry_keys(t[i])->0.len() as int,
            n,
        )
}

/// Node `n` ends the key sequence of an entry of `t`.
pub open spec fn ended_by(children: Seq<Vec<(KeyPattern, usize)>>, root: int, t: Seq<(String, Value)>, n: int) -> bool {
    exists|i: int|
        0 <= i < t.len() && (#[trigger] entry_keys(t[i])) is Some && follow(children, root, entry_keys(t[i])->0) == Some(n)
}

proof fn lemma_key_count_prefix(t: Seq<(String, Value)>, k: int)
    requires
        0 <= k <= t.len(),
    ensures
        0 <= key_count(t.take(k)) <= key_count(t),
    decreases t.len() - k,
{
    if k < t.len() {
        lemma_key_count_prefix(t, k + 1);
        lemma_key_count_nonneg(t.take(k));
        assert(t.take(k + 1).drop_last() =~= t.take(k));
    } else {
        assert(t.take(k) =~= t);
        lemma_key_count_nonneg(t);
    }
}

proof fn lemma_key_count_nonneg(t: Seq<(String, Value)>)
    ensures
        0 <= key_count(t),
    decreases t.len(),
{
    if t.len() > 0 {
        lemma_key_count_nonneg(t.drop_last());
    }
}

proof fn lemma_on_path_extended(
    old: Seq<Vec<(KeyPattern, usize)>>,
    new: Seq<Vec<(KeyPattern, usize)>>,
    root: int,
    ks: Seq<KeyPattern>,
    bound: int,
    n: int,
)
    requires
        edges_extended(old, new),
        0 <= root < old.len(),
        forall|m: int, e: int| 0 <= m < old.len() && 0 <= e < old[m]@.len() ==> #[trigger] old[m]@[e].1 < old.len(),
        on_path(old, root, ks, bound, n),
    ensures
        on_path(new, root, ks, bound, n),
{
    let k = choose|k: int| 0 <= k <= bound && #[trigger] follow(old, root, ks.take(k)) == Some(n);
    lemma_follow_extended(old, new, root, ks.take(k));
}

/// What the trie under `root` holds once every entry of `t` is in it.
proof fn lemma_holds_table(
    children: Seq<Vec<(KeyPattern, usize)>>,
    bindings: Seq<Option<Vec<Binding>>>,
    root: int,
    t: Seq<(String, Value)>,
)
    requires
        tree_from(children, root),
        bindings.len() == children.len(),
        forall|i: int| 0 <= i < t.len() ==> (#[trigger] entry_keys(t[i])) is Some,
        forall|i: int, ks: Seq<KeyPattern>|
            #[trigger] last_entry(t, i, ks) ==> holds_last(children, bindings, root, t[i].1, ks),
        forall|n: int| root < n < children.len() ==> #[trigger] made_by(children, root, t, n),
        forall|n: int| root <= n < children.len() && bindings[n] is Some ==> #[trigger] ended_by(children, root, t, n),
    ensures
        holds_table(children, bindings, root, t),
{
    assert forall|ks: Seq<KeyPattern>|
        #[trigger] follow(children, root, ks) is Some && (forall|i: int|
            0 <= i < t.len() ==> entry_keys(#[trigger] t[i]) != Some(ks)) implies bindings[follow(children, root, ks)->0] is None by {
        let n = follow(children, root, ks)->0;
        lemma_follow_in_tree(children, root, root, ks);
        if bindings[n] is Some {
            assert(ended_by(children, root, t, n));
            let i = choose|i: int|
                0 <= i < t.len() && (#[trigger] entry_keys(t[i])) is Some && follow(children, root, entry_keys(t[i])->0) == Some(n);
            let ki = entry_keys(t[i])->0;
            lemma_follow_injective(children, root, ki, ks);
        }
    }
    assert forall|ks: Seq<KeyPattern>, key: KeyPattern|
        #[trigger] follow(children, root, ks.push(key)) is Some implies exists|i: int|
            0 <= i < t.len() && (#[trigger] entry_keys(t[i])) is Some && ks.push(key).is_prefix_of(entry_keys(t[i])->0) by {
        let p = ks.push(key);
        let n = follow(children, root, p)->0;
        lemma_follow_in_tree(children, root, root, p);
        assert(made_by(children, root, t, n));
        let i = choose|i: int|
            0 <= i < t.len() && (#[trigger] entry_keys(t[i])) is Some && on_path(children, root, entry_keys(t[i])->0, entry_keys(t[i])->0.len() as int, n);
        let ki = entry_keys(t[i])->0;
        let k = choose|k: int| 0 <= k <= ki.len() && #[trigger] follow(children, root, ki.take(k)) == Some(n);
        lemma_follow_injective(children, root, p, ki.take(k));
        assert(p.is_prefix_of(ki));
    }
}

/// The nodes from `lo` to `hi` lead only to nodes among them.
pub open spec fn closed_region(children: Seq<Vec<(KeyPattern, usize)>>, lo: int, hi: int) -> bool {
    &&& 0 <= lo < hi <= children.len()
    &&& forall|n: int, e: int|
        lo <= n < hi && 0 <= e < children[n]@.len() ==> lo <= #[trigger] children[n]@[e].1 < hi
}

/// The trie of a mode under `root` holds the mode's table `v`.
pub open spec fn mode_built(
    children: Seq<Vec<(KeyPattern, usize)>>,
    bindings: Seq<Option<Vec<Binding>>>,
    root: usize,
    v: Value,
) -> bool {
    v is Dict && holds_table(children, bindings, root as int, v->Dict_0@)
}

/// Paths through a closed region only read the region's nodes.
proof fn lemma_follow_same(
    c1: Seq<Vec<(KeyPattern, usize)>>,
    c2: Seq<Vec<(KeyPattern, usize)>>,
    lo: int,
    n: int,
    ks: Seq<KeyPattern>,
)
    requires
        closed_region(c1, lo, c1.len() as int),
        c1.len() <= c2.len(),
        c2.take(c1.len() as int) == c1,
        lo <= n < c1.len(),
    ensures
        follow(c2, n, ks) == follow(c1, n, ks),
        follow(c1, n, ks) matches Some(m) ==> lo <= m < c1.len(),
    decreases ks.len(),
{
    if ks.len() > 0 {
        assert(c2[n] == c2.take(c1.len() as int)[n]);
        lemma_child_in_edge(c1[n]@, ks[0]);
        if let Some(c) = child_of(c1, n, ks[0]) {
            lemma_follow_same(c1, c2, lo, c, ks.drop_first());
        }
    }
}

/// A mode's trie stays as it was when nodes are only added after a closed
/// region that holds it.
proof fn lemma_holds_table_kept(
    c1: Seq<Vec<(KeyPattern, usize)>>,
    b1: Seq<Option<Vec<Binding>>>,
    c2: Seq<Vec<(KeyPattern, usize)>>,
    b2: Seq<Option<Vec<Binding>>>,
    root: int,
    t: Seq<(String, Value)>,
)
    requires
        closed_region(c1, root, c1.len() as int),
        c1.len() <= c2.len(),
        c2.take(c1.len() as int) == c1,
        b1.len() == c1.len(),
        b1.len() <= b2.len(),
        b2.take(b1.len() as int) == b1,
        holds_table(c1, b1, root, t),
    ensures
        holds_table(c2, b2, root, t),
{
    assert forall|i: int, ks: Seq<KeyPattern>| #[trigger] last_entry(t, i, ks) implies holds_last(c2, b2, root, t[i].1, ks) by {
        lemma_follow_same(c1, c2, root, root, ks);
        let n = follow(c1, root, ks)->0;
        assert(b2[n] == b2.take(b1.len() as int)[n]);
    }
    assert forall|ks: Seq<KeyPattern>|
        #[trigger] follow(c2, root, ks) is Some && (forall|i: int|
            0 <= i < t.len() ==> entry_keys(#[trigger] t[i]) != Some(ks)) implies b2[follow(c2, root, ks)->0] is None by {
        lemma_follow_same(c1, c2, root, root, ks);
        let n = follow(c1, root, ks)->0;
        assert(b2[n] == b2.take(b1.len() as int)[n]);
    }
    assert forall|ks: Seq<KeyPattern>, key: KeyPattern| #[trigger] follow(c2, root, ks.push(key)) is Some implies exists|i: int|
        0 <= i < t.len() && (#[trigger] entry_keys(t[i])) is Some && ks.push(key).is_prefix_of(entry_keys(t[i])->0) by {
        lemma_follow_same(c1, c2, root, root, ks.push(key));
    }
}

proof fn lemma_table_key_count_nonneg(t: Seq<(String, Value)>)
    ensures
        0 <= table_key_count(t),
    decreases t.len(),
{
    if t.len() > 0 {
        lemma_table_key_count_nonneg(t.drop_last());
        if let Value::Dict(d) = t.last().1 {
            lemma_key_count_nonneg(d@);
        }
    }
}

proof fn lemma_table_key_count_prefix(t: Seq<(String, Value)>, k: int)
    requires
        0 <= k <= t.len(),
    ensures
        0 <= table_key_count(t.take(k)) <= table_key_count(t),
    decreases t.len() - k,
{
    if k < t.len() {
        lemma_table_key_count_prefix(t, k + 1);
        lemma_table_key_count_nonneg(t.take(k));
        assert(t.take(k + 1).drop_last() =~= t.take(k));
        if let Value::Dict(d) = t[k].1 {
            lemma_key_count_nonneg(d@);
        }
    } else {
        assert(t.take(k) =~= t);
        lemma_table_key_count_nonneg(t);
    }
}

/// Whether a keymap table of one mode is well formed: a table whose entries
/// are binding values with distinct keys in each binding table.
pub open spec fn trie_table_wf(v: Value) -> bool {
    v matches Value::Dict(t) ==> (keys_distinct(t@) && forall|i: int|
        0 <= i < t@.len() ==> bindings_wf(#[trigger] t@[i].1))
}

/// Whether every binding of a mode's table is reachable from `root` by its
/// key sequence.
pub open spec fn trie_holds(children: Seq<Vec<(KeyPattern, usize)>>, root: int, t: Seq<(String, Value)>) -> bool {
    forall|i: int|
        0 <= i < t.len() ==> (key_patterns_spec(split_on(#[trigger] t[i].0@, ' ')) matches Ok(ks)
            ==> follow(children, root, ks) is Some)
}

/// What `Keymap::new` gives for a table of modes: the tries of all modes,
/// each holding its mode's table, starting in the default mode; an error
/// only for a mode table that does not read, or one that would not fit in
/// the machine's node numbers.
pub open spec fn keymap_outcome(table: Seq<(String, Value)>, r: Result<Keymap, ParseError>) -> bool {
    &&& r matches Ok(k) ==> k.wf() && assoc_view(k.modes@).dom() == assoc_view(table).dom()
        && k.head == k.root && (assoc_view(k.modes@).dom().contains("normal"@) ==> k.root
        == Some(assoc_view(k.modes@)["normal"@]))
        && (!assoc_view(k.modes@).dom().contains("normal"@) ==> k.root is None)
    &&& r matches Ok(k) ==> forall|name: Seq<char>|
        #[trigger] assoc_view(k.modes@).dom().contains(name) ==> mode_built(
            k.children@,
            k.bindings@,
            assoc_view(k.modes@)[name],
            assoc_view(table)[name],
        )
    &&& r matches Err(e) ==> (exists|i: int| 0 <= i < table.len() && !mode_table_ok(#[trigger] table[i].1))
        || (e.0@ == "keymap is too large"@ && table_key_count(table) + 2 >= usize::MAX)
    &&& (forall|i: int| 0 <= i < table.len() ==> mode_table_ok(#[trigger] table[i].1)) ==> r is Ok
        || (r->Err_0.0@ == "keymap is too large"@ && table_key_count(table) + 2 >= usize::MAX)
}

impl Keymap {
    /// Builds the trie of one mode from its table of key sequences and
    /// bindings, and gives its root.
    pub fn from_toml(&mut self, value: Value) -> (r: Result<usize, ParseError>)
        requires
            old(self).wf(),
            trie_table_wf(value),
        ensures
            final(self).wf(),
            old(self).children@.len() <= final(self).children@.len(),
            final(self).modes == old(self).modes,
            final(self).root == old(self).root,
            final(self).head == old(self).head,
            !(value is Dict) ==> (r matches Err(e) && e.0@ == "keymap is not table"@),
            r matches Ok(root) ==> root == old(self).children@.len() && (value matches Value::Dict(t)
                && trie_holds(final(self).children@, root as int, t@) && holds_table(
                final(self).children@,
                final(self).bindings@,
                root as int,
                t@,
            ) && final(self).children@.len() <= old(self).children@.len() + 1 + key_count(t@)),
            r matches Ok(root) ==> tree_from(final(self).children@, root as int) && final(self).children@.take(
                root as int,
            ) == old(self).children@ && final(self).bindings@.take(root as int) == old(self).bindings@,
            r matches Err(e) ==> !mode_table_ok(value) || (e.0@ == "keymap is too large"@ && past_limit(
                old(self).children@.len() as int,
                value,
            )),
            mode_table_ok(value) ==> r is Ok || (r->Err_0.0@ == "keymap is too large"@ && past_limit(
                old(self).children@.len() as int,
                value,
            )),
    {
        let table = match value {
            Value::Dict(t) => t,
            _ => return Err(ParseError("keymap is not table".to_owned())),
        };
        if self.children.len() >= usize::MAX - 1 {
            proof {
                lemma_key_count_nonneg(table@);
            }
            return Err(ParseError("keymap is too large".to_owned()));
        }
        let ghost c0 = self.children@;
        let ghost b0 = self.bindings@;
        let root = self.new_node();
        proof {
            assert(self.children@.take(root as int) =~= c0);
            assert(self.bindings@.take(root as int) =~= b0);
            assert(tree_from(self.children@, root as int));
        }
        let ghost tv = table@;
        let total = table.len();
        let mut table = table;
        let mut rev: Vec<(String, Value)> = Vec::new();
        while table.len() > 0
            invariant
                table@ + rev@.reverse() == tv,
            decreases table@.len(),
        {
            let x = table.pop().unwrap();
            let ghost before = rev@;
            rev.push(x);
            assert(rev@.reverse() =~= seq![x] + before.reverse());
        }
        assert(rev@.reverse() =~= tv);
        let mut done: usize = 0;
        while rev.len() > 0
            invariant
                self.wf(),
                root < self.children@.len(),
                value matches Value::Dict(t) && t@ == tv,
                tv.len() == total,
                old(self).children@.len() <= self.children@.len(),
                rev@.reverse() == tv.skip(done as int),
                done + rev@.len() == tv.len(),
                forall|i: int| 0 <= i < tv.len() ==> bindings_wf(#[trigger] tv[i].1),
                trie_holds(self.children@, root as int, tv.take(done as int)),
                tree_from(self.children@, root as int),
                root == old(self).children@.len(),
                self.children@.take(root as int) == old(self).children@,
                self.bindings@.take(root as int) == old(self).bindings@,
                self.children@.len() <= old(self).children@.len() + 1 + key_count(tv.take(done as int)),
                forall|i: int| 0 <= i < done ==> (#[trigger] entry_keys(tv[i])) is Some,
                forall|i: int, ks: Seq<KeyPattern>|
                    #[trigger] last_entry(tv.take(done as int), i, ks) ==> holds_last(
                        self.children@,
                        self.bindings@,
                        root as int,
                        tv[i].1,
                        ks,
                    ),
                forall|n: int| root < n < self.children@.len() ==> #[trigger] made_by(self.children@, root as int, tv.take(done as int), n),
                forall|n: int|
                    root <= n < self.children@.len() && self.bindings@[n] is Some ==> #[trigger] ended_by(
                        self.children@,
                        root as int,
                        tv.take(done as int),
                        n,
                    ),
                self.modes == old(self).modes,
                self.root == old(self).root,
                self.head == old(self).head,
            decreases rev@.len(),
        {
            let ghost before_rev = rev@;
            let (key_sequence, bindings) = rev.pop().unwrap();
            proof {
                assert(before_rev.reverse()[0] == (key_sequence, bindings));
                assert(rev@.reverse() =~= before_rev.reverse().drop_first());
                assert(tv[done as int] == (key_sequence, bindings));
            }
            let keys = match parse_key_sequence(key_sequence.as_str()) {
                Ok(k) => k,
                Err(e) => return Err(e),
            };
            let bs = match toml_to_bindings(bindings) {
                Ok(b) => b,
                Err(e) => return Err(e),
            };
            let ghost ks = keys@;
            let ghost t1 = tv.take(done + 1);
            proof {
                assert(t1.drop_last() =~= tv.take(done as int));
                assert(t1.last() == tv[done as int]);
                assert(entry_keys(tv[done as int]) == Some(ks));
                lemma_key_count_prefix(tv, done + 1);
            }
            if self.children.len() >= usize::MAX - keys.len() {
                return Err(ParseError("keymap is too large".to_owned()));
            }
            let ghost old_children = self.children@;
            let ghost old_bindings = self.bindings@;
            let ghost bsg = bs;
            self.add_bindings(root, keys.as_slice(), bs);
            proof {
                let tgt = follow(self.children@, root as int, ks)->0;
                let len0 = old_children.len() as int;
                let ext = old_bindings + Seq::new(
                    (self.bindings@.len() - old_bindings.len()) as nat,
                    |j: int| None::<Vec<Binding>>,
                );
                assert(self.bindings@ == ext.update(tgt, Some(bsg)));
                lemma_follow_in_tree(self.children@, root as int, root as int, ks);
                assert(old_bindings.len() == len0);
                assert(self.bindings@[tgt] == Some(bsg));
                assert forall|n: int| 0 <= n < len0 && n != tgt implies self.bindings@[n] == old_bindings[n] by {
                    assert(ext[n] == old_bindings[n]);
                }
                assert forall|n: int| len0 <= n < self.bindings@.len() && n != tgt implies self.bindings@[n] is None by {
                    assert(ext[n] == Seq::new(
                        (self.bindings@.len() - old_bindings.len()) as nat,
                        |j: int| None::<Vec<Binding>>,
                    )[n - len0]);
                }
                assert forall|i: int, k2: Seq<KeyPattern>| #[trigger] last_entry(t1, i, k2) implies holds_last(
                    self.children@,
                    self.bindings@,
                    root as int,
                    tv[i].1,
                    k2,
                ) by {
                    if i == done {
                        assert(k2 == ks);
                        assert(bindings_from(tv[done as int].1, bsg@));
                    } else {
                        assert forall|j: int| i < j < done implies entry_keys(#[trigger] tv.take(done as int)[j]) != Some(k2) by {
                            assert(t1[j] == tv.take(done as int)[j]);
                        }
                        assert(t1[i] == tv.take(done as int)[i]);
                        assert(last_entry(tv.take(done as int), i, k2));
                        assert(t1[done as int] == tv[done as int]);
                        lemma_follow_in_tree(old_children, root as int, root as int, k2);
                        lemma_follow_extended(old_children, self.children@, root as int, k2);
                        let n2 = follow(old_children, root as int, k2)->0;
                        if n2 == tgt {
                            lemma_follow_injective(self.children@, root as int, k2, ks);
                        }
                    }
                }
                assert forall|n: int| root < n < self.children@.len() implies #[trigger] made_by(
                    self.children@,
                    root as int,
                    t1,
                    n,
                ) by {
                    if n < len0 {
                        assert(made_by(old_children, root as int, tv.take(done as int), n));
                        let i = choose|i: int|
                            0 <= i < tv.take(done as int).len() && (#[trigger] entry_keys(tv.take(done as int)[i])) is Some
                                && on_path(
                                old_children,
                                root as int,
                                entry_keys(tv.take(done as int)[i])->0,
                                entry_keys(tv.take(done as int)[i])->0.len() as int,
                                n,
                            );
                        let ki = entry_keys(tv.take(done as int)[i])->0;
                        lemma_on_path_extended(old_children, self.children@, root as int, ki, ki.len() as int, n);
                        assert(t1[i] == tv.take(done as int)[i]);
                        assert(entry_keys(t1[i]) is Some);
                    } else {
                        assert(on_path(self.children@, root as int, ks, ks.len() as int, n));
                        assert(entry_keys(t1[done as int]) is Some);
                    }
                }
                assert forall|n: int| root <= n < self.children@.len() && self.bindings@[n] is Some implies #[trigger] ended_by(
                    self.children@,
                    root as int,
                    t1,
                    n,
                ) by {
                    if n == tgt {
                        assert(entry_keys(t1[done as int]) is Some);
                    } else if n < len0 {
                        assert(ended_by(old_children, root as int, tv.take(done as int), n));
                        let i = choose|i: int|
                            0 <= i < tv.take(done as int).len() && (#[trigger] entry_keys(tv.take(done as int)[i])) is Some
                                && follow(old_children, root as int, entry_keys(tv.take(done as int)[i])->0) == Some(n);
                        let ki = entry_keys(tv.take(done as int)[i])->0;
                        lemma_follow_extended(old_children, self.children@, root as int, ki);
                        assert(t1[i] == tv.take(done as int)[i]);
                        assert(entry_keys(t1[i]) is Some);
                    }
                }
                assert(self.children@.take(root as int) =~= old_children.take(root as int));
                assert(self.bindings@.take(root as int) =~= old_bindings.take(root as int));
                assert forall|i: int| 0 <= i < tv.take(done + 1).len() implies (key_patterns_spec(split_on(#[trigger] tv.take(done + 1)[i].0@, ' ')) matches Ok(ks)
                    ==> follow(self.children@, root as int, ks) is Some) by {
                    if i < done {
                        assert(tv.take(done + 1)[i] == tv.take(done as int)[i]);
                        if let Ok(ks) = key_patterns_spec(split_on(tv.take(done as int)[i].0@, ' ')) {
                            lemma_follow_extended(old_children, self.children@, root as int, ks);
                        }
                    }
                }
                assert(rev@.reverse() =~= tv.skip(done + 1));
            }
            done = done + 1;
        }
        assert(tv.take(tv.len() as int) =~= tv);
        proof {
            lemma_holds_table(self.children@, self.bindings@, root as int, tv);
        }
        Ok(root)
    }

    /// Builds the tries of all modes from a table of modes, and starts in the
    /// trie of the default mode.
    pub fn new(table: Vec<(String, Value)>) -> (r: Result<Keymap, ParseError>)
        requires
            keys_distinct(table@),
            forall|i: int| 0 <= i < table@.len() ==> trie_table_wf(#[trigger] table@[i].1),
        ensures
            keymap_outcome(table@, r),
    {
        Self::build(table)
    }

    fn build(table: Vec<(String, Value)>) -> (r: Result<Keymap, ParseError>)
        requires
            keys_distinct(table@),
            forall|i: int| 0 <= i < table@.len() ==> trie_table_wf(#[trigger] table@[i].1),
        ensures
            r matches Ok(k) ==> k.wf() && assoc_view(k.modes@).dom() == assoc_view(table@).dom()
                && k.head == k.root && (assoc_view(k.modes@).dom().contains("normal"@) ==> k.root
                == Some(assoc_view(k.modes@)["normal"@]))
                && (!assoc_view(k.modes@).dom().contains("normal"@) ==> k.root is None),
            r matches Ok(k) ==> forall|name: Seq<char>|
                #[trigger] assoc_view(k.modes@).dom().contains(name) ==> mode_built(
                    k.children@,
                    k.bindings@,
                    assoc_view(k.modes@)[name],
                    assoc_view(table@)[name],
                ),
            r matches Err(e) ==> (exists|i: int| 0 <= i < table@.len() && !mode_table_ok(#[trigger] table@[i].1))
                || (e.0@ == "keymap is too large"@ && table_key_count(table@) + 2 >= usize::MAX),
            (forall|i: int| 0 <= i < table@.len() ==> mode_table_ok(#[trigger] table@[i].1)) ==> r is Ok
                || (r->Err_0.0@ == "keymap is too large"@ && table_key_count(table@) + 2 >= usize::MAX),
    {
        let mut keymap = Keymap::empty();
        let ghost tv = table@;
        let total = table.len();
        let mut entries = table;
        let mut rev: Vec<(String, Value)> = Vec::new();
        while entries.len() > 0
            invariant
                entries@ + rev@.reverse() == tv,
            decreases entries@.len(),
        {
            let x = entries.pop().unwrap();
            let ghost before = rev@;
            rev.push(x);
            assert(rev@.reverse() =~= seq![x] + before.reverse());
        }
        assert(rev@.reverse() =~= tv);
        let mut done: usize = 0;
        while rev.len() > 0
            invariant
                keymap.wf(),
                keymap.root is None,
                keymap.head is None,
                tv.len() == total,
                rev@.reverse() == tv.skip(done as int),
                done + rev@.len() == tv.len(),
                keys_distinct(tv),
                table@ == tv,
                forall|i: int| 0 <= i < tv.len() ==> trie_table_wf(#[trigger] tv[i].1),
                assoc_view(keymap.modes@).dom() == assoc_view(tv.take(done as int)).dom(),
                keymap.children@.len() <= table_key_count(tv.take(done as int)),
                forall|name: Seq<char>|
                    #[trigger] assoc_view(keymap.modes@).dom().contains(name) ==> mode_built(
                        keymap.children@,
                        keymap.bindings@,
                        assoc_view(keymap.modes@)[name],
                        assoc_view(tv.take(done as int))[name],
                    ) && closed_region(keymap.children@, assoc_view(keymap.modes@)[name] as int, keymap.children@.len() as int),
            decreases rev@.len(),
        {
            let ghost before_rev = rev@;
            let (mode, value) = rev.pop().unwrap();
            proof {
                assert(before_rev.reverse()[0] == (mode, value));
                assert(rev@.reverse() =~= before_rev.reverse().drop_first());
                assert(tv[done as int] == (mode, value));
            }
            let ghost c1 = keymap.children@;
            let ghost b1 = keymap.bindings@;
            let ghost m1 = keymap.modes@;
            proof {
                assert(tv.take(done + 1).drop_last() =~= tv.take(done as int));
                assert(tv.take(done + 1).last() == tv[done as int]);
                lemma_table_key_count_prefix(tv, done + 1);
            }
            let root = match keymap.from_toml(value) {
                Ok(r) => r,
                Err(e) => {
                    assert(tv[done as int].1 == value);
                    return Err(e);
                },
            };
            proof {
                assert forall|name: Seq<char>| #[trigger] assoc_view(m1).dom().contains(name) implies mode_built(
                    keymap.children@,
                    keymap.bindings@,
                    assoc_view(m1)[name],
                    assoc_view(tv.take(done as int))[name],
                ) && closed_region(keymap.children@, assoc_view(m1)[name] as int, keymap.children@.len() as int) by {
                    let r0 = assoc_view(m1)[name] as int;
                    let v = assoc_view(tv.take(done as int))[name];
                    assert(closed_region(c1, r0, c1.len() as int));
                    assert(mode_built(c1, b1, assoc_view(m1)[name], v));
                    lemma_holds_table_kept(c1, b1, keymap.children@, keymap.bindings@, r0, v->Dict_0@);
                    let c2 = keymap.children@;
                    assert forall|n: int, e: int| r0 <= n < c2.len() && 0 <= e < c2[n]@.len() implies r0 <= #[trigger] c2[n]@[e].1
                        < c2.len() by {
                        if n < c1.len() {
                            assert(c2[n] == c2.take(c1.len() as int)[n]);
                        }
                    }
                }
            }
            let ghost old_modes = keymap.modes@;
            let ghost mode_key = mode@;
            crate::assoc::assoc_insert(&mut keymap.modes, mode, root);
            proof {
                assert forall|m: int| 0 <= m < keymap.modes@.len() implies #[trigger] keymap.modes@[m].1 < keymap.children@.len() by {
                    let k = keymap.modes@[m].0@;
                    crate::assoc::lemma_assoc_index(keymap.modes@, k);
                    assert(crate::assoc::has_key_at(keymap.modes@, k, m));
                    if k != mode_key {
                        crate::assoc::lemma_assoc_index(old_modes, k);
                        let j = choose|j: int| crate::assoc::has_key_at(old_modes, k, j);
                        assert(old_modes[j].1 < keymap.children@.len());
                    }
                }
                assert(assoc_view(keymap.modes@).dom() =~= assoc_view(tv.take(done + 1)).dom());
                assert(assoc_view(tv.take(done + 1)) == assoc_view(tv.take(done as int)).insert(mode_key, value));
                assert forall|name: Seq<char>| #[trigger] assoc_view(keymap.modes@).dom().contains(name) implies mode_built(
                    keymap.children@,
                    keymap.bindings@,
                    assoc_view(keymap.modes@)[name],
                    assoc_view(tv.take(done + 1))[name],
                ) && closed_region(keymap.children@, assoc_view(keymap.modes@)[name] as int, keymap.children@.len() as int) by {
                    if name != mode_key {
                        assert(assoc_view(m1).dom().contains(name));
                    }
                }
                assert(rev@.reverse() =~= tv.skip(done + 1));
            }
            done = done + 1;
        }
        assert(tv.take(tv.len() as int) =~= tv);
        proof {
            crate::assoc::lemma_assoc_index(keymap.modes@, "normal"@);
        }
        let root = match assoc_get(&keymap.modes, "normal") {
            Some(r) => Some(*r),
            None => None,
        };
        keymap.root = root;
        keymap.head = root;
        Ok(keymap)
    }

    /// Switches to the trie of a mode, and forgets the keys fed so far.
    pub fn change_mode(&mut self, mode: &str)
        requires
            old(self).wf(),
        ensures
            final(self).wf(),
            mode_switched(*old(self), *final(self), mode@),
    {
        proof {
            crate::assoc::lemma_assoc_index(self.modes@, mode@);
        }
        let root = match assoc_get(&self.modes, mode) {
            Some(r) => Some(*r),
            None => None,
        };
        proof {
            if root is Some {
                let i = choose|i: int| crate::assoc::has_key_at(self.modes@, mode@, i);
                assert(self.modes@[i].1 < self.children@.len());
            }
        }
        self.root = root;
        self.head = root;
    }

    /// Feeds a key. When it leads to a node that has bindings and no children,
    /// those bindings are given and the keys start over; when it leads to a
    /// node that goes on, the keys fed so far are kept; when it leads nowhere,
    /// the bindings of the keys fed so far, if any, are given and the keys
    /// start over. With no trie to walk, nothing happens.
    pub fn feed(&mut self, key: &KeyPattern) -> (r: Option<Vec<Binding>>)
        requires
            old(self).wf(),
        ensures
            final(self).wf(),
            fed(*old(self), *final(self), *key),
            match fed_bindings(*old(self), *key) {
                Some(bs) => r matches Some(rs) && same_bindings(rs@, bs),
                None => r is None,
            },
    {
        let head = match self.head {
            Some(h) => h,
            None => return None,
        };
        self.head = None;
        match self.child(head, key) {
            Some(c) => {
                if self.children[c].len() == 0 && self.bindings[c].is_some() {
                    self.head = self.root;
                    match &self.bindings[c] {
                        Some(bs) => Some(clone_bindings(bs)),
                        None => None,
                    }
                } else {
                    self.head = Some(c);
                    None
                }
            },
            None => {
                self.head = self.root;
                match &self.bindings[head] {
                    Some(bs) => Some(clone_bindings(bs)),
                    None => None,
                }
            },
        }
    }
}

/// Feeding a key that leads nowhere from the node reached so far gives
/// that node's bindings, if it has any, and starts the keys over; a key that
/// leads to a node with bindings and no children gives that node's bindings
/// and starts over; a key that leads to a node that goes on gives nothing
/// and keeps the keys fed so far.
pub proof fn law_feed_outcomes(old: Keymap, new: Keymap, key: KeyPattern)
    requires
        old.wf(),
        fed(old, new, key),
        old.head is Some,
    ensures
        ({
            let h = old.head->0 as int;
            match child_of(old.children@, h, key) {
                None => new.head == old.root && fed_bindings(old, key) == match old.bindings@[h] {
                    Some(bs) => Some(bs@),
                    None => None::<Seq<Binding>>,
                },
                Some(c) => if old.children@[c]@.len() == 0 && old.bindings@[c] is Some {
                    new.head == old.root && fed_bindings(old, key) == Some(old.bindings@[c]->0@)
                } else {
                    new.head == Some(c as usize) && fed_bindings(old, key) is None
                },
            }
        }),
        old.bindings@[old.head->0 as int] is Some && child_of(old.children@, old.head->0 as int, key) is None
            ==> fed_bindings(old, key) is Some && new.head == old.root,
{
}

proof fn lemma_follow_first(children: Seq<Vec<(KeyPattern, usize)>>, h: int, keys: Seq<KeyPattern>, i: int)
    requires
        0 <= i < keys.len(),
        child_of(children, h, keys[0]) is Some,
    ensures
        follow(children, h, keys.take(i + 1)) == follow(
            children,
            child_of(children, h, keys[0])->0,
            keys.drop_first().take(i),
        ),
{
    assert(keys.take(i + 1).drop_first() =~= keys.drop_first().take(i));
    assert(keys.take(i + 1)[0] == keys[0]);
}

/// The node, if any, has children.
pub open spec fn goes_on(children: Seq<Vec<(KeyPattern, usize)>>, node: Option<int>) -> bool {
    match node {
        Some(m) => children[m]@.len() > 0,
        None => false,
    }
}

/// Feeding the keys of a path from the node reached so far through nodes
/// that go on, then a key that leads nowhere from the last of them: the keys
/// of the path give nothing, and the last key gives the bindings of the node
/// that the path reached (none if it has none) and starts the keys over at the
/// root. `runs[i + 1]` is the keymap after feeding the `i`-th key.
pub proof fn law_dead_end_gives_the_bindings_so_far(
    runs: Seq<Keymap>,
    keys: Seq<KeyPattern>,
    dead: KeyPattern,
    n: int,
)
    requires
        runs[0].wf(),
        runs.len() == keys.len() + 2,
        forall|i: int| 0 <= i < keys.len() ==> fed(#[trigger] runs[i], runs[i + 1], keys[i]),
        fed(runs[keys.len() as int], runs[keys.len() + 1int], dead),
        runs[0].head matches Some(h) && follow(runs[0].children@, h as int, keys) == Some(n),
        forall|i: int|
            1 <= i <= keys.len() ==> goes_on(
                runs[0].children@,
                #[trigger] follow(runs[0].children@, runs[0].head->0 as int, keys.take(i)),
            ),
        child_of(runs[0].children@, n, dead) is None,
    ensures
        forall|i: int| 0 <= i < keys.len() ==> fed_bindings(#[trigger] runs[i], keys[i]) is None,
        runs[keys.len() as int].head == Some(n as usize),
        fed_bindings(runs[keys.len() as int], dead) == match runs[0].bindings@[n] {
            Some(bs) => Some(bs@),
            None => None::<Seq<Binding>>,
        },
        runs[keys.len() + 1int].head == runs[0].root,
    decreases keys.len(),
{
    let k = runs[0];
    let h = k.head->0 as int;
    if keys.len() == 0 {
        assert(n == h);
    } else {
        let c = child_of(k.children@, h, keys[0])->0;
        assert(child_of(k.children@, h, keys[0]) is Some);
        lemma_child_in_target(k.children@[h]@, keys[0]);
        lemma_follow_first(k.children@, h, keys, 0);
        assert(keys.drop_first().take(0) =~= Seq::<KeyPattern>::empty());
        assert(follow(k.children@, c, keys.drop_first().take(0)) == Some(c));
        assert(goes_on(k.children@, follow(k.children@, h, keys.take(1))));
        assert(k.children@[c]@.len() > 0);
        assert(fed(runs[0], runs[1], keys[0]));
        assert(runs[1].head == Some(c as usize));
        let rest = keys.drop_first();
        let tail = runs.drop_first();
        assert(tail[0] == runs[1]);
        assert forall|i: int| 0 <= i < rest.len() implies fed(#[trigger] tail[i], tail[i + 1], rest[i]) by {
            assert(tail[i] == runs[i + 1]);
            assert(tail[i + 1] == runs[i + 2]);
            assert(rest[i] == keys[i + 1]);
            assert(fed(runs[i + 1], runs[i + 2], keys[i + 1]));
        }
        assert(tail[rest.len() as int] == runs[keys.len() as int]);
        assert(tail[rest.len() + 1int] == runs[keys.len() + 1int]);
        assert forall|i: int| 1 <= i <= rest.len() implies goes_on(
            tail[0].children@,
            #[trigger] follow(tail[0].children@, tail[0].head->0 as int, rest.take(i)),
        ) by {
            assert(goes_on(k.children@, follow(k.children@, h, keys.take(i + 1))));
            lemma_follow_first(k.children@, h, keys, i);
        }
        assert(follow(k.children@, c, rest) == Some(n));
        law_dead_end_gives_the_bindings_so_far(tail, rest, dead, n);
        assert forall|i: int| 0 <= i < keys.len() implies fed_bindings(#[trigger] runs[i], keys[i]) is None by {
            if i > 0 {
                assert(tail[i - 1] == runs[i]);
                assert(rest[i - 1] == keys[i]);
            }
        }
    }
}

} // verus!
