use vstd::prelude::*;

use crate::data::id::PaneId;
use crate::data::input::KeyEvent;
use crate::data::Mode;
use crate::event::EventResult;
use crate::config::{modes_table_check, modes_table_wf, parse_toml_table, read_from, toml_entries_of};
use crate::keymap::{
    clone_binding, fed, fed_bindings, keymap_outcome, mode_switched, Binding, BindingModel, KeyPattern,
    Keymap, ParseError, ServiceQuery,
};
use crate::text::{str_concat, str_eq};
use crate::value::{Value, ValueModel};

verus! {

/// What `KeymapPlugin::from_config` gives for the table of modes read from
/// the configuration: the keymap that `Keymap::new` builds from it, or an
/// error where a table repeats a key.
pub open spec fn config_outcome(table: Seq<(String, Value)>, r: Result<KeymapPlugin, ParseError>) -> bool {
    if modes_table_wf(table) {
        keymap_outcome(
            table,
            match r {
                Ok(p) => Ok(p.spec_keymap()),
                Err(e) => Err(e),
            },
        )
    } else {
        r matches Err(e) && e.0@ == "duplicate key in the keymap"@
    }
}

/// The key bindings, and for each pane the plugin that serves it.
pub struct KeymapPlugin {
    keymap: Keymap,
    panes: Vec<(PaneId, String)>,
}

/// The plugin that serves pane `id` among `panes`.
pub open spec fn handler_of(panes: Seq<(PaneId, String)>, id: PaneId) -> Option<Seq<char>> {
    if exists|i: int| 0 <= i < panes.len() && panes[i].0 == id {
        Some(panes[choose|i: int| 0 <= i < panes.len() && panes[i].0 == id].1@)
    } else {
        None
    }
}

/// A binding as it runs for a pane served by `handler`: a service query goes
/// to the handler's service of that name.
pub open spec fn for_handler(b: BindingModel, handler: Seq<char>) -> BindingModel {
    match b {
        BindingModel::Service(name, args) => BindingModel::Service(handler + "."@ + name, args),
        _ => b,
    }
}

/// The bindings `out` are `bs` as they run for a pane served by `handler`.
pub open spec fn bindings_for(out: Seq<Binding>, bs: Seq<Binding>, handler: Seq<char>) -> bool {
    out.len() == bs.len() && forall|j: int|
        0 <= j < out.len() ==> #[trigger] out[j]@ == for_handler(bs[j]@, handler)
}

/// The mode that a value names, as a mode announcement carries it.
pub open spec fn mode_of_value(v: ValueModel) -> Option<Mode> {
    match v {
        ValueModel::Str(s) => if s == "normal"@ {
            Some(Mode::Normal)
        } else if s == "insert"@ {
            Some(Mode::Insert)
        } else if s == "command"@ {
            Some(Mode::Command)
        } else {
            None
        },
        _ => None,
    }
}

/// Reads the mode that a value names.
pub fn mode_from_value(v: &Value) -> (r: Option<Mode>)
    ensures
        r == mode_of_value(v@),
{
    match v {
        Value::Str(s) => if str_eq(s.as_str(), "normal") {
            Some(Mode::Normal)
        } else if str_eq(s.as_str(), "insert") {
            Some(Mode::Insert)
        } else if str_eq(s.as_str(), "command") {
            Some(Mode::Command)
        } else {
            None
        },
        _ => None,
    }
}

/// The binding as it runs for a pane served by `handler`.
fn binding_for(b: &Binding, handler: &str) -> (r: Binding)
    ensures
        r@ == for_handler(b@, handler@),
{
    match b {
        Binding::Service(q) => {
            let copy = clone_binding(b);
            let args = match copy {
                Binding::Service(q2) => q2.args,
                _ => Vec::new(),
            };
            let prefix = str_concat(handler, ".");
            let name = str_concat(prefix.as_str(), q.name.as_str());
            Binding::Service(ServiceQuery { name, args })
        },
        _ => clone_binding(b),
    }
}

impl KeymapPlugin {
    /// Pane ids are unique; the keymap is well formed.
    pub closed spec fn wf(&self) -> bool {
        &&& self.keymap.wf()
        &&& forall|i: int, j: int|
            0 <= i < j < self.panes@.len() ==> self.panes@[i].0 != self.panes@[j].0
    }

    /// The key bindings.
    pub closed spec fn spec_keymap(&self) -> Keymap {
        self.keymap
    }

    /// The panes with the plugins that serve them.
    pub closed spec fn panes(&self) -> Seq<(PaneId, String)> {
        self.panes@
    }

    /// A plugin with the given bindings and no pane.
    pub fn new(keymap: Keymap) -> (p: Self)
        requires
            keymap.wf(),
        ensures
            p.wf(),
            p.spec_keymap() == keymap,
            p.panes().len() == 0,
    {
        KeymapPlugin { keymap, panes: Vec::new() }
    }

    /// Reads the key bindings from the configuration's TOML text (a table of
    /// modes, each a table of key sequences and bindings), with no pane.
    pub fn from_config(text: &str) -> (r: Result<KeymapPlugin, ParseError>)
        ensures
            toml_entries_of(text@) is None ==> r is Err,
            toml_entries_of(text@) matches Some(t) ==> exists|table: Seq<(String, Value)>|
                #[trigger] read_from(table, t) && config_outcome(table, r),
            r matches Ok(p) ==> p.wf() && p.panes().len() == 0,
    {
        let table = match parse_toml_table(text) {
            Ok(t) => t,
            Err(m) => return Err(ParseError(m)),
        };
        let ghost tv = table@;
        if !modes_table_check(&table) {
            return Err(ParseError("duplicate key in the keymap".to_owned()));
        }
        match Keymap::new(table) {
            Ok(k) => Ok(KeymapPlugin::new(k)),
            Err(e) => Err(e),
        }
    }

    proof fn lemma_handler_at(&self, i: int)
        requires
            self.wf(),
            0 <= i < self.panes@.len(),
        ensures
            handler_of(self.panes@, self.panes@[i].0) == Some(self.panes@[i].1@),
    {
        let id = self.panes@[i].0;
        let j = choose|j: int| 0 <= j < self.panes@.len() && self.panes@[j].0 == id;
        if j < i {
            assert(self.panes@[j].0 != self.panes@[i].0);
        } else if i < j {
            assert(self.panes@[i].0 != self.panes@[j].0);
        }
    }

    /// The position of pane `id`.
    fn slot(&self, id: PaneId) -> (r: Option<usize>)
        requires
            self.wf(),
        ensures
            match r {
                Some(i) => i < self.panes@.len() && self.panes@[i as int].0 == id && handler_of(
                    self.panes@,
                    id,
                ) == Some(self.panes@[i as int].1@),
                None => handler_of(self.panes@, id) is None,
            },
    {
        let mut i: usize = 0;
        while i < self.panes.len()
            invariant
                self.wf(),
                i <= self.panes@.len(),
                forall|j: int| 0 <= j < i ==> self.panes@[j].0 != id,
            decreases self.panes@.len() - i,
        {
            if self.panes[i].0 == id {
                proof {
                    self.lemma_handler_at(i as int);
                }
                return Some(i);
            }
            i = i + 1;
        }
        None
    }

    /// Feeds a key to the bindings. A key that no pattern can describe is
    /// passed on; a pressed key that completes a binding gives the bindings
    /// to run for the focused pane, if a plugin serves it.
    pub fn on_key_input(&mut self, key_event: &KeyEvent, focus: PaneId) -> (r: (
        EventResult,
        Vec<Binding>,
    ))
        requires
            old(self).wf(),
        ensures
            final(self).wf(),
            final(self).panes() == old(self).panes(),
            KeyPattern::from_key_event_spec(key_event) is None ==> r.0 is Propagate && r.1@.len() == 0
                && *final(self) == *old(self),
            KeyPattern::from_key_event_spec(key_event) is Some && !(key_event.state is Pressed)
                ==> r.0 is Handled && r.1@.len() == 0 && *final(self) == *old(self),
            KeyPattern::from_key_event_spec(key_event) matches Some(key) ==> (key_event.state is Pressed
                ==> {
                &&& r.0 is Handled
                &&& fed(old(self).spec_keymap(), final(self).spec_keymap(), key)
                &&& match fed_bindings(old(self).spec_keymap(), key) {
                    Some(bs) => match handler_of(old(self).panes(), focus) {
                        Some(h) => bindings_for(r.1@, bs, h),
                        None => r.1@.len() == 0,
                    },
                    None => r.1@.len() == 0,
                }
            }),
    {
        let key = match KeyPattern::from_key_event(key_event) {
            Some(k) => k,
            None => return (EventResult::Propagate, Vec::new()),
        };
        if !key_event.state.is_pressed() {
            return (EventResult::Handled, Vec::new());
        }
        let bindings = match self.keymap.feed(&key) {
            Some(bs) => bs,
            None => return (EventResult::Handled, Vec::new()),
        };
        let i = match self.slot(focus) {
            Some(i) => i,
            None => return (EventResult::Handled, Vec::new()),
        };
        let mut out: Vec<Binding> = Vec::new();
        let mut j: usize = 0;
        while j < bindings.len()
            invariant
                self.wf(),
                i < self.panes@.len(),
                j <= bindings@.len(),
                out@.len() == j,
                forall|k: int| 0 <= k < j ==> #[trigger] out@[k]@ == for_handler(bindings@[k]@, self.panes@[i as int].1@),
            decreases bindings@.len() - j,
        {
            out.push(binding_for(&bindings[j], self.panes[i].1.as_str()));
            j = j + 1;
        }
        (EventResult::Handled, out)
    }

    /// Registers the plugin that serves a pane, replacing an earlier one.
    pub fn add_pane(&mut self, pane_id: PaneId, handler: String) -> (r: Result<(), String>)
        requires
            old(self).wf(),
        ensures
            r is Ok,
            final(self).wf(),
            final(self).spec_keymap() == old(self).spec_keymap(),
            handler_of(final(self).panes(), pane_id) == Some(handler@),
            forall|x: PaneId| x != pane_id ==> #[trigger] handler_of(final(self).panes(), x) == handler_of(
                old(self).panes(),
                x,
            ),
    {
        let ghost h = handler@;
        match self.slot(pane_id) {
            Some(i) => {
                let ghost before = self.panes@;
                self.panes.set(i, (pane_id, handler));
                proof {
                    self.lemma_same_ids(before, i as int);
                    self.lemma_handler_at(i as int);
                }
            },
            None => {
                let ghost before = self.panes@;
                self.panes.push((pane_id, handler));
                proof {
                    assert(self.panes@.drop_last() =~= before);
                    self.lemma_pushed(before);
                    self.lemma_handler_at(before.len() as int);
                }
            },
        }
        Ok(())
    }

    proof fn lemma_same_ids(&self, before: Seq<(PaneId, String)>, i: int)
        requires
            0 <= i < before.len(),
            self.panes@ == before.update(i, (before[i].0, self.panes@[i].1)),
            forall|a: int, b: int| 0 <= a < b < before.len() ==> before[a].0 != before[b].0,
        ensures
            self.keymap.wf() ==> self.wf(),
            forall|x: PaneId| x != before[i].0 ==> #[trigger] handler_of(self.panes@, x) == handler_of(before, x),
    {
        assert forall|x: PaneId| x != before[i].0 implies #[trigger] handler_of(self.panes@, x) == handler_of(before, x) by {
            if exists|k: int| 0 <= k < before.len() && before[k].0 == x {
                let k = choose|k: int| 0 <= k < before.len() && before[k].0 == x;
                assert(self.panes@[k].0 == x);
                let k2 = choose|k: int| 0 <= k < self.panes@.len() && self.panes@[k].0 == x;
                if k2 != k {
                    if k < k2 {
                        assert(before[k].0 != before[k2].0);
                    } else {
                        assert(before[k2].0 != before[k].0);
                    }
                }
            }
            if exists|k: int| 0 <= k < self.panes@.len() && self.panes@[k].0 == x {
                let k = choose|k: int| 0 <= k < self.panes@.len() && self.panes@[k].0 == x;
                assert(before[k].0 == x);
            }
        }
    }

    proof fn lemma_pushed(&self, before: Seq<(PaneId, String)>)
        requires
            self.panes@.len() == before.len() + 1,
            self.panes@.drop_last() == before,
            handler_of(before, self.panes@.last().0) is None,
            forall|a: int, b: int| 0 <= a < b < before.len() ==> before[a].0 != before[b].0,
        ensures
            self.keymap.wf() ==> self.wf(),
            forall|x: PaneId| x != self.panes@.last().0 ==> #[trigger] handler_of(self.panes@, x) == handler_of(before, x),
    {
        let n = before.len() as int;
        assert forall|a: int, b: int| 0 <= a < b < self.panes@.len() implies self.panes@[a].0 != self.panes@[b].0 by {
            if b == n {
                assert(self.panes@[a] == before[a]);
                if before[a].0 == self.panes@[b].0 {
                    assert(exists|k: int| 0 <= k < before.len() && before[k].0 == self.panes@.last().0);
                }
            } else {
                assert(self.panes@[a] == before[a]);
                assert(self.panes@[b] == before[b]);
            }
        }
        assert forall|x: PaneId| x != self.panes@.last().0 implies #[trigger] handler_of(self.panes@, x) == handler_of(before, x) by {
            if exists|k: int| 0 <= k < before.len() && before[k].0 == x {
                let k = choose|k: int| 0 <= k < before.len() && before[k].0 == x;
                assert(self.panes@[k].0 == x);
                let k2 = choose|k: int| 0 <= k < self.panes@.len() && self.panes@[k].0 == x;
                assert(k2 != n);
                assert(self.panes@[k2] == before[k2]);
                if k2 != k {
                    if k < k2 {
                        assert(before[k].0 != before[k2].0);
                    } else {
                        assert(before[k2].0 != before[k].0);
                    }
                }
            }
            if exists|k: int| 0 <= k < self.panes@.len() && self.panes@[k].0 == x {
                let k = choose|k: int| 0 <= k < self.panes@.len() && self.panes@[k].0 == x;
                assert(k != n);
                assert(before[k].0 == x);
            }
        }
    }

    /// Forgets the plugin that serves a pane.
    pub fn remove_pane(&mut self, pane_id: PaneId) -> (r: Result<(), String>)
        requires
            old(self).wf(),
        ensures
            r is Ok,
            final(self).wf(),
            final(self).spec_keymap() == old(self).spec_keymap(),
            handler_of(final(self).panes(), pane_id) is None,
            forall|x: PaneId| x != pane_id ==> #[trigger] handler_of(final(self).panes(), x) == handler_of(
                old(self).panes(),
                x,
            ),
    {
        let ghost before = self.panes@;
        match self.slot(pane_id) {
            Some(i) => {
                let _ = self.panes.remove(i);
                proof {
                    let ii = i as int;
                    assert forall|a: int, b: int| 0 <= a < b < self.panes@.len() implies self.panes@[a].0
                        != self.panes@[b].0 by {
                        let oa = if a < ii { a } else { a + 1 };
                        let ob = if b < ii { b } else { b + 1 };
                        assert(before[oa].0 != before[ob].0);
                    }
                    assert forall|x: PaneId| x != pane_id implies #[trigger] handler_of(self.panes@, x) == handler_of(before, x) by {
                        if exists|k: int| 0 <= k < before.len() && before[k].0 == x {
                            let k = choose|k: int| 0 <= k < before.len() && before[k].0 == x;
                            assert(k != ii);
                            let nk = if k < ii { k } else { k - 1 };
                            assert(self.panes@[nk].0 == x);
                            let k2 = choose|k: int| 0 <= k < self.panes@.len() && self.panes@[k].0 == x;
                            let ok2 = if k2 < ii { k2 } else { k2 + 1 };
                            if ok2 != k {
                                if k < ok2 {
                                    assert(before[k].0 != before[ok2].0);
                                } else {
                                    assert(before[ok2].0 != before[k].0);
                                }
                            }
                        }
                        if exists|k: int| 0 <= k < self.panes@.len() && self.panes@[k].0 == x {
                            let k = choose|k: int| 0 <= k < self.panes@.len() && self.panes@[k].0 == x;
                            let ok = if k < ii { k } else { k + 1 };
                            assert(before[ok].0 == x);
                        }
                    }
                    if exists|k: int| 0 <= k < self.panes@.len() && self.panes@[k].0 == pane_id {
                        let k = choose|k: int| 0 <= k < self.panes@.len() && self.panes@[k].0 == pane_id;
                        let ok = if k < ii { k } else { k + 1 };
                        if ok < ii {
                            assert(before[ok].0 != before[ii].0);
                        } else {
                            assert(before[ii].0 != before[ok].0);
                        }
                    }
                }
            },
            None => {},
        }
        Ok(())
    }

    /// Follows a mode announcement: the bindings switch to the announced
    /// mode. A payload that names no mode is passed on.
    pub fn on_mode_changed(&mut self, data: &Value) -> (r: EventResult)
        requires
            old(self).wf(),
        ensures
            final(self).wf(),
            final(self).panes() == old(self).panes(),
            match mode_of_value(data@) {
                None => r is Propagate && *final(self) == *old(self),
                Some(m) => r is Handled && mode_switched(
                    old(self).spec_keymap(),
                    final(self).spec_keymap(),
                    crate::modal::mode_name(m),
                ),
            },
    {
        let mode = match mode_from_value(data) {
            Some(m) => m,
            None => return EventResult::Propagate,
        };
        self.keymap.change_mode(mode.name());
        EventResult::Handled
    }
}

} // verus!
