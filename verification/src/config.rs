//! Reading the key bindings' configuration: TOML text into a table of values.

use vstd::prelude::*;

use crate::assoc::keys_distinct;
use crate::keymap::{bindings_wf, trie_table_wf};
use crate::text::str_eq;
use crate::value::{FloatBits, ValueModel};
use toml::Value as Toml;
use crate::value::Value as V;

verus! {

/// The entries of the table that a TOML text holds, each with the TOML text
/// of its value, or `None` where the text is not a TOML document.
pub uninterp spec fn toml_entries_of(text: Seq<char>) -> Option<Seq<(Seq<char>, Seq<char>)>>;

/// The value that the TOML text of one value reads as.
pub uninterp spec fn toml_value_of(text: Seq<char>) -> ValueModel;

/// `toml::from_str` into a `toml::Table`: its entries in the table's order,
/// each value written back as its TOML text, or the parser's message. What
/// the entries are is named by `toml_entries_of`, a function of the text
/// alone; the keys of a TOML table are distinct. The message is not stated.
#[verifier::external_body]
fn toml_entries(text: &str) -> (r: Result<Vec<(String, String)>, String>)
    ensures
        match toml_entries_of(text@) {
            Some(t) => r matches Ok(v) && v@.map_values(|e: (String, String)| (e.0@, e.1@)) == t
                && keys_distinct(v@),
            None => r is Err,
        },
{
    match toml::from_str::<toml::Table>(text) {
        Ok(t) => Ok(t.into_iter().map(|(k, x)| (k, x.to_string())).collect()),
        Err(e) => Err(e.to_string()),
    }
}

/// `str::parse` of one TOML value, read one for one as a value: a string, an
/// integer, a float (by its bits), a boolean, an array or a table as the same
/// kind of value, and a date as its text; the items of an array and the
/// entries of a table are read from their own TOML texts. What it gives is
/// named by `toml_value_of`, a function of the text alone.
#[verifier::external_body]
fn toml_value(text: &str) -> (v: crate::value::Value)
    ensures
        v@ == toml_value_of(text@),
{
    let Ok(v) = text.parse::<Toml>() else { return V::Null };
    let read = |x: &Toml| toml_value(&x.to_string());
    match v {
        Toml::String(s) => V::Str(s),
        Toml::Integer(i) => V::Int(i),
        Toml::Float(f) => V::Float(FloatBits(f.to_bits())),
        Toml::Boolean(b) => V::Bool(b),
        Toml::Array(a) => V::List(a.iter().map(read).collect()),
        Toml::Table(t) => V::Dict(t.iter().map(|(k, x)| (k.clone(), read(x))).collect()),
        date => V::Str(date.to_string()),
    }
}

/// `table` holds the entries `t`, each value read from its TOML text.
pub open spec fn read_from(table: Seq<(String, V)>, t: Seq<(Seq<char>, Seq<char>)>) -> bool {
    &&& table.len() == t.len()
    &&& forall|i: int| 0 <= i < t.len() ==> (#[trigger] table[i]).0@ == t[i].0 && table[i].1@ == toml_value_of(t[i].1)
}

/// The entries of the table that a TOML text holds, each value read from its
/// TOML text, or the parser's message where the text is not TOML.
pub fn parse_toml_table(text: &str) -> (r: Result<Vec<(String, crate::value::Value)>, String>)
    ensures
        match toml_entries_of(text@) {
            Some(t) => r matches Ok(v) && read_from(v@, t) && keys_distinct(v@),
            None => r is Err,
        },
{
    let entries = match toml_entries(text) {
        Ok(e) => e,
        Err(m) => return Err(m),
    };
    let ghost t = entries@.map_values(|e: (String, String)| (e.0@, e.1@));
    let mut out: Vec<(String, crate::value::Value)> = Vec::new();
    let mut i: usize = 0;
    while i < entries.len()
        invariant
            i <= entries@.len(),
            out@.len() == i,
            t == entries@.map_values(|e: (String, String)| (e.0@, e.1@)),
            keys_distinct(entries@),
            forall|j: int| 0 <= j < i ==> (#[trigger] out@[j]).0@ == t[j].0 && out@[j].1@ == toml_value_of(t[j].1),
        decreases entries@.len() - i,
    {
        let key = entries[i].0.clone();
        let value = toml_value(entries[i].1.as_str());
        out.push((key, value));
        i = i + 1;
    }
    assert forall|a: int, c: int| 0 <= a < out@.len() && 0 <= c < out@.len() && a != c implies out@[a].0@ != out@[c].0@ by {
        assert(out@[a].0@ == t[a].0 && t[a].0 == entries@[a].0@);
        assert(out@[c].0@ == t[c].0 && t[c].0 == entries@[c].0@);
    }
    Ok(out)
}

/// Whether the keys of an association list are distinct.
pub fn keys_unique<V>(entries: &Vec<(String, V)>) -> (b: bool)
    ensures
        b == keys_distinct(entries@),
{
    let n = entries.len();
    let mut i: usize = 0;
    while i < n
        invariant
            i <= n,
            n == entries@.len(),
            forall|a: int, c: int| 0 <= a < c < i ==> entries@[a].0@ != entries@[c].0@,
        decreases n - i,
    {
        let mut j: usize = 0;
        while j < i
            invariant
                j <= i < n,
                n == entries@.len(),
                forall|a: int| 0 <= a < j ==> entries@[a].0@ != entries@[i as int].0@,
            decreases i - j,
        {
            if str_eq(entries[j].0.as_str(), entries[i].0.as_str()) {
                return false;
            }
            j = j + 1;
        }
        i = i + 1;
    }
    assert forall|a: int, c: int| 0 <= a < n && 0 <= c < n && a != c implies entries@[a].0@ != entries@[c].0@ by {
        if c < a {
            assert(entries@[c].0@ != entries@[a].0@);
        }
    }
    true
}

/// Whether each table in a binding value has distinct keys.
pub fn bindings_wf_check(v: &crate::value::Value) -> (b: bool)
    ensures
        b == bindings_wf(*v),
{
    match v {
        crate::value::Value::List(items) => {
            let mut i: usize = 0;
            while i < items.len()
                invariant
                    i <= items@.len(),
                    *v matches V::List(its) && its@ == items@,
                    forall|k: int| 0 <= k < i ==> (#[trigger] items@[k] matches crate::value::Value::Dict(t) ==> keys_distinct(t@)),
                decreases items@.len() - i,
            {
                match &items[i] {
                    crate::value::Value::Dict(t) => {
                        if !keys_unique(t) {
                            assert(!(items@[i as int] matches V::Dict(tt) ==> keys_distinct(tt@)));
                            return false;
                        }
                    },
                    _ => {},
                }
                i = i + 1;
            }
            true
        },
        crate::value::Value::Dict(t) => keys_unique(t),
        _ => true,
    }
}

/// The table of modes has distinct mode names, and each mode's table and
/// each of its binding tables have distinct keys.
pub open spec fn modes_table_wf(table: Seq<(String, crate::value::Value)>) -> bool {
    keys_distinct(table) && forall|i: int| 0 <= i < table.len() ==> trie_table_wf(#[trigger] table[i].1)
}

/// Whether `modes_table_wf` holds of a table of modes.
pub fn modes_table_check(table: &Vec<(String, crate::value::Value)>) -> (b: bool)
    ensures
        b == modes_table_wf(table@),
{
    if !keys_unique(table) {
        return false;
    }
    let mut i: usize = 0;
    while i < table.len()
        invariant
            i <= table@.len(),
            keys_distinct(table@),
            forall|k: int| 0 <= k < i ==> trie_table_wf(#[trigger] table@[k].1),
        decreases table@.len() - i,
    {
        match &table[i].1 {
            crate::value::Value::Dict(t) => {
                if !keys_unique(t) {
                    return false;
                }
                let mut j: usize = 0;
                while j < t.len()
                    invariant
                        i < table@.len(),
                        table@[i as int].1 matches crate::value::Value::Dict(tt) && tt@ == t@,
                        j <= t@.len(),
                        forall|k: int| 0 <= k < j ==> bindings_wf(#[trigger] t@[k].1),
                    decreases t@.len() - j,
                {
                    if !bindings_wf_check(&t[j].1) {
                        return false;
                    }
                    j = j + 1;
                }
            },
            _ => {},
        }
        i = i + 1;
    }
    true
}

} // verus!
