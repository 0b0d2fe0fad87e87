use vstd::prelude::*;

use crate::assoc::{assoc_insert, assoc_view, keys_distinct};
use crate::text::char_to_string;

verus! {

/// The IEEE-754 bit pattern of a 64-bit float carried by a [`Value`].
#[derive(Debug, Clone, Copy, PartialEq, Eq)]
pub struct FloatBits(pub u64);

/// A dynamically typed value exchanged between plugins.
///
/// A map is an association list whose keys are pairwise distinct.
#[derive(Debug, PartialEq)]
pub enum Value {
    Null,
    Bool(bool),
    Int(i64),
    Uint(u64),
    Float(FloatBits),
    Str(String),
    List(Vec<Value>),
    Dict(Vec<(String, Value)>),
}

/// The mathematical content of a [`Value`].
#[verifier::ext_equal]
pub enum ValueModel {
    Null,
    Bool(bool),
    Int(i64),
    Uint(u64),
    Float(u64),
    Str(Seq<char>),
    List(Seq<ValueModel>),
    Dict(Seq<(Seq<char>, ValueModel)>),
}

impl View for Value {
    type V = ValueModel;

    open spec fn view(&self) -> ValueModel {
        self.model()
    }
}

impl Value {
    pub open spec fn model(self) -> ValueModel
        decreases self, 1nat,
    {
        match self {
            Value::Null => ValueModel::Null,
            Value::Bool(b) => ValueModel::Bool(b),
            Value::Int(i) => ValueModel::Int(i),
            Value::Uint(u) => ValueModel::Uint(u),
            Value::Float(f) => ValueModel::Float(f.0),
            Value::Str(s) => ValueModel::Str(s@),
            Value::List(items) => ValueModel::List(Value::models(items@)),
            Value::Dict(entries) => ValueModel::Dict(Value::entry_models(entries@)),
        }
    }

    pub open spec fn models(items: Seq<Value>) -> Seq<ValueModel>
        decreases items, 0nat,
    {
        if items.len() == 0 {
            Seq::empty()
        } else {
            Value::models(items.drop_last()).push(items.last().model())
        }
    }

    pub open spec fn entry_models(entries: Seq<(String, Value)>) -> Seq<(Seq<char>, ValueModel)>
        decreases entries, 0nat,
    {
        if entries.len() == 0 {
            Seq::empty()
        } else {
            Value::entry_models(entries.drop_last()).push(
                (entries.last().0@, entries.last().1.model()),
            )
        }
    }
}

/// The error of a failed conversion from or to a [`Value`].
#[derive(Debug, Clone)]
pub struct ValueConvertError(pub String);

fn err(msg: &str) -> (e: ValueConvertError)
    ensures
        e.0@ == msg@,
{
    ValueConvertError(msg.to_owned())
}

impl Value {
    /// A structural copy of the value.
    pub fn deep_clone(&self) -> (r: Value)
        ensures
            r@ == self@,
        decreases self,
    {
        match self {
            Value::Null => Value::Null,
            Value::Bool(b) => Value::Bool(*b),
            Value::Int(i) => Value::Int(*i),
            Value::Uint(u) => Value::Uint(*u),
            Value::Float(f) => Value::Float(*f),
            Value::Str(s) => Value::Str(s.clone()),
            Value::List(items) => {
                let mut out: Vec<Value> = Vec::new();
                let mut i: usize = 0;
                while i < items.len()
                    invariant
                        i <= items.len(),
                        *self == Value::List(*items),
                        Value::models(out@) == Value::models(items@.subrange(0, i as int)),
                    decreases items.len() - i,
                {
                    assert(decreases_to!(*self => (*self)->List_0));
                    assert(decreases_to!(*items => items[i as int]));
                    let c = items[i].deep_clone();
                    let ghost prev = out@;
                    out.push(c);
                    assert(out@.drop_last() =~= prev);
                    assert(items@.subrange(0, i + 1).drop_last() =~= items@.subrange(0, i as int));
                    i = i + 1;
                }
                assert(items@.subrange(0, items@.len() as int) =~= items@);
                Value::List(out)
            },
            Value::Dict(entries) => {
                let mut out: Vec<(String, Value)> = Vec::new();
                let mut i: usize = 0;
                while i < entries.len()
                    invariant
                        i <= entries.len(),
                        *self == Value::Dict(*entries),
                        Value::entry_models(out@) == Value::entry_models(entries@.subrange(0, i as int)),
                    decreases entries.len() - i,
                {
                    assert(decreases_to!(*self => (*self)->Dict_0));
                    assert(decreases_to!(*entries => entries[i as int]));
                    assert(decreases_to!(entries[i as int] => entries[i as int].1));
                    let k = entries[i].0.clone();
                    let v = entries[i].1.deep_clone();
                    let ghost prev = out@;
                    out.push((k, v));
                    assert(out@.drop_last() =~= prev);
                    assert(entries@.subrange(0, i + 1).drop_last() =~= entries@.subrange(0, i as int));
                    i = i + 1;
                }
                assert(entries@.subrange(0, entries@.len() as int) =~= entries@);
                Value::Dict(out)
            },
        }
    }

    /// Converts an `Int` value that fits in `i8`; any other variant is refused.
    pub fn into_i8(self) -> (r: Result<i8, ValueConvertError>)
        ensures
            match self {
                Value::Int(v) => if i8::MIN <= v && v <= i8::MAX {
                    r == Ok::<i8, ValueConvertError>(v as i8)
                } else {
                    r matches Err(e) && e.0@ == "out of range integral type conversion attempted"@
                },
                _ => r matches Err(e) && e.0@ == "expected int"@,
            },
    {
        if let Value::Int(v) = self {
            if i8::MIN as i64 <= v && v <= i8::MAX as i64 {
                Ok(v as i8)
            } else {
                Err(err("out of range integral type conversion attempted"))
            }
        } else {
            Err(err("expected int"))
        }
    }

    /// Converts an `Int` value that fits in `i16`; any other variant is refused.
    pub fn into_i16(self) -> (r: Result<i16, ValueConvertError>)
        ensures
            match self {
                Value::Int(v) => if i16::MIN <= v && v <= i16::MAX {
                    r == Ok::<i16, ValueConvertError>(v as i16)
                } else {
                    r matches Err(e) && e.0@ == "out of range integral type conversion attempted"@
                },
                _ => r matches Err(e) && e.0@ == "expected int"@,
            },
    {
        if let Value::Int(v) = self {
            if i16::MIN as i64 <= v && v <= i16::MAX as i64 {
                Ok(v as i16)
            } else {
                Err(err("out of range integral type conversion attempted"))
            }
        } else {
            Err(err("expected int"))
        }
    }

    /// Converts an `Int` value that fits in `i32`; any other variant is refused.
    pub fn into_i32(self) -> (r: Result<i32, ValueConvertError>)
        ensures
            match self {
                Value::Int(v) => if i32::MIN <= v && v <= i32::MAX {
                    r == Ok::<i32, ValueConvertError>(v as i32)
                } else {
                    r matches Err(e) && e.0@ == "out of range integral type conversion attempted"@
                },
                _ => r matches Err(e) && e.0@ == "expected int"@,
            },
    {
        if let Value::Int(v) = self {
            if i32::MIN as i64 <= v && v <= i32::MAX as i64 {
                Ok(v as i32)
            } else {
                Err(err("out of range integral type conversion attempted"))
            }
        } else {
            Err(err("expected int"))
        }
    }

    /// Converts an `Int` value; any other variant is refused.
    pub fn into_i64(self) -> (r: Result<i64, ValueConvertError>)
        ensures
            match self {
                Value::Int(v) => r == Ok::<i64, ValueConvertError>(v),
                _ => r matches Err(e) && e.0@ == "expected int"@,
            },
    {
        if let Value::Int(v) = self {
            Ok(v)
        } else {
            Err(err("expected int"))
        }
    }

    /// Converts an `Int` value that fits in `isize`; any other variant is refused.
    pub fn into_isize(self) -> (r: Result<isize, ValueConvertError>)
        ensures
            match self {
                Value::Int(v) => if isize::MIN <= v && v <= isize::MAX {
                    r == Ok::<isize, ValueConvertError>(v as isize)
                } else {
                    r matches Err(e) && e.0@ == "out of range integral type conversion attempted"@
                },
                _ => r matches Err(e) && e.0@ == "expected int"@,
            },
    {
        if let Value::Int(v) = self {
            if isize::MIN as i64 <= v && v <= isize::MAX as i64 {
                Ok(v as isize)
            } else {
                Err(err("out of range integral type conversion attempted"))
            }
        } else {
            Err(err("expected int"))
        }
    }

    /// Converts an `Uint` value that fits in `u8`; any other variant is refused.
    pub fn into_u8(self) -> (r: Result<u8, ValueConvertError>)
        ensures
            match self {
                Value::Uint(v) => if v <= u8::MAX {
                    r == Ok::<u8, ValueConvertError>(v as u8)
                } else {
                    r matches Err(e) && e.0@ == "out of range integral type conversion attempted"@
                },
                _ => r matches Err(e) && e.0@ == "expected uint"@,
            },
    {
        if let Value::Uint(v) = self {
            if v <= u8::MAX as u64 {
                Ok(v as u8)
            } else {
                Err(err("out of range integral type conversion attempted"))
            }
        } else {
            Err(err("expected uint"))
        }
    }

    /// Converts an `Uint` value that fits in `u16`; any other variant is refused.
    pub fn into_u16(self) -> (r: Result<u16, ValueConvertError>)
        ensures
            match self {
                Value::Uint(v) => if v <= u16::MAX {
                    r == Ok::<u16, ValueConvertError>(v as u16)
                } else {
                    r matches Err(e) && e.0@ == "out of range integral type conversion attempted"@
                },
                _ => r matches Err(e) && e.0@ == "expected uint"@,
            },
    {
        if let Value::Uint(v) = self {
            if v <= u16::MAX as u64 {
                Ok(v as u16)
            } else {
                Err(err("out of range integral type conversion attempted"))
            }
        } else {
            Err(err("expected uint"))
        }
    }

    /// Converts an `Uint` value that fits in `u32`; any other variant is refused.
    pub fn into_u32(self) -> (r: Result<u32, ValueConvertError>)
        ensures
            match self {
                Value::Uint(v) => if v <= u32::MAX {
                    r == Ok::<u32, ValueConvertError>(v as u32)
                } else {
                    r matches Err(e) && e.0@ == "out of range integral type conversion attempted"@
                },
                _ => r matches Err(e) && e.0@ == "expected uint"@,
            },
    {
        if let Value::Uint(v) = self {
            if v <= u32::MAX as u64 {
                Ok(v as u32)
            } else {
                Err(err("out of range integral type conversion attempted"))
            }
        } else {
            Err(err("expected uint"))
        }
    }

    /// Converts an `Uint` value; any other variant is refused.
    pub fn into_u64(self) -> (r: Result<u64, ValueConvertError>)
        ensures
            match self {
                Value::Uint(v) => r == Ok::<u64, ValueConvertError>(v),
                _ => r matches Err(e) && e.0@ == "expected uint"@,
            },
    {
        if let Value::Uint(v) = self {
            Ok(v)
        } else {
            Err(err("expected uint"))
        }
    }

    /// Converts an `Uint` value that fits in `usize`; any other variant is refused.
    pub fn into_usize(self) -> (r: Result<usize, ValueConvertError>)
        ensures
            match self {
                Value::Uint(v) => if v <= usize::MAX {
                    r == Ok::<usize, ValueConvertError>(v as usize)
                } else {
                    r matches Err(e) && e.0@ == "out of range integral type conversion attempted"@
                },
                _ => r matches Err(e) && e.0@ == "expected uint"@,
            },
    {
        if let Value::Uint(v) = self {
            if v <= usize::MAX as u64 {
                Ok(v as usize)
            } else {
                Err(err("out of range integral type conversion attempted"))
            }
        } else {
            Err(err("expected uint"))
        }
    }

    /// Converts a `Null` value to `()`.
    pub fn into_unit(self) -> (r: Result<(), ValueConvertError>)
        ensures
            self is Null ==> r is Ok,
            !(self is Null) ==> (r matches Err(e) && e.0@ == "expected null"@),
    {
        if let Value::Null = self {
            Ok(())
        } else {
            Err(err("expected null"))
        }
    }

    /// Converts a `Bool` value.
    pub fn into_bool(self) -> (r: Result<bool, ValueConvertError>)
        ensures
            match self {
                Value::Bool(b) => r == Ok::<bool, ValueConvertError>(b),
                _ => r matches Err(e) && e.0@ == "expected bool"@,
            },
    {
        if let Value::Bool(b) = self {
            Ok(b)
        } else {
            Err(err("expected bool"))
        }
    }

    /// Converts a `Str` value.
    pub fn into_string(self) -> (r: Result<String, ValueConvertError>)
        ensures
            match self {
                Value::Str(s) => r matches Ok(t) && t@ == s@,
                _ => r matches Err(e) && e.0@ == "expected string"@,
            },
    {
        if let Value::Str(s) = self {
            Ok(s)
        } else {
            Err(err("expected string"))
        }
    }

    /// Converts a `Str` value holding exactly one character.
    pub fn into_char(self) -> (r: Result<char, ValueConvertError>)
        ensures
            match self {
                Value::Str(s) => if s@.len() == 1 {
                    r == Ok::<char, ValueConvertError>(s@[0])
                } else {
                    r matches Err(e) && e.0@ == "string length is not one"@
                },
                _ => r matches Err(e) && e.0@ == "expected string"@,
            },
    {
        if let Value::Str(s) = self {
            if s.as_str().unicode_len() == 1 {
                Ok(s.as_str().get_char(0))
            } else {
                Err(err("string length is not one"))
            }
        } else {
            Err(err("expected string"))
        }
    }

    /// A `Str` value holding the one character `c`.
    pub fn from_char(c: char) -> (r: Value)
        ensures
            r matches Value::Str(s) && s@ == seq![c],
    {
        Value::Str(char_to_string(c))
    }
}

/// Builds the scalar and compound values of a serialized data structure. The
/// caller serializes the nested parts first and hands over their values.
pub struct ValueSerializer;

impl ValueSerializer {
    pub fn serialize_bool(self, v: bool) -> (r: Result<Value, ValueConvertError>)
        ensures
            r == Ok::<Value, ValueConvertError>(Value::Bool(v)),
    {
        Ok(Value::Bool(v))
    }

    pub fn serialize_i8(self, v: i8) -> (r: Result<Value, ValueConvertError>)
        ensures
            r == Ok::<Value, ValueConvertError>(Value::Int(v as i64)),
    {
        Ok(Value::Int(v as i64))
    }

    pub fn serialize_i16(self, v: i16) -> (r: Result<Value, ValueConvertError>)
        ensures
            r == Ok::<Value, ValueConvertError>(Value::Int(v as i64)),
    {
        Ok(Value::Int(v as i64))
    }

    pub fn serialize_i32(self, v: i32) -> (r: Result<Value, ValueConvertError>)
        ensures
            r == Ok::<Value, ValueConvertError>(Value::Int(v as i64)),
    {
        Ok(Value::Int(v as i64))
    }

    pub fn serialize_i64(self, v: i64) -> (r: Result<Value, ValueConvertError>)
        ensures
            r == Ok::<Value, ValueConvertError>(Value::Int(v)),
    {
        Ok(Value::Int(v))
    }

    pub fn serialize_u8(self, v: u8) -> (r: Result<Value, ValueConvertError>)
        ensures
            r == Ok::<Value, ValueConvertError>(Value::Uint(v as u64)),
    {
        Ok(Value::Uint(v as u64))
    }

    pub fn serialize_u16(self, v: u16) -> (r: Result<Value, ValueConvertError>)
        ensures
            r == Ok::<Value, ValueConvertError>(Value::Uint(v as u64)),
    {
        Ok(Value::Uint(v as u64))
    }

    pub fn serialize_u32(self, v: u32) -> (r: Result<Value, ValueConvertError>)
        ensures
            r == Ok::<Value, ValueConvertError>(Value::Uint(v as u64)),
    {
        Ok(Value::Uint(v as u64))
    }

    pub fn serialize_u64(self, v: u64) -> (r: Result<Value, ValueConvertError>)
        ensures
            r == Ok::<Value, ValueConvertError>(Value::Uint(v)),
    {
        Ok(Value::Uint(v))
    }

    pub fn serialize_char(self, v: char) -> (r: Result<Value, ValueConvertError>)
        ensures
            r matches Ok(Value::Str(s)) && s@ == seq![v],
    {
        Ok(Value::from_char(v))
    }

    pub fn serialize_str(self, v: &str) -> (r: Result<Value, ValueConvertError>)
        ensures
            r matches Ok(Value::Str(s)) && s@ == v@,
    {
        Ok(Value::Str(v.to_owned()))
    }

    /// Bytes become a list of unsigned integers.
    pub fn serialize_bytes(self, v: &[u8]) -> (r: Result<Value, ValueConvertError>)
        ensures
            r matches Ok(Value::List(items)) && items@.len() == v@.len() && forall|i: int|
                0 <= i < v@.len() ==> items@[i] == Value::Uint(v@[i] as u64),
    {
        let mut items: Vec<Value> = Vec::new();
        let mut i: usize = 0;
        while i < v.len()
            invariant
                i <= v@.len(),
                items@.len() == i,
                forall|j: int| 0 <= j < i ==> items@[j] == Value::Uint(v@[j] as u64),
            decreases v@.len() - i,
        {
            items.push(Value::Uint(v[i] as u64));
            i = i + 1;
        }
        Ok(Value::List(items))
    }

    pub fn serialize_none(self) -> (r: Result<Value, ValueConvertError>)
        ensures
            r == Ok::<Value, ValueConvertError>(Value::Null),
    {
        Ok(Value::Null)
    }

    pub fn serialize_unit(self) -> (r: Result<Value, ValueConvertError>)
        ensures
            r == Ok::<Value, ValueConvertError>(Value::Null),
    {
        Ok(Value::Null)
    }

    pub fn serialize_unit_struct(self, _name: &str) -> (r: Result<Value, ValueConvertError>)
        ensures
            r == Ok::<Value, ValueConvertError>(Value::Null),
    {
        Ok(Value::Null)
    }

    /// A unit variant is its name.
    pub fn serialize_unit_variant(self, _name: &str, _variant_index: u32, variant: &str) -> (r:
        Result<Value, ValueConvertError>)
        ensures
            r matches Ok(Value::Str(s)) && s@ == variant@,
    {
        Ok(Value::Str(variant.to_owned()))
    }

    /// A variant with one field is a one-entry map from its name to the field.
    pub fn serialize_newtype_variant(
        self,
        _name: &str,
        _variant_index: u32,
        variant: &str,
        value: Value,
    ) -> (r: Result<Value, ValueConvertError>)
        ensures
            r matches Ok(Value::Dict(entries)) && entries@.len() == 1 && entries@[0].0@ == variant@
                && entries@[0].1 == value,
    {
        let mut entries: Vec<(String, Value)> = Vec::new();
        entries.push((variant.to_owned(), value));
        Ok(Value::Dict(entries))
    }

    pub fn serialize_seq(self, _len: Option<usize>) -> (r: Result<
        SerializeValueSeq,
        ValueConvertError,
    >)
        ensures
            r matches Ok(q) && q.0@.len() == 0,
    {
        Ok(SerializeValueSeq(Vec::new()))
    }

    pub fn serialize_tuple(self, len: usize) -> (r: Result<SerializeValueSeq, ValueConvertError>)
        ensures
            r matches Ok(q) && q.0@.len() == 0,
    {
        self.serialize_seq(Some(len))
    }

    pub fn serialize_tuple_struct(self, _name: &str, len: usize) -> (r: Result<
        SerializeValueSeq,
        ValueConvertError,
    >)
        ensures
            r matches Ok(q) && q.0@.len() == 0,
    {
        self.serialize_seq(Some(len))
    }

    pub fn serialize_tuple_variant(
        self,
        _name: &str,
        _variant_index: u32,
        variant: &str,
        len: usize,
    ) -> (r: Result<SerializeValueVariant<SerializeValueSeq>, ValueConvertError>)
        ensures
            r matches Ok(q) && q.variant@ == variant@ && q.inner.0@.len() == 0,
    {
        let inner = match self.serialize_seq(Some(len)) {
            Ok(inner) => inner,
            Err(e) => return Err(e),
        };
        Ok(SerializeValueVariant { variant: variant.to_owned(), inner })
    }

    pub fn serialize_map(self, _len: Option<usize>) -> (r: Result<
        SerializeValueMap,
        ValueConvertError,
    >)
        ensures
            r matches Ok(q) && q.0@.len() == 0 && q.1 is None,
    {
        Ok(SerializeValueMap(Vec::new(), None))
    }

    pub fn serialize_struct(self, _name: &str, len: usize) -> (r: Result<
        SerializeValueMap,
        ValueConvertError,
    >)
        ensures
            r matches Ok(q) && q.0@.len() == 0 && q.1 is None,
    {
        self.serialize_map(Some(len))
    }

    pub fn serialize_struct_variant(
        self,
        _name: &str,
        _variant_index: u32,
        variant: &str,
        len: usize,
    ) -> (r: Result<SerializeValueVariant<SerializeValueMap>, ValueConvertError>)
        ensures
            r matches Ok(q) && q.variant@ == variant@ && q.inner.0@.len() == 0 && q.inner.1 is None,
    {
        let inner = match self.serialize_map(Some(len)) {
            Ok(inner) => inner,
            Err(e) => return Err(e),
        };
        Ok(SerializeValueVariant { variant: variant.to_owned(), inner })
    }
}

/// The elements of a sequence serialized so far.
pub struct SerializeValueSeq(pub Vec<Value>);

impl SerializeValueSeq {
    pub fn serialize_element(&mut self, value: Value) -> (r: Result<(), ValueConvertError>)
        ensures
            r is Ok,
            final(self).0@ == old(self).0@.push(value),
    {
        self.0.push(value);
        Ok(())
    }

    pub fn end(self) -> (r: Result<Value, ValueConvertError>)
        ensures
            r matches Ok(Value::List(items)) && items@ == self.0@,
    {
        Ok(Value::List(self.0))
    }
}

/// The entries of a map serialized so far, and the key waiting for its value.
pub struct SerializeValueMap(pub Vec<(String, Value)>, pub Option<String>);

impl SerializeValueMap {
    /// A map key must serialize to a string; it waits for its value.
    pub fn serialize_key(&mut self, key: Value) -> (r: Result<(), ValueConvertError>)
        ensures
            final(self).0@ == old(self).0@,
            match key {
                Value::Str(k) => r is Ok && final(self).1 == Some(k),
                _ => (r matches Err(e) && e.0@ == "map key must be a string"@) && final(self).1
                    == old(self).1,
            },
    {
        match key {
            Value::Str(k) => {
                self.1 = Some(k);
                Ok(())
            },
            _ => Err(err("map key must be a string")),
        }
    }

    /// Stores `value` under the waiting key.
    pub fn serialize_value(&mut self, value: Value) -> (r: Result<(), ValueConvertError>)
        requires
            keys_distinct(old(self).0@),
        ensures
            keys_distinct(final(self).0@),
            final(self).1 is None,
            match old(self).1 {
                Some(k) => r is Ok && assoc_view(final(self).0@) == assoc_view(old(self).0@).insert(
                    k@,
                    value,
                ),
                None => (r matches Err(e) && e.0@ == "serialize_value called before serialize_key"@)
                    && final(self).0@ == old(self).0@,
            },
    {
        match self.1.take() {
            Some(k) => {
                assoc_insert(&mut self.0, k, value);
                Ok(())
            },
            None => Err(err("serialize_value called before serialize_key")),
        }
    }

    /// A key followed by its value.
    pub fn serialize_entry(&mut self, key: Value, value: Value) -> (r: Result<(), ValueConvertError>)
        requires
            keys_distinct(old(self).0@),
        ensures
            keys_distinct(final(self).0@),
            match key {
                Value::Str(k) => r is Ok && final(self).1 is None && assoc_view(final(self).0@)
                    == assoc_view(old(self).0@).insert(k@, value),
                _ => (r matches Err(e) && e.0@ == "map key must be a string"@) && final(self).0@
                    == old(self).0@ && final(self).1 == old(self).1,
            },
    {
        match self.serialize_key(key) {
            Ok(()) => {},
            Err(e) => return Err(e),
        }
        self.serialize_value(value)
    }

    /// A struct field is an entry keyed by the field's name.
    pub fn serialize_field(&mut self, key: &str, value: Value) -> (r: Result<(), ValueConvertError>)
        requires
            keys_distinct(old(self).0@),
        ensures
            keys_distinct(final(self).0@),
            r is Ok,
            final(self).1 is None,
            assoc_view(final(self).0@) == assoc_view(old(self).0@).insert(key@, value),
    {
        self.serialize_entry(Value::Str(key.to_owned()), value)
    }

    pub fn end(self) -> (r: Result<Value, ValueConvertError>)
        ensures
            r matches Ok(Value::Dict(entries)) && entries@ == self.0@,
    {
        Ok(Value::Dict(self.0))
    }
}

/// The body of a tuple or struct variant, and the variant's name.
pub struct SerializeValueVariant<T> {
    pub variant: String,
    pub inner: T,
}

impl SerializeValueVariant<SerializeValueSeq> {
    pub fn serialize_field(&mut self, value: Value) -> (r: Result<(), ValueConvertError>)
        ensures
            r is Ok,
            final(self).variant == old(self).variant,
            final(self).inner.0@ == old(self).inner.0@.push(value),
    {
        self.inner.serialize_element(value)
    }

    /// A one-entry map from the variant's name to the list of its fields.
    pub fn end(self) -> (r: Result<Value, ValueConvertError>)
        ensures
            r matches Ok(Value::Dict(entries)) && entries@.len() == 1 && entries@[0].0@
                == self.variant@ && (entries@[0].1 matches Value::List(items) && items@
                == self.inner.0@),
    {
        let body = match self.inner.end() {
            Ok(body) => body,
            Err(e) => return Err(e),
        };
        let mut entries: Vec<(String, Value)> = Vec::new();
        entries.push((self.variant, body));
        Ok(Value::Dict(entries))
    }
}

impl SerializeValueVariant<SerializeValueMap> {
    pub fn serialize_field(&mut self, key: &str, value: Value) -> (r: Result<(), ValueConvertError>)
        requires
            keys_distinct(old(self).inner.0@),
        ensures
            r is Ok,
            final(self).variant == old(self).variant,
            keys_distinct(final(self).inner.0@),
            final(self).inner.1 is None,
            assoc_view(final(self).inner.0@) == assoc_view(old(self).inner.0@).insert(key@, value),
    {
        self.inner.serialize_field(key, value)
    }

    /// A one-entry map from the variant's name to the map of its fields.
    pub fn end(self) -> (r: Result<Value, ValueConvertError>)
        ensures
            r matches Ok(Value::Dict(entries)) && entries@.len() == 1 && entries@[0].0@
                == self.variant@ && (entries@[0].1 matches Value::Dict(fields) && fields@
                == self.inner.0@),
    {
        let body = match self.inner.end() {
            Ok(body) => body,
            Err(e) => return Err(e),
        };
        let mut entries: Vec<(String, Value)> = Vec::new();
        entries.push((self.variant, body));
        Ok(Value::Dict(entries))
    }
}

/// Reads a [`Value`] back into a data structure.
pub struct ValueDeserializer(pub Value);

impl ValueDeserializer {
    /// `Null` reads as an absent optional value; anything else is present.
    pub fn deserialize_option(self) -> (r: Option<Value>)
        ensures
            self.0 is Null ==> r is None,
            !(self.0 is Null) ==> r == Some(self.0),
    {
        match self.0 {
            Value::Null => None,
            other => Some(other),
        }
    }

    /// An enum is read from its variant's name, or from a map from the name to
    /// the variant's body.
    pub fn deserialize_enum(self, _name: &str) -> (r: Result<ValueEnumAccess, ValueConvertError>)
        ensures
            match self.0 {
                Value::Str(s) => r matches Ok(ValueEnumAccess::Unit(t)) && t == s,
                Value::Dict(m) => r matches Ok(ValueEnumAccess::WithData(n)) && n == m,
                _ => r matches Err(e) && e.0@ == "expected string or map for enum"@,
            },
    {
        match self.0 {
            Value::Str(s) => Ok(ValueEnumAccess::Unit(s)),
            Value::Dict(m) => Ok(ValueEnumAccess::WithData(m)),
            _ => Err(err("expected string or map for enum")),
        }
    }
}

/// The elements of a list not yet read, last one first.
pub struct ValueSeqAccess {
    pub rest: Vec<Value>,
}

impl ValueSeqAccess {
    /// The elements still to be read, in order.
    pub open spec fn remaining(self) -> Seq<Value> {
        self.rest@.reverse()
    }

    pub fn new(v: Vec<Value>) -> (r: Self)
        ensures
            r.remaining() == v@,
    {
        let mut v = v;
        let ghost orig = v@;
        let mut rest: Vec<Value> = Vec::new();
        while v.len() > 0
            invariant
                orig == v@ + rest@.reverse(),
            decreases v@.len(),
        {
            let x = v.pop().unwrap();
            let ghost before = rest@;
            rest.push(x);
            assert(rest@.reverse() =~= seq![x] + before.reverse());
        }
        assert(orig =~= rest@.reverse());
        ValueSeqAccess { rest }
    }

    /// The next element, if any.
    pub fn next_element(&mut self) -> (r: Result<Option<Value>, ValueConvertError>)
        ensures
            old(self).remaining().len() == 0 ==> r == Ok::<Option<Value>, ValueConvertError>(None)
                && final(self).remaining() == old(self).remaining(),
            old(self).remaining().len() > 0 ==> r == Ok::<Option<Value>, ValueConvertError>(
                Some(old(self).remaining()[0]),
            ) && final(self).remaining() == old(self).remaining().drop_first(),
    {
        let ghost before = self.rest@;
        match self.rest.pop() {
            Some(v) => {
                assert(before.reverse().drop_first() =~= self.rest@.reverse());
                Ok(Some(v))
            },
            None => Ok(None),
        }
    }
}

/// The entries of a map not yet read, last one first, and the value of the
/// key read last.
pub struct ValueMapAccess {
    pub rest: Vec<(String, Value)>,
    pub current_value: Option<Value>,
}

impl ValueMapAccess {
    /// The entries still to be read, in order.
    pub open spec fn remaining(self) -> Seq<(String, Value)> {
        self.rest@.reverse()
    }

    pub fn new(v: Vec<(String, Value)>) -> (r: Self)
        ensures
            r.remaining() == v@,
            r.current_value is None,
    {
        let mut v = v;
        let ghost orig = v@;
        let mut rest: Vec<(String, Value)> = Vec::new();
        while v.len() > 0
            invariant
                orig == v@ + rest@.reverse(),
            decreases v@.len(),
        {
            let x = v.pop().unwrap();
            let ghost before = rest@;
            rest.push(x);
            assert(rest@.reverse() =~= seq![x] + before.reverse());
        }
        assert(orig =~= rest@.reverse());
        ValueMapAccess { rest, current_value: None }
    }

    /// The next key; its value waits for [`Self::next_value`].
    pub fn next_key(&mut self) -> (r: Result<Option<Value>, ValueConvertError>)
        ensures
            old(self).remaining().len() == 0 ==> r == Ok::<Option<Value>, ValueConvertError>(None)
                && final(self).rest@ == old(self).rest@ && final(self).current_value == old(self).current_value,
            old(self).remaining().len() > 0 ==> (r matches Ok(Some(Value::Str(k))) && k
                == old(self).remaining()[0].0) && final(self).remaining() == old(
                self,
            ).remaining().drop_first() && final(self).current_value == Some(
                old(self).remaining()[0].1,
            ),
    {
        let ghost before = self.rest@;
        match self.rest.pop() {
            Some((key, value)) => {
                assert(before.reverse().drop_first() =~= self.rest@.reverse());
                self.current_value = Some(value);
                Ok(Some(Value::Str(key)))
            },
            None => Ok(None),
        }
    }

    /// The value of the key read last.
    pub fn next_value(&mut self) -> (r: Result<Value, ValueConvertError>)
        requires
            old(self).current_value is Some,
        ensures
            r == Ok::<Value, ValueConvertError>(old(self).current_value->0),
            final(self).current_value is None,
            final(self).rest == old(self).rest,
    {
        let value = self.current_value.take().unwrap();
        Ok(value)
    }
}

/// How an enum was written: by its variant's name, or as a map from the name
/// to the variant's body.
pub enum ValueEnumAccess {
    Unit(String),
    WithData(Vec<(String, Value)>),
}

impl ValueEnumAccess {
    /// The variant's name, and its body if it has one. A map names the variant
    /// by its first entry.
    pub fn variant_seed(self) -> (r: Result<(Value, ValueVariantAccess), ValueConvertError>)
        ensures
            match self {
                ValueEnumAccess::Unit(s) => r matches Ok((Value::Str(t), ValueVariantAccess::Unit))
                    && t == s,
                ValueEnumAccess::WithData(m) => if m@.len() == 0 {
                    r matches Err(e) && e.0@ == "expected single-entry map for enum"@
                } else {
                    r matches Ok((Value::Str(t), ValueVariantAccess::WithData(v))) && t == m@[0].0
                        && v == m@[0].1
                },
            },
    {
        match self {
            ValueEnumAccess::Unit(name) => Ok((Value::Str(name), ValueVariantAccess::Unit)),
            ValueEnumAccess::WithData(map) => {
                let mut map = map;
                if map.len() == 0 {
                    return Err(err("expected single-entry map for enum"));
                }
                let (key, value) = map.remove(0);
                Ok((Value::Str(key), ValueVariantAccess::WithData(value)))
            },
        }
    }
}

/// The body of the variant being read, if it has one.
pub enum ValueVariantAccess {
    Unit,
    WithData(Value),
}

impl ValueVariantAccess {
    pub fn unit_variant(self) -> (r: Result<(), ValueConvertError>)
        ensures
            self is Unit ==> r is Ok,
            !(self is Unit) ==> (r matches Err(e) && e.0@ == "expected unit variant"@),
    {
        match self {
            ValueVariantAccess::Unit => Ok(()),
            _ => Err(err("expected unit variant")),
        }
    }

    pub fn newtype_variant(self) -> (r: Result<Value, ValueConvertError>)
        ensures
            match self {
                ValueVariantAccess::WithData(v) => r == Ok::<Value, ValueConvertError>(v),
                _ => r matches Err(e) && e.0@ == "expected newtype variant"@,
            },
    {
        match self {
            ValueVariantAccess::WithData(value) => Ok(value),
            _ => Err(err("expected newtype variant")),
        }
    }

    /// The body of a tuple variant, read as a sequence.
    pub fn tuple_variant(self, _len: usize) -> (r: Result<Value, ValueConvertError>)
        ensures
            match self {
                ValueVariantAccess::WithData(v) => r == Ok::<Value, ValueConvertError>(v),
                _ => r matches Err(e) && e.0@ == "expected tuple variant"@,
            },
    {
        match self {
            ValueVariantAccess::WithData(value) => Ok(value),
            _ => Err(err("expected tuple variant")),
        }
    }

    /// The body of a struct variant, read as a map. A unit variant is refused
    /// with the same message as for a tuple variant.
    pub fn struct_variant(self) -> (r: Result<Value, ValueConvertError>)
        ensures
            match self {
                ValueVariantAccess::WithData(v) => r == Ok::<Value, ValueConvertError>(v),
                _ => r matches Err(e) && e.0@ == "expected tuple variant"@,
            },
    {
        match self {
            ValueVariantAccess::WithData(value) => Ok(value),
            _ => Err(err("expected tuple variant")),
        }
    }
}

impl Clone for Value {
    fn clone(&self) -> (r: Self)
        ensures
            r@ == self@,
    {
        self.deep_clone()
    }
}

} // verus!
