use vstd::prelude::*;

use crate::value::Value;

verus! {

/// The kind of an event; subscribers receive the events of their kind.
#[derive(Debug)]
pub struct EventKind(pub String);

/// The name of a sorting criterion of consumable dispatch.
#[derive(Debug)]
pub struct SortKey(pub String);

/// The name of a property that a subscription carries.
#[derive(Debug)]
pub struct PropertyKey(pub String);

/// An event and its payload.
#[derive(Debug)]
pub struct Event {
    pub kind: EventKind,
    pub data: Value,
}

/// How an event is delivered: to every subscriber of its kind, or in order of
/// priority until one subscriber consumes it.
#[derive(Debug)]
pub enum DispatchDescriptor {
    /// Subscribers are sorted by the values that the resolvers of these keys
    /// give them; the first that answers `Handled` consumes the event.
    Consumable(Vec<SortKey>),
    /// Every subscriber of the kind receives the event.
    Broadcast,
}

#[derive(Debug, Clone, Copy, PartialEq, Eq, Hash)]
pub struct SubscriptionId(pub usize);

#[derive(Debug, Clone, Copy, PartialEq, Eq, Hash)]
pub struct PluginId(pub usize);

/// A subscriber's answer to an event.
#[derive(Debug, Clone, Copy, PartialEq, Eq)]
pub enum EventResult {
    Handled,
    Propagate,
}

/// A plugin's registration for the events of one kind. `H` is the handler
/// that receives them; the properties are keyed by property name.
pub struct Subscription<H> {
    pub plugin_id: PluginId,
    pub kind: EventKind,
    pub properties: Vec<(String, Value)>,
    pub handler: H,
}

/// A plugin of the editor.
pub trait Plugin {
    /// How many times the plugin has been torn down.
    spec fn uninits(&self) -> usize;

    /// Sets the plugin up under its id: it registers its subscriptions,
    /// services and commands.
    fn init(&mut self, plugin_id: PluginId);

    /// Tears the plugin down when the editor stops.
    fn uninit(&mut self)
        requires
            old(self).uninits() < usize::MAX,
        ensures
            final(self).uninits() == old(self).uninits() + 1,
    ;
}

impl EventKind {
    pub fn clone_kind(&self) -> (r: Self)
        ensures
            r.0@ == self.0@,
    {
        EventKind(self.0.clone())
    }
}

impl Event {
    pub fn clone_event(&self) -> (r: Self)
        ensures
            r.kind.0@ == self.kind.0@,
            r.data@ == self.data@,
    {
        Event { kind: self.kind.clone_kind(), data: self.data.deep_clone() }
    }
}

} // verus!
