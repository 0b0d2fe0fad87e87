use std::collections::VecDeque;

use vstd::prelude::*;

use crate::assoc::{
    assoc_find, assoc_get, assoc_insert, assoc_view, first_key_index, keys_distinct,
    lemma_first_key_index,
};
use crate::event::{
    Plugin,
    DispatchDescriptor, Event, EventKind, EventResult, PluginId, PropertyKey, SortKey, Subscription,
    SubscriptionId,
};
use crate::order::{is_stable_order, order_by_keys, permute};
use crate::value::{Value, ValueModel};

verus! {

/// A plugin's service: the plugin that answers it and the handler that does.
#[derive(Debug, Clone, Copy)]
pub struct Service<S> {
    pub plugin_id: PluginId,
    pub handler: S,
}

/// Whether the editor's main loop goes on. Only `Registry::new` makes a
/// flag that is on, and only `quit` changes one, to off.
pub struct RunFlag {
    on: bool,
}

impl RunFlag {
    pub closed spec fn spec_on(&self) -> bool {
        self.on
    }
}

/// The state of the event bus: queued events and commands, subscriptions,
/// priority resolvers, commands and services. `H` is an event handler, `S` a
/// service handler, `C` a command and `R` a priority resolver.
///
/// Resolvers are keyed by sort key and map it to the property that they read;
/// commands and services are keyed by name.
pub struct Registry<H, S, C, R> {
    pub event_queue: VecDeque<(Event, DispatchDescriptor)>,
    pub subscriptions: Vec<Option<Subscription<H>>>,
    pub resolvers: Vec<(String, (String, R))>,
    pub command_queue: VecDeque<(String, Vec<String>)>,
    pub commands: Vec<(String, C)>,
    pub services: Vec<(String, Service<S>)>,
    pub running: RunFlag,
}

impl<H, S, C, R> Registry<H, S, C, R> {
    /// Whether the editor's main loop goes on.
    pub open spec fn spec_running(&self) -> bool {
        self.running.spec_on()
    }

    /// The keyed tables have distinct keys.
    pub open spec fn wf(&self) -> bool {
        &&& keys_distinct(self.resolvers@)
        &&& keys_distinct(self.commands@)
        &&& keys_distinct(self.services@)
    }

    /// An empty bus that is running.
    pub fn new() -> (r: Self)
        ensures
            r.wf(),
            r.spec_running(),
            r.event_queue@.len() == 0,
            r.subscriptions@.len() == 0,
            r.resolvers@.len() == 0,
            r.command_queue@.len() == 0,
            r.commands@.len() == 0,
            r.services@.len() == 0,
    {
        Registry {
            event_queue: VecDeque::new(),
            subscriptions: Vec::new(),
            resolvers: Vec::new(),
            command_queue: VecDeque::new(),
            commands: Vec::new(),
            services: Vec::new(),
            running: RunFlag { on: true },
        }
    }
}

/// Stops the editor's main loop.
pub fn quit<H, S, C, R>(reg: &mut Registry<H, S, C, R>)
    ensures
        !final(reg).spec_running(),
        final(reg).event_queue@ == old(reg).event_queue@,
        final(reg).subscriptions@ == old(reg).subscriptions@,
        final(reg).resolvers@ == old(reg).resolvers@,
        final(reg).command_queue@ == old(reg).command_queue@,
        final(reg).commands@ == old(reg).commands@,
        final(reg).services@ == old(reg).services@,
{
    reg.running = RunFlag { on: false };
}

/// Whether the editor's main loop goes on.
pub fn is_running<H, S, C, R>(reg: &Registry<H, S, C, R>) -> (r: bool)
    ensures
        r == reg.spec_running(),
{
    reg.running.on
}

/// Sets a plugin up under the next plugin id, its position among the plugins,
/// and adds it.
pub fn add_plugin<P: Plugin>(plugins: &mut Vec<P>, plugin: P) -> (id: PluginId)
    ensures
        id.0 == old(plugins)@.len(),
        final(plugins)@.len() == old(plugins)@.len() + 1,
        final(plugins)@.drop_last() == old(plugins)@,
{
    let id = PluginId(plugins.len());
    let mut plugin = plugin;
    plugin.init(id);
    plugins.push(plugin);
    assert(final(plugins)@.drop_last() =~= old(plugins)@);
    id
}

/// Tears every plugin down once, in the order in which they were added.
pub fn uninit_plugins<P: Plugin>(plugins: &mut Vec<P>)
    requires
        forall|i: int| 0 <= i < old(plugins)@.len() ==> (#[trigger] old(plugins)@[i]).uninits() < usize::MAX,
    ensures
        final(plugins)@.len() == old(plugins)@.len(),
        forall|i: int|
            0 <= i < final(plugins)@.len() ==> #[trigger] final(plugins)@[i].uninits() == old(plugins)@[i].uninits() + 1,
{
    let mut i: usize = 0;
    while i < plugins.len()
        invariant
            i <= plugins@.len(),
            plugins@.len() == old(plugins)@.len(),
            forall|j: int| 0 <= j < i ==> #[trigger] plugins@[j].uninits() == old(plugins)@[j].uninits() + 1,
            forall|j: int| i <= j < plugins@.len() ==> #[trigger] plugins@[j] == old(plugins)@[j],
            forall|j: int| 0 <= j < old(plugins)@.len() ==> (#[trigger] old(plugins)@[j]).uninits() < usize::MAX,
        decreases plugins@.len() - i,
    {
        assert(plugins@[i as int] == old(plugins)@[i as int]);
        plugins[i].uninit();
        i = i + 1;
    }
}

/// Queues an event; events are dispatched in the order in which they are queued.
pub fn emit_event<H, S, C, R>(
    reg: &mut Registry<H, S, C, R>,
    event: Event,
    descriptor: DispatchDescriptor,
)
    ensures
        final(reg).event_queue@ == old(reg).event_queue@.push((event, descriptor)),
        final(reg).subscriptions@ == old(reg).subscriptions@,
        final(reg).resolvers@ == old(reg).resolvers@,
        final(reg).command_queue@ == old(reg).command_queue@,
        final(reg).commands@ == old(reg).commands@,
        final(reg).services@ == old(reg).services@,
        final(reg).spec_running() == old(reg).spec_running(),
{
    reg.event_queue.push_back((event, descriptor));
}

/// `new` is `old` with one more event queued for broadcast, of kind `kind`
/// and with payload `data`; nothing else changed.
pub open spec fn broadcast_queued<H, S, C, R>(
    old: Registry<H, S, C, R>,
    new: Registry<H, S, C, R>,
    kind: Seq<char>,
    data: ValueModel,
) -> bool {
    &&& new.event_queue@.len() == old.event_queue@.len() + 1
    &&& new.event_queue@.take(old.event_queue@.len() as int) == old.event_queue@
    &&& new.event_queue@.last().0.kind.0@ == kind
    &&& new.event_queue@.last().0.data@ == data
    &&& new.event_queue@.last().1 is Broadcast
    &&& new.subscriptions@ == old.subscriptions@
    &&& new.resolvers@ == old.resolvers@
    &&& new.command_queue@ == old.command_queue@
    &&& new.commands@ == old.commands@
    &&& new.services@ == old.services@
    &&& new.spec_running() == old.spec_running()
}

/// Queues an event of kind `kind` with payload `data` for broadcast.
pub fn broadcast<H, S, C, R>(reg: &mut Registry<H, S, C, R>, kind: &str, data: Value)
    ensures
        broadcast_queued(*old(reg), *final(reg), kind@, data@),
{
    let event = Event { kind: EventKind(kind.to_owned()), data };
    emit_event(reg, event, DispatchDescriptor::Broadcast);
    assert(final(reg).event_queue@.take(old(reg).event_queue@.len() as int) =~= old(reg).event_queue@);
}

/// `new` is `old` with one more event queued for consumable dispatch, of
/// kind `kind` and with payload `data`, ordered by the single sort key `key`;
/// nothing else changed.
pub open spec fn consumable_queued<H, S, C, R>(
    old: Registry<H, S, C, R>,
    new: Registry<H, S, C, R>,
    kind: Seq<char>,
    data: ValueModel,
    key: Seq<char>,
) -> bool {
    &&& new.event_queue@.len() == old.event_queue@.len() + 1
    &&& new.event_queue@.take(old.event_queue@.len() as int) == old.event_queue@
    &&& new.event_queue@.last().0.kind.0@ == kind
    &&& new.event_queue@.last().0.data@ == data
    &&& new.event_queue@.last().1 matches DispatchDescriptor::Consumable(keys) && keys@.len() == 1
        && keys@[0].0@ == key
    &&& new.subscriptions@ == old.subscriptions@
    &&& new.resolvers@ == old.resolvers@
    &&& new.command_queue@ == old.command_queue@
    &&& new.commands@ == old.commands@
    &&& new.services@ == old.services@
    &&& new.spec_running() == old.spec_running()
}

/// Queues an event of kind `kind` with payload `data` for consumable
/// dispatch, ordered by the sort key `key`.
pub fn emit_consumable<H, S, C, R>(reg: &mut Registry<H, S, C, R>, kind: &str, data: Value, key: &str)
    ensures
        consumable_queued(*old(reg), *final(reg), kind@, data@, key@),
{
    let mut keys: Vec<SortKey> = Vec::new();
    keys.push(SortKey(key.to_owned()));
    let event = Event { kind: EventKind(kind.to_owned()), data };
    emit_event(reg, event, DispatchDescriptor::Consumable(keys));
    assert(final(reg).event_queue@.take(old(reg).event_queue@.len() as int) =~= old(reg).event_queue@);
}

/// Registers a subscription; its id is its position among all subscriptions
/// made so far.
pub fn subscribe<H, S, C, R>(reg: &mut Registry<H, S, C, R>, subscription: Subscription<H>) -> (id:
    SubscriptionId)
    ensures
        id.0 == old(reg).subscriptions@.len(),
        final(reg).subscriptions@ == old(reg).subscriptions@.push(Some(subscription)),
        final(reg).event_queue@ == old(reg).event_queue@,
        final(reg).resolvers@ == old(reg).resolvers@,
        final(reg).command_queue@ == old(reg).command_queue@,
        final(reg).commands@ == old(reg).commands@,
        final(reg).services@ == old(reg).services@,
        final(reg).spec_running() == old(reg).spec_running(),
{
    let id = SubscriptionId(reg.subscriptions.len());
    reg.subscriptions.push(Some(subscription));
    id
}

/// Cancels a subscription; an unknown id changes nothing.
pub fn unsubscribe<H, S, C, R>(reg: &mut Registry<H, S, C, R>, id: SubscriptionId)
    ensures
        id.0 < old(reg).subscriptions@.len() ==> final(reg).subscriptions@ == old(
            reg,
        ).subscriptions@.update(id.0 as int, None),
        id.0 >= old(reg).subscriptions@.len() ==> final(reg).subscriptions@ == old(
            reg,
        ).subscriptions@,
        final(reg).event_queue@ == old(reg).event_queue@,
        final(reg).resolvers@ == old(reg).resolvers@,
        final(reg).command_queue@ == old(reg).command_queue@,
        final(reg).commands@ == old(reg).commands@,
        final(reg).services@ == old(reg).services@,
        final(reg).spec_running() == old(reg).spec_running(),
{
    if id.0 < reg.subscriptions.len() {
        reg.subscriptions.set(id.0, None);
    }
}

/// Registers the resolver of a sort key; it reads the given property of each
/// subscription. A later registration of the same key replaces the earlier.
pub fn register_resolver<H, S, C, R>(
    reg: &mut Registry<H, S, C, R>,
    sort_key: SortKey,
    property_key: PropertyKey,
    resolver: R,
)
    requires
        old(reg).wf(),
    ensures
        final(reg).wf(),
        assoc_view(final(reg).resolvers@) == assoc_view(old(reg).resolvers@).insert(
            sort_key.0@,
            (property_key.0, resolver),
        ),
        final(reg).event_queue@ == old(reg).event_queue@,
        final(reg).subscriptions@ == old(reg).subscriptions@,
        final(reg).command_queue@ == old(reg).command_queue@,
        final(reg).commands@ == old(reg).commands@,
        final(reg).services@ == old(reg).services@,
        final(reg).spec_running() == old(reg).spec_running(),
{
    assoc_insert(&mut reg.resolvers, sort_key.0, (property_key.0, resolver));
}

/// Registers a command under a name, replacing one of the same name.
pub fn register_command<H, S, C, R>(reg: &mut Registry<H, S, C, R>, name: &str, command: C)
    requires
        old(reg).wf(),
    ensures
        final(reg).wf(),
        assoc_view(final(reg).commands@) == assoc_view(old(reg).commands@).insert(name@, command),
        final(reg).event_queue@ == old(reg).event_queue@,
        final(reg).subscriptions@ == old(reg).subscriptions@,
        final(reg).resolvers@ == old(reg).resolvers@,
        final(reg).command_queue@ == old(reg).command_queue@,
        final(reg).services@ == old(reg).services@,
        final(reg).spec_running() == old(reg).spec_running(),
{
    assoc_insert(&mut reg.commands, name.to_owned(), command);
}

/// Copies a list of strings.
pub fn clone_strings(args: &[String]) -> (r: Vec<String>)
    ensures
        r@.len() == args@.len(),
        forall|i: int| 0 <= i < args@.len() ==> #[trigger] r@[i]@ == args@[i]@,
{
    let mut r: Vec<String> = Vec::new();
    let mut i: usize = 0;
    while i < args.len()
        invariant
            i <= args@.len(),
            r@.len() == i,
            forall|j: int| 0 <= j < i ==> #[trigger] r@[j]@ == args@[j]@,
        decreases args@.len() - i,
    {
        r.push(args[i].clone());
        i = i + 1;
    }
    r
}

/// Values that agree pointwise have the same models.
pub proof fn lemma_models_pointwise(a: Seq<Value>, b: Seq<Value>)
    requires
        a.len() == b.len(),
        forall|j: int| 0 <= j < a.len() ==> #[trigger] a[j]@ == b[j]@,
    ensures
        Value::models(a) == Value::models(b),
    decreases a.len(),
{
    if a.len() > 0 {
        lemma_models_pointwise(a.drop_last(), b.drop_last());
        assert(a.last()@ == b.last()@);
    }
}

/// `new` is `old` with one more command call queued, of command `name` with
/// arguments `args`; nothing else changed.
pub open spec fn command_queued<H, S, C, R>(
    old: Registry<H, S, C, R>,
    new: Registry<H, S, C, R>,
    name: Seq<char>,
    args: Seq<Seq<char>>,
) -> bool {
    &&& new.command_queue@.len() == old.command_queue@.len() + 1
    &&& new.command_queue@.drop_last() == old.command_queue@
    &&& new.command_queue@.last().0@ == name
    &&& new.command_queue@.last().1@.map_values(|a: String| a@) == args
    &&& new.event_queue@ == old.event_queue@
    &&& new.subscriptions@ == old.subscriptions@
    &&& new.resolvers@ == old.resolvers@
    &&& new.commands@ == old.commands@
    &&& new.services@ == old.services@
    &&& new.spec_running() == old.spec_running()
}

/// Queues a command call; queued calls run after the event being dispatched.
pub fn execute_command<H, S, C, R>(reg: &mut Registry<H, S, C, R>, name: &str, args: &[String])
    ensures
        command_queued(*old(reg), *final(reg), name@, args@.map_values(|a: String| a@)),
{
    let ghost before = reg.command_queue@;
    reg.command_queue.push_back((name.to_owned(), clone_strings(args)));
    assert(reg.command_queue@.drop_last() =~= before);
    assert(reg.command_queue@.last().1@.map_values(|a: String| a@) =~= args@.map_values(|a: String| a@));
}

/// Registers a plugin's service under a name, replacing one of the same name.
pub fn register_service<H, S, C, R>(reg: &mut Registry<H, S, C, R>, name: &str, service: Service<S>)
    requires
        old(reg).wf(),
    ensures
        final(reg).wf(),
        assoc_view(final(reg).services@) == assoc_view(old(reg).services@).insert(name@, service),
        final(reg).event_queue@ == old(reg).event_queue@,
        final(reg).subscriptions@ == old(reg).subscriptions@,
        final(reg).resolvers@ == old(reg).resolvers@,
        final(reg).command_queue@ == old(reg).command_queue@,
        final(reg).commands@ == old(reg).commands@,
        final(reg).spec_running() == old(reg).spec_running(),
{
    assoc_insert(&mut reg.services, name.to_owned(), service);
}

/// Finds the service registered under `name`.
pub fn lookup_service<'a, H, S, C, R>(reg: &'a Registry<H, S, C, R>, name: &str) -> (r: Result<
    &'a Service<S>,
    String,
>)
    requires
        reg.wf(),
    ensures
        match r {
            Ok(s) => assoc_view(reg.services@).dom().contains(name@) && *s == assoc_view(
                reg.services@,
            )[name@],
            Err(e) => !assoc_view(reg.services@).dom().contains(name@) && e@ == "service not found"@,
        },
{
    match assoc_get(&reg.services, name) {
        Some(s) => Ok(s),
        None => Err("service not found".to_owned()),
    }
}

/// Finds the command registered under `name`.
pub fn lookup_command<'a, H, S, C, R>(reg: &'a Registry<H, S, C, R>, name: &str) -> (r: Option<&'a C>)
    requires
        reg.wf(),
    ensures
        match r {
            Some(c) => assoc_view(reg.commands@).dom().contains(name@) && *c == assoc_view(
                reg.commands@,
            )[name@],
            None => !assoc_view(reg.commands@).dom().contains(name@),
        },
{
    assoc_get(&reg.commands, name)
}

/// Takes the oldest queued event.
pub fn pop_event<H, S, C, R>(reg: &mut Registry<H, S, C, R>) -> (r: Option<(Event, DispatchDescriptor)>)
    ensures
        old(reg).event_queue@.len() == 0 ==> r is None && final(reg).event_queue@ == old(reg).event_queue@,
        old(reg).event_queue@.len() > 0 ==> r == Some(old(reg).event_queue@[0])
            && final(reg).event_queue@ == old(reg).event_queue@.drop_first(),
        final(reg).subscriptions@ == old(reg).subscriptions@,
        final(reg).resolvers@ == old(reg).resolvers@,
        final(reg).command_queue@ == old(reg).command_queue@,
        final(reg).commands@ == old(reg).commands@,
        final(reg).services@ == old(reg).services@,
        final(reg).spec_running() == old(reg).spec_running(),
{
    reg.event_queue.pop_front()
}

/// Takes the oldest queued command call.
pub fn pop_command<H, S, C, R>(reg: &mut Registry<H, S, C, R>) -> (r: Option<(String, Vec<String>)>)
    ensures
        old(reg).command_queue@.len() == 0 ==> r is None && final(reg).command_queue@ == old(reg).command_queue@,
        old(reg).command_queue@.len() > 0 ==> r == Some(old(reg).command_queue@[0])
            && final(reg).command_queue@ == old(reg).command_queue@.drop_first(),
        final(reg).event_queue@ == old(reg).event_queue@,
        final(reg).subscriptions@ == old(reg).subscriptions@,
        final(reg).resolvers@ == old(reg).resolvers@,
        final(reg).commands@ == old(reg).commands@,
        final(reg).services@ == old(reg).services@,
        final(reg).spec_running() == old(reg).spec_running(),
{
    reg.command_queue.pop_front()
}

/// Whether the main loop must wait for an event from outside: nothing is queued.
pub fn park_until_event<H, S, C, R>(reg: &Registry<H, S, C, R>) -> (must_wait: bool)
    ensures
        must_wait == (reg.event_queue@.len() == 0),
{
    reg.event_queue.len() == 0
}


/// Whether position `i` holds a live subscription of `kind`.
pub open spec fn subscribed_at<H>(subs: Seq<Option<Subscription<H>>>, kind: Seq<char>, i: int) -> bool {
    0 <= i < subs.len() && (subs[i] matches Some(s) && s.kind.0@ == kind)
}

/// The positions of the live subscriptions of `kind`, in the order in which
/// they were made.
pub open spec fn matching_positions<H>(subs: Seq<Option<Subscription<H>>>, kind: Seq<char>) -> Seq<
    int,
>
    decreases subs.len(),
{
    if subs.len() == 0 {
        Seq::empty()
    } else {
        let rest = matching_positions(subs.drop_last(), kind);
        if subscribed_at(subs, kind, subs.len() - 1) {
            rest.push(subs.len() - 1)
        } else {
            rest
        }
    }
}

/// The handler and plugin of each live subscription of `kind`, in order.
pub open spec fn targets_of<H>(subs: Seq<Option<Subscription<H>>>, kind: Seq<char>) -> Seq<
    (H, PluginId),
> {
    matching_positions(subs, kind).map_values(
        |i: int| (subs[i]->0.handler, subs[i]->0.plugin_id),
    )
}

/// The resolvers of the sort keys that have one, by position, in the order
/// of the keys.
pub open spec fn resolver_positions<R>(resolvers: Seq<(String, (String, R))>, sort_keys: Seq<SortKey>) -> Seq<
    int,
>
    decreases sort_keys.len(),
{
    if sort_keys.len() == 0 {
        Seq::empty()
    } else {
        let rest = resolver_positions(resolvers, sort_keys.drop_last());
        match first_key_index(resolvers, sort_keys.last().0@) {
            Some(i) => rest.push(i),
            None => rest,
        }
    }
}

/// The value of a subscription's property, if it has one.
pub open spec fn property_model(properties: Seq<(String, Value)>, key: Seq<char>) -> Option<ValueModel> {
    match first_key_index(properties, key) {
        Some(i) => Some(properties[i].1@),
        None => None,
    }
}

/// A subscriber of a consumable event, with the properties that the resolvers
/// of the event's sort keys read, one per resolver.
pub struct Candidate<H> {
    pub handler: H,
    pub plugin_id: PluginId,
    pub properties: Vec<Option<Value>>,
}

/// What to do with the next event: deliver it to every target, or to the
/// candidates in order of priority until one consumes it. The priority of a
/// candidate is the list of what each resolver, taken from `resolvers` by
/// position, gives for the candidate's property.
pub enum DispatchPlan<H> {
    Broadcast { event: Event, targets: Vec<(H, PluginId)> },
    Consumable { event: Event, resolvers: Vec<usize>, candidates: Vec<Candidate<H>> },
}

pub open spec fn opt_model(v: Option<Value>) -> Option<ValueModel> {
    match v {
        Some(v) => Some(v@),
        None => None,
    }
}

/// `candidates` are the live subscriptions of `kind` in order, each with the
/// properties read by the resolvers at `positions`.
pub open spec fn candidates_match<H, R>(
    candidates: Seq<Candidate<H>>,
    subs: Seq<Option<Subscription<H>>>,
    kind: Seq<char>,
    resolvers: Seq<(String, (String, R))>,
    positions: Seq<int>,
) -> bool {
    let ps = matching_positions(subs, kind);
    &&& candidates.len() == ps.len()
    &&& forall|c: int|
        #![trigger candidates[c]]
        0 <= c < candidates.len() ==> {
            let s = subs[ps[c]]->0;
            &&& candidates[c].handler == s.handler
            &&& candidates[c].plugin_id == s.plugin_id
            &&& candidates[c].properties@.len() == positions.len()
            &&& forall|k: int|
                0 <= k < positions.len() ==> opt_model(#[trigger] candidates[c].properties@[k])
                    == property_model(s.properties@, resolvers[positions[k]].1.0@)
        }
}

proof fn lemma_matching_positions<H>(subs: Seq<Option<Subscription<H>>>, kind: Seq<char>)
    ensures
        forall|c: int|
            0 <= c < matching_positions(subs, kind).len() ==> subscribed_at(
                subs,
                kind,
                #[trigger] matching_positions(subs, kind)[c],
            ),
        forall|c: int, d: int|
            0 <= c < d < matching_positions(subs, kind).len() ==> matching_positions(subs, kind)[c]
                < matching_positions(subs, kind)[d],
        forall|i: int|
            subscribed_at(subs, kind, i) ==> #[trigger] matching_positions(subs, kind).contains(i),
    decreases subs.len(),
{
    if subs.len() > 0 {
        let init = subs.drop_last();
        lemma_matching_positions(init, kind);
        let rest = matching_positions(init, kind);
        assert forall|c: int| 0 <= c < rest.len() implies subscribed_at(subs, kind, rest[c]) by {
            assert(subscribed_at(init, kind, rest[c]));
        }
        assert forall|i: int| subscribed_at(subs, kind, i) implies #[trigger] matching_positions(subs, kind).contains(i) by {
            if i < subs.len() - 1 {
                assert(subscribed_at(init, kind, i));
                assert(rest.contains(i));
                let c = choose|c: int| 0 <= c < rest.len() && rest[c] == i;
                assert(matching_positions(subs, kind)[c] == i);
            } else {
                assert(matching_positions(subs, kind).last() == i);
            }
        }
        assert forall|c: int| 0 <= c < rest.len() implies rest[c] < subs.len() - 1 by {
            assert(subscribed_at(init, kind, rest[c]));
        }
    }
}

/// The resolvers of the given sort keys, by position in the resolver table.
pub fn plan_resolvers<R>(resolvers: &Vec<(String, (String, R))>, sort_keys: &Vec<SortKey>) -> (r: Vec<usize>)
    ensures
        r@.map_values(|i: usize| i as int) == resolver_positions(resolvers@, sort_keys@),
        forall|k: int| 0 <= k < r@.len() ==> r@[k] < resolvers@.len(),
{
    let mut r: Vec<usize> = Vec::new();
    let mut k: usize = 0;
    while k < sort_keys.len()
        invariant
            k <= sort_keys@.len(),
            r@.map_values(|i: usize| i as int) == resolver_positions(resolvers@, sort_keys@.subrange(0, k as int)),
            forall|j: int| 0 <= j < r@.len() ==> r@[j] < resolvers@.len(),
        decreases sort_keys@.len() - k,
    {
        proof {
            lemma_first_key_index(resolvers@, sort_keys@[k as int].0@);
            assert(sort_keys@.subrange(0, k + 1).drop_last() =~= sort_keys@.subrange(0, k as int));
        }
        match assoc_find(resolvers, sort_keys[k].0.as_str()) {
            Some(i) => {
                let ghost before = r@;
                r.push(i);
                assert(r@.map_values(|i: usize| i as int) =~= before.map_values(|i: usize| i as int).push(i as int));
            },
            None => {},
        }
        k = k + 1;
    }
    assert(sort_keys@.subrange(0, sort_keys@.len() as int) =~= sort_keys@);
    r
}

/// The property of a subscription that a resolver reads.
fn read_property(properties: &Vec<(String, Value)>, key: &str) -> (r: Option<Value>)
    ensures
        opt_model(r) == property_model(properties@, key@),
{
    proof {
        lemma_first_key_index(properties@, key@);
    }
    match assoc_find(properties, key) {
        Some(i) => Some(properties[i].1.deep_clone()),
        None => None,
    }
}

/// Takes the next queued event and plans its delivery: a broadcast event goes
/// to every live subscription of its kind, a consumable one to the same
/// subscriptions, to be ordered by the resolvers of its sort keys.
pub fn plan_next<H: Copy, S, C, R>(reg: &mut Registry<H, S, C, R>) -> (r: Option<DispatchPlan<H>>)
    ensures
        final(reg).subscriptions@ == old(reg).subscriptions@,
        final(reg).resolvers@ == old(reg).resolvers@,
        final(reg).command_queue@ == old(reg).command_queue@,
        final(reg).commands@ == old(reg).commands@,
        final(reg).services@ == old(reg).services@,
        final(reg).spec_running() == old(reg).spec_running(),
        old(reg).event_queue@.len() == 0 ==> r is None && final(reg).event_queue@ == old(reg).event_queue@,
        old(reg).event_queue@.len() > 0 ==> {
            let (ev, desc) = old(reg).event_queue@[0];
            &&& final(reg).event_queue@ == old(reg).event_queue@.drop_first()
            &&& r is Some
            &&& match r->0 {
                DispatchPlan::Broadcast { event, targets } => desc is Broadcast && event == ev
                    && targets@ == targets_of(old(reg).subscriptions@, ev.kind.0@),
                DispatchPlan::Consumable { event, resolvers, candidates } => desc matches DispatchDescriptor::Consumable(keys)
                    && event == ev && resolvers@.map_values(|i: usize| i as int) == resolver_positions(
                        old(reg).resolvers@,
                        keys@,
                    ) && (forall|k: int| 0 <= k < resolvers@.len() ==> resolvers@[k] < old(reg).resolvers@.len())
                    && candidates_match(
                        candidates@,
                        old(reg).subscriptions@,
                        ev.kind.0@,
                        old(reg).resolvers@,
                        resolver_positions(old(reg).resolvers@, keys@),
                    ),
            }
        },
{
    let (event, descriptor) = match reg.event_queue.pop_front() {
        Some(x) => x,
        None => return None,
    };
    let ghost subs = reg.subscriptions@;
    let ghost kind = event.kind.0@;
    proof {
        lemma_matching_positions(subs, kind);
    }
    match descriptor {
        DispatchDescriptor::Broadcast => {
            let mut targets: Vec<(H, PluginId)> = Vec::new();
            let mut i: usize = 0;
            while i < reg.subscriptions.len()
                invariant
                    i <= subs.len(),
                    subs == reg.subscriptions@,
                    kind == event.kind.0@,
                    targets@ == targets_of(subs.subrange(0, i as int), kind),
                decreases subs.len() - i,
            {
                proof {
                    assert(subs.subrange(0, i + 1).drop_last() =~= subs.subrange(0, i as int));
                }
                match &reg.subscriptions[i] {
                    Some(s) => {
                        if s.kind.0 == event.kind.0 {
                            let ghost before = targets@;
                            targets.push((s.handler, s.plugin_id));
                            proof {
                                let sub = subs.subrange(0, i + 1);
                                assert(subscribed_at(sub, kind, i as int));
                                let ps = matching_positions(sub.drop_last(), kind);
                                lemma_matching_positions(sub.drop_last(), kind);
                                assert forall|c: int| 0 <= c < ps.len() implies sub[ps[c]] == sub.drop_last()[ps[c]] by {
                                    assert(subscribed_at(sub.drop_last(), kind, ps[c]));
                                }
                                assert(targets@ =~= targets_of(sub, kind));
                            }
                        } else {
                            proof {
                                let sub = subs.subrange(0, i + 1);
                                let ps = matching_positions(sub.drop_last(), kind);
                                lemma_matching_positions(sub.drop_last(), kind);
                                assert forall|c: int| 0 <= c < ps.len() implies sub[ps[c]] == sub.drop_last()[ps[c]] by {
                                    assert(subscribed_at(sub.drop_last(), kind, ps[c]));
                                }
                                assert(targets@ =~= targets_of(sub, kind));
                            }
                        }
                    },
                    None => {
                        proof {
                            let sub = subs.subrange(0, i + 1);
                            let ps = matching_positions(sub.drop_last(), kind);
                            lemma_matching_positions(sub.drop_last(), kind);
                            assert forall|c: int| 0 <= c < ps.len() implies sub[ps[c]] == sub.drop_last()[ps[c]] by {
                                assert(subscribed_at(sub.drop_last(), kind, ps[c]));
                            }
                            assert(targets@ =~= targets_of(sub, kind));
                        }
                    },
                }
                i = i + 1;
            }
            assert(subs.subrange(0, subs.len() as int) =~= subs);
            Some(DispatchPlan::Broadcast { event, targets })
        },
        DispatchDescriptor::Consumable(sort_keys) => {
            let resolvers = plan_resolvers(&reg.resolvers, &sort_keys);
            let ghost positions = resolver_positions(reg.resolvers@, sort_keys@);
            let mut candidates: Vec<Candidate<H>> = Vec::new();
            let mut i: usize = 0;
            while i < reg.subscriptions.len()
                invariant
                    i <= subs.len(),
                    subs == reg.subscriptions@,
                    kind == event.kind.0@,
                    resolvers@.map_values(|i: usize| i as int) == positions,
                    forall|k: int| 0 <= k < resolvers@.len() ==> resolvers@[k] < reg.resolvers@.len(),
                    candidates_match(candidates@, subs.subrange(0, i as int), kind, reg.resolvers@, positions),
                decreases subs.len() - i,
            {
                let ghost sub = subs.subrange(0, i + 1);
                proof {
                    assert(sub.drop_last() =~= subs.subrange(0, i as int));
                    lemma_matching_positions(sub.drop_last(), kind);
                    let ps = matching_positions(sub.drop_last(), kind);
                    assert forall|c: int| 0 <= c < ps.len() implies sub[ps[c]] == sub.drop_last()[ps[c]] by {
                        assert(subscribed_at(sub.drop_last(), kind, ps[c]));
                    }
                }
                match &reg.subscriptions[i] {
                    Some(s) => {
                        if s.kind.0 == event.kind.0 {
                            let mut props: Vec<Option<Value>> = Vec::new();
                            let mut k: usize = 0;
                            while k < resolvers.len()
                                invariant
                                    k <= resolvers@.len(),
                                    resolvers@.map_values(|i: usize| i as int) == positions,
                                    forall|k: int| 0 <= k < resolvers@.len() ==> resolvers@[k] < reg.resolvers@.len(),
                                    props@.len() == k,
                                    forall|j: int|
                                        0 <= j < k ==> opt_model(#[trigger] props@[j]) == property_model(
                                            s.properties@,
                                            reg.resolvers@[positions[j]].1.0@,
                                        ),
                                decreases resolvers@.len() - k,
                            {
                                assert(positions[k as int] == resolvers@[k as int] as int);
                                let p = read_property(&s.properties, reg.resolvers[resolvers[k]].1.0.as_str());
                                props.push(p);
                                k = k + 1;
                            }
                            let ghost before = candidates@;
                            candidates.push(Candidate { handler: s.handler, plugin_id: s.plugin_id, properties: props });
                            proof {
                                assert(subscribed_at(sub, kind, i as int));
                                let ps = matching_positions(sub, kind);
                                assert(ps == matching_positions(sub.drop_last(), kind).push(i as int));
                                assert forall|c: int| #![trigger candidates@[c]] 0 <= c < candidates@.len() implies {
                                    let s2 = sub[ps[c]]->0;
                                    &&& candidates@[c].handler == s2.handler
                                    &&& candidates@[c].plugin_id == s2.plugin_id
                                    &&& candidates@[c].properties@.len() == positions.len()
                                    &&& forall|k: int|
                                        0 <= k < positions.len() ==> opt_model(#[trigger] candidates@[c].properties@[k])
                                            == property_model(s2.properties@, reg.resolvers@[positions[k]].1.0@)
                                } by {
                                    if c < before.len() {
                                        assert(candidates@[c] == before[c]);
                                    }
                                }
                            }
                        }
                    },
                    None => {},
                }
                i = i + 1;
            }
            assert(subs.subrange(0, subs.len() as int) =~= subs);
            Some(DispatchPlan::Consumable { event, resolvers, candidates })
        },
    }
}

/// The handler and plugin of each candidate.
pub open spec fn candidate_targets<H>(candidates: Seq<Candidate<H>>) -> Seq<(H, PluginId)> {
    candidates.map_values(|c: Candidate<H>| (c.handler, c.plugin_id))
}

/// Orders the candidates of a consumable event by their priority keys: larger
/// keys first, candidates with equal keys in order of subscription.
pub fn order_candidates<H: Copy>(candidates: &Vec<Candidate<H>>, keys: &Vec<Vec<i64>>) -> (r: Vec<(H, PluginId)>)
    requires
        candidates@.len() == keys@.len(),
    ensures
        exists|order: Seq<usize>|
            is_stable_order(keys@.map_values(|k: Vec<i64>| k@), order) && r@ == permute(
                candidate_targets(candidates@),
                order,
            ),
{
    let mut targets: Vec<(H, PluginId)> = Vec::new();
    let mut i: usize = 0;
    while i < candidates.len()
        invariant
            i <= candidates@.len(),
            targets@ =~= candidate_targets(candidates@).subrange(0, i as int),
        decreases candidates@.len() - i,
    {
        targets.push((candidates[i].handler, candidates[i].plugin_id));
        i = i + 1;
    }
    assert(targets@ =~= candidate_targets(candidates@));
    order_by_keys(&targets, keys)
}

/// Whether delivery of an event goes on after a subscriber's answer: a
/// broadcast reaches everyone, a consumable event stops once handled.
pub fn keeps_delivering(consumable: bool, result: EventResult) -> (r: bool)
    ensures
        r == (!consumable || result == EventResult::Propagate),
{
    match result {
        EventResult::Propagate => true,
        EventResult::Handled => !consumable,
    }
}

/// `new` is `old` with events and commands queued after those it had, and
/// with the same subscriptions, resolvers, commands and services. The editor
/// may stop; once stopped, it stays stopped.
pub open spec fn only_queued<H, S, C, R>(old: Registry<H, S, C, R>, new: Registry<H, S, C, R>) -> bool {
    &&& old.event_queue@.len() <= new.event_queue@.len()
    &&& new.event_queue@.take(old.event_queue@.len() as int) == old.event_queue@
    &&& old.command_queue@.len() <= new.command_queue@.len()
    &&& new.command_queue@.take(old.command_queue@.len() as int) == old.command_queue@
    &&& new.subscriptions@ == old.subscriptions@
    &&& new.resolvers@ == old.resolvers@
    &&& new.commands@ == old.commands@
    &&& new.services@ == old.services@
    &&& !old.spec_running() ==> !new.spec_running()
}

proof fn lemma_only_queued_trans<H, S, C, R>(a: Registry<H, S, C, R>, b: Registry<H, S, C, R>, c: Registry<H, S, C, R>)
    requires
        only_queued(a, b),
        only_queued(b, c),
    ensures
        only_queued(a, c),
{
    assert(c.event_queue@.take(a.event_queue@.len() as int) =~= b.event_queue@.take(
        a.event_queue@.len() as int,
    ));
    assert(c.command_queue@.take(a.command_queue@.len() as int) =~= b.command_queue@.take(
        a.command_queue@.len() as int,
    ));
}

/// Logs written in two steps: what the second step wrote follows what the
/// first did.
proof fn lemma_log_chain<T>(a: Seq<T>, b: Seq<T>, c: Seq<T>)
    requires
        is_prefix(a, b),
        is_prefix(b, c),
    ensures
        is_prefix(a, c),
        logged_since(a, c) == logged_since(a, b) + logged_since(b, c),
{
    assert(c.take(a.len() as int) =~= b.take(a.len() as int));
    assert forall|i: int| a.len() <= i < b.len() implies #[trigger] c[i] == b[i] by {
        assert(c.take(b.len() as int)[i] == c[i]);
    }
    assert(logged_since(a, c) =~= logged_since(a, b) + logged_since(b, c));
}

/// An optional borrowed value, owned.
pub open spec fn opt_owned(v: Option<&Value>) -> Option<Value> {
    match v {
        Some(v) => Some(*v),
        None => None,
    }
}

/// The part of a log written after it held `old`.
pub open spec fn logged_since<T>(old: Seq<T>, new: Seq<T>) -> Seq<T> {
    new.skip(old.len() as int)
}

/// What runs the plugins for the bus: the subscribers' handlers, the
/// priority resolvers and the commands. It keeps the handlers it ran, with
/// the payload each got and its answer, the commands it ran, and the events
/// that they queued, oldest first. Handlers and commands may queue events and
/// commands; they change no table of the bus, and a command queues no
/// command.
pub trait Deliver<H, S, C, R> {
    /// The handlers run so far, each with its plugin, its payload and its
    /// answer.
    spec fn delivered(&self) -> Vec<(H, PluginId, Value, EventResult)>;

    /// The events that the handlers and commands run so far queued, in the
    /// order in which they were queued.
    spec fn queued(&self) -> Vec<(Event, DispatchDescriptor)>;

    /// The commands run so far, each with its arguments.
    spec fn commands_run(&self) -> Vec<(C, Vec<String>)>;

    /// The command calls that the handlers run so far queued, in the order
    /// in which they were queued.
    spec fn commands_queued(&self) -> Vec<(String, Vec<String>)>;

    /// What a resolver gives for a subscriber's property.
    spec fn resolved(&self, resolver: R, property: Option<Value>) -> i64;

    fn deliver(
        &mut self,
        reg: &mut Registry<H, S, C, R>,
        handler: H,
        plugin_id: PluginId,
        data: &Value,
    ) -> (r: EventResult)
        ensures
            final(self).delivered()@ == old(self).delivered()@.push((handler, plugin_id, *data, r)),
            final(self).commands_run()@ == old(self).commands_run()@,
            is_prefix(old(self).queued()@, final(self).queued()@),
            final(reg).event_queue@ == old(reg).event_queue@ + logged_since(old(self).queued()@, final(self).queued()@),
            is_prefix(old(self).commands_queued()@, final(self).commands_queued()@),
            final(reg).command_queue@ == old(reg).command_queue@ + logged_since(
                old(self).commands_queued()@,
                final(self).commands_queued()@,
            ),
            only_queued(*old(reg), *final(reg)),
    ;

    fn resolve(&self, resolver: R, property: Option<&Value>) -> (k: i64)
        ensures
            k == self.resolved(resolver, opt_owned(property)),
    ;

    fn run_command(&mut self, reg: &mut Registry<H, S, C, R>, command: C, args: &Vec<String>)
        ensures
            final(self).commands_run()@ == old(self).commands_run()@.push((command, *args)),
            final(self).delivered()@ == old(self).delivered()@,
            is_prefix(old(self).queued()@, final(self).queued()@),
            final(reg).event_queue@ == old(reg).event_queue@ + logged_since(old(self).queued()@, final(self).queued()@),
            only_queued(*old(reg), *final(reg)),
            final(reg).command_queue@ == old(reg).command_queue@,
            final(self).commands_queued()@ == old(self).commands_queued()@,
    ;
}

/// The handlers reached, with their answers, when the first
/// `answers.len()` targets answer `answers`.
pub open spec fn trace<H>(targets: Seq<(H, PluginId)>, data: Value, answers: Seq<EventResult>) -> Seq<(H, PluginId, Value, EventResult)> {
    Seq::new(answers.len(), |i: int| (targets[i].0, targets[i].1, data, answers[i]))
}

/// Delivers a payload to the targets in order and gives their answers, one
/// per target reached: a broadcast reaches every target; a consumable event
/// goes on only while the targets pass it on, and stops at the first that
/// handles it. Target `i` receives the payload `i`-th and gives answer `i`.
pub fn deliver_in_order<H: Copy, S, C, R, D: Deliver<H, S, C, R>>(
    d: &mut D,
    reg: &mut Registry<H, S, C, R>,
    targets: &Vec<(H, PluginId)>,
    data: &Value,
    consumable: bool,
) -> (answers: Vec<EventResult>)
    ensures
        answers@.len() <= targets@.len(),
        !consumable ==> answers@.len() == targets@.len(),
        consumable ==> forall|i: int| 0 <= i < answers@.len() - 1 ==> #[trigger] answers@[i] == EventResult::Propagate,
        consumable && answers@.len() < targets@.len() ==> answers@.len() > 0 && answers@.last() == EventResult::Handled,
        final(d).delivered()@ == old(d).delivered()@ + trace(targets@, *data, answers@),
        final(d).commands_run()@ == old(d).commands_run()@,
        is_prefix(old(d).queued()@, final(d).queued()@),
        final(reg).event_queue@ == old(reg).event_queue@ + logged_since(old(d).queued()@, final(d).queued()@),
        is_prefix(old(d).commands_queued()@, final(d).commands_queued()@),
        final(reg).command_queue@ == old(reg).command_queue@ + logged_since(
            old(d).commands_queued()@,
            final(d).commands_queued()@,
        ),
        only_queued(*old(reg), *final(reg)),
{
    let mut answers: Vec<EventResult> = Vec::new();
    let mut i: usize = 0;
    proof {
        let q = old(d).queued()@;
        assert(q.take(q.len() as int) =~= q);
        assert(old(reg).event_queue@ + logged_since(q, q) =~= old(reg).event_queue@);
        let cq = old(d).commands_queued()@;
        assert(cq.take(cq.len() as int) =~= cq);
        assert(old(reg).command_queue@ + logged_since(cq, cq) =~= old(reg).command_queue@);
    }
    assert(old(reg).event_queue@.take(old(reg).event_queue@.len() as int) =~= old(reg).event_queue@);
    assert(old(reg).command_queue@.take(old(reg).command_queue@.len() as int) =~= old(reg).command_queue@);
    assert(trace(targets@, *data, answers@) =~= Seq::<(H, PluginId, Value, EventResult)>::empty());
    while i < targets.len()
        invariant_except_break
            i <= targets@.len(),
            answers@.len() == i,
            consumable ==> forall|j: int| 0 <= j < answers@.len() ==> #[trigger] answers@[j] == EventResult::Propagate,
            d.delivered()@ == old(d).delivered()@ + trace(targets@, *data, answers@),
            d.commands_run()@ == old(d).commands_run()@,
            is_prefix(old(d).queued()@, d.queued()@),
            reg.event_queue@ == old(reg).event_queue@ + logged_since(old(d).queued()@, d.queued()@),
            is_prefix(old(d).commands_queued()@, d.commands_queued()@),
            reg.command_queue@ == old(reg).command_queue@ + logged_since(old(d).commands_queued()@, d.commands_queued()@),
            only_queued(*old(reg), *reg),
        ensures
            answers@.len() <= targets@.len(),
            !consumable ==> answers@.len() == targets@.len(),
            consumable ==> forall|j: int| 0 <= j < answers@.len() - 1 ==> #[trigger] answers@[j] == EventResult::Propagate,
            consumable && answers@.len() < targets@.len() ==> answers@.len() > 0 && answers@.last() == EventResult::Handled,
            d.delivered()@ == old(d).delivered()@ + trace(targets@, *data, answers@),
            d.commands_run()@ == old(d).commands_run()@,
            is_prefix(old(d).queued()@, d.queued()@),
            reg.event_queue@ == old(reg).event_queue@ + logged_since(old(d).queued()@, d.queued()@),
            is_prefix(old(d).commands_queued()@, d.commands_queued()@),
            reg.command_queue@ == old(reg).command_queue@ + logged_since(old(d).commands_queued()@, d.commands_queued()@),
            only_queued(*old(reg), *reg),
        decreases targets@.len() - i,
    {
        let (handler, plugin_id) = targets[i];
        let ghost r0 = *reg;
        let ghost a0 = answers@;
        let ghost q0 = d.queued()@;
        let ghost c0 = d.commands_queued()@;
        let answer = d.deliver(reg, handler, plugin_id, data);
        answers.push(answer);
        proof {
            lemma_log_chain(old(d).queued()@, q0, d.queued()@);
            lemma_log_chain(old(d).commands_queued()@, c0, d.commands_queued()@);
            lemma_only_queued_trans(*old(reg), r0, *reg);
            assert(trace(targets@, *data, answers@) =~= trace(targets@, *data, a0).push((handler, plugin_id, *data, answer)));
        }
        i = i + 1;
        if !keeps_delivering(consumable, answer) {
            break;
        }
    }
    answers
}

/// The registered commands among the queued ones, first in first, each with
/// its arguments; a name without a command is dropped.
pub open spec fn commands_of<C>(queue: Seq<(String, Vec<String>)>, commands: Seq<(String, C)>) -> Seq<
    (C, Vec<String>),
>
    decreases queue.len(),
{
    if queue.len() == 0 {
        Seq::empty()
    } else {
        let rest = commands_of(queue.drop_last(), commands);
        let name = queue.last().0@;
        if assoc_view(commands).dom().contains(name) {
            rest.push((assoc_view(commands)[name], queue.last().1))
        } else {
            rest
        }
    }
}

/// The tables of the bus are the same in `old` and `new`.
pub open spec fn same_tables<H, S, C, R>(old: Registry<H, S, C, R>, new: Registry<H, S, C, R>) -> bool {
    &&& new.subscriptions@ == old.subscriptions@
    &&& new.resolvers@ == old.resolvers@
    &&& new.commands@ == old.commands@
    &&& new.services@ == old.services@
}

/// `a` is `b`'s first part.
pub open spec fn is_prefix<T>(a: Seq<T>, b: Seq<T>) -> bool {
    a.len() <= b.len() && b.take(a.len() as int) == a
}

/// Runs the queued commands first in, first out, until none is left; a name
/// without a command is dropped.
pub fn run_commands<H, S, C: Copy, R, D: Deliver<H, S, C, R>>(reg: &mut Registry<H, S, C, R>, d: &mut D)
    requires
        old(reg).wf(),
    ensures
        final(reg).wf(),
        same_tables(*old(reg), *final(reg)),
        final(reg).command_queue@.len() == 0,
        is_prefix(old(d).queued()@, final(d).queued()@),
        final(reg).event_queue@ == old(reg).event_queue@ + logged_since(old(d).queued()@, final(d).queued()@),
        final(d).commands_run()@ == old(d).commands_run()@ + commands_of(old(reg).command_queue@, old(reg).commands@),
        final(d).delivered()@ == old(d).delivered()@,
        final(d).commands_queued()@ == old(d).commands_queued()@,
        !old(reg).spec_running() ==> !final(reg).spec_running(),
{
    let ghost q0 = reg.command_queue@;
    let ghost mut j: int = 0;
    proof {
        let q = old(d).queued()@;
        assert(q.take(q.len() as int) =~= q);
        assert(old(reg).event_queue@ + logged_since(q, q) =~= old(reg).event_queue@);
    }
    assert(old(reg).event_queue@.take(old(reg).event_queue@.len() as int) =~= old(reg).event_queue@);
    assert(q0.skip(0) =~= q0);
    assert(q0.take(0) =~= Seq::<(String, Vec<String>)>::empty());
    loop
        invariant
            0 <= j <= q0.len(),
            reg.command_queue@ == q0.skip(j),
            reg.wf(),
            same_tables(*old(reg), *reg),
            is_prefix(old(d).queued()@, d.queued()@),
            reg.event_queue@ == old(reg).event_queue@ + logged_since(old(d).queued()@, d.queued()@),
            d.commands_run()@ == old(d).commands_run()@ + commands_of(q0.take(j), old(reg).commands@),
            d.delivered()@ == old(d).delivered()@,
            d.commands_queued()@ == old(d).commands_queued()@,
            !old(reg).spec_running() ==> !reg.spec_running(),
        ensures
            reg.command_queue@.len() == 0,
            j == q0.len(),
        decreases reg.command_queue@.len(),
    {
        let next = pop_command(reg);
        let (name, args) = match next {
            Some(x) => x,
            None => {
                break;
            },
        };
        proof {
            assert(q0.skip(j)[0] == q0[j]);
            assert(q0.skip(j).drop_first() =~= q0.skip(j + 1));
            assert(q0.take(j + 1).drop_last() =~= q0.take(j));
            assert(q0.take(j + 1).last() == q0[j]);
        }
        let command = match lookup_command(reg, name.as_str()) {
            Some(c) => Some(*c),
            None => None,
        };
        match command {
            Some(c) => {
                let ghost q1 = d.queued()@;
                d.run_command(reg, c, &args);
                proof {
                    lemma_log_chain(old(d).queued()@, q1, d.queued()@);
                }
            },
            None => {},
        }
        proof {
            j = j + 1;
        }
    }
}

/// What resolver `k` of a consumable event's sort keys gives candidate `i`.
pub open spec fn key_values<H, S, C, R, D: Deliver<H, S, C, R>>(
    d: D,
    resolvers: Seq<(String, (String, R))>,
    positions: Seq<int>,
    candidates: Seq<Candidate<H>>,
) -> Seq<Seq<i64>> {
    Seq::new(
        candidates.len(),
        |i: int|
            Seq::new(
                positions.len(),
                |k: int| d.resolved(resolvers[positions[k]].1.1, candidates[i].properties@[k]),
            ),
    )
}

/// The priority keys of the candidates, from the resolvers at the given
/// positions of the resolver table.
fn resolve_keys<H, S, C, R: Copy, D: Deliver<H, S, C, R>>(
    d: &D,
    reg: &Registry<H, S, C, R>,
    positions: &Vec<usize>,
    candidates: &Vec<Candidate<H>>,
) -> (keys: Vec<Vec<i64>>)
    requires
        forall|k: int| 0 <= k < positions@.len() ==> positions@[k] < reg.resolvers@.len(),
        forall|i: int| 0 <= i < candidates@.len() ==> (#[trigger] candidates@[i]).properties@.len() == positions@.len(),
    ensures
        keys@.map_values(|k: Vec<i64>| k@) == key_values(
            *d,
            reg.resolvers@,
            positions@.map_values(|p: usize| p as int),
            candidates@,
        ),
{
    let ghost ps = positions@.map_values(|p: usize| p as int);
    let ghost want = key_values(*d, reg.resolvers@, ps, candidates@);
    let mut keys: Vec<Vec<i64>> = Vec::new();
    let mut i: usize = 0;
    while i < candidates.len()
        invariant
            i <= candidates@.len(),
            keys@.len() == i,
            forall|j: int| 0 <= j < i ==> (#[trigger] keys@[j])@ == want[j],
            ps == positions@.map_values(|p: usize| p as int),
            want == key_values(*d, reg.resolvers@, ps, candidates@),
            forall|k: int| 0 <= k < positions@.len() ==> positions@[k] < reg.resolvers@.len(),
            forall|c: int| 0 <= c < candidates@.len() ==> (#[trigger] candidates@[c]).properties@.len() == positions@.len(),
        decreases candidates@.len() - i,
    {
        let mut key: Vec<i64> = Vec::new();
        let mut k: usize = 0;
        assert(candidates@[i as int].properties@.len() == positions@.len());
        while k < positions.len()
            invariant
                i < candidates@.len(),
                k <= positions@.len(),
                key@.len() == k,
                candidates@[i as int].properties@.len() == positions@.len(),
                ps == positions@.map_values(|p: usize| p as int),
                want == key_values(*d, reg.resolvers@, ps, candidates@),
                want[i as int].len() == positions@.len(),
                forall|q: int| 0 <= q < positions@.len() ==> positions@[q] < reg.resolvers@.len(),
                forall|m: int| 0 <= m < k ==> #[trigger] key@[m] == want[i as int][m],
            decreases positions@.len() - k,
        {
            let resolver = reg.resolvers[positions[k]].1.1;
            let v = d.resolve(resolver, candidates[i].properties[k].as_ref());
            assert(ps[k as int] == positions@[k as int] as int);
            key.push(v);
            k = k + 1;
        }
        assert(key@ =~= want[i as int]);
        keys.push(key);
        i = i + 1;
    }
    assert(keys@.map_values(|k: Vec<i64>| k@) =~= want);
    keys
}

/// The handlers and plugins reached, without their answers.
pub open spec fn reached_targets<H>(reached: Seq<(H, PluginId, Value, EventResult)>) -> Seq<(H, PluginId)> {
    reached.map_values(|x: (H, PluginId, Value, EventResult)| (x.0, x.1))
}

/// `reached` is a delivery in order to `targets` that goes on only while
/// the targets pass the event on: every target but the last reached passed
/// it on, and the delivery stops short of the end only at a target that
/// handled it.
pub open spec fn delivered_until_handled<H>(reached: Seq<(H, PluginId, Value, EventResult)>, targets: Seq<(H, PluginId)>) -> bool {
    &&& reached.len() <= targets.len()
    &&& reached_targets(reached) == targets.take(reached.len() as int)
    &&& forall|i: int| 0 <= i < reached.len() - 1 ==> (#[trigger] reached[i]).3 == EventResult::Propagate
    &&& reached.len() < targets.len() ==> reached.len() > 0 && reached.last().3 == EventResult::Handled
}

/// How the first queued event of `reg` was delivered, `reached` being the
/// handlers run with their answers and `d` the runner before: a broadcast
/// goes to every live subscription of its kind, in subscription order; a
/// consumable event goes to them sorted by the keys that the resolvers of
/// its sort keys give them, larger first and in subscription order among
/// equals, until one handles it.
pub open spec fn delivery_of<H, S, C, R, D: Deliver<H, S, C, R>>(
    reg: Registry<H, S, C, R>,
    d: D,
    reached: Seq<(H, PluginId, Value, EventResult)>,
) -> bool {
    let (ev, desc) = reg.event_queue@[0];
    let kind = ev.kind.0@;
    &&& forall|i: int| 0 <= i < reached.len() ==> (#[trigger] reached[i]).2 == ev.data
    &&& match desc {
        DispatchDescriptor::Broadcast => reached_targets(reached) == targets_of(reg.subscriptions@, kind),
        DispatchDescriptor::Consumable(keys) => {
            let positions = resolver_positions(reg.resolvers@, keys@);
            exists|candidates: Seq<Candidate<H>>, order: Seq<usize>|
                {
                    &&& candidates_match(candidates, reg.subscriptions@, kind, reg.resolvers@, positions)
                    &&& is_stable_order(key_values(d, reg.resolvers@, positions, candidates), order)
                    &&& delivered_until_handled(reached, permute(candidate_targets(candidates), order))
                }
        },
    }
}

/// Delivers the next queued event, then runs the queued commands; false,
/// with nothing done, when no event is queued. Only the first event is
/// delivered (see `delivery_of`); the other queued events stay first in the
/// queue, followed by those that the handlers and the commands queue. The
/// commands queued before and during the delivery then run first in, first
/// out, and the command queue ends empty.
pub fn dispatch_next<H: Copy, S, C: Copy, R: Copy, D: Deliver<H, S, C, R>>(
    reg: &mut Registry<H, S, C, R>,
    d: &mut D,
) -> (r: bool)
    requires
        old(reg).wf(),
    ensures
        final(reg).wf(),
        r == (old(reg).event_queue@.len() > 0),
        !r ==> same_tables(*old(reg), *final(reg)) && final(reg).event_queue@ == old(reg).event_queue@
            && final(reg).command_queue@ == old(reg).command_queue@ && final(reg).spec_running() == old(reg).spec_running()
            && final(d).delivered()@ == old(d).delivered()@ && final(d).commands_run()@ == old(d).commands_run()@
            && final(d).queued()@ == old(d).queued()@ && final(d).commands_queued()@ == old(
            d,
        ).commands_queued()@,
        r ==> is_prefix(old(d).delivered()@, final(d).delivered()@),
        r ==> delivery_of(*old(reg), *old(d), final(d).delivered()@.skip(old(d).delivered()@.len() as int)),
        r ==> is_prefix(old(d).queued()@, final(d).queued()@),
        r ==> final(reg).event_queue@ == old(reg).event_queue@.drop_first() + logged_since(
            old(d).queued()@,
            final(d).queued()@,
        ),
        r ==> same_tables(*old(reg), *final(reg)),
        r ==> final(reg).command_queue@.len() == 0,
        !old(reg).spec_running() ==> !final(reg).spec_running(),
        r ==> is_prefix(old(d).commands_queued()@, final(d).commands_queued()@),
        r ==> final(d).commands_run()@ == old(d).commands_run()@ + commands_of(
            old(reg).command_queue@ + logged_since(old(d).commands_queued()@, final(d).commands_queued()@),
            old(reg).commands@,
        ),
{
    let ghost d0 = *d;
    let ghost reg0 = *reg;
    let plan = match plan_next(reg) {
        Some(p) => p,
        None => return false,
    };
    let ghost reg1 = *reg;
    let ghost n = d0.delivered()@.len();
    let answers = match plan {
        DispatchPlan::Broadcast { event, targets } => {
            let answers = deliver_in_order(d, reg, &targets, &event.data, false);
            proof {
                assert(d.delivered()@.skip(n as int) =~= trace(targets@, event.data, answers@));
                assert(reached_targets(trace(targets@, event.data, answers@)) =~= targets@);
            }
            answers
        },
        DispatchPlan::Consumable { event, resolvers, candidates } => {
            let keys = resolve_keys(d, reg, &resolvers, &candidates);
            assert(keys@.len() == keys@.map_values(|k: Vec<i64>| k@).len());
            let targets = order_candidates(&candidates, &keys);
            let answers = deliver_in_order(d, reg, &targets, &event.data, true);
            proof {
                let (ev, desc) = reg0.event_queue@[0];
                let keys_spec = desc->Consumable_0;
                let positions = resolver_positions(reg0.resolvers@, keys_spec@);
                let reached = d.delivered()@.skip(n as int);
                assert(reached =~= trace(targets@, event.data, answers@));
                let order = choose|order: Seq<usize>|
                    is_stable_order(keys@.map_values(|k: Vec<i64>| k@), order) && targets@ == permute(
                        candidate_targets(candidates@),
                        order,
                    );
                assert(resolvers@.map_values(|p: usize| p as int) == positions);
                assert(reached_targets(reached) =~= targets@.take(reached.len() as int));
                assert(delivered_until_handled(reached, permute(candidate_targets(candidates@), order)));
                assert(candidates_match(candidates@, reg0.subscriptions@, ev.kind.0@, reg0.resolvers@, positions));
            }
            answers
        },
    };
    let ghost reg2 = *reg;
    let ghost d2 = *d;
    run_commands(reg, d);
    proof {
        lemma_log_chain(d0.queued()@, d2.queued()@, d.queued()@);
        assert(reg2.command_queue@ =~= reg0.command_queue@ + logged_since(d0.commands_queued()@, d.commands_queued()@));
        assert(reg.event_queue@ =~= reg0.event_queue@.drop_first() + logged_since(d0.queued()@, d.queued()@));
        assert(d.delivered()@ =~= d2.delivered()@);
        assert(d2.delivered()@.take(n as int) =~= d0.delivered()@);
        assert(d.delivered()@.skip(n as int) == d2.delivered()@.skip(n as int));
        assert(reg.event_queue@.take(reg1.event_queue@.len() as int) =~= reg2.event_queue@.take(
            reg1.event_queue@.len() as int,
        ));
        assert(reg1.event_queue@ == reg0.event_queue@.drop_first());
        assert(reg1.command_queue@ == reg0.command_queue@);
        assert(is_prefix(reg0.command_queue@, reg2.command_queue@));
        assert(d.commands_run()@ == d0.commands_run()@ + commands_of(reg2.command_queue@, reg0.commands@));
    }
    true
}

/// A cancelled subscription is not among the receivers of any later event.
pub proof fn law_unsubscribed_receives_nothing<H>(
    subs: Seq<Option<Subscription<H>>>,
    id: SubscriptionId,
    kind: Seq<char>,
)
    requires
        id.0 < subs.len(),
    ensures
        !matching_positions(subs.update(id.0 as int, None), kind).contains(id.0 as int),
{
    let s2 = subs.update(id.0 as int, None);
    lemma_matching_positions(s2, kind);
    if matching_positions(s2, kind).contains(id.0 as int) {
        let c = choose|c: int| 0 <= c < matching_positions(s2, kind).len() && matching_positions(s2, kind)[c] == id.0 as int;
        assert(subscribed_at(s2, kind, id.0 as int));
    }
}

/// A new subscription receives the events of its kind, after every earlier
/// subscriber of that kind.
pub proof fn law_subscriber_receives_last<H>(subs: Seq<Option<Subscription<H>>>, s: Subscription<H>)
    ensures
        matching_positions(subs.push(Some(s)), s.kind.0@) == matching_positions(subs, s.kind.0@).push(
            subs.len() as int,
        ),
{
    assert(subs.push(Some(s)).drop_last() =~= subs);
    assert(subscribed_at(subs.push(Some(s)), s.kind.0@, subs.len() as int));
}

/// Events leave the queue in the order in which they were emitted: emitting
/// keeps the event at the head, and the emitted event comes after all the
/// others.
pub proof fn law_events_in_emit_order<X>(queue: Seq<X>, e: X)
    ensures
        queue.push(e)[queue.len() as int] == e,
        queue.len() == 0 ==> queue.push(e)[0] == e && queue.push(e).drop_first() =~= queue,
        queue.len() > 0 ==> queue.push(e)[0] == queue[0] && queue.push(e).drop_first() =~= queue.drop_first().push(e),
{
}

/// The commands of a queue's front run first: what a prefix of the queue
/// runs is a prefix of what the whole queue runs.
proof fn lemma_commands_of_prefix<C>(a: Seq<(String, Vec<String>)>, b: Seq<(String, Vec<String>)>, commands: Seq<(String, C)>)
    requires
        is_prefix(a, b),
    ensures
        is_prefix(commands_of(a, commands), commands_of(b, commands)),
    decreases b.len(),
{
    if a.len() < b.len() {
        assert(b.drop_last().take(a.len() as int) =~= b.take(a.len() as int));
        lemma_commands_of_prefix(a, b.drop_last(), commands);
        let x = commands_of(a, commands);
        let y = commands_of(b.drop_last(), commands);
        let name = b.last().0@;
        if assoc_view(commands).dom().contains(name) {
            let z = (assoc_view(commands)[name], b.last().1);
            assert(commands_of(b, commands) == y.push(z));
            assert(y.push(z).take(x.len() as int) =~= y.take(x.len() as int));
        }
    } else {
        assert(b.take(a.len() as int) =~= b);
        assert(a == b);
        assert(commands_of(b, commands).take(commands_of(a, commands).len() as int) =~= commands_of(b, commands));
    }
}

/// A command queued with `execute_command` runs in the next dispatch that
/// delivers an event, after every command queued before it, with the
/// arguments it was queued with; a name without a command runs nothing.
/// Here `q` is the queue that the dispatch ran (see `dispatch_next`), which
/// starts with the queue that `execute_command` left.
pub proof fn law_queued_command_runs_next<H, S, C, R>(
    reg0: Registry<H, S, C, R>,
    reg1: Registry<H, S, C, R>,
    name: Seq<char>,
    args: Seq<Seq<char>>,
    q: Seq<(String, Vec<String>)>,
)
    requires
        command_queued(reg0, reg1, name, args),
        is_prefix(reg1.command_queue@, q),
    ensures
        is_prefix(
            commands_of(reg0.command_queue@, reg0.commands@) + if assoc_view(reg0.commands@).dom().contains(name) {
                seq![(assoc_view(reg0.commands@)[name], reg1.command_queue@.last().1)]
            } else {
                Seq::empty()
            },
            commands_of(q, reg1.commands@),
        ),
        reg1.command_queue@.last().1@.map_values(|a: String| a@) == args,
{
    lemma_commands_of_prefix(reg1.command_queue@, q, reg1.commands@);
    let before = commands_of(reg0.command_queue@, reg0.commands@);
    if assoc_view(reg0.commands@).dom().contains(name) {
        assert(before + seq![(assoc_view(reg0.commands@)[name], reg1.command_queue@.last().1)] =~= before.push(
            (assoc_view(reg0.commands@)[name], reg1.command_queue@.last().1),
        ));
    } else {
        assert(before + Seq::empty() =~= before);
    }
}

} // verus!
