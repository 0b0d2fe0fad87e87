use caelum::event::{
    DispatchDescriptor, Event, EventKind, EventResult, Plugin, PluginId, PropertyKey, SortKey, Subscription,
};
use caelum::registry::{
    deliver_in_order, dispatch_next, pop_event, register_resolver, Deliver, add_plugin, plan_next, emit_event, execute_command, is_running, keeps_delivering,
    park_until_event, pop_command, quit, register_command, subscribe, uninit_plugins, unsubscribe,
    DispatchPlan, Registry,
};
use caelum::value::Value;

type Reg = Registry<u32, (), (), ()>;

fn sub(plugin: usize, kind: &str, handler: u32) -> Subscription<u32> {
    Subscription {
        plugin_id: PluginId(plugin),
        kind: EventKind(kind.to_string()),
        properties: vec![],
        handler,
    }
}

fn event(kind: &str, n: i64) -> Event {
    Event { kind: EventKind(kind.to_string()), data: Value::Int(n) }
}

#[test]
fn broadcast_reaches_every_subscriber_of_the_kind_in_order() {
    let mut reg: Reg = Registry::new();
    subscribe(&mut reg, sub(0, "key", 10));
    subscribe(&mut reg, sub(1, "other", 11));
    subscribe(&mut reg, sub(2, "key", 12));
    emit_event(&mut reg, event("key", 1), DispatchDescriptor::Broadcast);
    match plan_next(&mut reg) {
        Some(DispatchPlan::Broadcast { event, targets }) => {
            assert_eq!(event.data, Value::Int(1));
            assert_eq!(targets, vec![(10, PluginId(0)), (12, PluginId(2))]);
        }
        _ => panic!("expected a broadcast plan"),
    }
    assert!(plan_next(&mut reg).is_none());
}

#[test]
fn unsubscribed_handler_receives_nothing() {
    let mut reg: Reg = Registry::new();
    let id = subscribe(&mut reg, sub(0, "key", 10));
    subscribe(&mut reg, sub(1, "key", 11));
    unsubscribe(&mut reg, id);
    emit_event(&mut reg, event("key", 1), DispatchDescriptor::Broadcast);
    match plan_next(&mut reg) {
        Some(DispatchPlan::Broadcast { targets, .. }) => assert_eq!(targets, vec![(11, PluginId(1))]),
        _ => panic!("expected a broadcast plan"),
    }
}

#[test]
fn events_are_dispatched_in_emit_order() {
    let mut reg: Reg = Registry::new();
    subscribe(&mut reg, sub(0, "a", 1));
    emit_event(&mut reg, event("a", 1), DispatchDescriptor::Broadcast);
    emit_event(&mut reg, event("a", 2), DispatchDescriptor::Broadcast);
    let mut seen = vec![];
    while let Some(plan) = plan_next(&mut reg) {
        if let DispatchPlan::Broadcast { event, .. } = plan {
            seen.push(event.data);
        }
    }
    assert_eq!(seen, vec![Value::Int(1), Value::Int(2)]);
}

#[test]
fn consumable_plan_lists_candidates() {
    let mut reg: Reg = Registry::new();
    subscribe(&mut reg, sub(0, "key", 10));
    emit_event(
        &mut reg,
        event("key", 1),
        DispatchDescriptor::Consumable(vec![SortKey("priority".to_string())]),
    );
    match plan_next(&mut reg) {
        Some(DispatchPlan::Consumable { candidates, resolvers, .. }) => {
            assert_eq!(candidates.len(), 1);
            assert_eq!(candidates[0].handler, 10);
            assert!(resolvers.is_empty());
        }
        _ => panic!("expected a consumable plan"),
    }
}

#[test]
fn consumable_delivery_stops_when_handled() {
    assert!(!keeps_delivering(true, EventResult::Handled));
    assert!(keeps_delivering(true, EventResult::Propagate));
    assert!(keeps_delivering(false, EventResult::Handled));
}

#[test]
fn park_waits_only_on_an_empty_queue() {
    let mut reg: Reg = Registry::new();
    assert!(park_until_event(&reg));
    emit_event(&mut reg, event("a", 1), DispatchDescriptor::Broadcast);
    assert!(!park_until_event(&reg));
}

#[test]
fn quit_stops_the_loop() {
    let mut reg: Reg = Registry::new();
    assert!(is_running(&reg));
    quit(&mut reg);
    assert!(!is_running(&reg));
}

#[test]
fn commands_are_queued_in_order() {
    let mut reg: Reg = Registry::new();
    register_command(&mut reg, "w", ());
    execute_command(&mut reg, "w", &["a".to_string()]);
    execute_command(&mut reg, "q", &[]);
    assert_eq!(pop_command(&mut reg), Some(("w".to_string(), vec!["a".to_string()])));
    assert_eq!(pop_command(&mut reg), Some(("q".to_string(), vec![])));
    assert_eq!(pop_command(&mut reg), None);
}

struct Counter {
    inits: usize,
    uninits: usize,
}

impl Plugin for Counter {
    fn uninits(&self) -> usize {
        self.uninits
    }
    fn init(&mut self, _plugin_id: PluginId) {
        self.inits += 1;
    }
    fn uninit(&mut self) {
        self.uninits += 1;
    }
}

#[test]
fn plugins_get_ids_in_order_and_are_torn_down() {
    let mut plugins: Vec<Counter> = vec![];
    assert_eq!(add_plugin(&mut plugins, Counter { inits: 0, uninits: 0 }), PluginId(0));
    assert_eq!(add_plugin(&mut plugins, Counter { inits: 0, uninits: 0 }), PluginId(1));
    assert_eq!(plugins[1].inits, 1);
    uninit_plugins(&mut plugins);
    assert!(plugins.iter().all(|p| p.uninits == 1));
    assert!(plugins.iter().all(|p| Plugin::uninits(p) == 1));
}

type Bus = Registry<u32, (), u32, u8>;

struct Recorder {
    answers: Vec<(u32, EventResult)>,
    seen: Vec<(u32, PluginId, Value, EventResult)>,
    ran: Vec<(u32, Vec<String>)>,
    emitted: Vec<(Event, DispatchDescriptor)>,
    calls: Vec<(String, Vec<String>)>,
}

impl Recorder {
    fn new(answers: Vec<(u32, EventResult)>) -> Recorder {
        Recorder { answers, seen: vec![], ran: vec![], emitted: vec![], calls: vec![] }
    }

    fn handlers(&self) -> Vec<u32> {
        self.seen.iter().map(|x| x.0).collect()
    }
}

impl Deliver<u32, (), u32, u8> for Recorder {
    fn delivered(&self) -> Vec<(u32, PluginId, Value, EventResult)> {
        self.seen.iter().map(|(h, p, v, a)| (*h, *p, v.deep_clone(), *a)).collect()
    }
    fn commands_queued(&self) -> Vec<(String, Vec<String>)> {
        self.calls.clone()
    }
    fn queued(&self) -> Vec<(Event, DispatchDescriptor)> {
        self.emitted.iter().map(|(e, _)| (e.clone_event(), DispatchDescriptor::Broadcast)).collect()
    }
    fn commands_run(&self) -> Vec<(u32, Vec<String>)> {
        self.ran.clone()
    }
    fn resolved(&self, _resolver: u8, property: Option<Value>) -> i64 {
        match property {
            Some(Value::Int(p)) => p,
            _ => i64::MIN,
        }
    }
    fn deliver(&mut self, reg: &mut Bus, handler: u32, plugin_id: PluginId, data: &Value) -> EventResult {
        let r = self
            .answers
            .iter()
            .find(|(h, _)| *h == handler)
            .map(|(_, r)| *r)
            .unwrap_or(EventResult::Propagate);
        self.seen.push((handler, plugin_id, data.deep_clone(), r));
        if handler == 30 {
            execute_command(reg, "later", &["x".to_string()]);
            self.calls.push(("later".to_string(), vec!["x".to_string()]));
        }
        r
    }
    fn resolve(&self, resolver: u8, property: Option<&Value>) -> i64 {
        self.resolved(resolver, property.cloned())
    }
    fn run_command(&mut self, reg: &mut Bus, command: u32, args: &Vec<String>) {
        self.ran.push((command, args.clone()));
        emit_event(reg, event("after", 0), DispatchDescriptor::Broadcast);
        self.emitted.push((event("after", 0), DispatchDescriptor::Broadcast));
    }
}

#[test]
fn consumable_delivery_stops_at_the_first_handler() {
    let mut r = Recorder::new(vec![(2, EventResult::Handled)]);
    let mut reg: Bus = Registry::new();
    let targets = vec![(1, PluginId(0)), (2, PluginId(1)), (3, PluginId(2))];
    let answers = deliver_in_order(&mut r, &mut reg, &targets, &Value::Null, true);
    assert_eq!(answers, vec![EventResult::Propagate, EventResult::Handled]);
    assert_eq!(r.handlers(), vec![1, 2]);
}

#[test]
fn broadcast_delivery_reaches_every_target() {
    let mut r = Recorder::new(vec![(1, EventResult::Handled)]);
    let mut reg: Bus = Registry::new();
    let targets = vec![(1, PluginId(0)), (2, PluginId(1))];
    let answers = deliver_in_order(&mut r, &mut reg, &targets, &Value::Null, false);
    assert_eq!(answers.len(), 2);
    assert_eq!(r.handlers(), vec![1, 2]);
}

fn prio_sub(plugin: usize, handler: u32, priority: i64) -> Subscription<u32> {
    Subscription {
        plugin_id: PluginId(plugin),
        kind: EventKind("k".to_string()),
        properties: vec![("priority".to_string(), Value::Int(priority))],
        handler,
    }
}

#[test]
fn dispatch_delivers_by_priority_then_runs_commands() {
    let mut reg: Bus = Registry::new();
    register_resolver(&mut reg, SortKey("priority".to_string()), PropertyKey("priority".to_string()), 0u8);
    register_command(&mut reg, "later", 7u32);
    subscribe(&mut reg, prio_sub(0, 10, 1));
    subscribe(&mut reg, prio_sub(1, 20, 5));
    subscribe(&mut reg, prio_sub(2, 30, 5));
    emit_event(&mut reg, event("k", 1), DispatchDescriptor::Consumable(vec![SortKey("priority".to_string())]));
    emit_event(&mut reg, event("k", 2), DispatchDescriptor::Broadcast);
    execute_command(&mut reg, "missing", &[]);
    let mut r = Recorder::new(vec![(30, EventResult::Handled)]);
    assert!(dispatch_next(&mut reg, &mut r));
    assert_eq!(r.handlers(), vec![20, 30]);
    assert!(r.seen.iter().all(|x| x.2 == Value::Int(1)));
    assert_eq!(r.ran, vec![(7, vec!["x".to_string()])]);
    assert_eq!(r.emitted.len(), 1);
    assert_eq!(pop_command(&mut reg), None);
    let (next, _) = pop_event(&mut reg).unwrap();
    assert_eq!(next.data, Value::Int(2));
    let (after, _) = pop_event(&mut reg).unwrap();
    assert_eq!(after.kind.0, "after");
    assert!(pop_event(&mut reg).is_none());
}

#[test]
fn dispatch_of_a_broadcast_reaches_all_and_empty_queue_does_nothing() {
    let mut reg: Bus = Registry::new();
    subscribe(&mut reg, prio_sub(0, 10, 1));
    subscribe(&mut reg, prio_sub(1, 20, 5));
    let mut r = Recorder::new(vec![(10, EventResult::Handled)]);
    assert!(!dispatch_next(&mut reg, &mut r));
    emit_event(&mut reg, event("k", 1), DispatchDescriptor::Broadcast);
    assert!(dispatch_next(&mut reg, &mut r));
    assert_eq!(r.handlers(), vec![10, 20]);
}
