use vstd::prelude::*;
use crate::text::str_eq;

verus! {

/// A payload type that knows its own task identifier: producers and the
/// handler of a task take it from the same type.
pub trait Task {
    /// The identifier that jobs of this payload are queued and dispatched under.
    spec fn task_type_spec() -> Seq<char>;

    fn task_type() -> (r: &'static str)
        ensures
            r@ == Self::task_type_spec(),
    ;
}

/// A child job that a handler asks for: its task type, its payload, the
/// artifact it refers to and how many seconds to wait before running it.
#[derive(Debug, Clone)]
pub struct SpawnRequest<P> {
    pub task_type: String,
    pub payload: P,
    pub artifact_ref: Option<String>,
    pub delay_secs: u64,
}

impl<P: Task> SpawnRequest<P> {
    /// A child job for `payload`, under its type's task identifier, to run at once.
    pub fn spawn(payload: P) -> (r: Self)
        ensures
            r.task_type@ == P::task_type_spec(),
            r.payload == payload,
            r.artifact_ref is None,
            r.delay_secs == 0,
    {
        Self::spawn_with(payload, None, 0)
    }

    /// A child job for `payload` that refers to `artifact_ref` and runs after `delay_secs`.
    pub fn spawn_with(payload: P, artifact_ref: Option<String>, delay_secs: u64) -> (r: Self)
        ensures
            r.task_type@ == P::task_type_spec(),
            r.payload == payload,
            r.artifact_ref == artifact_ref,
            r.delay_secs == delay_secs,
    {
        SpawnRequest { task_type: P::task_type().to_string(), payload, artifact_ref, delay_secs }
    }
}

/// Whether some entry is registered under `name`.
pub open spec fn has_key<H>(entries: Seq<(Seq<char>, H)>, name: Seq<char>) -> bool {
    exists|i: int| 0 <= i < entries.len() && (#[trigger] entries[i]).0 == name
}

/// The entry registered under `name`: the first one, if any.
pub open spec fn lookup_key<H>(entries: Seq<(Seq<char>, H)>, name: Seq<char>) -> Option<H>
    decreases entries.len(),
{
    if entries.len() == 0 {
        None
    } else if entries[0].0 == name {
        Some(entries[0].1)
    } else {
        lookup_key(entries.drop_first(), name)
    }
}

/// The handlers of a worker, by task type.
pub struct TaskRegistry<H> {
    handlers: Vec<(String, H)>,
}

impl<H> TaskRegistry<H> {
    /// The task types and handlers, in the order they were registered.
    pub closed spec fn entries(&self) -> Seq<(Seq<char>, H)> {
        self.handlers@.map_values(|e: (String, H)| (e.0@, e.1))
    }

    pub fn new() -> (r: Self)
        ensures
            r.entries().len() == 0,
    {
        let r = TaskRegistry { handlers: Vec::new() };
        assert(r.entries() =~= Seq::<(Seq<char>, H)>::empty());
        r
    }

    /// Whether a handler is registered for `task_type`.
    pub fn contains(&self, task_type: &str) -> (b: bool)
        ensures
            b == has_key(self.entries(), task_type@),
    {
        let ghost es = self.entries();
        let mut i: usize = 0;
        assert(es.skip(0) =~= es);
        while i < self.handlers.len()
            invariant
                es == self.entries(),
                es.len() == self.handlers@.len(),
                i <= es.len(),
                forall|j: int| 0 <= j < i ==> (#[trigger] es[j]).0 != task_type@,
            decreases es.len() - i,
        {
            assert(es[i as int] == (self.handlers@[i as int].0@, self.handlers@[i as int].1));
            if str_eq(self.handlers[i].0.as_str(), task_type) {
                return true;
            }
            i = i + 1;
        }
        false
    }

    /// Registers `handler` for `task_type`, which must not have one yet.
    pub fn register(&mut self, task_type: &str, handler: H)
        requires
            !has_key(old(self).entries(), task_type@),
        ensures
            final(self).entries() == old(self).entries().push((task_type@, handler)),
    {
        let ghost before = self.entries();
        self.handlers.push((task_type.to_string(), handler));
        assert(self.entries() =~= before.push((task_type@, handler)));
    }

    /// The handler registered for `task_type`.
    pub fn get(&self, task_type: &str) -> (r: Option<&H>)
        ensures
            match lookup_key(self.entries(), task_type@) {
                Some(h) => r matches Some(x) && *x == h,
                None => r is None,
            },
    {
        let ghost es = self.entries();
        let mut i: usize = 0;
        assert(es.skip(0) =~= es);
        while i < self.handlers.len()
            invariant
                es == self.entries(),
                es.len() == self.handlers@.len(),
                i <= es.len(),
                lookup_key(es, task_type@) == lookup_key(es.skip(i as int), task_type@),
            decreases es.len() - i,
        {
            let ghost rest = es.skip(i as int);
            assert(rest[0] == es[i as int]);
            assert(rest.drop_first() =~= es.skip(i + 1));
            assert(es[i as int] == (self.handlers@[i as int].0@, self.handlers@[i as int].1));
            if str_eq(self.handlers[i].0.as_str(), task_type) {
                return Some(&self.handlers[i].1);
            }
            i = i + 1;
        }
        None
    }
}

/// A new entry is found under its own name, and leaves every other lookup
/// as it was.
pub proof fn lemma_lookup_after_register<H>(
    entries: Seq<(Seq<char>, H)>,
    name: Seq<char>,
    value: H,
    other: Seq<char>,
)
    requires
        !has_key(entries, name),
    ensures
        lookup_key(entries.push((name, value)), name) == Some(value),
        other != name ==> lookup_key(entries.push((name, value)), other) == lookup_key(entries, other),
    decreases entries.len(),
{
    let pushed = entries.push((name, value));
    if entries.len() == 0 {
        assert(pushed[0] == (name, value));
        assert(pushed.drop_first() =~= Seq::<(Seq<char>, H)>::empty());
    } else {
        assert(pushed[0] == entries[0]);
        assert(pushed.drop_first() =~= entries.drop_first().push((name, value)));
        assert(entries[0].0 != name);
        assert forall|i: int| 0 <= i < entries.drop_first().len() implies (#[trigger] entries.drop_first()[i]).0 != name by {
            assert(entries.drop_first()[i] == entries[i + 1]);
        }
        lemma_lookup_after_register(entries.drop_first(), name, value, other);
    }
}

/// An entry is found exactly when some entry has that name.
pub proof fn lemma_lookup_has<H>(entries: Seq<(Seq<char>, H)>, name: Seq<char>)
    ensures
        lookup_key(entries, name) is Some <==> has_key(entries, name),
    decreases entries.len(),
{
    if entries.len() > 0 {
        lemma_lookup_has(entries.drop_first(), name);
        if has_key(entries, name) && entries[0].0 != name {
            let i = choose|i: int| 0 <= i < entries.len() && (#[trigger] entries[i]).0 == name;
            assert(entries.drop_first()[i - 1] == entries[i]);
        }
        if has_key(entries.drop_first(), name) {
            let i = choose|i: int|
                0 <= i < entries.drop_first().len() && (#[trigger] entries.drop_first()[i]).0 == name;
            assert(entries[i + 1] == entries.drop_first()[i]);
        }
    }
}

} // verus!
