//! Lifecycle hooks: the four kinds, and the registry that a suite keeps of them.

use crate::error::CollectorError;
use vstd::prelude::*;
use vstd::string::*;

verus! {

/// An opaque handle to a callback that lives in the script engine. The
/// collector never looks inside: it stores handles and hands them back.
#[derive(Clone, Copy, Debug, PartialEq, Eq, Structural)]
pub struct TestCallback {
    pub handle: u64,
}

/// The four lifecycle hooks of a suite.
#[derive(Clone, Copy, Debug, PartialEq, Eq, Hash, Structural)]
pub enum LifetimeHook {
    BeforeAll,
    AfterAll,
    BeforeEach,
    AfterEach,
}

impl LifetimeHook {
    /// The hook that a label stands for, if it stands for one.
    pub open spec fn of_label(label: Seq<char>) -> Option<LifetimeHook> {
        if label == "beforeAll"@ {
            Some(LifetimeHook::BeforeAll)
        } else if label == "afterAll"@ {
            Some(LifetimeHook::AfterAll)
        } else if label == "beforeEach"@ {
            Some(LifetimeHook::BeforeEach)
        } else if label == "afterEach"@ {
            Some(LifetimeHook::AfterEach)
        } else {
            None
        }
    }

    /// Reads a hook kind from its label: `beforeAll`, `afterAll`,
    /// `beforeEach` or `afterEach`. Any other label is refused with
    /// `InvalidHookKind`.
    pub fn from_label(value: String) -> (parsed: Result<LifetimeHook, CollectorError>)
        ensures
            parsed == match Self::of_label(value@) {
                Some(hook) => Ok::<LifetimeHook, CollectorError>(hook),
                None => Err(CollectorError::InvalidHookKind),
            },
    {
        if value == String::from_str("beforeAll") {
            Ok(LifetimeHook::BeforeAll)
        } else if value == String::from_str("afterAll") {
            Ok(LifetimeHook::AfterAll)
        } else if value == String::from_str("beforeEach") {
            Ok(LifetimeHook::BeforeEach)
        } else if value == String::from_str("afterEach") {
            Ok(LifetimeHook::AfterEach)
        } else {
            Err(CollectorError::InvalidHookKind)
        }
    }

    /// The key under which the table files the callbacks of this hook.
    pub closed spec fn key(self) -> u8 {
        match self {
            LifetimeHook::BeforeAll => 0,
            LifetimeHook::AfterAll => 1,
            LifetimeHook::BeforeEach => 2,
            LifetimeHook::AfterEach => 3,
        }
    }

    fn table_key(self) -> (key: u8)
        ensures
            key == self.key(),
    {
        match self {
            LifetimeHook::BeforeAll => 0,
            LifetimeHook::AfterAll => 1,
            LifetimeHook::BeforeEach => 2,
            LifetimeHook::AfterEach => 3,
        }
    }
}

/// A `hashbrown::HashMap` from hook keys to callback lists. The verifier does
/// not look inside: what the table holds is `table_entries`.
#[verifier::external_body]
#[derive(Debug)]
pub struct HookTable {
    inner: hashbrown::HashMap<u8, Vec<TestCallback>>,
}

/// The table's contents: each key that is present, with its callbacks in the
/// order in which they were appended.
pub uninterp spec fn table_entries(table: HookTable) -> Map<u8, Seq<TestCallback>>;

/// `hashbrown::HashMap::new`: a table that holds no key.
#[verifier::external_body]
fn table_new() -> (fresh: HookTable)
    ensures
        table_entries(fresh) == (Map::<u8, Seq<TestCallback>>::empty()),
{
    HookTable { inner: hashbrown::HashMap::new() }
}

/// `hashbrown::HashMap::insert`: the key is bound to the new value, every other
/// key keeps its value, and the value that the key had before, if it had one,
/// is returned.
#[verifier::external_body]
fn table_insert(
    table: &mut HookTable,
    key: u8,
    value: Vec<TestCallback>,
) -> (previous: Option<Vec<TestCallback>>)
    ensures
        table_entries(*final(table)) == table_entries(*old(table)).insert(key, value@),
        match previous {
            Some(v) => table_entries(*old(table)).contains_key(key) && v@ == table_entries(
                *old(table),
            )[key],
            None => !table_entries(*old(table)).contains_key(key),
        },
{
    table.inner.insert(key, value)
}

/// `hashbrown::HashMap::get_mut`: for a key that is present, a mutable
/// reference to its value, through which alone the table changes; for any
/// other key, nothing, and the table stays as it is. The lookup hashes one
/// byte and probes the table, neither of which can panic.
#[verifier::external_body]
fn table_get_mut(table: &mut HookTable, key: u8) -> (slot: Option<&mut Vec<TestCallback>>)
    ensures
        match slot {
            Some(v) => table_entries(*old(table)).contains_key(key) && v@ == table_entries(
                *old(table),
            )[key] && table_entries(*final(table)) == table_entries(*old(table)).insert(
                key,
                final(v)@,
            ),
            None => !table_entries(*old(table)).contains_key(key) && table_entries(*final(table))
                == table_entries(*old(table)),
        },
    no_unwind
{
    table.inner.get_mut(&key)
}

/// `hashbrown::HashMap::get`: a reference to the value of a key that is
/// present, nothing for any other key.
#[verifier::external_body]
fn table_get(table: &HookTable, key: u8) -> (slot: Option<&Vec<TestCallback>>)
    ensures
        match slot {
            Some(v) => table_entries(*table).contains_key(key) && v@ == table_entries(*table)[key],
            None => !table_entries(*table).contains_key(key),
        },
{
    table.inner.get(&key)
}

/// The mathematical value of a hook registry: for each of the four hooks, its
/// callbacks in registration order.
#[verifier::ext_equal]
pub struct HooksView {
    pub before_all: Seq<TestCallback>,
    pub after_all: Seq<TestCallback>,
    pub before_each: Seq<TestCallback>,
    pub after_each: Seq<TestCallback>,
}

impl HooksView {
    /// A registry in which nothing is registered.
    pub open spec fn empty() -> HooksView {
        HooksView {
            before_all: Seq::empty(),
            after_all: Seq::empty(),
            before_each: Seq::empty(),
            after_each: Seq::empty(),
        }
    }

    /// The callbacks of one hook, in registration order.
    pub open spec fn get(self, hook: LifetimeHook) -> Seq<TestCallback> {
        match hook {
            LifetimeHook::BeforeAll => self.before_all,
            LifetimeHook::AfterAll => self.after_all,
            LifetimeHook::BeforeEach => self.before_each,
            LifetimeHook::AfterEach => self.after_each,
        }
    }

    /// The registry after one more callback was registered for `hook`.
    pub open spec fn add(self, hook: LifetimeHook, callback: TestCallback) -> HooksView {
        match hook {
            LifetimeHook::BeforeAll => HooksView {
                before_all: self.before_all.push(callback),
                ..self
            },
            LifetimeHook::AfterAll => HooksView { after_all: self.after_all.push(callback), ..self },
            LifetimeHook::BeforeEach => HooksView {
                before_each: self.before_each.push(callback),
                ..self
            },
            LifetimeHook::AfterEach => HooksView {
                after_each: self.after_each.push(callback),
                ..self
            },
        }
    }
}

/// The hook registry of one suite: for each of the four hooks an ordered list
/// of callbacks. Registration order is kept and nothing is deduplicated.
#[derive(Debug)]
pub struct LifetimeHookManager {
    hooks: HookTable,
}

impl View for LifetimeHookManager {
    type V = HooksView;

    closed spec fn view(&self) -> HooksView {
        let entries = table_entries(self.hooks);
        HooksView {
            before_all: entries[LifetimeHook::BeforeAll.key()],
            after_all: entries[LifetimeHook::AfterAll.key()],
            before_each: entries[LifetimeHook::BeforeEach.key()],
            after_each: entries[LifetimeHook::AfterEach.key()],
        }
    }
}

impl LifetimeHookManager {
    #[verifier::type_invariant]
    spec fn all_hooks_present(&self) -> bool {
        let entries = table_entries(self.hooks);
        &&& entries.contains_key(LifetimeHook::BeforeAll.key())
        &&& entries.contains_key(LifetimeHook::AfterAll.key())
        &&& entries.contains_key(LifetimeHook::BeforeEach.key())
        &&& entries.contains_key(LifetimeHook::AfterEach.key())
    }

    /// A registry with an empty list for each of the four hooks.
    pub fn new() -> (manager: Self)
        ensures
            manager@ == HooksView::empty(),
    {
        let mut hooks = table_new();
        let _ = table_insert(&mut hooks, LifetimeHook::BeforeAll.table_key(), Vec::new());
        let _ = table_insert(&mut hooks, LifetimeHook::AfterAll.table_key(), Vec::new());
        let _ = table_insert(&mut hooks, LifetimeHook::BeforeEach.table_key(), Vec::new());
        let _ = table_insert(&mut hooks, LifetimeHook::AfterEach.table_key(), Vec::new());
        LifetimeHookManager { hooks }
    }

    /// Appends `callback` to the list of `hook_key`. The other three lists
    /// stay as they are.
    pub fn add_hook(&mut self, hook_key: LifetimeHook, callback: TestCallback)
        ensures
            final(self)@ == old(self)@.add(hook_key, callback),
    {
        proof {
            use_type_invariant(&*self);
        }
        let key = hook_key.table_key();
        match table_get_mut(&mut self.hooks, key) {
            Some(partition) => {
                partition.push(callback);
            },
            None => {
                vstd::pervasive::unreached::<()>();
            },
        }
    }

    /// The callbacks of `hook_key`, in registration order.
    pub fn get(&self, hook_key: LifetimeHook) -> (callbacks: &Vec<TestCallback>)
        ensures
            callbacks@ == self@.get(hook_key),
    {
        proof {
            use_type_invariant(self);
        }
        match table_get(&self.hooks, hook_key.table_key()) {
            Some(partition) => partition,
            None => vstd::pervasive::unreached(),
        }
    }
}

impl Default for LifetimeHookManager {
    fn default() -> (manager: Self)
        ensures
            manager@ == HooksView::empty(),
    {
        LifetimeHookManager::new()
    }
}

} // verus!
