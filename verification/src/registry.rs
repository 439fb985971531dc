//! The registry of module kinds: what can be built by name, and the handles
//! given to what has been built.

use vstd::prelude::*;
use vstd::string::StringExecFns;
use crate::module::{ModuleHandle, AUDIO_OUTPUT_INDEX};

verus! {

/// How a kind of module presents itself: the identifier that it is built by
/// and the name that it is shown under.
#[derive(Clone, Debug)]
pub struct ModuleManifest {
    pub id: String,
    pub name: String,
}

/// Why a module could not be built.
#[derive(Debug)]
pub enum RegistryError {
    /// No kind of module is registered under the identifier.
    NotRegistered(String),
}

impl RegistryError {
    /// The error in words.
    pub open spec fn words(self) -> Seq<char> {
        match self {
            RegistryError::NotRegistered(id) => "no module with id '"@ + id@ + "' exists"@,
        }
    }

    /// The error in words.
    pub fn message(&self) -> (message: String)
        ensures
            message@ == self.words(),
    {
        let mut message = String::from_str("no module with id '");
        message.append(self.id().as_str());
        message.append("' exists");
        message
    }

    /// The identifier that was asked for.
    pub fn id(&self) -> (id: &String)
        ensures
            *self == RegistryError::NotRegistered(*id),
    {
        match self {
            RegistryError::NotRegistered(id) => id,
        }
    }
}

/// One kind of module: its manifest and what builds it.
struct Entry<F> {
    manifest: ModuleManifest,
    factory: F,
}

/// The kinds of module that can be built, each with a factory of type `F`,
/// and the count of the handles given out.
pub struct ModuleRegistry<F> {
    modules: Vec<Entry<F>>,
    next_handle: usize,
}

/// One kind of module, as a value.
pub struct Registered<F> {
    /// The identifier.
    pub id: Seq<char>,
    /// The name.
    pub name: Seq<char>,
    /// What builds a module of the kind.
    pub factory: F,
}

/// A registry, as a value.
pub struct RegistryState<F> {
    /// The kinds, in the order in which their identifiers were first
    /// registered.
    pub entries: Seq<Registered<F>>,
    /// The number of handles given out.
    pub issued: usize,
}

impl<F> RegistryState<F> {
    /// Whether a kind is registered under `id`.
    pub open spec fn knows(self, id: Seq<char>) -> bool {
        exists|i: int| 0 <= i < self.entries.len() && (#[trigger] self.entries[i]).id == id
    }

    /// The place of the kind registered under `id`.
    pub open spec fn place(self, id: Seq<char>) -> int {
        choose|i: int| 0 <= i < self.entries.len() && (#[trigger] self.entries[i]).id == id
    }

    /// No identifier is registered twice.
    pub open spec fn wf(self) -> bool {
        forall|i: int, j: int|
            0 <= i < self.entries.len() && 0 <= j < self.entries.len() && (#[trigger] self.entries[i]).id == (
            #[trigger] self.entries[j]).id ==> i == j
    }

    /// The registry after a kind has been registered: it takes the place of
    /// the kind that had its identifier, or else comes last.
    pub open spec fn registered(self, kind: Registered<F>) -> Self {
        if self.knows(kind.id) {
            RegistryState { entries: self.entries.update(self.place(kind.id), kind), ..self }
        } else {
            RegistryState { entries: self.entries.push(kind), ..self }
        }
    }

    /// Registering keeps a registry free of doubles, and makes the kind
    /// known under its identifier.
    pub proof fn lemma_registered(self, kind: Registered<F>)
        requires
            self.wf(),
        ensures
            self.registered(kind).wf(),
            self.registered(kind).knows(kind.id),
            self.registered(kind).entries[self.registered(kind).place(kind.id)] == kind,
            forall|id: Seq<char>| id != kind.id ==> self.registered(kind).knows(id) == self.knows(id),
    {
        let after = self.registered(kind);
        if self.knows(kind.id) {
            let k = self.place(kind.id);
            assert(after.entries[k].id == kind.id);
            assert forall|i: int, j: int|
                0 <= i < after.entries.len() && 0 <= j < after.entries.len() && (#[trigger] after.entries[i]).id
                    == (#[trigger] after.entries[j]).id implies i == j by {
                assert(self.entries[i].id == after.entries[i].id);
                assert(self.entries[j].id == after.entries[j].id);
            }
            assert forall|id: Seq<char>| id != kind.id implies after.knows(id) == self.knows(id) by {
                if after.knows(id) {
                    let i = after.place(id);
                    assert(self.entries[i].id == id);
                }
                if self.knows(id) {
                    let i = self.place(id);
                    assert(after.entries[i].id == id);
                }
            }
        } else {
            let k = self.entries.len() as int;
            assert(after.entries[k].id == kind.id);
            assert forall|i: int, j: int|
                0 <= i < after.entries.len() && 0 <= j < after.entries.len() && (#[trigger] after.entries[i]).id
                    == (#[trigger] after.entries[j]).id implies i == j by {
                if i < k {
                    assert(self.entries[i].id == after.entries[i].id);
                }
                if j < k {
                    assert(self.entries[j].id == after.entries[j].id);
                }
            }
            assert forall|id: Seq<char>| id != kind.id implies after.knows(id) == self.knows(id) by {
                if after.knows(id) {
                    let i = after.place(id);
                    assert(self.entries[i].id == id);
                }
                if self.knows(id) {
                    let i = self.place(id);
                    assert(after.entries[i].id == id);
                }
            }
        }
    }
}

impl<F> Entry<F> {
    spec fn kind(self) -> Registered<F> {
        Registered { id: self.manifest.id@, name: self.manifest.name@, factory: self.factory }
    }
}

impl<F> View for ModuleRegistry<F> {
    type V = RegistryState<F>;

    closed spec fn view(&self) -> RegistryState<F> {
        RegistryState { entries: self.modules@.map_values(|e: Entry<F>| e.kind()), issued: self.next_handle }
    }
}

impl<F> Default for ModuleRegistry<F> {
    /// A registry in which nothing is registered.
    fn default() -> (registry: Self)
        ensures
            registry.wf(),
            registry@.entries.len() == 0,
            registry@.issued == 0,
    {
        ModuleRegistry::new()
    }
}

impl<F> ModuleRegistry<F> {
    /// The registry holds no identifier twice.
    pub closed spec fn wf(&self) -> bool {
        self@.wf()
    }

    /// A registry in which nothing is registered and from which no handle
    /// has been given out.
    pub fn new() -> (registry: Self)
        ensures
            registry.wf(),
            registry@.entries.len() == 0,
            registry@.issued == 0,
    {
        ModuleRegistry { modules: Vec::new(), next_handle: 0 }
    }

    /// The number of handles given out.
    pub fn issued(&self) -> (n: usize)
        ensures
            n == self@.issued,
    {
        self.next_handle
    }

    /// The place of the kind registered under `id`.
    fn find(&self, id: &String) -> (found: Option<usize>)
        requires
            self.wf(),
        ensures
            match found {
                Some(i) => i < self@.entries.len() && self@.knows(id@) && self@.place(id@) == i,
                None => !self@.knows(id@),
            },
    {
        let mut i: usize = 0;
        while i < self.modules.len()
            invariant
                self.wf(),
                0 <= i <= self.modules@.len(),
                forall|k: int| 0 <= k < i ==> (#[trigger] self@.entries[k]).id != id@,
            decreases self.modules@.len() - i,
        {
            if self.modules[i].manifest.id == *id {
                proof {
                    assert(self@.entries[i as int].id == id@);
                    let j = self@.place(id@);
                    assert(self@.entries[j].id == id@);
                }
                return Some(i);
            }
            i += 1;
        }
        None
    }

    /// The manifests of all kinds, in the order in which their identifiers
    /// were first registered.
    pub fn all_modules(&self) -> (manifests: Vec<ModuleManifest>)
        ensures
            manifests@.len() == self@.entries.len(),
            forall|i: int|
                0 <= i < manifests@.len() ==> (#[trigger] manifests@[i]).id@ == self@.entries[i].id
                    && manifests@[i].name@ == self@.entries[i].name,
    {
        let mut manifests: Vec<ModuleManifest> = Vec::new();
        let mut i: usize = 0;
        while i < self.modules.len()
            invariant
                0 <= i <= self.modules@.len(),
                manifests@.len() == i,
                forall|k: int|
                    0 <= k < i ==> (#[trigger] manifests@[k]).id@ == self@.entries[k].id && manifests@[k].name@
                        == self@.entries[k].name,
            decreases self.modules@.len() - i,
        {
            let manifest = ModuleManifest {
                id: self.modules[i].manifest.id.clone(),
                name: self.modules[i].manifest.name.clone(),
            };
            manifests.push(manifest);
            i += 1;
        }
        manifests
    }

    /// Registers a kind of module under `id`, to be shown as `name` and
    /// built by `factory`. A kind registered under the same identifier
    /// before gives way to it.
    pub fn register(&mut self, id: &str, name: &str, factory: F)
        requires
            old(self).wf(),
        ensures
            final(self).wf(),
            final(self)@ == old(self)@.registered(Registered { id: id@, name: name@, factory }),
    {
        let entry = Entry { manifest: ModuleManifest { id: id.to_owned(), name: name.to_owned() }, factory };
        let ghost kind = entry.kind();
        proof {
            self@.lemma_registered(kind);
        }
        match self.find(&entry.manifest.id) {
            Some(i) => {
                self.modules[i] = entry;
                proof {
                    assert(self@.entries =~= old(self)@.registered(kind).entries);
                }
            },
            None => {
                self.modules.push(entry);
                proof {
                    assert(self@.entries =~= old(self)@.registered(kind).entries);
                }
            },
        }
    }

    /// Tells whether a kind is registered under `id`.
    pub fn is_registered(&self, id: &str) -> (r: bool)
        requires
            self.wf(),
        ensures
            r == self@.knows(id@),
    {
        let key = id.to_owned();
        self.find(&key).is_some()
    }

    /// Builds a module of the kind registered under `id` and gives it the
    /// next handle. Handles count up from zero; the one that stands for the
    /// audio output is never given out.
    pub fn create_module<M>(&mut self, id: &str) -> (result: Result<(ModuleHandle, M), RegistryError>) where
        F: Fn() -> M,

        requires
            old(self).wf(),
            old(self)@.issued < AUDIO_OUTPUT_INDEX,
            forall|i: int| 0 <= i < old(self)@.entries.len() ==> call_requires(
                (#[trigger] old(self)@.entries[i]).factory,
                (),
            ),
        ensures
            final(self).wf(),
            final(self)@.entries == old(self)@.entries,
            match result {
                Ok((handle, module)) => {
                    &&& old(self)@.knows(id@)
                    &&& handle == ModuleHandle(old(self)@.issued)
                    &&& !handle.is_sink()
                    &&& final(self)@.issued == old(self)@.issued + 1
                    &&& call_ensures(old(self)@.entries[old(self)@.place(id@)].factory, (), module)
                },
                Err(e) => {
                    &&& !old(self)@.knows(id@)
                    &&& final(self)@.issued == old(self)@.issued
                    &&& e matches RegistryError::NotRegistered(missing) && missing@ == id@
                },
            },
    {
        let key = id.to_owned();
        match self.find(&key) {
            Some(i) => {
                let handle = ModuleHandle(self.next_handle);
                self.next_handle = self.next_handle + 1;
                proof {
                    assert(call_requires(old(self)@.entries[i as int].factory, ()));
                }
                let module = (self.modules[i].factory)();
                Ok((handle, module))
            },
            None => Err(RegistryError::NotRegistered(key)),
        }
    }
}

} // verus!
