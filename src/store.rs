//! The desired state: the one authoritative mapping from service names to
//! version requirements, with the hub that tells subscribers of its changes.
//!
//! A change by a caller is staged first (`set_service`, `remove_service`),
//! persisted by the caller, and only then committed (`commit`), so that a
//! failed write leaves the state and the subscribers untouched.
use vstd::prelude::*;
use crate::events::{EventHub, EventView, StateEvent};
use crate::requirement::{ValidationError, canonical_req, canonical_requirement};
use crate::service::{
    Entry, Service, collect_services, duplicate_all, entries_of, has_name, record_set,
    remove_named, same_services, sorted_by_name, upsert, without_name,
};

verus! {

/// The version of the document format that this library writes.
pub open spec fn default_version() -> Seq<char> {
    seq!['0', '.', '1', '.', '0']
}

/// The document version for a new or empty document.
pub fn current_file_version() -> (r: String)
    ensures
        r@ == default_version(),
{
    let r = "0.1.0".to_string();
    proof {
        reveal_strlit("0.1.0");
        assert(r@ =~= default_version());
    }
    r
}

/// What reading the backing document gave.
pub enum ReadOutcome {
    /// There is no content: the document is missing, unreadable or blank.
    Empty,
    /// The content is not a well-formed document.
    Malformed,
    /// A document: its version and its service records, in the order in
    /// which it lists them, each requirement in canonical form.
    Parsed { version: String, services: Vec<Service> },
}

/// The state that a read outcome describes, as its version and the set of its
/// entries; `None` for malformed content, which describes no state.
pub open spec fn described_state(outcome: ReadOutcome) -> Option<(Seq<char>, Set<Entry>)> {
    match outcome {
        ReadOutcome::Empty => Some((default_version(), Set::empty())),
        ReadOutcome::Malformed => None,
        ReadOutcome::Parsed { version, services } => Some(
            (version@, record_set(entries_of(services@))),
        ),
    }
}

/// A change that was staged against the state and waits to be committed.
pub struct PendingChange {
    version: String,
    services: Vec<Service>,
}

impl PendingChange {
    #[verifier::type_invariant]
    spec fn sorted(&self) -> bool {
        sorted_by_name(entries_of(self.services@))
    }

    pub closed spec fn version_view(&self) -> Seq<char> {
        self.version@
    }

    /// The entries of the state after the change, sorted by name.
    pub closed spec fn entries(&self) -> Seq<Entry> {
        entries_of(self.services@)
    }

    /// The document version to persist.
    pub fn version(&self) -> (r: String)
        ensures
            r@ == self.version_view(),
    {
        self.version.clone()
    }

    /// The services to persist, sorted by name.
    pub fn services(&self) -> (r: Vec<Service>)
        ensures
            entries_of(r@) == self.entries(),
            sorted_by_name(entries_of(r@)),
    {
        proof {
            use_type_invariant(self);
        }
        duplicate_all(&self.services)
    }
}

/// The desired state of the services, and the subscribers to its changes.
pub struct DesiredState {
    file_version: String,
    services: Vec<Service>,
    hub: EventHub,
}

impl DesiredState {
    pub closed spec fn wf(&self) -> bool {
        sorted_by_name(entries_of(self.services@)) && self.hub.wf()
    }

    /// The version of the document that the state came from.
    pub closed spec fn version_view(&self) -> Seq<char> {
        self.file_version@
    }

    /// The services, sorted by name.
    pub closed spec fn entries(&self) -> Seq<Entry> {
        entries_of(self.services@)
    }

    /// The ids of the subscribers.
    pub closed spec fn subscribers(&self) -> Seq<u64> {
        self.hub.ids()
    }

    /// The events that wait for each subscriber, oldest first.
    pub closed spec fn queues(&self) -> Seq<Seq<EventView>> {
        self.hub.queues()
    }

    /// No subscriber id is left to hand out.
    pub closed spec fn exhausted(&self) -> bool {
        self.hub.exhausted()
    }

    /// The snapshot that an event about the current state carries.
    pub open spec fn snapshot_view(&self) -> EventView {
        (self.version_view(), self.entries())
    }

    /// A well-formed state keeps its services sorted by name.
    pub proof fn lemma_sorted(&self)
        requires
            self.wf(),
        ensures
            sorted_by_name(self.entries()),
    {
    }

    /// The state that the backing document describes: empty where the
    /// document is missing, blank or malformed.
    pub fn load(outcome: ReadOutcome) -> (r: DesiredState)
        ensures
            r.wf(),
            r.subscribers().len() == 0,
            r.queues().len() == 0,
            !r.exhausted(),
            described_state(outcome) matches Some(s) ==> r.version_view() == s.0
                && r.entries().to_set() == s.1,
            described_state(outcome) is None ==> r.version_view() == default_version()
                && r.entries().len() == 0,
            outcome is Empty ==> r.entries().len() == 0,
    {
        let (file_version, services) = match outcome {
            ReadOutcome::Parsed { version, services } => (version, collect_services(&services)),
            _ => (current_file_version(), Vec::new()),
        };
        proof {
            assert(entries_of(Seq::<Service>::empty()).to_set() =~= Set::<Entry>::empty());
        }
        DesiredState { file_version, services, hub: EventHub::new() }
    }

    /// The services, sorted by name.
    pub fn list(&self) -> (r: Vec<Service>)
        requires
            self.wf(),
        ensures
            entries_of(r@) == self.entries(),
            sorted_by_name(entries_of(r@)),
    {
        duplicate_all(&self.services)
    }

    /// The version of the document that the state came from.
    pub fn file_version(&self) -> (r: String)
        ensures
            r@ == self.version_view(),
    {
        self.file_version.clone()
    }

    /// An event that carries a copy of the current state.
    pub fn snapshot(&self) -> (r: StateEvent)
        ensures
            r@ == self.snapshot_view(),
    {
        StateEvent::StateUpdated {
            version: self.file_version.clone(),
            services: duplicate_all(&self.services),
        }
    }

    /// Registers a subscriber, which from now on receives every change.
    pub fn subscribe(&mut self) -> (r: Option<u64>)
        requires
            old(self).wf(),
        ensures
            final(self).wf(),
            final(self).version_view() == old(self).version_view(),
            final(self).entries() == old(self).entries(),
            r is None <==> old(self).exhausted(),
            r is None ==> final(self).subscribers() == old(self).subscribers()
                && final(self).queues() == old(self).queues(),
            r matches Some(id) ==> {
                &&& !old(self).subscribers().contains(id)
                &&& final(self).subscribers() == old(self).subscribers().push(id)
                &&& final(self).queues() == old(self).queues().push(Seq::empty())
            },
    {
        self.hub.subscribe()
    }

    /// Drops the subscriber `id`; tells whether it was subscribed.
    pub fn unsubscribe(&mut self, id: u64) -> (r: bool)
        requires
            old(self).wf(),
        ensures
            final(self).wf(),
            final(self).version_view() == old(self).version_view(),
            final(self).entries() == old(self).entries(),
            r == old(self).subscribers().contains(id),
            !final(self).subscribers().contains(id),
            r ==> exists|i: int|
                0 <= i < old(self).subscribers().len() && old(self).subscribers()[i] == id
                    && final(self).subscribers() == old(self).subscribers().remove(i)
                    && final(self).queues() == old(self).queues().remove(i),
            !r ==> final(self).subscribers() == old(self).subscribers()
                && final(self).queues() == old(self).queues(),
    {
        let r = self.hub.unsubscribe(id);
        proof {
            if r {
                let i = choose|i: int|
                    0 <= i < old(self).hub.ids().len() && old(self).hub.ids()[i] == id
                        && self.hub.ids() == old(self).hub.ids().remove(i) && self.hub.queues()
                        == old(self).hub.queues().remove(i);
                assert(old(self).subscribers()[i] == id);
            }
        }
        r
    }

    /// Takes out the events that wait for the subscriber `id`, oldest first.
    pub fn take_events(&mut self, id: u64) -> (r: Vec<StateEvent>)
        requires
            old(self).wf(),
        ensures
            final(self).wf(),
            final(self).version_view() == old(self).version_view(),
            final(self).entries() == old(self).entries(),
            final(self).subscribers() == old(self).subscribers(),
            final(self).queues().len() == old(self).queues().len(),
            forall|i: int|
                0 <= i < old(self).subscribers().len() && old(self).subscribers()[i] == id
                    ==> crate::events::events_view(r@) == old(self).queues()[i]
                    && final(self).queues()[i] == Seq::<EventView>::empty(),
            forall|i: int|
                0 <= i < old(self).subscribers().len() && old(self).subscribers()[i] != id
                    ==> final(self).queues()[i] == old(self).queues()[i],
            !old(self).subscribers().contains(id) ==> r@.len() == 0,
    {
        self.hub.take_events(id)
    }

    /// Hands every subscriber one event with the current state.
    pub fn emit_current_state(&mut self)
        requires
            old(self).wf(),
        ensures
            final(self).wf(),
            final(self).version_view() == old(self).version_view(),
            final(self).entries() == old(self).entries(),
            final(self).subscribers() == old(self).subscribers(),
            final(self).queues().len() == old(self).queues().len(),
            forall|i: int|
                0 <= i < old(self).queues().len() ==> #[trigger] final(self).queues()[i] == old(
                    self,
                ).queues()[i].push(old(self).snapshot_view()),
    {
        let event = self.snapshot();
        self.hub.emit(&event);
    }

    /// Stages setting the requirement of `name` to `expr`, in place of any
    /// it had; fails where `expr` is not a well-formed version requirement.
    pub fn set_service(&self, name: &str, expr: &str) -> (r: Result<PendingChange, ValidationError>)
        requires
            self.wf(),
        ensures
            r is Ok <==> canonical_req(expr@) is Some,
            r matches Err(e) ==> e.expression@ == expr@,
            r matches Ok(c) ==> {
                &&& c.version_view() == self.version_view()
                &&& sorted_by_name(c.entries())
                &&& c.entries().to_set() == without_name(self.entries().to_set(), name@).insert(
                    (name@, canonical_req(expr@).unwrap()),
                )
            },
    {
        let req = match canonical_requirement(expr) {
            Ok(t) => t,
            Err(e) => {
                return Err(e);
            },
        };
        let mut services = duplicate_all(&self.services);
        upsert(&mut services, Service::new(name.to_string(), req));
        Ok(PendingChange { version: self.file_version.clone(), services })
    }

    /// Stages taking the service `name` out; `None` where there is no such
    /// service, and so nothing to persist or commit.
    pub fn remove_service(&self, name: &str) -> (r: Option<PendingChange>)
        requires
            self.wf(),
        ensures
            r is Some <==> has_name(self.entries(), name@),
            r matches Some(c) ==> {
                &&& c.version_view() == self.version_view()
                &&& sorted_by_name(c.entries())
                &&& c.entries().to_set() == without_name(self.entries().to_set(), name@)
            },
    {
        let mut services = duplicate_all(&self.services);
        let key = name.to_string();
        if remove_named(&mut services, &key) {
            Some(PendingChange { version: self.file_version.clone(), services })
        } else {
            None
        }
    }

    /// Makes a staged change the state, once it has been persisted, and
    /// hands every subscriber one event with the new state.
    pub fn commit(&mut self, change: PendingChange)
        requires
            old(self).wf(),
        ensures
            final(self).wf(),
            final(self).version_view() == change.version_view(),
            final(self).entries() == change.entries(),
            final(self).subscribers() == old(self).subscribers(),
            final(self).queues().len() == old(self).queues().len(),
            forall|i: int|
                0 <= i < old(self).queues().len() ==> #[trigger] final(self).queues()[i] == old(
                    self,
                ).queues()[i].push(final(self).snapshot_view()),
    {
        proof {
            use_type_invariant(&change);
        }
        self.file_version = change.version;
        self.services = change.services;
        self.emit_current_state();
    }

    /// Brings the state in line with what was read from the backing
    /// document. Where that describes another state, the state becomes it
    /// and every subscriber gets one event with it; otherwise, and always on
    /// malformed content, nothing changes. Tells whether the state changed.
    pub fn reload_from_disk(&mut self, outcome: ReadOutcome) -> (changed: bool)
        requires
            old(self).wf(),
        ensures
            final(self).wf(),
            final(self).subscribers() == old(self).subscribers(),
            final(self).queues().len() == old(self).queues().len(),
            described_state(outcome) is None ==> !changed,
            described_state(outcome) matches Some(s) ==> {
                &&& final(self).version_view() == s.0
                &&& final(self).entries().to_set() == s.1
            },
            outcome is Empty ==> final(self).entries().len() == 0,
            changed == !(final(self).version_view() == old(self).version_view()
                && final(self).entries() == old(self).entries()),
            changed ==> forall|i: int|
                0 <= i < old(self).queues().len() ==> #[trigger] final(self).queues()[i] == old(
                    self,
                ).queues()[i].push(final(self).snapshot_view()),
            !changed ==> final(self).version_view() == old(self).version_view()
                && final(self).entries() == old(self).entries()
                && final(self).queues() == old(self).queues(),
    {
        let (version, services) = match outcome {
            ReadOutcome::Malformed => {
                return false;
            },
            ReadOutcome::Empty => (current_file_version(), Vec::new()),
            ReadOutcome::Parsed { version, services } => (version, collect_services(&services)),
        };
        proof {
            assert(entries_of(Seq::<Service>::empty()).to_set() =~= Set::<Entry>::empty());
        }
        if version == self.file_version && same_services(&services, &self.services) {
            return false;
        }
        self.commit(PendingChange { version, services });
        true
    }
}

} // verus!
