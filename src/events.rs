//! Change notifications and the hub that hands them to subscribers.
//!
//! Each subscriber owns an unbounded queue: emitting never waits for a
//! subscriber, and a queue grows until its owner takes the events out or
//! unsubscribes.
use vstd::prelude::*;
use crate::service::{Entry, Service, duplicate_all, entries_of};

verus! {

/// What an event says: the document version and the services, by name.
pub type EventView = (Seq<char>, Seq<Entry>);

/// A change of the desired state.
pub enum StateEvent {
    /// The state after the change: its document version and its services,
    /// sorted by name. It is a copy, independent of the store.
    StateUpdated { version: String, services: Vec<Service> },
}

impl View for StateEvent {
    type V = EventView;

    open spec fn view(&self) -> EventView {
        match self {
            StateEvent::StateUpdated { version, services } => (version@, entries_of(services@)),
        }
    }
}

/// The views of a list of events.
pub open spec fn events_view(v: Seq<StateEvent>) -> Seq<EventView> {
    v.map_values(|e: StateEvent| e@)
}

impl StateEvent {
    /// An independent copy of this event.
    pub fn duplicate(&self) -> (r: StateEvent)
        ensures
            r@ == self@,
    {
        match self {
            StateEvent::StateUpdated { version, services } => StateEvent::StateUpdated {
                version: version.clone(),
                services: duplicate_all(services),
            },
        }
    }
}

struct Subscriber {
    id: u64,
    pending: Vec<StateEvent>,
}

/// Subscribers, each with the events that were emitted since it last took
/// its events out.
pub struct EventHub {
    subscribers: Vec<Subscriber>,
    next_id: u64,
}

impl EventHub {
    /// Subscriber ids increase along the list and stay below the next one.
    pub closed spec fn wf(&self) -> bool {
        &&& forall|i: int, j: int|
            0 <= i < j < self.subscribers@.len() ==> #[trigger] self.subscribers@[i].id
                < #[trigger] self.subscribers@[j].id
        &&& forall|i: int|
            0 <= i < self.subscribers@.len() ==> #[trigger] self.subscribers@[i].id < self.next_id
    }

    /// The ids of the subscribers, in the order in which they subscribed.
    pub closed spec fn ids(&self) -> Seq<u64> {
        self.subscribers@.map_values(|s: Subscriber| s.id)
    }

    /// The events that wait for each subscriber, oldest first.
    pub closed spec fn queues(&self) -> Seq<Seq<EventView>> {
        self.subscribers@.map_values(|s: Subscriber| events_view(s.pending@))
    }

    /// No id is left to hand out.
    pub closed spec fn exhausted(&self) -> bool {
        self.next_id == u64::MAX
    }

    pub fn new() -> (r: EventHub)
        ensures
            r.wf(),
            r.ids().len() == 0,
            r.queues().len() == 0,
            !r.exhausted(),
    {
        EventHub { subscribers: Vec::new(), next_id: 0 }
    }

    /// Ids of a well-formed hub do not repeat.
    pub proof fn lemma_ids_unique(&self)
        requires
            self.wf(),
        ensures
            forall|i: int, j: int|
                0 <= i < self.ids().len() && 0 <= j < self.ids().len() && i != j ==> #[trigger] self.ids()[i]
                    != #[trigger] self.ids()[j],
    {
        assert forall|i: int, j: int|
            0 <= i < self.ids().len() && 0 <= j < self.ids().len() && i != j implies #[trigger] self.ids()[i]
                != #[trigger] self.ids()[j] by {
            if i < j {
                assert(self.subscribers@[i].id < self.subscribers@[j].id);
            } else {
                assert(self.subscribers@[j].id < self.subscribers@[i].id);
            }
        }
    }

    /// Registers a new subscriber with an empty queue and returns its id;
    /// `None` once every id has been handed out.
    pub fn subscribe(&mut self) -> (r: Option<u64>)
        requires
            old(self).wf(),
        ensures
            final(self).wf(),
            r is None <==> old(self).exhausted(),
            r is None ==> *final(self) == *old(self),
            r matches Some(id) ==> {
                &&& !old(self).ids().contains(id)
                &&& final(self).ids() == old(self).ids().push(id)
                &&& final(self).queues() == old(self).queues().push(Seq::empty())
            },
    {
        if self.next_id == u64::MAX {
            return None;
        }
        let id = self.next_id;
        let ghost old_subs = self.subscribers@;
        self.subscribers.push(Subscriber { id, pending: Vec::new() });
        self.next_id = self.next_id + 1;
        proof {
            assert(self.ids() =~= old(self).ids().push(id));
            assert(events_view(self.subscribers@.last().pending@) =~= Seq::<EventView>::empty());
            assert(self.queues() =~= old(self).queues().push(Seq::empty()));
            if old(self).ids().contains(id) {
                let k = choose|k: int| 0 <= k < old(self).ids().len() && old(self).ids()[k] == id;
                assert(old_subs[k].id < old(self).next_id);
            }
        }
        Some(id)
    }

    fn find(&self, id: u64) -> (r: Option<usize>)
        ensures
            r matches Some(i) ==> i < self.ids().len() && self.ids()[i as int] == id,
            r is None ==> !self.ids().contains(id),
    {
        let mut i: usize = 0;
        while i < self.subscribers.len()
            invariant
                i <= self.subscribers@.len(),
                forall|j: int| 0 <= j < i ==> #[trigger] self.subscribers@[j].id != id,
            decreases self.subscribers@.len() - i,
        {
            if self.subscribers[i].id == id {
                return Some(i);
            }
            i = i + 1;
        }
        proof {
            if self.ids().contains(id) {
                let k = choose|k: int| 0 <= k < self.ids().len() && self.ids()[k] == id;
                assert(self.subscribers@[k].id == id);
            }
        }
        None
    }

    /// Drops the subscriber `id` and its queue; tells whether it was there.
    pub fn unsubscribe(&mut self, id: u64) -> (r: bool)
        requires
            old(self).wf(),
        ensures
            final(self).wf(),
            r == old(self).ids().contains(id),
            !final(self).ids().contains(id),
            r ==> exists|i: int|
                0 <= i < old(self).ids().len() && old(self).ids()[i] == id && final(self).ids()
                    == old(self).ids().remove(i) && final(self).queues() == old(self).queues().remove(i),
            !r ==> *final(self) == *old(self),
    {
        match self.find(id) {
            Some(i) => {
                let ghost old_ids = self.ids();
                let ghost old_queues = self.queues();
                proof {
                    self.lemma_ids_unique();
                }
                self.subscribers.remove(i);
                proof {
                    assert(self.ids() =~= old_ids.remove(i as int));
                    assert(self.queues() =~= old_queues.remove(i as int));
                    if self.ids().contains(id) {
                        let k = choose|k: int| 0 <= k < self.ids().len() && self.ids()[k] == id;
                        if k < i {
                            assert(old_ids[k] == id);
                        } else {
                            assert(old_ids[k + 1] == id);
                        }
                    }
                }
                true
            },
            None => false,
        }
    }

    /// Appends a copy of `event` to the queue of every subscriber.
    pub fn emit(&mut self, event: &StateEvent)
        requires
            old(self).wf(),
        ensures
            final(self).wf(),
            final(self).ids() == old(self).ids(),
            final(self).exhausted() == old(self).exhausted(),
            final(self).queues().len() == old(self).queues().len(),
            forall|i: int|
                0 <= i < old(self).queues().len() ==> #[trigger] final(self).queues()[i] == old(
                    self,
                ).queues()[i].push(event@),
    {
        let mut i: usize = 0;
        while i < self.subscribers.len()
            invariant
                self.wf(),
                i <= self.subscribers@.len(),
                self.next_id == old(self).next_id,
                self.subscribers@.len() == old(self).subscribers@.len(),
                forall|j: int|
                    0 <= j < self.subscribers@.len() ==> #[trigger] self.subscribers@[j].id == old(
                        self,
                    ).subscribers@[j].id,
                forall|j: int|
                    0 <= j < i ==> #[trigger] events_view(self.subscribers@[j].pending@) == events_view(
                        old(self).subscribers@[j].pending@,
                    ).push(event@),
                forall|j: int|
                    i <= j < self.subscribers@.len() ==> #[trigger] self.subscribers@[j].pending@ == old(
                        self,
                    ).subscribers@[j].pending@,
            decreases self.subscribers@.len() - i,
        {
            let mut sub = self.subscribers.remove(i);
            let ghost before = sub.pending@;
            sub.pending.push(event.duplicate());
            proof {
                assert(events_view(sub.pending@) =~= events_view(before).push(event@));
            }
            self.subscribers.insert(i, sub);
            i = i + 1;
        }
        proof {
            assert(self.ids() =~= old(self).ids());
            assert(self.queues() =~= old(self).queues().map_values(|q: Seq<EventView>| q.push(event@)));
        }
    }

    /// Takes out the events that wait for the subscriber `id`, oldest first;
    /// none where there is no such subscriber.
    pub fn take_events(&mut self, id: u64) -> (r: Vec<StateEvent>)
        requires
            old(self).wf(),
        ensures
            final(self).wf(),
            final(self).ids() == old(self).ids(),
            final(self).exhausted() == old(self).exhausted(),
            final(self).queues().len() == old(self).queues().len(),
            forall|i: int|
                0 <= i < old(self).ids().len() && old(self).ids()[i] == id ==> events_view(r@) == old(
                    self,
                ).queues()[i] && final(self).queues()[i] == Seq::<EventView>::empty(),
            forall|i: int|
                0 <= i < old(self).ids().len() && old(self).ids()[i] != id ==> final(self).queues()[i]
                    == old(self).queues()[i],
            !old(self).ids().contains(id) ==> r@.len() == 0,
    {
        proof {
            self.lemma_ids_unique();
        }
        match self.find(id) {
            Some(i) => {
                let ghost old_subs = self.subscribers@;
                let sub = self.subscribers.remove(i);
                self.subscribers.insert(i, Subscriber { id: sub.id, pending: Vec::new() });
                proof {
                    assert(self.subscribers@ =~= old_subs.update(
                        i as int,
                        Subscriber { id, pending: self.subscribers@[i as int].pending },
                    ));
                    assert(self.ids() =~= old(self).ids());
                    assert(events_view(self.subscribers@[i as int].pending@) =~= Seq::<EventView>::empty());
                    assert forall|j: int|
                        0 <= j < old(self).ids().len() && old(self).ids()[j] != id implies self.queues()[j]
                            == old(self).queues()[j] by {
                        assert(j != i);
                    }
                }
                sub.pending
            },
            None => Vec::new(),
        }
    }
}

} // verus!
