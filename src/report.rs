//! The lines in which the events of the store are logged.
use vstd::prelude::*;
use crate::events::{EventView, StateEvent, events_view};
use crate::service::{Entry, Service, entries_of};
use crate::store::DesiredState;

verus! {

/// The decimal digit `d`.
pub open spec fn digit_char(d: nat) -> char {
    if d == 0 { '0' } else if d == 1 { '1' } else if d == 2 { '2' } else if d == 3 { '3' } else if d == 4 {
        '4'
    } else if d == 5 { '5' } else if d == 6 { '6' } else if d == 7 { '7' } else if d == 8 { '8' } else {
        '9'
    }
}

/// `n` in decimal, without leading zeros.
pub open spec fn decimal(n: nat) -> Seq<char>
    decreases n,
{
    if n < 10 {
        seq![digit_char(n)]
    } else {
        decimal(n / 10) + seq![digit_char(n % 10)]
    }
}

fn digit_text(d: usize) -> (r: &'static str)
    requires
        d < 10,
    ensures
        r@ == seq![digit_char(d as nat)],
{
    proof {
        reveal_strlit("0");
        reveal_strlit("1");
        reveal_strlit("2");
        reveal_strlit("3");
        reveal_strlit("4");
        reveal_strlit("5");
        reveal_strlit("6");
        reveal_strlit("7");
        reveal_strlit("8");
        reveal_strlit("9");
    }
    let r = if d == 0 { "0" } else if d == 1 { "1" } else if d == 2 { "2" } else if d == 3 { "3" } else if d
        == 4 { "4" } else if d == 5 { "5" } else if d == 6 { "6" } else if d == 7 { "7" } else if d == 8 {
        "8"
    } else { "9" };
    assert(r@ =~= seq![digit_char(d as nat)]);
    r
}

/// `n` in decimal.
pub fn decimal_text(n: usize) -> (r: String)
    ensures
        r@ == decimal(n as nat),
    decreases n,
{
    if n < 10 {
        digit_text(n).to_string()
    } else {
        let mut r = decimal_text(n / 10);
        r.append(digit_text(n % 10));
        r
    }
}

/// The line that names one service of an event.
pub open spec fn service_line(e: Entry) -> Seq<char> {
    "    - "@ + e.0 + " "@ + e.1
}

/// The line that opens the report of an event.
pub open spec fn headline(version: Seq<char>, count: nat) -> Seq<char> {
    "State updated to version '"@ + version + "' with "@ + decimal(count) + " service(s)"@
}

/// The lines that report an event: a headline, then a line for each service.
pub open spec fn event_lines(ev: EventView) -> Seq<Seq<char>> {
    seq![headline(ev.0, ev.1.len())] + ev.1.map_values(|e: Entry| service_line(e))
}

/// The lines that report a list of events, one after another.
pub open spec fn events_lines(evs: Seq<EventView>) -> Seq<Seq<char>>
    decreases evs.len(),
{
    if evs.len() == 0 {
        Seq::empty()
    } else {
        events_lines(evs.drop_last()) + event_lines(evs.last())
    }
}

fn service_text(s: &Service) -> (r: String)
    ensures
        r@ == service_line(s@),
{
    let mut r = "    - ".to_string();
    r.append(s.name.as_str());
    r.append(" ");
    r.append(s.version_req.as_str());
    proof {
        reveal_strlit(" ");
        assert(r@ =~= service_line(s@));
    }
    r
}

/// The lines that report `event`.
pub fn log_state_event(event: &StateEvent) -> (r: Vec<String>)
    ensures
        r@.map_values(|l: String| l@) == event_lines(event@),
{
    match event {
        StateEvent::StateUpdated { version, services } => {
            let mut head = "State updated to version '".to_string();
            head.append(version.as_str());
            head.append("' with ");
            let count = decimal_text(services.len());
            head.append(count.as_str());
            head.append(" service(s)");
            let mut r: Vec<String> = Vec::new();
            r.push(head);
            let ghost es = entries_of(services@);
            let mut i: usize = 0;
            while i < services.len()
                invariant
                    i <= services@.len(),
                    es == entries_of(services@),
                    r@.len() == i + 1,
                    r@[0]@ == headline(version@, services@.len() as nat),
                    forall|j: int| 0 <= j < i ==> #[trigger] r@[j + 1]@ == service_line(es[j]),
                decreases services@.len() - i,
            {
                r.push(service_text(&services[i]));
                i = i + 1;
            }
            proof {
                let want = event_lines(event@);
                assert(event@.1 == es);
                assert(want.len() == r@.len());
                assert forall|j: int| 0 <= j < r@.len() implies r@.map_values(|l: String| l@)[j] == want[j] by {
                    if j > 0 {
                        assert(r@[(j - 1) + 1]@ == service_line(es[j - 1]));
                    }
                }
                assert(r@.map_values(|l: String| l@) =~= want);
            }
            r
        },
    }
}

/// Takes out the events that wait for the subscriber `id` and returns the
/// lines that report them, oldest first.
pub fn drain_state_events(state: &mut DesiredState, id: u64) -> (r: Vec<String>)
    requires
        old(state).wf(),
    ensures
        final(state).wf(),
        final(state).version_view() == old(state).version_view(),
        final(state).entries() == old(state).entries(),
        final(state).subscribers() == old(state).subscribers(),
        forall|i: int|
            0 <= i < old(state).subscribers().len() && old(state).subscribers()[i] == id ==> r@.map_values(
                |l: String| l@,
            ) == events_lines(old(state).queues()[i]) && final(state).queues()[i] == Seq::<EventView>::empty(),
        forall|i: int|
            0 <= i < old(state).subscribers().len() && old(state).subscribers()[i] != id
                ==> final(state).queues()[i] == old(state).queues()[i],
        !old(state).subscribers().contains(id) ==> r@.len() == 0,
{
    let events = state.take_events(id);
    let ghost evs = events_view(events@);
    let mut r: Vec<String> = Vec::new();
    let mut i: usize = 0;
    assert(evs.take(0) =~= Seq::<EventView>::empty());
    assert(r@.map_values(|l: String| l@) =~= Seq::<Seq<char>>::empty());
    while i < events.len()
        invariant
            i <= events@.len(),
            evs == events_view(events@),
            r@.map_values(|l: String| l@) == events_lines(evs.take(i as int)),
        decreases events@.len() - i,
    {
        let lines = log_state_event(&events[i]);
        let ghost prior = r@;
        let mut j: usize = 0;
        while j < lines.len()
            invariant
                j <= lines@.len(),
                r@ == prior + lines@.take(j as int),
            decreases lines@.len() - j,
        {
            r.push(lines[j].clone());
            proof {
                assert(lines@.take(j + 1) =~= lines@.take(j as int).push(lines@[j as int]));
            }
            j = j + 1;
        }
        proof {
            assert(lines@.take(lines@.len() as int) =~= lines@);
            assert(evs.take(i + 1).drop_last() =~= evs.take(i as int));
            assert(r@.map_values(|l: String| l@) =~= prior.map_values(|l: String| l@) + lines@.map_values(
                |l: String| l@,
            ));
        }
        i = i + 1;
    }
    assert(evs.take(events@.len() as int) =~= evs);
    r
}

} // verus!
