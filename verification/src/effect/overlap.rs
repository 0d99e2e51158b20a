//! Which interrupts write which automatons.
use vstd::prelude::*;

use crate::collections::{entries_map, entry_keys, views, KeyMap, KeySet};
use crate::effect::callable::{CallableId, CallableView};
use crate::effect::profile::{MutationProfile, MutationProfiles, ProfileView};

verus! {

// ─── Model ─────────────────────────────────────────────────────────────────

/// The interrupt writes the automaton, by itself or through a call.
pub open spec fn interrupt_writes(
    profiles: Map<CallableView, ProfileView>,
    interrupt: Seq<char>,
    automaton: Seq<char>,
) -> bool {
    profiles.dom().contains(CallableView::Interrupt(interrupt)) && profiles[CallableView::Interrupt(
        interrupt,
    )].automata.contains(automaton)
}

/// For every automaton that some interrupt writes, the interrupts that do.
pub open spec fn overlap(profiles: Map<CallableView, ProfileView>) -> Map<
    Seq<char>,
    Set<Seq<char>>,
> {
    Map::new(
        |a: Seq<char>| exists|n: Seq<char>| interrupt_writes(profiles, n, a),
        |a: Seq<char>| Set::new(|n: Seq<char>| interrupt_writes(profiles, n, a)),
    )
}

/// The interrupts that write an automaton.
pub open spec fn interrupts_of(map: Map<Seq<char>, Set<Seq<char>>>, automaton: Seq<char>) -> Set<
    Seq<char>,
> {
    if map.dom().contains(automaton) {
        map[automaton]
    } else {
        Set::empty()
    }
}

/// An automaton overlaps with exactly the interrupts that write it.
pub proof fn overlap_inverts_profiles(
    profiles: Map<CallableView, ProfileView>,
    interrupt: Seq<char>,
    automaton: Seq<char>,
)
    ensures
        interrupts_of(overlap(profiles), automaton).contains(interrupt) <==> interrupt_writes(
            profiles,
            interrupt,
            automaton,
        ),
{
}

/// Effects and transitions alone make no overlap.
pub proof fn only_interrupts_overlap(profiles: Map<CallableView, ProfileView>)
    requires
        forall|id: CallableView| profiles.dom().contains(id) ==> !(id is Interrupt),
    ensures
        overlap(profiles).dom() == Set::<Seq<char>>::empty(),
{
    assert(overlap(profiles).dom() =~= Set::<Seq<char>>::empty());
}

// ─── Data ──────────────────────────────────────────────────────────────────

/// For every automaton, the interrupts that write it.
#[derive(Debug, PartialEq, Eq)]
pub struct InterruptOverlap {
    map: KeyMap<String, KeySet<String>>,
    /// What automatons that no interrupt writes overlap with.
    none: KeySet<String>,
}

impl View for InterruptOverlap {
    type V = Map<Seq<char>, Set<Seq<char>>>;

    closed spec fn view(&self) -> Map<Seq<char>, Set<Seq<char>>> {
        self.map@
    }
}

impl InterruptOverlap {
    #[verifier::type_invariant]
    spec fn wf(&self) -> bool {
        self.none@ == Set::<Seq<char>>::empty()
    }

    /// The interrupts that write an automaton; empty where none does.
    pub fn interrupts_for(&self, automaton: &str) -> (r: &KeySet<String>)
        ensures
            r@ == interrupts_of(self@, automaton@),
    {
        proof {
            use_type_invariant(self);
        }
        let key = automaton.to_owned();
        match self.map.get(&key) {
            Some(s) => s,
            None => &self.none,
        }
    }

    /// Whether some interrupt writes the automaton.
    pub fn is_overlapped(&self, automaton: &str) -> (r: bool)
        ensures
            r == (interrupts_of(self@, automaton@) != Set::<Seq<char>>::empty()),
    {
        let key = automaton.to_owned();
        match self.map.get(&key) {
            Some(s) => !s.is_empty(),
            None => false,
        }
    }

    /// Every automaton that some interrupt writes, once, with its interrupts.
    pub fn all(&self) -> (r: &Vec<(String, KeySet<String>)>)
        ensures
            entries_map(r@) == self@,
            entry_keys(r@).no_duplicates(),
    {
        self.map.all()
    }

    /// How many automatons some interrupt writes.
    pub fn len(&self) -> (r: usize)
        ensures
            r == self@.dom().len(),
    {
        self.map.len()
    }

    /// Whether no interrupt writes any automaton.
    pub fn is_empty(&self) -> (r: bool)
        ensures
            r == (self@.dom() == Set::<Seq<char>>::empty()),
    {
        self.map.is_empty()
    }
}

impl Default for InterruptOverlap {
    fn default() -> (r: InterruptOverlap)
        ensures
            r@ == Map::<Seq<char>, Set<Seq<char>>>::empty(),
    {
        InterruptOverlap { map: KeyMap::new(), none: KeySet::new() }
    }
}

// ─── Computation ───────────────────────────────────────────────────────────

/// The callable at `e` is the interrupt and writes the automaton.
spec fn entry_writes(
    entries: Seq<(CallableId, MutationProfile)>,
    e: int,
    interrupt: Seq<char>,
    automaton: Seq<char>,
) -> bool {
    entries[e].0@ == CallableView::Interrupt(interrupt) && entries[e].1@.automata.contains(automaton)
}

/// The pair is an automaton and an interrupt.
spec fn is_pair(p: (String, String), automaton: Seq<char>, interrupt: Seq<char>) -> bool {
    p.0@ == automaton && p.1@ == interrupt
}

/// One of the pairs is an automaton and an interrupt.
spec fn has_pair(pairs: Seq<(String, String)>, automaton: Seq<char>, interrupt: Seq<char>) -> bool {
    exists|p: int| 0 <= p < pairs.len() && #[trigger] is_pair(pairs[p], automaton, interrupt)
}

/// One of the first entries is the interrupt and writes the automaton.
spec fn any_writes(
    entries: Seq<(CallableId, MutationProfile)>,
    n: int,
    interrupt: Seq<char>,
    automaton: Seq<char>,
) -> bool {
    exists|e: int| 0 <= e < n && #[trigger] entry_writes(entries, e, interrupt, automaton)
}

/// Adds a pair for every automaton that the interrupt writes.
fn push_pairs(pairs: &mut Vec<(String, String)>, automata: &KeySet<String>, interrupt: &String)
    ensures
        forall|a: Seq<char>, n: Seq<char>|
            #[trigger] has_pair(final(pairs)@, a, n) <==> (has_pair(old(pairs)@, a, n) || (
            automata@.contains(a) && n == interrupt@)),
{
    let names = automata.items();
    let ghost start = pairs@;
    let ghost all = views(names@);
    let mut i: usize = 0;
    while i < names.len()
        invariant
            i <= names@.len(),
            all == views(names@),
            pairs@.len() == start.len() + i,
            forall|p: int| 0 <= p < start.len() ==> pairs@[p] == #[trigger] start[p],
            forall|p: int|
                0 <= p < i ==> is_pair(pairs@[start.len() + p], #[trigger] all[p], interrupt@),
        decreases names@.len() - i,
    {
        let ghost before = pairs@;
        pairs.push((names[i].clone(), interrupt.clone()));
        i = i + 1;
    }
    proof {
        assert forall|a: Seq<char>, n: Seq<char>| #[trigger]
            has_pair(pairs@, a, n) <==> (has_pair(start, a, n) || (automata@.contains(a) && n
                == interrupt@)) by {
            if has_pair(pairs@, a, n) {
                let p = choose|p: int| 0 <= p < pairs@.len() && #[trigger] is_pair(pairs@[p], a, n);
                if p < start.len() {
                    assert(is_pair(start[p], a, n));
                } else {
                    let k = p - start.len();
                    assert(is_pair(pairs@[start.len() + k], all[k], interrupt@));
                    assert(all.contains(all[k]));
                }
            }
            if has_pair(start, a, n) {
                let p = choose|p: int| 0 <= p < start.len() && #[trigger] is_pair(start[p], a, n);
                assert(is_pair(pairs@[p], a, n));
            }
            if automata@.contains(a) && n == interrupt@ {
                assert(all.contains(a));
                let k = choose|k: int| 0 <= k < all.len() && all[k] == a;
                assert(is_pair(pairs@[start.len() + k], all[k], interrupt@));
            }
        }
    }
}

/// Every automaton that some interrupt writes, paired with that interrupt.
fn written_pairs(profiles: &MutationProfiles) -> (r: Vec<(String, String)>)
    ensures
        forall|a: Seq<char>, n: Seq<char>|
            #![trigger has_pair(r@, a, n)]
            #![trigger interrupt_writes(profiles@, n, a)]
            has_pair(r@, a, n) <==> interrupt_writes(profiles@, n, a),
{
    let entries = profiles.all();
    let mut pairs: Vec<(String, String)> = Vec::new();
    let mut i: usize = 0;
    while i < entries.len()
        invariant
            i <= entries@.len(),
            forall|a: Seq<char>, n: Seq<char>|
                #[trigger] has_pair(pairs@, a, n) <==> any_writes(entries@, i as int, n, a),
        decreases entries@.len() - i,
    {
        let ghost before = pairs@;
        if let CallableId::Interrupt(name) = &entries[i].0 {
            push_pairs(&mut pairs, &entries[i].1.actual_automata, name);
        }
        proof {
            assert forall|a: Seq<char>, n: Seq<char>| #[trigger]
                has_pair(pairs@, a, n) <==> any_writes(entries@, i + 1, n, a) by {
                let had = has_pair(before, a, n);
                if had {
                    let e = choose|e: int| 0 <= e < i && #[trigger] entry_writes(entries@, e, n, a);
                    assert(entry_writes(entries@, e, n, a));
                }
                if any_writes(entries@, i + 1, n, a) {
                    let e = choose|e: int|
                        0 <= e < i + 1 && #[trigger] entry_writes(entries@, e, n, a);
                    if e < i {
                        assert(had);
                    }
                }
                assert(entry_writes(entries@, i as int, n, a) == (entries@[i as int].0@
                    == CallableView::Interrupt(n)
                    && entries@[i as int].1.actual_automata@.contains(a)));
            }
        }
        i = i + 1;
    }
    proof {
        assert forall|a: Seq<char>, n: Seq<char>|
            #![trigger has_pair(pairs@, a, n)]
            #![trigger interrupt_writes(profiles@, n, a)]
            has_pair(pairs@, a, n) <==> interrupt_writes(profiles@, n, a) by {
            let id = CallableView::Interrupt(n);
            let keys = entry_keys(entries@);
            if any_writes(entries@, i as int, n, a) {
                let e = choose|e: int| 0 <= e < i && #[trigger] entry_writes(entries@, e, n, a);
                assert(keys[e] == id);
                assert(keys.to_set().contains(id));
                assert(profiles@[entries@[e].0@] == entries@[e].1@);
            }
            if interrupt_writes(profiles@, n, a) {
                assert(keys.to_set().contains(id));
                let e = choose|e: int| 0 <= e < keys.len() && keys[e] == id;
                assert(profiles@[entries@[e].0@] == entries@[e].1@);
                assert(entry_writes(entries@, e, n, a));
            }
        }
    }
    pairs
}

/// Computes, for every automaton, the interrupts that write it: the profiles
/// already count what happens through calls.
pub fn compute_interrupt_overlap(profiles: &MutationProfiles) -> (r: InterruptOverlap)
    ensures
        r@ == overlap(profiles@),
{
    let pairs = written_pairs(profiles);
    let mut map: KeyMap<String, KeySet<String>> = KeyMap::new();
    let mut i: usize = 0;
    while i < pairs.len()
        invariant
            i <= pairs@.len(),
            forall|a: Seq<char>|
                #![trigger map@.dom().contains(a)]
                map@.dom().contains(a) <==> exists|p: int| 0 <= p < i && (#[trigger] pairs@[p]).0@ == a,
            forall|a: Seq<char>, n: Seq<char>|
                map@.dom().contains(a) ==> (#[trigger] map@[a].contains(n) <==> exists|p: int|
                    0 <= p < i && #[trigger] is_pair(pairs@[p], a, n)),
        decreases pairs@.len() - i,
    {
        let ghost before = map@;
        let key = &pairs[i].0;
        let mut set: KeySet<String> = match map.get(key) {
            Some(s) => s.copy_set(),
            None => KeySet::new(),
        };
        let _ = set.insert(pairs[i].1.clone());
        map.insert(key.clone(), set);
        proof {
            let k = key@;
            let m = pairs@[i as int].1@;
            assert forall|a: Seq<char>|
                #![trigger map@.dom().contains(a)]
                map@.dom().contains(a) <==> exists|p: int|
                    0 <= p < i + 1 && (#[trigger] pairs@[p]).0@ == a by {
                if before.dom().contains(a) {
                    let p = choose|p: int| 0 <= p < i && (#[trigger] pairs@[p]).0@ == a;
                    assert(pairs@[p].0@ == a);
                }
                if a == k {
                    assert(pairs@[i as int].0@ == a);
                }
                if exists|p: int| 0 <= p < i + 1 && (#[trigger] pairs@[p]).0@ == a {
                    let p = choose|p: int| 0 <= p < i + 1 && (#[trigger] pairs@[p]).0@ == a;
                    if p < i {
                        assert(pairs@[p].0@ == a);
                        assert(before.dom().contains(a));
                    }
                }
            }
            assert forall|a: Seq<char>, n: Seq<char>| map@.dom().contains(a) implies (
            #[trigger] map@[a].contains(n) <==> exists|p: int|
                0 <= p < i + 1 && #[trigger] is_pair(pairs@[p], a, n)) by {
                if exists|p: int| 0 <= p < i + 1 && #[trigger] is_pair(pairs@[p], a, n) {
                    let p = choose|p: int| 0 <= p < i + 1 && #[trigger] is_pair(pairs@[p], a, n);
                    if p < i {
                        assert(pairs@[p].0@ == a);
                        assert(before.dom().contains(a));
                        assert(before[a].contains(n));
                    }
                }
                if map@[a].contains(n) {
                    if a == k && n == m {
                        assert(is_pair(pairs@[i as int], a, n));
                    } else if before.dom().contains(a) && before[a].contains(n) {
                        let p = choose|p: int| 0 <= p < i && #[trigger] is_pair(pairs@[p], a, n);
                        assert(is_pair(pairs@[p], a, n));
                    }
                }
            }
        }
        i = i + 1;
    }
    proof {
        let goal = overlap(profiles@);
        assert forall|a: Seq<char>| map@.dom().contains(a) <==> goal.dom().contains(a) by {
            if map@.dom().contains(a) {
                let p = choose|p: int| 0 <= p < i && (#[trigger] pairs@[p]).0@ == a;
                assert(is_pair(pairs@[p], a, pairs@[p].1@));
                assert(has_pair(pairs@, a, pairs@[p].1@));
                assert(interrupt_writes(profiles@, pairs@[p].1@, a));
            }
            if goal.dom().contains(a) {
                let n = choose|n: Seq<char>| interrupt_writes(profiles@, n, a);
                assert(has_pair(pairs@, a, n));
                let p = choose|p: int| 0 <= p < pairs@.len() && #[trigger] is_pair(pairs@[p], a, n);
                assert(pairs@[p].0@ == a);
            }
        }
        assert forall|a: Seq<char>| #[trigger] map@.dom().contains(a) implies map@[a]
            == goal[a] by {
            assert(goal.dom().contains(a));
            assert forall|n: Seq<char>| map@[a].contains(n) <==> goal[a].contains(n) by {
                assert(goal[a].contains(n) == interrupt_writes(profiles@, n, a));
                assert(has_pair(pairs@, a, n) == interrupt_writes(profiles@, n, a));
            }
            assert(map@[a] =~= goal[a]);
        }
        assert(map@ =~= goal);
    }
    InterruptOverlap { map, none: KeySet::new() }
}

/// An interrupt overlaps with an automaton exactly where the profile of the
/// interrupt says that it writes the automaton.
pub proof fn interrupts_overlap_with_what_they_write(
    profiles: Map<CallableView, ProfileView>,
    interrupt: Seq<char>,
    automaton: Seq<char>,
)
    ensures
        interrupts_of(overlap(profiles), automaton).contains(interrupt) <==> {
            let id = CallableView::Interrupt(interrupt);
            profiles.dom().contains(id) && profiles[id].automata.contains(automaton)
        },
        overlap(profiles).dom().contains(automaton) <==> exists|n: Seq<char>|
            {
                &&& profiles.dom().contains(CallableView::Interrupt(n))
                &&& #[trigger] profiles[CallableView::Interrupt(n)].automata.contains(automaton)
            },
{
    overlap_inverts_profiles(profiles, interrupt, automaton);
    if overlap(profiles).dom().contains(automaton) {
        let n = choose|n: Seq<char>| interrupt_writes(profiles, n, automaton);
        assert(profiles[CallableView::Interrupt(n)].automata.contains(automaton));
    }
    if exists|n: Seq<char>|
        {
            &&& profiles.dom().contains(CallableView::Interrupt(n))
            &&& #[trigger] profiles[CallableView::Interrupt(n)].automata.contains(automaton)
        } {
        let n = choose|n: Seq<char>|
            {
                &&& profiles.dom().contains(CallableView::Interrupt(n))
                &&& #[trigger] profiles[CallableView::Interrupt(n)].automata.contains(automaton)
            };
        assert(interrupt_writes(profiles, n, automaton));
    }
}

} // verus!
