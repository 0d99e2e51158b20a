//! What each callable does in all: by itself and through everything it calls.
use vstd::prelude::*;

use crate::ast::{Item, Program};
use crate::collections::{entries_map, entries_map_lookup, entry_keys, views, Key, KeyMap, KeySet};
use crate::effect::callable::{CallableId, CallableView, FieldRef, FieldRefView};
use crate::effect::direct::{collect_direct_profiles, program_effects, DirectProfile, DirectView};
use crate::effect::error::{EffectError, EffectErrorView};
use crate::order::{by_offset, in_order, sort_by_offset, sorted_elements, stable_sorted};
use crate::resolve::Resolution;
use crate::text::same;

verus! {

// ─── Model ─────────────────────────────────────────────────────────────────

/// The call refers to the callable. A call of a transition names no automaton
/// and refers to every transition of that name.
pub open spec fn refers_to(call: CallableView, id: CallableView) -> bool {
    match call {
        CallableView::Transition { automaton, name } if automaton.len() == 0 => {
            id is Transition && id.name() == name
        },
        _ => call == id,
    }
}

/// Callable `a` calls callable `b`.
pub open spec fn calls(direct: Map<CallableView, DirectView>, a: CallableView, b: CallableView) -> bool {
    &&& direct.dom().contains(a)
    &&& direct.dom().contains(b)
    &&& exists|c: CallableView| #[trigger] direct[a].proc_calls.contains(c) && refers_to(c, b)
}

/// `n` calls lead from `a` to `b`.
pub open spec fn leads_to(
    direct: Map<CallableView, DirectView>,
    a: CallableView,
    b: CallableView,
    n: nat,
) -> bool
    decreases n,
{
    if n == 0 {
        a == b
    } else {
        exists|m: CallableView|
            #[trigger] calls(direct, a, m) && leads_to(direct, m, b, (n - 1) as nat)
    }
}

/// Running `a` can run `b`.
pub open spec fn reaches(direct: Map<CallableView, DirectView>, a: CallableView, b: CallableView) -> bool {
    direct.dom().contains(a) && direct.dom().contains(b) && exists|n: nat|
        #[trigger] leads_to(direct, a, b, n)
}

/// What one callable does in all.
pub ghost struct ProfileView {
    pub writes: Set<FieldRefView>,
    pub reads: Set<FieldRefView>,
    /// The automatons of the written fields.
    pub automata: Set<Seq<char>>,
}

/// What of a kind `a` does in all: what anything that it can run does by itself.
pub open spec fn in_all(
    direct: Map<CallableView, DirectView>,
    kind: spec_fn(DirectView) -> Set<FieldRefView>,
    a: CallableView,
) -> Set<FieldRefView> {
    Set::new(
        |f: FieldRefView|
            exists|b: CallableView| #[trigger] reaches(direct, a, b) && kind(direct[b]).contains(f),
    )
}

/// The writes of a callable.
pub open spec fn writes_of() -> spec_fn(DirectView) -> Set<FieldRefView> {
    |d: DirectView| d.writes
}

/// The reads of a callable.
pub open spec fn reads_of() -> spec_fn(DirectView) -> Set<FieldRefView> {
    |d: DirectView| d.reads
}

/// The automatons of fields.
pub open spec fn automata_of(fields: Set<FieldRefView>) -> Set<Seq<char>> {
    Set::new(|a: Seq<char>| exists|f: FieldRefView| #[trigger] fields.contains(f) && f.automaton == a)
}

/// What a callable does in all.
pub open spec fn profile_of(direct: Map<CallableView, DirectView>, a: CallableView) -> ProfileView {
    let writes = in_all(direct, writes_of(), a);
    ProfileView { writes, reads: in_all(direct, reads_of(), a), automata: automata_of(writes) }
}

/// What each callable does in all.
pub open spec fn profiles_of(direct: Map<CallableView, DirectView>) -> Map<
    CallableView,
    ProfileView,
> {
    Map::new(|a: CallableView| direct.dom().contains(a), |a: CallableView| profile_of(direct, a))
}

/// The name is listed.
pub open spec fn listed(names: Seq<String>, name: Seq<char>) -> bool {
    views(names).contains(name)
}

/// What is wrong with the writes of a callable that lists what it may and may
/// not write: first that an automaton is not allowed, then that it is forbidden.
pub open spec fn mutates_errors(
    callable: Seq<char>,
    at: nat,
    mutates: Seq<String>,
    cannot_mutate: Seq<String>,
    automata: Seq<Seq<char>>,
) -> Seq<EffectErrorView>
    decreases automata.len(),
{
    if automata.len() == 0 {
        Seq::empty()
    } else {
        let automaton = automata.last();
        mutates_errors(callable, at, mutates, cannot_mutate, automata.drop_last()) + (if listed(
            mutates,
            automaton,
        ) {
            Seq::empty()
        } else {
            seq![EffectErrorView::EffectMutatesUndeclaredAutomaton { callable, automaton, at }]
        }) + (if listed(cannot_mutate, automaton) {
            seq![EffectErrorView::EffectMutatesExcludedAutomaton { callable, automaton, at }]
        } else {
            Seq::empty()
        })
    }
}

/// The automatons that a callable writes, in order.
pub open spec fn written_automata(profiles: Map<CallableView, ProfileView>, id: CallableView) -> Seq<
    Seq<char>,
> {
    if profiles.dom().contains(id) {
        in_order::<String>(profiles[id].automata)
    } else {
        Seq::empty()
    }
}

/// What is wrong with the writes of the callable that an item declares.
pub open spec fn item_errors(profiles: Map<CallableView, ProfileView>, item: Item) -> Seq<
    EffectErrorView,
> {
    match item {
        Item::Effect(d) => mutates_errors(
            d.name@,
            d.span.start as nat,
            d.mutates@,
            d.cannot_mutate@,
            written_automata(profiles, CallableView::Effect(d.name@)),
        ),
        Item::Interrupt(d) => mutates_errors(
            d.name@,
            d.span.start as nat,
            d.mutates@,
            Seq::empty(),
            written_automata(profiles, CallableView::Interrupt(d.name@)),
        ),
        _ => Seq::empty(),
    }
}

/// What is wrong with the writes of the effects and interrupts among the items.
pub open spec fn profile_errors(profiles: Map<CallableView, ProfileView>, items: Seq<Item>) -> Seq<
    EffectErrorView,
>
    decreases items.len(),
{
    if items.len() == 0 {
        Seq::empty()
    } else {
        profile_errors(profiles, items.drop_last()) + item_errors(profiles, items.last())
    }
}

/// The outcome of the extraction: the profiles where nothing is wrong, else
/// every error, ordered by source position.
pub open spec fn profiles_outcome(program: Program, resolution: Resolution) -> Result<
    Map<CallableView, ProfileView>,
    Seq<EffectErrorView>,
> {
    let profiles = profiles_of(program_effects(program, resolution));
    let errors = profile_errors(profiles, program.items@);
    if errors.len() == 0 {
        Ok(profiles)
    } else {
        Err(stable_sorted(errors, by_offset::<EffectError>()))
    }
}

// ─── Data ──────────────────────────────────────────────────────────────────

/// What a callable does in all.
#[derive(Debug, PartialEq, Eq)]
pub struct MutationProfile {
    /// The fields it writes, by itself or through a call.
    pub actual_writes: KeySet<FieldRef>,
    /// The fields it reads, by itself or through a call.
    pub actual_reads: KeySet<FieldRef>,
    /// The automatons of the fields it writes.
    pub actual_automata: KeySet<String>,
}

impl View for MutationProfile {
    type V = ProfileView;

    open spec fn view(&self) -> ProfileView {
        ProfileView {
            writes: self.actual_writes@,
            reads: self.actual_reads@,
            automata: self.actual_automata@,
        }
    }
}

/// What each callable of a program does in all.
#[derive(Debug, PartialEq, Eq)]
pub struct MutationProfiles {
    profiles: KeyMap<CallableId, MutationProfile>,
}

impl View for MutationProfiles {
    type V = Map<CallableView, ProfileView>;

    closed spec fn view(&self) -> Map<CallableView, ProfileView> {
        self.profiles@
    }
}

impl MutationProfiles {
    /// The profile of a callable.
    pub fn lookup(&self, id: &CallableId) -> (r: Option<&MutationProfile>)
        ensures
            match r {
                Some(p) => self@.dom().contains(id@) && self@[id@] == p@,
                None => !self@.dom().contains(id@),
            },
    {
        self.profiles.get(id)
    }

    /// Every profile with its callable, once.
    pub fn all(&self) -> (r: &Vec<(CallableId, MutationProfile)>)
        ensures
            entries_map(r@) == self@,
            entry_keys(r@).no_duplicates(),
            entry_keys(r@).to_set() == self@.dom(),
            forall|i: int| 0 <= i < r@.len() ==> self@[(#[trigger] r@[i]).0@] == r@[i].1@,
    {
        self.profiles.all()
    }

    /// How many callables there are.
    pub fn len(&self) -> (r: usize)
        ensures
            r == self@.dom().len(),
    {
        self.profiles.len()
    }

    /// Whether there is no callable.
    pub fn is_empty(&self) -> (r: bool)
        ensures
            r == (self@.dom() == Set::<CallableView>::empty()),
    {
        self.profiles.is_empty()
    }
}

impl Default for MutationProfile {
    fn default() -> (r: MutationProfile)
        ensures
            r@.writes == Set::<FieldRefView>::empty(),
            r@.reads == Set::<FieldRefView>::empty(),
            r@.automata == Set::<Seq<char>>::empty(),
    {
        MutationProfile {
            actual_writes: KeySet::new(),
            actual_reads: KeySet::new(),
            actual_automata: KeySet::new(),
        }
    }
}

impl Default for MutationProfiles {
    fn default() -> (r: MutationProfiles)
        ensures
            r@ == Map::<CallableView, ProfileView>::empty(),
    {
        MutationProfiles { profiles: KeyMap::new() }
    }
}

// ─── Calls ─────────────────────────────────────────────────────────────────

/// Whether one of the calls refers to the callable.
fn any_refers_to(proc_calls: &KeySet<CallableId>, id: &CallableId) -> (r: bool)
    ensures
        r == exists|c: CallableView| #[trigger] proc_calls@.contains(c) && refers_to(c, id@),
{
    let items = proc_calls.items();
    let mut i: usize = 0;
    while i < items.len()
        invariant
            i <= items@.len(),
            views(items@).to_set() == proc_calls@,
            forall|j: int| 0 <= j < i ==> !refers_to((#[trigger] items@[j])@, id@),
        decreases items@.len() - i,
    {
        let hit = match (&items[i], id) {
            (
                CallableId::Transition { automaton, name },
                CallableId::Transition { automaton: b, name: n },
            ) => if automaton.as_str().is_empty() {
                same(name.as_str(), n.as_str())
            } else {
                same(automaton.as_str(), b.as_str()) && same(name.as_str(), n.as_str())
            },
            (c, d) => c.is_same(d),
        };
        assert(hit == refers_to(items@[i as int]@, id@));
        if hit {
            assert(views(items@)[i as int] == items@[i as int]@);
            assert(proc_calls@.contains(items@[i as int]@));
            return true;
        }
        i = i + 1;
    }
    assert forall|c: CallableView| #[trigger] proc_calls@.contains(c) implies !refers_to(
        c,
        id@,
    ) by {
        let j = choose|j: int| 0 <= j < views(items@).len() && views(items@)[j] == c;
        assert(items@[j]@ == c);
    }
    false
}

/// The places of the callables that the one at place `i` calls, ascending.
pub fn callees(entries: &Vec<(CallableId, DirectProfile)>, i: usize) -> (r: Vec<usize>)
    requires
        i < entries@.len(),
        entry_keys(entries@).no_duplicates(),
    ensures
        forall|k: int| 0 <= k < r@.len() ==> (#[trigger] r@[k]) < entries@.len(),
        forall|j: int|
            0 <= j < entries@.len() ==> (r@.contains(j as usize) <==> calls(
                entries_map(entries@),
                entries@[i as int].0@,
                (#[trigger] entries@[j]).0@,
            )),
        forall|k: int, l: int| 0 <= k < l < r@.len() ==> r@[k] < r@[l],
{
    let ghost direct = entries_map(entries@);
    let ghost a = entries@[i as int].0@;
    proof {
        entries_map_lookup(entries@);
        assert(entry_keys(entries@)[i as int] == a);
    }
    let mut out: Vec<usize> = Vec::new();
    let mut j: usize = 0;
    while j < entries.len()
        invariant
            j <= entries@.len(),
            i < entries@.len(),
            direct == entries_map(entries@),
            a == entries@[i as int].0@,
            direct.dom() == entry_keys(entries@).to_set(),
            direct.dom().contains(a),
            direct[a] == entries@[i as int].1@,
            forall|k: int| 0 <= k < out@.len() ==> (#[trigger] out@[k]) < j,
            forall|k: int|
                0 <= k < j ==> (out@.contains(k as usize) <==> calls(
                    direct,
                    a,
                    (#[trigger] entries@[k]).0@,
                )),
            forall|k: int, l: int| 0 <= k < l < out@.len() ==> out@[k] < out@[l],
        decreases entries@.len() - j,
    {
        let hit = any_refers_to(&entries[i].1.proc_calls, &entries[j].0);
        proof {
            let b = entries@[j as int].0@;
            assert(entry_keys(entries@)[j as int] == b);
            assert(direct.dom().contains(b));
            let own = entries@[i as int].1.proc_calls@;
            assert(direct[a].proc_calls == own);
            if hit {
                let c = choose|c: CallableView| #[trigger] own.contains(c) && refers_to(c, b);
                assert(direct[a].proc_calls.contains(c));
            }
            assert(hit == calls(direct, a, b));
        }
        let ghost before = out@;
        if hit {
            out.push(j);
        }
        proof {
            assert forall|k: int| 0 <= k < j + 1 implies (out@.contains(k as usize) <==> calls(
                direct,
                a,
                (#[trigger] entries@[k]).0@,
            )) by {
                if hit {
                    if before.contains(k as usize) {
                        let w = choose|w: int| 0 <= w < before.len() && before[w] == k as usize;
                        assert(out@[w] == k as usize);
                    }
                    if k == j {
                        assert(out@[before.len() as int] == j);
                    } else if out@.contains(k as usize) {
                        let w = choose|w: int| 0 <= w < out@.len() && out@[w] == k as usize;
                        assert(w < before.len());
                        assert(before[w] == k as usize);
                    }
                } else if k == j {
                    if before.contains(j) {
                        let w = choose|w: int| 0 <= w < before.len() && before[w] == j;
                        assert(before[w] < j);
                    }
                }
            }
        }
        j = j + 1;
    }
    out
}

// ─── Closure ───────────────────────────────────────────────────────────────

/// The sizes of sets added up.
spec fn total_size<A>(sets: Seq<Set<A>>) -> nat
    decreases sets.len(),
{
    if sets.len() == 0 {
        0
    } else {
        total_size(sets.drop_last()) + sets.last().len()
    }
}

/// Everything that is in one of the sets.
spec fn all_elements<A>(sets: Seq<Set<A>>) -> Set<A>
    decreases sets.len(),
{
    if sets.len() == 0 {
        Set::empty()
    } else {
        all_elements(sets.drop_last()).union(sets.last())
    }
}

proof fn all_elements_facts<A>(sets: Seq<Set<A>>)
    requires
        forall|i: int| 0 <= i < sets.len() ==> (#[trigger] sets[i]).finite(),
    ensures
        all_elements(sets).finite(),
        forall|i: int| 0 <= i < sets.len() ==> (#[trigger] sets[i]).subset_of(all_elements(sets)),
    decreases sets.len(),
{
    if sets.len() > 0 {
        let front = sets.drop_last();
        assert forall|i: int| 0 <= i < front.len() implies (#[trigger] front[i]).finite() by {
            assert(front[i] == sets[i]);
        }
        all_elements_facts(front);
        assert(sets[sets.len() - 1].finite());
        assert forall|i: int| 0 <= i < sets.len() implies (#[trigger] sets[i]).subset_of(
            all_elements(sets),
        ) by {
            if i < front.len() {
                assert(front[i] == sets[i]);
            }
        }
    }
}

proof fn total_size_bound<A>(sets: Seq<Set<A>>, u: Set<A>)
    requires
        u.finite(),
        forall|i: int| 0 <= i < sets.len() ==> (#[trigger] sets[i]).subset_of(u),
    ensures
        total_size(sets) <= sets.len() * u.len(),
    decreases sets.len(),
{
    if sets.len() > 0 {
        let front = sets.drop_last();
        assert forall|i: int| 0 <= i < front.len() implies (#[trigger] front[i]).subset_of(u) by {
            assert(front[i] == sets[i]);
        }
        total_size_bound(front, u);
        assert(sets[sets.len() - 1].subset_of(u));
        vstd::set_lib::lemma_len_subset(sets.last(), u);
        assert(sets.len() * u.len() == front.len() * u.len() + u.len()) by (nonlinear_arith)
            requires
                sets.len() == front.len() + 1,
        ;
    } else {
        assert(0 * u.len() == 0) by (nonlinear_arith);
    }
}

proof fn total_size_update<A>(sets: Seq<Set<A>>, i: int, s: Set<A>)
    requires
        0 <= i < sets.len(),
    ensures
        total_size(sets.update(i, s)) == total_size(sets) - sets[i].len() + s.len(),
    decreases sets.len(),
{
    if i == sets.len() - 1 {
        assert(sets.update(i, s).drop_last() =~= sets.drop_last());
    } else {
        assert(sets.update(i, s).drop_last() =~= sets.drop_last().update(i, s));
        total_size_update(sets.drop_last(), i, s);
    }
}

proof fn proper_growth<A>(s: Set<A>, t: Set<A>)
    requires
        s.finite(),
        t.finite(),
        !t.subset_of(s),
    ensures
        s.union(t).finite(),
        s.union(t).len() > s.len(),
{
    let w = choose|w: A| t.contains(w) && !s.contains(w);
    let grown = s.insert(w);
    assert(grown.subset_of(s.union(t)));
    vstd::set_lib::lemma_len_subset(grown, s.union(t));
}

/// A step that the caller makes before what the callee reaches.
proof fn call_then_reach(
    direct: Map<CallableView, DirectView>,
    a: CallableView,
    m: CallableView,
    b: CallableView,
)
    requires
        calls(direct, a, m),
        reaches(direct, m, b),
    ensures
        reaches(direct, a, b),
{
    let n = choose|n: nat| #[trigger] leads_to(direct, m, b, n);
    assert(leads_to(direct, a, b, n + 1));
}

/// Whatever a callable does is done by every callable that calls it.
pub proof fn callers_do_what_callees_do(
    direct: Map<CallableView, DirectView>,
    kind: spec_fn(DirectView) -> Set<FieldRefView>,
    a: CallableView,
    b: CallableView,
)
    requires
        calls(direct, a, b),
    ensures
        in_all(direct, kind, b).subset_of(in_all(direct, kind, a)),
{
    assert forall|f: FieldRefView| in_all(direct, kind, b).contains(f) implies in_all(
        direct,
        kind,
        a,
    ).contains(f) by {
        let c = choose|c: CallableView|
            #[trigger] reaches(direct, b, c) && kind(direct[c]).contains(f);
        call_then_reach(direct, a, b, c);
    }
}

/// Whatever a callable does by itself counts among what it does in all.
pub proof fn own_deeds_count(
    direct: Map<CallableView, DirectView>,
    kind: spec_fn(DirectView) -> Set<FieldRefView>,
    a: CallableView,
)
    requires
        direct.dom().contains(a),
    ensures
        kind(direct[a]).subset_of(in_all(direct, kind, a)),
{
    assert(leads_to(direct, a, a, 0));
    assert(reaches(direct, a, a));
}

/// What callables do in all is the least assignment that counts what each does
/// by itself and, for every call, what the callee does.
pub proof fn in_all_is_least(
    direct: Map<CallableView, DirectView>,
    kind: spec_fn(DirectView) -> Set<FieldRefView>,
    assigned: spec_fn(CallableView) -> Set<FieldRefView>,
    a: CallableView,
)
    requires
        forall|x: CallableView|
            direct.dom().contains(x) ==> kind(#[trigger] direct[x]).subset_of(assigned(x)),
        forall|x: CallableView, y: CallableView|
            #[trigger] calls(direct, x, y) ==> assigned(y).subset_of(assigned(x)),
    ensures
        in_all(direct, kind, a).subset_of(assigned(a)),
{
    assert forall|f: FieldRefView| in_all(direct, kind, a).contains(f) implies assigned(
        a,
    ).contains(f) by {
        let b = choose|b: CallableView|
            #[trigger] reaches(direct, a, b) && kind(direct[b]).contains(f);
        let n = choose|n: nat| #[trigger] leads_to(direct, a, b, n);
        least_along_path(direct, kind, assigned, a, b, n, f);
    }
}

proof fn least_along_path(
    direct: Map<CallableView, DirectView>,
    kind: spec_fn(DirectView) -> Set<FieldRefView>,
    assigned: spec_fn(CallableView) -> Set<FieldRefView>,
    a: CallableView,
    b: CallableView,
    n: nat,
    f: FieldRefView,
)
    requires
        forall|x: CallableView|
            direct.dom().contains(x) ==> kind(#[trigger] direct[x]).subset_of(assigned(x)),
        forall|x: CallableView, y: CallableView|
            #[trigger] calls(direct, x, y) ==> assigned(y).subset_of(assigned(x)),
        leads_to(direct, a, b, n),
        direct.dom().contains(b),
        kind(direct[b]).contains(f),
    ensures
        assigned(a).contains(f),
    decreases n,
{
    if n > 0 {
        let m = choose|m: CallableView|
            #[trigger] calls(direct, a, m) && leads_to(direct, m, b, (n - 1) as nat);
        least_along_path(direct, kind, assigned, m, b, (n - 1) as nat, f);
    }
}

/// What the sets hold for a callable.
spec fn held(
    entries: Seq<(CallableId, DirectProfile)>,
    sets: Seq<KeySet<FieldRef>>,
    x: CallableView,
) -> Set<FieldRefView> {
    Set::new(
        |f: FieldRefView|
            exists|i: int|
                0 <= i < entries.len() && (#[trigger] entries[i]).0@ == x && sets[i]@.contains(f),
    )
}

/// Lets every callable's set take in its callees' sets until nothing changes.
fn close(
    entries: &Vec<(CallableId, DirectProfile)>,
    start: Vec<KeySet<FieldRef>>,
    Ghost(kind): Ghost<spec_fn(DirectView) -> Set<FieldRefView>>,
) -> (r: Vec<KeySet<FieldRef>>)
    requires
        entry_keys(entries@).no_duplicates(),
        start@.len() == entries@.len(),
        forall|i: int|
            0 <= i < entries@.len() ==> (#[trigger] start@[i])@ == kind(entries@[i].1@)
                && start@[i]@.finite(),
    ensures
        r@.len() == entries@.len(),
        forall|i: int|
            0 <= i < entries@.len() ==> (#[trigger] r@[i])@ == in_all(
                entries_map(entries@),
                kind,
                entries@[i].0@,
            ),
{
    let ghost direct = entries_map(entries@);
    let n: usize = entries.len();
    let ghost u = all_elements(views(start@));
    proof {
        entries_map_lookup(entries@);
        assert forall|i: int| 0 <= i < views(start@).len() implies (#[trigger] views(
            start@,
        )[i]).finite() by {
            assert(start@[i]@.finite());
        }
        all_elements_facts(views(start@));
        assert forall|i: int| 0 <= i < n implies (#[trigger] start@[i])@.subset_of(u)
            && start@[i]@.subset_of(in_all(direct, kind, entries@[i].0@)) by {
            assert(views(start@)[i].subset_of(u));
            assert(entry_keys(entries@)[i] == entries@[i].0@);
            own_deeds_count(direct, kind, entries@[i].0@);
        }
    }
    let mut sets = start;
    let mut changed = true;
    while changed
        invariant
            n == entries@.len(),
            entry_keys(entries@).no_duplicates(),
            direct == entries_map(entries@),
            direct.dom() == entry_keys(entries@).to_set(),
            forall|i: int| 0 <= i < n ==> direct[(#[trigger] entries@[i]).0@] == entries@[i].1@,
            u.finite(),
            sets@.len() == n,
            forall|i: int|
                0 <= i < n ==> kind(entries@[i].1@).subset_of((#[trigger] sets@[i])@)
                    && sets@[i]@.subset_of(in_all(direct, kind, entries@[i].0@))
                    && sets@[i]@.subset_of(u) && sets@[i]@.finite(),
            !changed ==> forall|i: int, j: int|
                0 <= i < n && 0 <= j < n && calls(
                    direct,
                    (#[trigger] entries@[i]).0@,
                    (#[trigger] entries@[j]).0@,
                ) ==> sets@[j]@.subset_of(sets@[i]@),
        decreases n * u.len() - total_size(views(sets@)), (if changed {
            1int
        } else {
            0int
        }),
    {
        let ghost size_before = total_size(views(sets@));
        changed = false;
        let mut i: usize = 0;
        while i < n
            invariant
                i <= n,
                n == entries@.len(),
                entry_keys(entries@).no_duplicates(),
                direct == entries_map(entries@),
                direct.dom() == entry_keys(entries@).to_set(),
                forall|i: int|
                    0 <= i < n ==> direct[(#[trigger] entries@[i]).0@] == entries@[i].1@,
                u.finite(),
                sets@.len() == n,
                forall|i: int|
                    0 <= i < n ==> kind(entries@[i].1@).subset_of((#[trigger] sets@[i])@)
                        && sets@[i]@.subset_of(in_all(direct, kind, entries@[i].0@))
                        && sets@[i]@.subset_of(u) && sets@[i]@.finite(),
                total_size(views(sets@)) >= size_before,
                changed ==> total_size(views(sets@)) > size_before,
                !changed ==> forall|a: int, b: int|
                    0 <= a < i && 0 <= b < n && calls(
                        direct,
                        (#[trigger] entries@[a]).0@,
                        (#[trigger] entries@[b]).0@,
                    ) ==> sets@[b]@.subset_of(sets@[a]@),
            decreases n - i,
        {
            let next = callees(entries, i);
            let mut k: usize = 0;
            while k < next.len()
                invariant
                    i < n,
                    k <= next@.len(),
                    n == entries@.len(),
                    entry_keys(entries@).no_duplicates(),
                    direct == entries_map(entries@),
                    direct.dom() == entry_keys(entries@).to_set(),
                    forall|i: int|
                        0 <= i < n ==> direct[(#[trigger] entries@[i]).0@] == entries@[i].1@,
                    u.finite(),
                    sets@.len() == n,
                    forall|k: int| 0 <= k < next@.len() ==> (#[trigger] next@[k]) < n,
                    forall|j: int|
                        0 <= j < n ==> (next@.contains(j as usize) <==> calls(
                            direct,
                            entries@[i as int].0@,
                            (#[trigger] entries@[j]).0@,
                        )),
                    forall|i: int|
                        0 <= i < n ==> kind(entries@[i].1@).subset_of((#[trigger] sets@[i])@)
                            && sets@[i]@.subset_of(in_all(direct, kind, entries@[i].0@))
                            && sets@[i]@.subset_of(u) && sets@[i]@.finite(),
                    total_size(views(sets@)) >= size_before,
                    changed ==> total_size(views(sets@)) > size_before,
                    !changed ==> forall|a: int, b: int|
                        0 <= a < i && 0 <= b < n && calls(
                            direct,
                            (#[trigger] entries@[a]).0@,
                            (#[trigger] entries@[b]).0@,
                        ) ==> sets@[b]@.subset_of(sets@[a]@),
                    !changed ==> forall|l: int|
                        0 <= l < k ==> sets@[#[trigger] next@[l] as int]@.subset_of(
                            sets@[i as int]@,
                        ),
                decreases next@.len() - k,
            {
                let j: usize = next[k];
                let ghost before = sets@;
                let theirs = sets[j].copy_set();
                let grew = sets[i].extend(&theirs);
                proof {
                    let old_set = before[i as int]@;
                    let new_set = sets@[i as int]@;
                    assert(views(sets@) =~= views(before).update(i as int, new_set));
                    total_size_update(views(before), i as int, new_set);
                    assert(next@.contains(j));
                    assert(calls(direct, entries@[i as int].0@, entries@[j as int].0@));
                    callers_do_what_callees_do(
                        direct,
                        kind,
                        entries@[i as int].0@,
                        entries@[j as int].0@,
                    );
                    if grew {
                        proper_growth(old_set, theirs@);
                    } else {
                        assert(new_set =~= old_set);
                        assert(views(sets@) =~= views(before));
                        assert forall|x: int| 0 <= x < n implies (#[trigger] sets@[x])@
                            == before[x]@ by {
                            assert(views(sets@)[x] == views(before)[x]);
                        }
                    }
                    assert(new_set.finite());
                }
                if grew {
                    changed = true;
                }
                k = k + 1;
            }
            proof {
                if !changed {
                    assert forall|a: int, b: int|
                        0 <= a < i + 1 && 0 <= b < n && calls(
                            direct,
                            (#[trigger] entries@[a]).0@,
                            (#[trigger] entries@[b]).0@,
                        ) implies sets@[b]@.subset_of(sets@[a]@) by {
                        if a == i {
                            assert(next@.contains(b as usize));
                            let l = choose|l: int| 0 <= l < next@.len() && next@[l] == b as usize;
                            assert(sets@[next@[l] as int]@.subset_of(sets@[i as int]@));
                        }
                    }
                }
            }
            i = i + 1;
        }
        proof {
            assert forall|i: int| 0 <= i < views(sets@).len() implies (#[trigger] views(
                sets@,
            )[i]).subset_of(u) by {
                assert(sets@[i]@.subset_of(u));
            }
            total_size_bound(views(sets@), u);
        }
    }
    proof {
        let assigned = |x: CallableView| held(entries@, sets@, x);
        assert forall|x: CallableView| direct.dom().contains(x) implies kind(
            #[trigger] direct[x],
        ).subset_of(assigned(x)) by {
            let i = choose|i: int| 0 <= i < n && entry_keys(entries@)[i] == x;
            assert(entries@[i].0@ == x);
            assert(kind(entries@[i].1@).subset_of(sets@[i]@));
        }
        assert forall|x: CallableView, y: CallableView| #[trigger] calls(
            direct,
            x,
            y,
        ) implies assigned(y).subset_of(assigned(x)) by {
            let i = choose|i: int| 0 <= i < n && entry_keys(entries@)[i] == x;
            assert(entries@[i].0@ == x);
            assert forall|f: FieldRefView| #[trigger] held(entries@, sets@, y).contains(
                f,
            ) implies held(entries@, sets@, x).contains(f) by {
                let j = choose|j: int|
                    0 <= j < n && (#[trigger] entries@[j]).0@ == y && sets@[j]@.contains(f);
                assert(sets@[j]@.subset_of(sets@[i]@));
            }
        }
        assert forall|i: int| 0 <= i < n implies (#[trigger] sets@[i])@ == in_all(
            direct,
            kind,
            entries@[i].0@,
        ) by {
            let a = entries@[i].0@;
            in_all_is_least(direct, kind, assigned, a);
            assert forall|f: FieldRefView| in_all(direct, kind, a).contains(f) implies sets@[i]@.contains(
                f,
            ) by {
                assert(assigned(a).contains(f));
                let j = choose|j: int|
                    0 <= j < n && (#[trigger] entries@[j]).0@ == a && sets@[j]@.contains(f);
                assert(entry_keys(entries@)[i] == entry_keys(entries@)[j]);
                assert(i == j);
            }
            assert(sets@[i]@ =~= in_all(direct, kind, a));
        }
    }
    sets
}

/// The automatons of fields.
fn collect_automata(fields: &KeySet<FieldRef>) -> (r: KeySet<String>)
    ensures
        r@ == automata_of(fields@),
{
    let items = fields.items();
    let mut out: KeySet<String> = KeySet::new();
    let mut i: usize = 0;
    while i < items.len()
        invariant
            i <= items@.len(),
            forall|a: Seq<char>|
                out@.contains(a) <==> exists|j: int|
                    0 <= j < i && (#[trigger] items@[j]).automaton@ == a,
        decreases items@.len() - i,
    {
        let ghost before = out@;
        let _ = out.insert(items[i].automaton.clone());
        proof {
            assert forall|a: Seq<char>| out@.contains(a) <==> exists|j: int|
                0 <= j < i + 1 && (#[trigger] items@[j]).automaton@ == a by {
                if before.contains(a) {
                    let j = choose|j: int| 0 <= j < i && (#[trigger] items@[j]).automaton@ == a;
                    assert(items@[j].automaton@ == a);
                }
                if a == items@[i as int].automaton@ {
                    assert(items@[i as int].automaton@ == a);
                }
            }
        }
        i = i + 1;
    }
    proof {
        assert forall|a: Seq<char>| out@.contains(a) <==> automata_of(fields@).contains(a) by {
            if out@.contains(a) {
                let j = choose|j: int|
                    0 <= j < items@.len() && (#[trigger] items@[j]).automaton@ == a;
                assert(views(items@)[j] == items@[j]@);
                assert(fields@.contains(items@[j]@));
            }
            if automata_of(fields@).contains(a) {
                let f = choose|f: FieldRefView| #[trigger] fields@.contains(f) && f.automaton == a;
                let j = choose|j: int| 0 <= j < views(items@).len() && views(items@)[j] == f;
                assert(items@[j].automaton@ == a);
            }
        }
        assert(out@ =~= automata_of(fields@));
    }
    out
}

/// What each callable does in all, from what each does by itself.
pub fn transitively_close(direct: &KeyMap<CallableId, DirectProfile>) -> (r: KeyMap<
    CallableId,
    MutationProfile,
>)
    ensures
        r@ == profiles_of(direct@),
{
    let entries = direct.all();
    let n: usize = entries.len();
    let mut own_writes: Vec<KeySet<FieldRef>> = Vec::new();
    let mut own_reads: Vec<KeySet<FieldRef>> = Vec::new();
    let mut i: usize = 0;
    while i < n
        invariant
            i <= n == entries@.len(),
            own_writes@.len() == i,
            own_reads@.len() == i,
            forall|k: int|
                0 <= k < i ==> (#[trigger] own_writes@[k])@ == writes_of()(entries@[k].1@)
                    && own_writes@[k]@.finite(),
            forall|k: int|
                0 <= k < i ==> (#[trigger] own_reads@[k])@ == reads_of()(entries@[k].1@)
                    && own_reads@[k]@.finite(),
        decreases n - i,
    {
        let w = entries[i].1.writes.copy_set();
        let r = entries[i].1.reads.copy_set();
        let _ = w.items();
        let _ = r.items();
        own_writes.push(w);
        own_reads.push(r);
        i = i + 1;
    }
    let writes = close(entries, own_writes, Ghost(writes_of()));
    let reads = close(entries, own_reads, Ghost(reads_of()));
    let mut out: KeyMap<CallableId, MutationProfile> = KeyMap::new();
    let ghost keys = entry_keys(entries@);
    let mut k: usize = 0;
    while k < n
        invariant
            k <= n == entries@.len() == writes@.len() == reads@.len(),
            direct@ == entries_map(entries@),
            keys == entry_keys(entries@),
            keys.no_duplicates(),
            forall|i: int|
                0 <= i < n ==> (#[trigger] writes@[i])@ == in_all(
                    direct@,
                    writes_of(),
                    entries@[i].0@,
                ),
            forall|i: int|
                0 <= i < n ==> (#[trigger] reads@[i])@ == in_all(
                    direct@,
                    reads_of(),
                    entries@[i].0@,
                ),
            forall|a: CallableView|
                out@.dom().contains(a) <==> exists|j: int| 0 <= j < k && #[trigger] keys[j] == a,
            forall|a: CallableView|
                out@.dom().contains(a) ==> #[trigger] out@[a] == profile_of(direct@, a),
        decreases n - k,
    {
        let profile = MutationProfile {
            actual_writes: writes[k].copy_set(),
            actual_reads: reads[k].copy_set(),
            actual_automata: collect_automata(&writes[k]),
        };
        let ghost before = out@;
        let id = entries[k].0.copy();
        out.insert(id, profile);
        proof {
            assert(keys[k as int] == id@);
            assert(profile@ == profile_of(direct@, id@));
            assert forall|a: CallableView| out@.dom().contains(a) <==> exists|j: int|
                0 <= j < k + 1 && #[trigger] keys[j] == a by {
                if before.dom().contains(a) {
                    let j = choose|j: int| 0 <= j < k && #[trigger] keys[j] == a;
                    assert(keys[j] == a);
                }
            }
        }
        k = k + 1;
    }
    proof {
        assert forall|a: CallableView| out@.dom().contains(a) <==> direct@.dom().contains(a) by {
            if direct@.dom().contains(a) {
                let j = choose|j: int| 0 <= j < keys.len() && keys[j] == a;
                assert(keys[j] == a);
            }
            if out@.dom().contains(a) {
                let j = choose|j: int| 0 <= j < k && #[trigger] keys[j] == a;
                assert(keys.contains(a));
            }
        }
        assert(out@ =~= profiles_of(direct@));
    }
    out
}

// ─── Validation ────────────────────────────────────────────────────────────

/// Whether the name is listed.
pub fn is_listed(names: &Vec<String>, name: &str) -> (r: bool)
    ensures
        r == listed(names@, name@),
{
    let mut i: usize = 0;
    while i < names.len()
        invariant
            i <= names@.len(),
            forall|j: int| 0 <= j < i ==> (#[trigger] names@[j])@ != name@,
        decreases names@.len() - i,
    {
        if same(names[i].as_str(), name) {
            assert(views(names@)[i as int] == name@);
            return true;
        }
        i = i + 1;
    }
    assert(!views(names@).contains(name@)) by {
        if views(names@).contains(name@) {
            let j = choose|j: int| 0 <= j < names@.len() && views(names@)[j] == name@;
            assert(names@[j]@ == name@);
        }
    }
    false
}

/// Checks the automatons that a callable writes against its two lists.
fn validate_declared_mutates(
    callable: &str,
    at: usize,
    mutates: &Vec<String>,
    cannot_mutate: &Vec<String>,
    profile: &MutationProfile,
    errors: &mut Vec<EffectError>,
)
    ensures
        views(final(errors)@) == views(old(errors)@) + mutates_errors(
            callable@,
            at as nat,
            mutates@,
            cannot_mutate@,
            in_order::<String>(profile@.automata),
        ),
{
    let names = sorted_elements(&profile.actual_automata);
    let ghost start = views(errors@);
    let ghost all = views(names@);
    let mut i: usize = 0;
    assert(all.take(0) =~= Seq::<Seq<char>>::empty());
    assert(views(errors@) =~= start + Seq::empty());
    while i < names.len()
        invariant
            i <= names@.len(),
            all == views(names@),
            views(errors@) == start + mutates_errors(
                callable@,
                at as nat,
                mutates@,
                cannot_mutate@,
                all.take(i as int),
            ),
        decreases names@.len() - i,
    {
        let name = names[i].as_str();
        let ghost before = views(errors@);
        proof {
            assert(all.take(i as int + 1).drop_last() =~= all.take(i as int));
            assert(all.take(i as int + 1).last() == name@);
        }
        if !is_listed(mutates, name) {
            let e = EffectError::EffectMutatesUndeclaredAutomaton {
                callable: callable.to_owned(),
                automaton: name.to_owned(),
                at,
            };
            errors.push(e);
            assert(views(errors@) =~= before + seq![e@]);
        } else {
            assert(views(errors@) =~= before + Seq::empty());
        }
        let ghost between = views(errors@);
        if is_listed(cannot_mutate, name) {
            let e = EffectError::EffectMutatesExcludedAutomaton {
                callable: callable.to_owned(),
                automaton: name.to_owned(),
                at,
            };
            errors.push(e);
            assert(views(errors@) =~= between + seq![e@]);
        } else {
            assert(views(errors@) =~= between + Seq::empty());
        }
        assert(views(errors@) =~= start + mutates_errors(
            callable@,
            at as nat,
            mutates@,
            cannot_mutate@,
            all.take(i as int + 1),
        ));
        i = i + 1;
    }
    assert(all.take(i as int) =~= all);
}

/// Checks the writes of the callable that an item declares.
fn validate_item(
    profiles: &KeyMap<CallableId, MutationProfile>,
    item: &Item,
    errors: &mut Vec<EffectError>,
)
    ensures
        views(final(errors)@) == views(old(errors)@) + item_errors(profiles@, *item),
{
    let ghost start = views(errors@);
    assert(start =~= start + Seq::empty());
    match item {
        Item::Effect(d) => {
            let id = CallableId::Effect(d.name.clone());
            if let Some(profile) = profiles.get(&id) {
                validate_declared_mutates(
                    d.name.as_str(),
                    d.span.start,
                    &d.mutates,
                    &d.cannot_mutate,
                    profile,
                    errors,
                );
            }
        },
        Item::Interrupt(d) => {
            let id = CallableId::Interrupt(d.name.clone());
            let none: Vec<String> = Vec::new();
            assert(none@ =~= Seq::<String>::empty());
            if let Some(profile) = profiles.get(&id) {
                validate_declared_mutates(
                    d.name.as_str(),
                    d.span.start,
                    &d.mutates,
                    &none,
                    profile,
                    errors,
                );
            }
        },
        _ => {},
    }
}

/// The outcome of the extraction as a mathematical value.
pub open spec fn outcome(r: Result<MutationProfiles, Vec<EffectError>>) -> Result<
    Map<CallableView, ProfileView>,
    Seq<EffectErrorView>,
> {
    match r {
        Ok(p) => Ok(p@),
        Err(errors) => Err(views(errors@)),
    }
}

/// Extracts what every callable of a program writes and reads, by itself and
/// through everything it calls.
///
/// An effect or interrupt may write only the automatons that its `#mutates`
/// lists, and none that its `#cannot_mutate` lists. The errors are ordered by
/// source position.
pub fn extract_mutation_profiles(program: &Program, resolution: &Resolution) -> (r: Result<
    MutationProfiles,
    Vec<EffectError>,
>)
    ensures
        outcome(r) == profiles_outcome(*program, *resolution),
{
    let direct = collect_direct_profiles(program, resolution);
    let profiles = transitively_close(&direct);
    let ghost items = program.items@;
    let mut errors: Vec<EffectError> = Vec::new();
    let mut i: usize = 0;
    assert(items.take(0) =~= Seq::<Item>::empty());
    assert(views(errors@) =~= Seq::<EffectErrorView>::empty());
    while i < program.items.len()
        invariant
            i <= items.len(),
            items == program.items@,
            views(errors@) == profile_errors(profiles@, items.take(i as int)),
        decreases items.len() - i,
    {
        proof {
            assert(items.take(i as int + 1).drop_last() =~= items.take(i as int));
            assert(items.take(i as int + 1).last() == items[i as int]);
        }
        validate_item(&profiles, &program.items[i], &mut errors);
        i = i + 1;
    }
    assert(items.take(i as int) =~= items);
    if errors.len() == 0 {
        Ok(MutationProfiles { profiles })
    } else {
        Err(sort_by_offset(errors))
    }
}

} // verus!
