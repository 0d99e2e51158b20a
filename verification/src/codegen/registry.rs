//! What code generation knows of the whole program: its automatons, the owners
//! of its transitions, and the results of name resolution and type inference.
use vstd::prelude::*;

use crate::ast::{AutomatonDecl, AutomatonField, Item, Program, TransitionDecl};
use crate::codegen::error::{unresolved, CodegenError, CodegenErrorView};
use crate::codegen::irtype::{lower_type, written_ir};
use crate::codegen::literal::{address_value, parse_address_literal};
use crate::resolve::Resolution;
use crate::text::same;
use crate::types::Typing;

verus! {

// ─── Model ─────────────────────────────────────────────────────────────────

/// A field of an automaton.
pub ghost struct FieldView {
    pub name: Seq<char>,
    /// The IR type.
    pub ty: Seq<char>,
    /// The offset in a register block.
    pub offset: Option<nat>,
}

/// An automaton.
pub ghost struct AutomatonView {
    pub name: Seq<char>,
    pub fields: Seq<FieldView>,
    /// The fields are registers at fixed addresses.
    pub is_register_block: bool,
    /// Where the register block starts.
    pub base_address: nat,
    /// The declared states with their tags.
    pub states: Seq<(Seq<char>, nat)>,
    pub is_staged: bool,
    pub is_audited: bool,
}

/// Where a field lives: at an index of the state struct or at a fixed address.
pub ghost enum LocationView {
    Struct { idx: nat },
    RegisterBlock { address: nat },
}

/// The first field of the given name.
pub open spec fn field_position(fields: Seq<FieldView>, name: Seq<char>) -> Option<int>
    decreases fields.len(),
{
    if fields.len() == 0 {
        None
    } else {
        match field_position(fields.drop_last(), name) {
            Some(i) => Some(i),
            None => if fields.last().name == name {
                Some(fields.len() - 1)
            } else {
                None
            },
        }
    }
}

/// The tag of the first state of the given name.
pub open spec fn tag_of(states: Seq<(Seq<char>, nat)>, name: Seq<char>) -> Option<nat>
    decreases states.len(),
{
    if states.len() == 0 {
        None
    } else {
        match tag_of(states.drop_last(), name) {
            Some(t) => Some(t),
            None => if states.last().0 == name {
                Some(states.last().1)
            } else {
                None
            },
        }
    }
}

impl AutomatonView {
    /// The automaton has a `#states` list.
    pub open spec fn is_multi_state(self) -> bool {
        self.states.len() > 0
    }

    /// Where the `i`th field lives. In a multi-state automaton the state tag
    /// takes the first place of the struct.
    pub open spec fn location(self, i: int) -> LocationView {
        if self.is_register_block {
            LocationView::RegisterBlock {
                address: self.base_address + self.fields[i].offset.unwrap_or(0),
            }
        } else {
            LocationView::Struct {
                idx: if self.is_multi_state() {
                    (i + 1) as nat
                } else {
                    i as nat
                },
            }
        }
    }

    /// The global that receives writes: of a staged automaton its shadow.
    pub open spec fn write_global(self) -> Seq<char> {
        if self.is_staged && !self.is_register_block {
            "@"@ + self.name + ".shadow"@
        } else {
            "@"@ + self.name + ".state"@
        }
    }
}

/// What a declared field is in IR.
pub open spec fn declared_field(decl: AutomatonDecl, f: AutomatonField) -> FieldView {
    FieldView {
        name: f.name@,
        ty: match written_ir(f.ty) {
            Ok(t) => t,
            Err(_) => "i32"@,
        },
        offset: if decl.address is Some {
            Some(
                match f.offset {
                    Some(o) => address_value(o@).unwrap_or(0),
                    None => 0,
                },
            )
        } else {
            None
        },
    }
}

/// What a declared automaton is in IR.
pub open spec fn declared_automaton(decl: AutomatonDecl) -> AutomatonView {
    AutomatonView {
        name: decl.name@,
        fields: Seq::new(decl.fields@.len(), |i: int| declared_field(decl, decl.fields@[i])),
        is_register_block: decl.address is Some,
        base_address: match decl.address {
            Some(a) => address_value(a.value@).unwrap_or(0),
            None => 0,
        },
        states: match decl.states {
            Some(names) => Seq::new(
                names@.len(),
                |i: int| (names@[i].name@, (i as u32) as nat),
            ),
            None => Seq::empty(),
        },
        is_staged: decl.staged,
        is_audited: decl.audited,
    }
}

/// The automaton that a name refers to: the last one declared under it.
pub open spec fn find_automaton(items: Seq<Item>, name: Seq<char>) -> Option<AutomatonView>
    decreases items.len(),
{
    if items.len() == 0 {
        None
    } else {
        match items.last() {
            Item::Automaton(d) if d.name@ == name => Some(declared_automaton(d)),
            _ => find_automaton(items.drop_last(), name),
        }
    }
}

/// One of the transitions has the given name.
pub open spec fn has_transition(ts: Seq<TransitionDecl>, name: Seq<char>) -> bool {
    exists|i: int| 0 <= i < ts.len() && (#[trigger] ts[i]).name@ == name
}

/// The item is the named automaton and declares the transition.
pub open spec fn is_transition_of(i: Item, owner: Seq<char>, name: Seq<char>) -> bool {
    match i {
        Item::Automaton(d) => d.name@ == owner && has_transition(d.transitions@, name),
        _ => false,
    }
}

/// An automaton of the given name declares the transition.
pub open spec fn declares_transition(items: Seq<Item>, owner: Seq<char>, name: Seq<char>) -> bool {
    exists|i: int| 0 <= i < items.len() && is_transition_of(#[trigger] items[i], owner, name)
}

/// The automaton whose transition a name refers to: the first that has one.
pub open spec fn find_owner(items: Seq<Item>, name: Seq<char>) -> Option<Seq<char>>
    decreases items.len(),
{
    if items.len() == 0 {
        None
    } else {
        match find_owner(items.drop_last(), name) {
            Some(o) => Some(o),
            None => match items.last() {
                Item::Automaton(d) if has_transition(d.transitions@, name) => Some(d.name@),
                _ => None,
            },
        }
    }
}

/// What code generation may consult: the program's items and what earlier
/// phases found out about them.
pub ghost struct Env {
    pub items: Seq<Item>,
    pub resolution: Resolution,
    pub typing: Typing,
}

impl Env {
    /// The automaton that a name refers to.
    pub open spec fn automaton(self, name: Seq<char>) -> Option<AutomatonView> {
        find_automaton(self.items, name)
    }

    /// The automaton whose transition a name refers to.
    pub open spec fn owner(self, transition: Seq<char>) -> Option<Seq<char>> {
        find_owner(self.items, transition)
    }

    /// The global that receives writes to an automaton.
    pub open spec fn write_global(self, name: Seq<char>) -> Seq<char> {
        match self.automaton(name) {
            Some(a) => a.write_global(),
            None => "@"@ + name + ".state"@,
        }
    }

    /// Where `automaton.field` lives and its IR type.
    pub open spec fn locate(self, automaton: Seq<char>, field: Seq<char>) -> Result<
        (LocationView, Seq<char>),
        CodegenErrorView,
    > {
        match self.automaton(automaton) {
            None => Err(unresolved(automaton)),
            Some(a) => match field_position(a.fields, field) {
                None => Err(unresolved(automaton + "."@ + field)),
                Some(i) => Ok((a.location(i), a.fields[i].ty)),
            },
        }
    }
}

// ─── Registry ──────────────────────────────────────────────────────────────

/// Where a field lives.
#[derive(Debug, Clone, Copy)]
pub enum FieldLocation {
    /// At an index of the state struct.
    Struct { idx: usize },
    /// At a fixed address.
    RegisterBlock { absolute_address: u128 },
}

impl View for FieldLocation {
    type V = LocationView;

    open spec fn view(&self) -> LocationView {
        match self {
            FieldLocation::Struct { idx } => LocationView::Struct { idx: *idx as nat },
            FieldLocation::RegisterBlock { absolute_address } => LocationView::RegisterBlock {
                address: *absolute_address as nat,
            },
        }
    }
}

/// What is known of an automaton.
pub struct AutomatonInfo {
    pub name: String,
    /// Name, IR type and, in a register block, offset of each field in order.
    pub fields: Vec<(String, String, Option<u64>)>,
    pub is_register_block: bool,
    /// Where a register block starts, else 0.
    pub base_address: u64,
    /// The declared states with their tags; empty without a `#states` list.
    pub state_tags: Vec<(String, u32)>,
    pub is_audited: bool,
    pub is_staged: bool,
}

/// A recorded field as a mathematical value.
pub open spec fn field_view(f: (String, String, Option<u64>)) -> FieldView {
    FieldView {
        name: f.0@,
        ty: f.1@,
        offset: match f.2 {
            Some(o) => Some(o as nat),
            None => None,
        },
    }
}

impl View for AutomatonInfo {
    type V = AutomatonView;

    open spec fn view(&self) -> AutomatonView {
        AutomatonView {
            name: self.name@,
            fields: Seq::new(self.fields@.len(), |i: int| field_view(self.fields@[i])),
            is_register_block: self.is_register_block,
            base_address: self.base_address as nat,
            states: Seq::new(
                self.state_tags@.len(),
                |i: int| (self.state_tags@[i].0@, self.state_tags@[i].1 as nat),
            ),
            is_staged: self.is_staged,
            is_audited: self.is_audited,
        }
    }
}

impl AutomatonInfo {
    /// Whether the automaton has a `#states` list.
    pub fn is_multi_state(&self) -> (r: bool)
        ensures
            r == self@.is_multi_state(),
    {
        self.state_tags.len() > 0
    }

    /// The index in the state struct of the field declared at `user_idx`.
    pub fn llvm_field_index(&self, user_idx: usize) -> (r: usize)
        requires
            self@.is_multi_state() ==> user_idx < usize::MAX,
        ensures
            r == if self@.is_multi_state() {
                user_idx + 1
            } else {
                user_idx as int
            },
    {
        if self.is_multi_state() {
            user_idx + 1
        } else {
            user_idx
        }
    }

    /// The tag of a state.
    pub fn state_tag(&self, state_name: &str) -> (r: Option<u32>)
        ensures
            match r {
                Some(t) => tag_of(self@.states, state_name@) == Some(t as nat),
                None => tag_of(self@.states, state_name@) is None,
            },
    {
        let mut i: usize = 0;
        let ghost states = self@.states;
        while i < self.state_tags.len()
            invariant
                i <= self.state_tags@.len() == states.len(),
                states == self@.states,
                tag_of(states.take(i as int), state_name@) is None,
            decreases self.state_tags@.len() - i,
        {
            proof {
                assert(states.take(i as int + 1).drop_last() =~= states.take(i as int));
            }
            if same(self.state_tags[i].0.as_str(), state_name) {
                proof {
                    tag_of_prefix(states, i + 1, state_name@);
                }
                return Some(self.state_tags[i].1);
            }
            i = i + 1;
        }
        assert(states.take(i as int) =~= states);
        None
    }

    /// The global that receives writes.
    pub fn write_global(&self) -> (r: String)
        ensures
            r@ == self@.write_global(),
    {
        let mut out = "@".to_owned();
        out.append(self.name.as_str());
        if self.is_staged && !self.is_register_block {
            out.append(".shadow");
        } else {
            out.append(".state");
        }
        out
    }

    /// The position of the first field of the given name.
    pub fn position(&self, field: &str) -> (r: Option<usize>)
        ensures
            match r {
                Some(i) => field_position(self@.fields, field@) == Some(i as int) && i
                    < self.fields@.len(),
                None => field_position(self@.fields, field@) is None,
            },
    {
        let mut i: usize = 0;
        let ghost fields = self@.fields;
        while i < self.fields.len()
            invariant
                i <= self.fields@.len() == fields.len(),
                fields == self@.fields,
                field_position(fields.take(i as int), field@) is None,
            decreases self.fields@.len() - i,
        {
            proof {
                assert(fields.take(i as int + 1).drop_last() =~= fields.take(i as int));
            }
            if same(self.fields[i].0.as_str(), field) {
                proof {
                    field_position_prefix(fields, i + 1, field@);
                }
                return Some(i);
            }
            i = i + 1;
        }
        assert(fields.take(i as int) =~= fields);
        None
    }

    /// Where the field at a position lives.
    pub fn location(&self, i: usize) -> (r: FieldLocation)
        requires
            i < self.fields@.len(),
        ensures
            r@ == self@.location(i as int),
    {
        let n: usize = self.fields.len();
        if self.is_register_block {
            let offset: u64 = match self.fields[i].2 {
                Some(o) => o,
                None => 0,
            };
            FieldLocation::RegisterBlock {
                absolute_address: self.base_address as u128 + offset as u128,
            }
        } else {
            FieldLocation::Struct { idx: self.llvm_field_index(i) }
        }
    }
}

proof fn tag_of_prefix(states: Seq<(Seq<char>, nat)>, i: int, name: Seq<char>)
    requires
        0 <= i <= states.len(),
        tag_of(states.take(i), name) is Some,
    ensures
        tag_of(states, name) == tag_of(states.take(i), name),
    decreases states.len(),
{
    if i == states.len() {
        assert(states.take(i) =~= states);
    } else {
        assert(states.drop_last().take(i) =~= states.take(i));
        tag_of_prefix(states.drop_last(), i, name);
    }
}

proof fn field_position_prefix(fields: Seq<FieldView>, i: int, name: Seq<char>)
    requires
        0 <= i <= fields.len(),
        field_position(fields.take(i), name) is Some,
    ensures
        field_position(fields, name) == field_position(fields.take(i), name),
    decreases fields.len(),
{
    if i == fields.len() {
        assert(fields.take(i) =~= fields);
    } else {
        assert(fields.drop_last().take(i) =~= fields.take(i));
        field_position_prefix(fields.drop_last(), i, name);
    }
}

/// The last of the recorded automatons that has the given name.
spec fn last_info(infos: Seq<AutomatonInfo>, name: Seq<char>) -> Option<AutomatonView>
    decreases infos.len(),
{
    if infos.len() == 0 {
        None
    } else if infos.last().name@ == name {
        Some(infos.last()@)
    } else {
        last_info(infos.drop_last(), name)
    }
}

/// The owner in the first entry for a transition name.
spec fn first_owner(owners: Seq<(String, String)>, name: Seq<char>) -> Option<Seq<char>>
    decreases owners.len(),
{
    if owners.len() == 0 {
        None
    } else {
        match first_owner(owners.drop_last(), name) {
            Some(o) => Some(o),
            None => if owners.last().0@ == name {
                Some(owners.last().1@)
            } else {
                None
            },
        }
    }
}

/// Everything that the lowering of a construct may consult.
pub struct Context<'a> {
    program: &'a Program,
    resolution: &'a Resolution,
    typing: &'a Typing,
    automatons: Vec<AutomatonInfo>,
    transition_owners: Vec<(String, String)>,
}

impl<'a> View for Context<'a> {
    type V = Env;

    closed spec fn view(&self) -> Env {
        Env {
            items: self.program.items@,
            resolution: *self.resolution,
            typing: *self.typing,
        }
    }
}

impl<'a> Context<'a> {
    /// The tables hold what the program declares.
    #[verifier::type_invariant]
    spec fn wf(&self) -> bool {
        &&& forall|name: Seq<char>|
            #![trigger find_automaton(self.program.items@, name)]
            last_info(self.automatons@, name) == find_automaton(self.program.items@, name)
        &&& forall|name: Seq<char>|
            #![trigger find_owner(self.program.items@, name)]
            first_owner(self.transition_owners@, name) == find_owner(self.program.items@, name)
    }

    /// Name resolution as recorded.
    pub fn resolution(&self) -> (r: &'a Resolution)
        ensures
            *r == self@.resolution,
    {
        self.resolution
    }

    /// Type inference as recorded.
    pub fn typing(&self) -> (r: &'a Typing)
        ensures
            *r == self@.typing,
    {
        self.typing
    }

    /// Collects the automatons of a program and the owners of its transitions.
    pub fn collect_automatons(
        program: &'a Program,
        resolution: &'a Resolution,
        typing: &'a Typing,
    ) -> (r: Context<'a>)
        ensures
            r@ == (Env { items: program.items@, resolution: *resolution, typing: *typing }),
    {
        let mut automatons: Vec<AutomatonInfo> = Vec::new();
        let mut owners: Vec<(String, String)> = Vec::new();
        let mut i: usize = 0;
        let ghost items = program.items@;
        while i < program.items.len()
            invariant
                i <= items.len(),
                items == program.items@,
                forall|name: Seq<char>|
                    last_info(automatons@, name) == #[trigger] find_automaton(
                        items.take(i as int),
                        name,
                    ),
                forall|name: Seq<char>|
                    first_owner(owners@, name) == #[trigger] find_owner(
                        items.take(i as int),
                        name,
                    ),
            decreases items.len() - i,
        {
            proof {
                assert(items.take(i as int + 1).drop_last() =~= items.take(i as int));
                assert(items.take(i as int + 1).last() == items[i as int]);
            }
            if let Item::Automaton(decl) = &program.items[i] {
                let info = automaton_info(decl);
                let ghost before = automatons@;
                automatons.push(info);
                proof {
                    assert(automatons@.drop_last() =~= before);
                }
                record_owners(&mut owners, decl);
            }
            proof {
                assert forall|name: Seq<char>|
                    last_info(automatons@, name) == #[trigger] find_automaton(
                        items.take(i as int + 1),
                        name,
                    ) by {
                    assert(find_automaton(items.take(i as int), name) == find_automaton(
                        items.take(i as int),
                        name,
                    ));
                }
                assert forall|name: Seq<char>|
                    first_owner(owners@, name) == #[trigger] find_owner(
                        items.take(i as int + 1),
                        name,
                    ) by {
                    assert(find_owner(items.take(i as int), name) == find_owner(
                        items.take(i as int),
                        name,
                    ));
                }
            }
            i = i + 1;
        }
        assert(items.take(i as int) =~= items);
        Context { program, resolution, typing, automatons, transition_owners: owners }
    }

    /// The automaton that a name refers to.
    pub fn automaton(&self, name: &str) -> (r: Option<&AutomatonInfo>)
        ensures
            match r {
                Some(a) => self@.automaton(name@) == Some(a@) && a.name@ == name@,
                None => self@.automaton(name@) is None,
            },
    {
        proof {
            use_type_invariant(self);
            assert(find_automaton(self.program.items@, name@) == last_info(
                self.automatons@,
                name@,
            ));
        }
        let mut i: usize = self.automatons.len();
        assert(self.automatons@.take(i as int) =~= self.automatons@);
        while i > 0
            invariant
                i <= self.automatons@.len(),
                self@.automaton(name@) == last_info(self.automatons@.take(i as int), name@),
            decreases i,
        {
            assert(self.automatons@.take(i as int).drop_last() =~= self.automatons@.take(i - 1));
            i = i - 1;
            if same(self.automatons[i].name.as_str(), name) {
                return Some(&self.automatons[i]);
            }
        }
        None
    }

    /// The automaton whose transition a name refers to.
    pub fn owner(&self, transition: &str) -> (r: Option<&String>)
        ensures
            match r {
                Some(o) => self@.owner(transition@) == Some(o@),
                None => self@.owner(transition@) is None,
            },
    {
        let mut i: usize = 0;
        let ghost owners = self.transition_owners@;
        while i < self.transition_owners.len()
            invariant
                i <= owners.len(),
                owners == self.transition_owners@,
                first_owner(owners.take(i as int), transition@) is None,
            decreases owners.len() - i,
        {
            proof {
                assert(owners.take(i as int + 1).drop_last() =~= owners.take(i as int));
            }
            if same(self.transition_owners[i].0.as_str(), transition) {
                proof {
                    use_type_invariant(self);
                    first_owner_prefix(owners, i + 1, transition@);
                    assert(find_owner(self.program.items@, transition@) == first_owner(
                        owners,
                        transition@,
                    ));
                }
                return Some(&self.transition_owners[i].1);
            }
            i = i + 1;
        }
        proof {
            use_type_invariant(self);
            assert(owners.take(i as int) =~= owners);
            assert(find_owner(self.program.items@, transition@) == first_owner(
                owners,
                transition@,
            ));
        }
        None
    }

    /// Whether an automaton of the given name declares a transition.
    pub fn declares_transition(&self, owner: &str, transition: &str) -> (r: bool)
        ensures
            r == declares_transition(self@.items, owner@, transition@),
    {
        let ghost items = self.program.items@;
        let mut i: usize = 0;
        while i < self.program.items.len()
            invariant
                i <= items.len(),
                items == self.program.items@,
                forall|j: int|
                    0 <= j < i ==> !is_transition_of(#[trigger] items[j], owner@, transition@),
            decreases items.len() - i,
        {
            if let Item::Automaton(d) = &self.program.items[i] {
                if same(d.name.as_str(), owner) && lists_transition(&d.transitions, transition) {
                    assert(is_transition_of(items[i as int], owner@, transition@));
                    return true;
                }
            }
            i = i + 1;
        }
        false
    }

    /// The global that receives writes to an automaton.
    pub fn write_global(&self, name: &str) -> (r: String)
        ensures
            r@ == self@.write_global(name@),
    {
        match self.automaton(name) {
            Some(a) => a.write_global(),
            None => {
                let mut out = "@".to_owned();
                out.append(name);
                out.append(".state");
                out
            },
        }
    }

    /// Where `automaton.field` lives and its IR type.
    pub fn locate(&self, automaton: &str, field: &str) -> (r: Result<
        (FieldLocation, String),
        CodegenError,
    >)
        ensures
            match r {
                Ok((loc, ty)) => self@.locate(automaton@, field@) == Ok::<
                    (LocationView, Seq<char>),
                    CodegenErrorView,
                >((loc@, ty@)),
                Err(e) => self@.locate(automaton@, field@) == Err::<
                    (LocationView, Seq<char>),
                    CodegenErrorView,
                >(e@),
            },
    {
        match self.automaton(automaton) {
            None => Err(CodegenError::UnresolvedName { name: automaton.to_owned() }),
            Some(a) => match a.position(field) {
                None => {
                    let mut name = automaton.to_owned();
                    name.append(".");
                    name.append(field);
                    Err(CodegenError::UnresolvedName { name })
                },
                Some(i) => Ok((a.location(i), a.fields[i].1.clone())),
            },
        }
    }
}

/// Whether one of the transitions has the given name.
fn lists_transition(ts: &Vec<TransitionDecl>, name: &str) -> (r: bool)
    ensures
        r == has_transition(ts@, name@),
{
    let mut i: usize = 0;
    while i < ts.len()
        invariant
            i <= ts@.len(),
            forall|j: int| 0 <= j < i ==> (#[trigger] ts@[j]).name@ != name@,
        decreases ts@.len() - i,
    {
        if same(ts[i].name.as_str(), name) {
            assert(ts@[i as int].name@ == name@);
            return true;
        }
        i = i + 1;
    }
    false
}

proof fn first_owner_prefix(owners: Seq<(String, String)>, i: int, name: Seq<char>)
    requires
        0 <= i <= owners.len(),
        first_owner(owners.take(i), name) is Some,
    ensures
        first_owner(owners, name) == first_owner(owners.take(i), name),
    decreases owners.len(),
{
    if i == owners.len() {
        assert(owners.take(i) =~= owners);
    } else {
        assert(owners.drop_last().take(i) =~= owners.take(i));
        first_owner_prefix(owners.drop_last(), i, name);
    }
}

proof fn has_transition_step(ts: Seq<TransitionDecl>, k: int, name: Seq<char>)
    requires
        0 <= k < ts.len(),
    ensures
        has_transition(ts.take(k + 1), name) == (has_transition(ts.take(k), name)
            || ts[k].name@ == name),
{
    if has_transition(ts.take(k), name) {
        let i = choose|i: int| 0 <= i < k && (#[trigger] ts.take(k)[i]).name@ == name;
        assert(ts.take(k + 1)[i].name@ == name);
    }
    if ts[k].name@ == name {
        assert(ts.take(k + 1)[k].name@ == name);
    }
    if has_transition(ts.take(k + 1), name) {
        let i = choose|i: int| 0 <= i < k + 1 && (#[trigger] ts.take(k + 1)[i]).name@ == name;
        if i < k {
            assert(ts.take(k)[i].name@ == name);
        }
    }
}

/// Enters the transitions of an automaton behind those of earlier ones.
fn record_owners(owners: &mut Vec<(String, String)>, decl: &AutomatonDecl)
    ensures
        forall|name: Seq<char>|
            #[trigger] first_owner(final(owners)@, name) == match first_owner(old(owners)@, name) {
                Some(o) => Some(o),
                None => if has_transition(decl.transitions@, name) {
                    Some(decl.name@)
                } else {
                    None
                },
            },
{
    let ghost start = owners@;
    let ghost ts = decl.transitions@;
    let mut k: usize = 0;
    while k < decl.transitions.len()
        invariant
            k <= ts.len(),
            ts == decl.transitions@,
            forall|name: Seq<char>|
                #[trigger] first_owner(owners@, name) == match first_owner(start, name) {
                    Some(o) => Some(o),
                    None => if has_transition(ts.take(k as int), name) {
                        Some(decl.name@)
                    } else {
                        None
                    },
                },
        decreases ts.len() - k,
    {
        let ghost before = owners@;
        owners.push((decl.transitions[k].name.clone(), decl.name.clone()));
        proof {
            assert(owners@.drop_last() =~= before);
            assert forall|name: Seq<char>| #[trigger]
                first_owner(owners@, name) == match first_owner(start, name) {
                    Some(o) => Some(o),
                    None => if has_transition(ts.take(k as int + 1), name) {
                        Some(decl.name@)
                    } else {
                        None
                    },
                } by {
                has_transition_step(ts, k as int, name);
                assert(first_owner(before, name) == first_owner(before, name));
            }
        }
        k = k + 1;
    }
    assert(ts.take(k as int) =~= ts);
}

/// What a declared automaton is in IR.
fn automaton_info(decl: &AutomatonDecl) -> (r: AutomatonInfo)
    ensures
        r@ == declared_automaton(*decl),
        r.name@ == decl.name@,
{
    let is_register_block = decl.address.is_some();
    let base_address: u64 = match &decl.address {
        Some(a) => match parse_address_literal(a.value.as_str()) {
            Some(v) => v,
            None => 0,
        },
        None => 0,
    };
    let mut fields: Vec<(String, String, Option<u64>)> = Vec::new();
    let mut i: usize = 0;
    while i < decl.fields.len()
        invariant
            i <= decl.fields@.len(),
            fields@.len() == i,
            is_register_block == decl.address is Some,
            forall|j: int|
                0 <= j < i ==> field_view(#[trigger] fields@[j]) == declared_field(
                    *decl,
                    decl.fields@[j],
                ),
        decreases decl.fields@.len() - i,
    {
        let f = &decl.fields[i];
        let ir_ty = match lower_type(&f.ty) {
            Ok(t) => t,
            Err(_) => "i32".to_owned(),
        };
        let offset: Option<u64> = if is_register_block {
            match &f.offset {
                Some(o) => match parse_address_literal(o.as_str()) {
                    Some(v) => Some(v),
                    None => Some(0),
                },
                None => Some(0),
            }
        } else {
            None
        };
        fields.push((f.name.clone(), ir_ty, offset));
        i = i + 1;
    }
    let mut state_tags: Vec<(String, u32)> = Vec::new();
    if let Some(names) = &decl.states {
        let mut k: usize = 0;
        while k < names.len()
            invariant
                k <= names@.len(),
                state_tags@.len() == k,
                forall|j: int|
                    0 <= j < k ==> (#[trigger] state_tags@[j]).0@ == names@[j].name@
                        && state_tags@[j].1 == j as u32,
            decreases names@.len() - k,
        {
            #[verifier::truncate]
            let tag: u32 = k as u32;
            state_tags.push((names[k].name.clone(), tag));
            k = k + 1;
        }
    }
    let r = AutomatonInfo {
        name: decl.name.clone(),
        fields,
        is_register_block,
        base_address,
        state_tags,
        is_staged: decl.staged,
        is_audited: decl.audited,
    };
    assert(r@.fields =~= declared_automaton(*decl).fields);
    assert(r@.states =~= declared_automaton(*decl).states);
    r
}

} // verus!
