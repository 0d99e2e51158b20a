//! Where the fields of automatons live, and what stands around the bodies of
//! functions.
use vstd::prelude::*;

use crate::ast::{
    AtomicKind, AutomatonDecl, Block, Item, Param, PrimitiveType, Program, StateName, Stmt,
    TraitRef, TransitionDecl, TypeExpr, TypeKind,
};
use crate::codegen::instructions::{behind, Instr};
use crate::codegen::control::duties_done;
use crate::codegen::irtype::{
    element_ir, float_ir, integer_ir, pointer_ir, primitive_ir, type_ir, types_ir, written_ir,
};
use crate::codegen::literal::address_value;
use crate::codegen::lowering::{
    atomic_entry, body, callee_symbol, destination, entry_fence, field_errors, flushable, function,
    item, items, leaving_fence, lowered, module_header, parameters, put_entry, return_type,
    staged_intrinsics, state_struct, state_structs, stmts, struct_types, transition, transitions,
};
use crate::codegen::meaning::bits;
use crate::codegen::registry::{
    declared_automaton, declared_field, declares_transition, field_position, find_automaton,
    find_owner, is_transition_of, tag_of, Env, FieldView, LocationView,
};
use crate::codegen::state::{EmitState, LocalStorage, LocalView};
use crate::codegen::values::{bodies_return_where_a_statement_does, some_return};
use crate::effect::completeness::declared_last;
use crate::resolve::{BindingRef, CallContext, Resolution};
use crate::syntax::statements_of;
use crate::text::{
    find_first, find_first_is_first, is_digit, is_space, join, joined_parts_are_separated,
    numeral_value, occurs_at, trimmed, without,
};
use crate::types::{Type, Typing};

verus! {

// ─── Fields ────────────────────────────────────────────────────────────────

proof fn last_declaration(items: Seq<Item>, name: Seq<char>)
    ensures
        match find_automaton(items, name) {
            Some(a) => exists|d: AutomatonDecl| #[trigger]
                declared_last(items, d) && d.name@ == name && a == declared_automaton(d),
            None => forall|i: int|
                0 <= i < items.len() ==> !(#[trigger] items[i] is Automaton
                    && items[i]->Automaton_0.name@ == name),
        },
        forall|d: AutomatonDecl| #[trigger]
            declared_last(items, d) && d.name@ == name ==> find_automaton(items, name) == Some(
                declared_automaton(d),
            ),
    decreases items.len(),
{
    if items.len() > 0 {
        let front = items.drop_last();
        let n = items.len() - 1;
        assert(items[n] == items.last());
        last_declaration(front, name);
        assert forall|i: int| 0 <= i < front.len() implies front[i] == #[trigger] items[i] by {}
        let hit = items.last() is Automaton && items.last()->Automaton_0.name@ == name;
        if hit {
            assert(items[n] == Item::Automaton(items.last()->Automaton_0));
            assert(declared_last(items, items.last()->Automaton_0));
        } else if find_automaton(front, name) is Some {
            let d = choose|d: AutomatonDecl| #[trigger]
                declared_last(front, d) && d.name@ == name && find_automaton(front, name)->0
                    == declared_automaton(d);
            let j = choose|j: int|
                0 <= j < front.len() && #[trigger] front[j] == Item::Automaton(d) && forall|k: int|
                    j < k < front.len() ==> !(#[trigger] front[k] is Automaton
                        && front[k]->Automaton_0.name@ == d.name@);
            assert(items[j] == Item::Automaton(d));
            assert forall|k: int| j < k < items.len() implies !(#[trigger] items[k] is Automaton
                && items[k]->Automaton_0.name@ == d.name@) by {
                if k < n {
                    assert(front[k] == items[k]);
                }
            }
            assert(declared_last(items, d));
        } else {
            assert forall|i: int| 0 <= i < items.len() implies !(#[trigger] items[i] is Automaton
                && items[i]->Automaton_0.name@ == name) by {
                if i < n {
                    assert(front[i] == items[i]);
                }
            }
        }
        assert forall|d: AutomatonDecl| #[trigger] declared_last(items, d) && d.name@
            == name implies find_automaton(items, name) == Some(declared_automaton(d)) by {
            let j = choose|j: int|
                0 <= j < items.len() && #[trigger] items[j] == Item::Automaton(d) && forall|k: int|
                    j < k < items.len() ==> !(#[trigger] items[k] is Automaton
                        && items[k]->Automaton_0.name@ == d.name@);
            if j < n {
                assert(front[j] == Item::Automaton(d));
                assert forall|k: int| j < k < front.len() implies !(#[trigger] front[k] is Automaton
                    && front[k]->Automaton_0.name@ == d.name@) by {
                    assert(front[k] == items[k]);
                }
                assert(declared_last(front, d));
                assert(!(items[n] is Automaton && items[n]->Automaton_0.name@ == d.name@));
            }
        }
    }
}

/// The first field of the given name.
pub open spec fn is_first_field(d: AutomatonDecl, field: Seq<char>, i: int) -> bool {
    &&& 0 <= i < d.fields@.len()
    &&& d.fields@[i].name@ == field
    &&& forall|j: int| 0 <= j < i ==> (#[trigger] d.fields@[j]).name@ != field
}

proof fn first_position(fields: Seq<FieldView>, name: Seq<char>)
    ensures
        match field_position(fields, name) {
            Some(i) => 0 <= i < fields.len() && fields[i].name == name && forall|j: int|
                0 <= j < i ==> (#[trigger] fields[j]).name != name,
            None => forall|j: int| 0 <= j < fields.len() ==> (#[trigger] fields[j]).name != name,
        },
    decreases fields.len(),
{
    if fields.len() > 0 {
        let front = fields.drop_last();
        first_position(front, name);
        assert forall|j: int| 0 <= j < front.len() implies front[j] == #[trigger] fields[j] by {}
        assert(fields[fields.len() - 1] == fields.last());
        if field_position(front, name) is None {
            assert forall|j: int| 0 <= j < front.len() implies (#[trigger] fields[j]).name
                != name by {
                assert(front[j].name != name);
            }
        }
    }
}

/// The automaton has a list of states.
pub open spec fn has_states(d: AutomatonDecl) -> bool {
    match d.states {
        Some(states) => states@.len() > 0,
        None => false,
    }
}

/// The number that an address or an offset writes; 0 where it writes none.
pub open spec fn place_written(s: Option<Seq<char>>) -> nat {
    match s {
        Some(t) => address_value(t).unwrap_or(0),
        None => 0,
    }
}

/// A field lives in the state of the last automaton of that name: the first
/// field at its place among the fields, one further where the automaton has
/// states. In a register block it lives at the address of the block and its own
/// offset together. Its type is the one that is written.
pub proof fn fields_live_at_their_place(env: Env, d: AutomatonDecl, field: Seq<char>, i: int)
    requires
        declared_last(env.items, d),
    ensures
        env.locate(d.name@, field) is Ok <==> exists|k: int| is_first_field(d, field, k),
        is_first_field(d, field, i) ==> {
            let f = d.fields@[i];
            let ty = match written_ir(f.ty) {
                Ok(t) => t,
                Err(_) => "i32"@,
            };
            let loc = match d.address {
                Some(a) => LocationView::RegisterBlock {
                    address: place_written(Some(a.value@)) + place_written(
                        match f.offset {
                            Some(o) => Some(o@),
                            None => None,
                        },
                    ),
                },
                None => LocationView::Struct {
                    idx: (i + if has_states(d) {
                        1int
                    } else {
                        0int
                    }) as nat,
                },
            };
            env.locate(d.name@, field) == Ok::<
                (LocationView, Seq<char>),
                crate::codegen::error::CodegenErrorView,
            >((loc, ty))
        },
{
    last_declaration(env.items, d.name@);
    let a = declared_automaton(d);
    assert(env.automaton(d.name@) == Some(a));
    first_position(a.fields, field);
    assert forall|k: int| 0 <= k < d.fields@.len() implies #[trigger] a.fields[k]
        == declared_field(d, d.fields@[k]) by {}
    match field_position(a.fields, field) {
        Some(k) => {
            assert(is_first_field(d, field, k)) by {
                assert forall|j: int| 0 <= j < k implies (#[trigger] d.fields@[j]).name@
                    != field by {
                    assert(a.fields[j].name != field);
                }
            }
            if is_first_field(d, field, i) {
                if i < k {
                    assert(a.fields[i].name != field);
                }
                if k < i {
                    assert(d.fields@[k].name@ != field);
                }
                assert(i == k);
            }
        },
        None => {
            assert forall|k: int| !is_first_field(d, field, k) by {
                if is_first_field(d, field, k) {
                    assert(a.fields[k].name != field);
                }
            }
        },
    }
}

/// The state struct of an automaton has, at the place where a field lives, the
/// type of that field, and at its first place the state where there is one.
pub proof fn structs_hold_the_fields_at_their_place(env: Env, d: AutomatonDecl, field: Seq<char>, i: int)
    requires
        declared_last(env.items, d),
        d.address is None,
        is_first_field(d, field, i),
    ensures
        ({
            let (loc, ty) = env.locate(d.name@, field)->Ok_0;
            let types = struct_types(env, d.name@);
            &&& loc is Struct
            &&& loc->idx < types.len()
            &&& types[loc->idx as int] == ty
            &&& has_states(d) ==> types[0] == "i32"@ && loc->idx > 0
            &&& types.len() == d.fields@.len() + if has_states(d) {
                1int
            } else {
                0int
            }
        }),
{
    fields_live_at_their_place(env, d, field, i);
    last_declaration(env.items, d.name@);
    let a = declared_automaton(d);
    assert(a.fields[i] == declared_field(d, d.fields@[i]));
}

/// Two fields of different names do not share a place in the state.
pub proof fn fields_do_not_share_a_place(
    env: Env,
    d: AutomatonDecl,
    f: Seq<char>,
    i: int,
    g: Seq<char>,
    j: int,
)
    requires
        declared_last(env.items, d),
        d.address is None,
        is_first_field(d, f, i),
        is_first_field(d, g, j),
        f != g,
    ensures
        env.locate(d.name@, f)->Ok_0.0 != env.locate(d.name@, g)->Ok_0.0,
{
    fields_live_at_their_place(env, d, f, i);
    fields_live_at_their_place(env, d, g, j);
}

/// An automaton that no item declares has no fields anywhere.
pub proof fn only_declared_automatons_have_fields(env: Env, automaton: Seq<char>, field: Seq<char>)
    requires
        env.locate(automaton, field) is Ok,
    ensures
        exists|d: AutomatonDecl| #[trigger]
            declared_last(env.items, d) && d.name@ == automaton,
{
    last_declaration(env.items, automaton);
}

/// Staged automatons are written in their shadow, all others where they are
/// read.
pub proof fn writes_go_where_the_declaration_says(env: Env, d: AutomatonDecl)
    requires
        declared_last(env.items, d),
    ensures
        env.write_global(d.name@) == "@"@ + d.name@ + (if d.staged && d.address is None {
            ".shadow"@
        } else {
            ".state"@
        }),
        env.automaton(d.name@) is Some,
        env.automaton(d.name@)->0.is_staged == d.staged,
        env.automaton(d.name@)->0.is_audited == d.audited,
        env.automaton(d.name@)->0.is_register_block == d.address is Some,
        env.automaton(d.name@)->0.is_multi_state() == has_states(d),
{
    last_declaration(env.items, d.name@);
}

/// An automaton keeps its state in a struct of its fields, with a live copy that
/// starts all zero, and a shadow beside it exactly where it is staged. A register
/// block has none.
pub proof fn states_are_declared(env: Env, st: EmitState, d: AutomatonDecl)
    requires
        declared_last(env.items, d),
    ensures
        ({
            let after = state_struct(env, st, Item::Automaton(d));
            let name = d.name@;
            if d.address is Some {
                after == st
            } else {
                let live = st.out + "%struct."@ + name + " = type { "@ + join(
                    struct_types(env, name),
                ) + " }\n"@ + "@"@ + name + ".state = global %struct."@ + name
                    + " zeroinitializer\n"@;
                after.out == (if d.staged {
                    live + "@"@ + name + ".shadow = global %struct."@ + name
                        + " zeroinitializer\n"@
                } else {
                    live
                }) + "\n"@
            }
        }),
{
    last_declaration(env.items, d.name@);
}

// ─── States ────────────────────────────────────────────────────────────────

proof fn first_tag_found(states: Seq<(Seq<char>, nat)>, name: Seq<char>)
    ensures
        match tag_of(states, name) {
            Some(t) => exists|i: int|
                0 <= i < states.len() && #[trigger] states[i] == (name, t) && forall|j: int|
                    0 <= j < i ==> (#[trigger] states[j]).0 != name,
            None => forall|j: int| 0 <= j < states.len() ==> (#[trigger] states[j]).0 != name,
        },
    decreases states.len(),
{
    if states.len() > 0 {
        let front = states.drop_last();
        first_tag_found(front, name);
        assert forall|j: int| 0 <= j < front.len() implies front[j] == #[trigger] states[j] by {}
        let n = states.len() - 1;
        assert(states[n] == states.last());
        match tag_of(front, name) {
            Some(t) => {
                let i = choose|i: int|
                    0 <= i < front.len() && #[trigger] front[i] == (name, t) && forall|j: int|
                        0 <= j < i ==> (#[trigger] front[j]).0 != name;
                assert(states[i] == (name, t));
                assert forall|j: int| 0 <= j < i implies (#[trigger] states[j]).0 != name by {
                    assert(front[j].0 != name);
                }
            },
            None => {
                assert forall|j: int| 0 <= j < front.len() implies (#[trigger] states[j]).0
                    != name by {
                    assert(front[j].0 != name);
                }
                if states.last().0 == name {
                    assert(states[n] == (name, states.last().1));
                }
            },
        }
    }
}

/// The first state of the given name.
pub open spec fn is_first_state(states: Seq<StateName>, name: Seq<char>, i: int) -> bool {
    &&& 0 <= i < states.len()
    &&& states[i].name@ == name
    &&& forall|j: int| 0 <= j < i ==> (#[trigger] states[j]).name@ != name
}

/// The tag of a state is its place among the states, so that different states
/// have different tags.
pub proof fn tags_are_places(d: AutomatonDecl, name: Seq<char>, i: int)
    requires
        d.states is Some,
        d.states->0@.len() <= 0x1_0000_0000,
    ensures
        is_first_state(d.states->0@, name, i) ==> tag_of(declared_automaton(d).states, name)
            == Some(i as nat),
        tag_of(declared_automaton(d).states, name) is Some <==> exists|k: int|
            is_first_state(d.states->0@, name, k),
{
    let names = d.states->0@;
    let states = declared_automaton(d).states;
    first_tag_found(states, name);
    assert forall|k: int| 0 <= k < names.len() implies #[trigger] states[k] == (
        names[k].name@,
        k as nat,
    ) by {}
    match tag_of(states, name) {
        Some(t) => {
            let k = choose|k: int|
                0 <= k < states.len() && #[trigger] states[k] == (name, t) && forall|j: int|
                    0 <= j < k ==> (#[trigger] states[j]).0 != name;
            assert forall|j: int| 0 <= j < k implies (#[trigger] names[j]).name@ != name by {
                assert(states[j].0 != name);
            }
            assert(is_first_state(names, name, k));
            if is_first_state(names, name, i) {
                if i < k {
                    assert(states[i].0 != name);
                }
                if k < i {
                    assert(names[k].name@ != name);
                }
            }
        },
        None => {
            assert forall|k: int| !is_first_state(names, name, k) by {
                if is_first_state(names, name, k) {
                    assert(states[k].0 != name);
                }
            }
        },
    }
}

// ─── Functions ─────────────────────────────────────────────────────────────

/// Every parameter becomes a local of its own name, in order, that holds the
/// argument, and is declared with its type.
pub proof fn parameters_become_locals(st: EmitState, params: Seq<Param>)
    requires
        parameters(st, params).1 is Ok,
    ensures
        ({
            let (after, declared) = parameters(st, params);
            &&& after.locals == st.locals + Seq::new(
                params.len(),
                |i: int|
                    LocalView {
                        name: params[i].name@,
                        value: "%"@ + params[i].name@,
                        ir_type: written_ir(params[i].ty)->Ok_0,
                        storage: LocalStorage::Ssa,
                    },
            )
            &&& declared->Ok_0 == Seq::new(
                params.len(),
                |i: int| written_ir(params[i].ty)->Ok_0 + " %"@ + params[i].name@,
            )
            &&& after == (EmitState { locals: after.locals, ..st })
        }),
    decreases params.len(),
{
    let all = Seq::new(
        params.len(),
        |i: int|
            LocalView {
                name: params[i].name@,
                value: "%"@ + params[i].name@,
                ir_type: written_ir(params[i].ty)->Ok_0,
                storage: LocalStorage::Ssa,
            },
    );
    let texts = Seq::new(
        params.len(),
        |i: int| written_ir(params[i].ty)->Ok_0 + " %"@ + params[i].name@,
    );
    if params.len() == 0 {
        assert(st.locals + all =~= st.locals);
        assert(texts =~= Seq::empty());
    } else {
        parameters_become_locals(st, params.drop_last());
        let (after, declared) = parameters(st, params);
        assert(after.locals =~= st.locals + all);
        assert(declared->Ok_0 =~= texts);
    }
}

/// The text of the entry of a function: the fence, then, where interrupts are to
/// be kept out, the instruction that masks them.
pub open spec fn entered(out: Seq<char>, fence: Option<Seq<char>>, masked: bool) -> Seq<char> {
    let fenced = match fence {
        Some(ordering) => behind(
            behind(out, Instr::Label { name: "entry"@ }),
            Instr::Fence { ordering },
        ),
        None => behind(out, Instr::Label { name: "entry"@ }),
    };
    if masked {
        fenced
            + "  call void asm sideeffect \"cpsid i\", \"\"() ; #atomic: interrupt_critical entry (mask all maskable interrupts)\n"@
    } else {
        fenced
    }
}

proof fn entry_text()
    ensures
        "entry:\n"@ =~= "entry"@ + ":\n"@,
{
    reveal_strlit("entry:\n");
    reveal_strlit("entry");
    reveal_strlit(":\n");
}

/// The entry of a function puts the fence behind the label, and masks interrupts
/// exactly where the body is critical, in which case they are due to be unmasked
/// at every return. Other kinds of atomic bodies are errors.
pub proof fn entries_fence_and_mask(st: EmitState, fence: Option<Seq<char>>, atomic: Option<AtomicKind>)
    requires
        !st.unmask,
    ensures
        ({
            let after = atomic_entry(put_entry(st, fence), atomic);
            let masked = atomic matches Some(AtomicKind::InterruptCritical);
            &&& after.out == entered(st.out, fence, masked)
            &&& after.unmask == masked
            &&& after.errors.len() == st.errors.len() + if atomic is None || masked {
                0int
            } else {
                1int
            }
            &&& after == (EmitState {
                out: after.out,
                unmask: after.unmask,
                errors: after.errors,
                ..st
            })
        }),
{
    entry_text();
    assert(st.out + "entry:\n"@ =~= st.out + "entry"@ + ":\n"@);
}

/// A function opens with its result type, name and parameters, runs its body
/// with its parameters in scope and its exit fence due, and nothing else is left
/// over from what was emitted before it.
pub proof fn functions_run_their_body(
    env: Env,
    st: EmitState,
    name: Seq<char>,
    params: Seq<Param>,
    ret: Option<TypeExpr>,
    section: Seq<char>,
    traits: Seq<TraitRef>,
    atomic: Option<AtomicKind>,
    b: Block,
)
    requires
        parameters(return_type(st.reset(), ret).0, params).1 is Ok,
        ret is Some ==> written_ir(ret->0) is Ok,
        atomic is None || atomic->0 is InterruptCritical,
    ensures
        ({
            let ret_ty = match ret {
                Some(t) => written_ir(t)->Ok_0,
                None => "void"@,
            };
            let arguments = Seq::new(
                params.len(),
                |i: int|
                    LocalView {
                        name: params[i].name@,
                        value: "%"@ + params[i].name@,
                        ir_type: written_ir(params[i].ty)->Ok_0,
                        storage: LocalStorage::Ssa,
                    },
            );
            let declared = Seq::new(
                params.len(),
                |i: int| written_ir(params[i].ty)->Ok_0 + " %"@ + params[i].name@,
            );
            let opened = st.out + "define "@ + ret_ty + " @"@ + name + "("@ + join(declared) + ")"@
                + section + " {\n"@;
            let inside = EmitState {
                out: entered(opened, entry_fence(traits), atomic is Some),
                values: 0,
                labels: 0,
                locals: arguments,
                owner: None,
                audited: None,
                exit_fence: leaving_fence(traits),
                tag_write: st.tag_write,
                block: "entry"@,
                terminated: false,
                unmask: atomic is Some,
                loops: Seq::empty(),
                errors: st.errors,
            };
            let done = body(env, inside, b, ret_ty);
            function(env, st, name, params, ret, section, traits, atomic, b) == (EmitState {
                out: done.out + "}\n"@ + "\n"@,
                exit_fence: None,
                ..done
            })
        }),
{
    let st1 = return_type(st.reset(), ret).0;
    assert(st1 == st.reset());
    parameters_become_locals(st1, params);
    let (st2, parts) = parameters(st1, params);
    let ret_ty = return_type(st.reset(), ret).1;
    let st3 = st2.with_exit_fence(leaving_fence(traits)).put("define "@).put(ret_ty).put(
        " @"@,
    ).put(name).put("("@).put(join(parts->Ok_0)).put(")"@).put(section).put(" {\n"@);
    entries_fence_and_mask(st3, entry_fence(traits), atomic);
    assert(st1.locals + st2.locals =~= st2.locals);
    let st4 = atomic_entry(put_entry(st3, entry_fence(traits)), atomic);
    let arguments = Seq::new(
        params.len(),
        |i: int|
            LocalView {
                name: params[i].name@,
                value: "%"@ + params[i].name@,
                ir_type: written_ir(params[i].ty)->Ok_0,
                storage: LocalStorage::Ssa,
            },
    );
    assert(st2.locals =~= arguments);
    if atomic is None || atomic->0 is InterruptCritical {
        assert(st4.errors =~= st.errors);
    }
}

/// A transition runs its body as one of its own automaton, with its exit fence
/// and the tag of its destination due, and its raw accesses marked exactly where
/// the automaton is audited.
pub proof fn transitions_run_their_body(env: Env, st: EmitState, d: AutomatonDecl, t: TransitionDecl)
    requires
        declared_last(env.items, d),
        t.atomic is None || t.atomic->0 is InterruptCritical,
        t.destination is Some && has_states(d) ==> tag_of(
            declared_automaton(d).states,
            t.destination->0@,
        ) is Some,
    ensures
        ({
            let owner = d.name@;
            let opened = st.out + "define void @"@ + owner + "_"@ + t.name@ + "() {\n"@;
            let inside = EmitState {
                out: entered(opened, entry_fence(t.trait_list@), t.atomic is Some),
                values: 0,
                labels: 0,
                locals: Seq::empty(),
                owner: Some(owner),
                audited: if d.audited {
                    Some(owner)
                } else {
                    None
                },
                exit_fence: leaving_fence(t.trait_list@),
                tag_write: match t.destination {
                    Some(dest) => if has_states(d) {
                        Some((owner, tag_of(declared_automaton(d).states, dest@)->0))
                    } else {
                        None
                    },
                    None => None,
                },
                block: "entry"@,
                terminated: false,
                unmask: t.atomic is Some,
                loops: Seq::empty(),
                errors: st.errors,
            };
            let done = body(env, inside, t.body, "void"@);
            transition(env, st, owner, t) == (EmitState {
                out: done.out + "}\n"@ + "\n"@,
                owner: None,
                exit_fence: None,
                tag_write: None,
                ..done
            })
        }),
{
    last_declaration(env.items, d.name@);
    let owner = d.name@;
    let a = declared_automaton(d);
    assert(env.automaton(owner) == Some(a));
    let st0 = st.reset().with_owner(Some(owner));
    let st1 = if d.audited {
        st0.with_audited(Some(owner))
    } else {
        st0
    };
    let fenced = st1.with_exit_fence(leaving_fence(t.trait_list@));
    let (st2, tag) = destination(env, fenced, owner, t.destination);
    if !has_states(d) {
        assert(a.states =~= Seq::empty());
    }
    assert(st2 == fenced);
    let st3 = st2.with_tag_write(tag).put("define void @"@).put(owner).put("_"@).put(
        t.name@,
    ).put("() {\n"@);
    entries_fence_and_mask(st3, entry_fence(t.trait_list@), t.atomic);
    let st4 = atomic_entry(put_entry(st3, entry_fence(t.trait_list@)), t.atomic);
    assert(st4.errors =~= st.errors);
}

/// An address is the number that its digits write, in the radix of its prefix.
pub proof fn addresses_are_the_number_written(s: Seq<char>)
    ensures
        ({
            let t = without(s, '_');
            let prefixed = t.len() >= 2 && t[0] == '0';
            let (ds, radix) = if prefixed && (t[1] == 'x' || t[1] == 'X') {
                (t.skip(2), 16nat)
            } else if prefixed && (t[1] == 'b' || t[1] == 'B') {
                (t.skip(2), 2nat)
            } else {
                (t, 10nat)
            };
            address_value(s) == numeral_value(ds, radix, u64::MAX as nat)
        }),
{
}

/// A body that runs to its end returns, after its duties, where it has no
/// result. Where it has one, its end is unreachable, and that it holds no
/// `return` in any of its blocks is an error.
pub proof fn bodies_return_at_their_end(env: Env, st: EmitState, b: Block, ret_ty: Seq<char>)
    ensures
        ({
            let ran = stmts(env, st, b.stmts@);
            let after = body(env, st, b, ret_ty);
            &&& after.terminated
            &&& ran.terminated ==> after == ran
            &&& !ran.terminated && ret_ty == "void"@ ==> after.errors == ran.errors && after.out
                == behind(duties_done(env, ran), Instr::ReturnNothing)
            &&& !ran.terminated && ret_ty != "void"@ ==> after.out == ran.out + "  unreachable\n"@
                && (after.errors == ran.errors <==> some_return(statements_of(b.stmts@)))
        }),
{
    bodies_return_where_a_statement_does(b.stmts@);
    let ran = stmts(env, st, b.stmts@);
    let x = crate::codegen::error::not_yet("non-unit function without a `return`"@);
    assert(ran.errors.push(x).len() != ran.errors.len());
}

/// Every `@fn`, effect and interrupt becomes one function with its own name,
/// parameters, result and body. The traits and the atomic kind of effects and
/// interrupts count, and interrupts have a section of their own.
pub proof fn items_become_functions(env: Env, st: EmitState, i: Item)
    ensures
        match i {
            Item::Fn(d) => item(env, st, i) == function(
                env,
                st,
                d.name@,
                d.params@,
                d.return_type,
                ""@,
                Seq::empty(),
                None,
                d.body,
            ),
            Item::Effect(d) => item(env, st, i) == function(
                env,
                st,
                d.name@,
                d.params@,
                d.return_type,
                ""@,
                d.trait_list@,
                d.atomic,
                d.body,
            ),
            Item::Interrupt(d) => item(env, st, i) == function(
                env,
                st,
                d.name@,
                d.params@,
                d.return_type,
                " section \".interrupts\""@,
                d.trait_list@,
                d.atomic,
                d.body,
            ),
            Item::Automaton(d) => (forall|k: int|
                0 <= k < d.fields@.len() ==> written_ir((#[trigger] d.fields@[k]).ty) is Ok)
                ==> exists|states: Seq<EmitState>|
                #![trigger states.len()]
                {
                    &&& states.len() == d.transitions@.len() + 1
                    &&& states[0] == st
                    &&& states.last() == item(env, st, i)
                    &&& forall|k: int|
                        0 <= k < d.transitions@.len() ==> #[trigger] transition_next(
                            env,
                            d,
                            states,
                            k,
                        )
                },
            _ => item(env, st, i) == st,
        },
{
    if let Item::Automaton(d) = i {
        if forall|k: int|
            0 <= k < d.fields@.len() ==> written_ir((#[trigger] d.fields@[k]).ty) is Ok {
            no_field_errors(st, d, d.fields@.len());
            let states = transitions_in_order(env, st, d, d.transitions@.len());
            assert(d.transitions@.take(d.transitions@.len() as int) =~= d.transitions@);
            assert(states.len() == d.transitions@.len() + 1);
        }
    }
}

/// The `k`th transition leads from the `k`th state to the next.
pub open spec fn transition_next(env: Env, d: AutomatonDecl, states: Seq<EmitState>, k: int) -> bool {
    states[k + 1] == transition(env, states[k], d.name@, d.transitions@[k])
}

proof fn transitions_in_order(env: Env, st: EmitState, d: AutomatonDecl, n: nat) -> (states: Seq<
    EmitState,
>)
    requires
        n <= d.transitions@.len(),
    ensures
        states.len() == n + 1,
        states[0] == st,
        states.last() == transitions(env, st, d.name@, d.transitions@.take(n as int)),
        forall|k: int| 0 <= k < n ==> #[trigger] transition_next(env, d, states, k),
    decreases n,
{
    let row = d.transitions@.take(n as int);
    if n == 0 {
        seq![st]
    } else {
        let before = transitions_in_order(env, st, d, (n - 1) as nat);
        assert(row.drop_last() =~= d.transitions@.take(n - 1));
        let states = before.push(transitions(env, st, d.name@, row));
        assert forall|k: int| 0 <= k < n implies #[trigger] transition_next(
            env,
            d,
            states,
            k,
        ) by {
            if k < n - 1 {
                assert(transition_next(env, d, before, k));
            }
        }
        states
    }
}

proof fn no_field_errors(st: EmitState, d: AutomatonDecl, n: nat)
    requires
        n <= d.fields@.len(),
        forall|k: int| 0 <= k < d.fields@.len() ==> written_ir((#[trigger] d.fields@[k]).ty) is Ok,
    ensures
        field_errors(st, d, n) == st,
    decreases n,
{
    if n > 0 {
        no_field_errors(st, d, (n - 1) as nat);
    }
}

/// A field whose type has no IR type is an error.
pub proof fn fields_without_a_type_are_errors(st: EmitState, d: AutomatonDecl, n: nat)
    requires
        n <= d.fields@.len(),
    ensures
        field_errors(st, d, n).errors.len() > st.errors.len() <==> exists|k: int|
            0 <= k < n && written_ir((#[trigger] d.fields@[k]).ty) is Err,
        field_errors(st, d, n).errors.len() >= st.errors.len(),
        field_errors(st, d, n).out == st.out,
    decreases n,
{
    if n > 0 {
        fields_without_a_type_are_errors(st, d, (n - 1) as nat);
    }
}

// ─── Types ─────────────────────────────────────────────────────────────────

/// A written type and an inferred type are one type.
pub open spec fn same_type(t: TypeExpr, ty: Type) -> bool
    decreases t,
{
    match (t.kind, ty) {
        (TypeKind::Unit, Type::Unit) => true,
        (TypeKind::Primitive(p), Type::Primitive(q)) => p == q,
        (TypeKind::Ref(r), Type::Ref { inner, .. }) => same_type(*r.inner, *inner),
        (TypeKind::Array(a), Type::Array { element, size }) => a.size->IntLiteral_0@ == size@
            && same_type(*a.element, *element),
        (TypeKind::Slice(s), Type::Slice { element }) => same_type(*s.element, *element),
        _ => false,
    }
}

/// A type has one IR type, whether it is written or inferred.
pub proof fn written_and_inferred_types_agree(t: TypeExpr, ty: Type)
    requires
        same_type(t, ty),
    ensures
        written_ir(t) == Ok::<Seq<char>, crate::codegen::error::CodegenErrorView>(type_ir(ty)),
    decreases t,
{
    match (t.kind, ty) {
        (TypeKind::Ref(r), Type::Ref { inner, .. }) => written_and_inferred_types_agree(
            *r.inner,
            *inner,
        ),
        (TypeKind::Array(a), Type::Array { element, .. }) => written_and_inferred_types_agree(
            *a.element,
            *element,
        ),
        (TypeKind::Slice(s), Type::Slice { element }) => written_and_inferred_types_agree(
            *s.element,
            *element,
        ),
        _ => {},
    }
}

/// The text neither starts nor ends in white space.
spec fn is_tight(s: Seq<char>) -> bool {
    s.len() > 0 && !is_space(s[0]) && !is_space(s.last())
}

proof fn types_are_tight(ty: Type)
    ensures
        is_tight(type_ir(ty)),
    decreases ty,
{
    reveal_strlit("void");
    reveal_strlit("i1");
    reveal_strlit("i8");
    reveal_strlit("i16");
    reveal_strlit("i32");
    reveal_strlit("i64");
    reveal_strlit("float");
    reveal_strlit("double");
    reveal_strlit("*");
    reveal_strlit("[");
    reveal_strlit("]");
    reveal_strlit("{");
    reveal_strlit("}");
    reveal_strlit("*, i64}");
    reveal_strlit("{i8*, i64}");
    match ty {
        Type::Ref { inner, .. } => types_are_tight(*inner),
        Type::Array { element, .. } => types_are_tight(*element),
        _ => {},
    }
}

proof fn separator_found(n: Seq<char>, sep: Seq<char>, elem: Seq<char>)
    requires
        forall|i: int| 0 <= i < n.len() ==> #[trigger] n[i] != sep[0],
        sep.len() > 0,
    ensures
        find_first(n + sep + elem, sep, 0) == Some(n.len() as int),
        (n + sep + elem).skip((n.len() + sep.len()) as int) == elem,
{
    let inner = n + sep + elem;
    let k = n.len() as int;
    assert(inner.skip((n.len() + sep.len()) as int) =~= elem);
    find_first_is_first(inner, sep, 0);
    assert(occurs_at(inner, sep, k)) by {
        assert(inner.subrange(k, k + sep.len()) =~= sep);
    }
    let found = find_first(inner, sep, 0);
    assert(found is Some);
    let f = found->0;
    if f < k {
        assert(inner.subrange(f, f + sep.len())[0] == inner[f]);
        assert(inner[f] == n[f]);
        assert(false);
    }
    if f > k {
        assert(!occurs_at(inner, sep, k));
        assert(false);
    }
}

proof fn element_between_brackets(n: Seq<char>, elem: Seq<char>)
    requires
        forall|i: int| 0 <= i < n.len() ==> is_digit(#[trigger] n[i]),
        is_tight(elem),
    ensures
        element_ir("["@ + n + " x "@ + elem + "]"@) == Some(elem),
{
    let sep = " x "@;
    assert(sep.len() == 3 && sep[0] == ' ') by {
        reveal_strlit(" x ");
    }
    let open = "["@;
    let close = "]"@;
    assert(open.len() == 1 && open[0] == '[' && close.len() == 1 && close[0] == ']') by {
        reveal_strlit("[");
        reveal_strlit("]");
    }
    let inner = n + sep + elem;
    let all = open + n + sep + elem + close;
    assert(all.len() == inner.len() + 2);
    assert(all[0] == '[');
    assert(all.last() == ']');
    assert(all.subrange(1, all.len() - 1) =~= inner);
    separator_found(n, sep, elem);
    assert(trimmed(elem) == elem);
}

/// The element of an array type is what the IR type of the array says, and what
/// a reference points to what its IR type says.
pub proof fn array_types_tell_their_element(ty: Type)
    ensures
        match ty {
            Type::Array { element, size } => (forall|i: int|
                0 <= i < size@.len() ==> is_digit(#[trigger] size@[i]) || size@[i] == '_')
                ==> element_ir(type_ir(ty)) == Some(type_ir(*element)),
            Type::Ref { inner, .. } => pointer_ir(type_ir(ty)) && type_ir(ty).drop_last()
                =~= type_ir(*inner),
            _ => true,
        },
{
    match ty {
        Type::Array { element, size } => {
            if forall|i: int|
                0 <= i < size@.len() ==> is_digit(#[trigger] size@[i]) || size@[i] == '_' {
                types_are_tight(*element);
                kept_are_digits(size@);
                element_between_brackets(without(size@, '_'), type_ir(*element));
            }
        },
        Type::Ref { .. } => {
            reveal_strlit("*");
        },
        _ => {},
    }
}

proof fn kept_are_digits(s: Seq<char>)
    requires
        forall|i: int| 0 <= i < s.len() ==> is_digit(#[trigger] s[i]) || s[i] == '_',
    ensures
        forall|i: int| 0 <= i < without(s, '_').len() ==> is_digit(#[trigger] without(s, '_')[i]),
    decreases s.len(),
{
    if s.len() > 0 {
        let front = s.drop_last();
        assert forall|i: int| 0 <= i < front.len() implies is_digit(#[trigger] front[i])
            || front[i] == '_' by {
            assert(front[i] == s[i]);
        }
        kept_are_digits(front);
        assert(s.last() == s[s.len() - 1]);
        let kept = without(front, '_');
        assert forall|i: int| 0 <= i < without(s, '_').len() implies is_digit(
            #[trigger] without(s, '_')[i],
        ) by {
            if i < kept.len() {
                assert(without(s, '_')[i] == kept[i]);
            }
        }
    }
}

/// Two types that are made alike have one IR type: a string slice is a slice of
/// bytes, and a range is a pair of its bounds.
pub proof fn types_made_alike_agree(
    string: Type,
    bytes: Type,
    byte: Box<Type>,
    range: Type,
    pair: Type,
    bound: Box<Type>,
    inclusive: bool,
    both: Vec<Type>,
)
    requires
        string == Type::StringSlice,
        bytes == (Type::Slice { element: byte }),
        *byte == Type::Primitive(PrimitiveType::U8),
        range == (Type::Range { element: bound, inclusive }),
        pair == Type::Tuple(both),
        both@ == seq![*bound, *bound],
    ensures
        type_ir(string) == type_ir(bytes),
        type_ir(range) == type_ir(pair),
{
    reveal_with_fuel(type_ir, 3);
    reveal_strlit("{i8*, i64}");
    reveal_strlit("{");
    reveal_strlit("i8");
    reveal_strlit("*, i64}");
    assert("{"@ + "i8"@ + "*, i64}"@ =~= "{i8*, i64}"@);
    let t = type_ir(*bound);
    tuple_types(both@);
    let parts = types_ir(both@);
    assert(parts =~= seq![t, t]);
    joined_parts_are_separated(seq![t], t);
    joined_parts_are_separated(Seq::empty(), t);
    assert(seq![t].push(t) =~= seq![t, t]);
    assert(Seq::empty().push(t) =~= seq![t]);
    reveal_strlit(", ");
    assert(", "@ =~= seq![',', ' ']);
    assert("{"@ + (t + ", "@ + t) + "}"@ =~= "{"@ + t + ", "@ + t + "}"@);
}

proof fn tuple_types(ts: Seq<Type>)
    ensures
        types_ir(ts) =~= Seq::new(ts.len(), |i: int| type_ir(ts[i])),
    decreases ts.len(),
{
    if ts.len() > 0 {
        tuple_types(ts.drop_last());
    }
}

/// A tuple type has the types of its elements in order.
pub proof fn tuples_have_the_types_of_their_elements(ty: Type, elems: Vec<Type>)
    requires
        ty == Type::Tuple(elems),
    ensures
        type_ir(ty) == "{"@ + join(Seq::new(elems@.len(), |i: int| type_ir(elems@[i]))) + "}"@,
{
    tuple_types(elems@);
}

/// Numbers and truth values are integers, floats are floats, and neither is a
/// pointer.
pub proof fn primitives_are_of_one_kind(p: PrimitiveType)
    ensures
        integer_ir(primitive_ir(p)) <==> bits(p) is Some,
        float_ir(primitive_ir(p)) <==> bits(p) is None,
        !pointer_ir(primitive_ir(p)),
{
    reveal_strlit("i1");
    reveal_strlit("i8");
    reveal_strlit("i16");
    reveal_strlit("i32");
    reveal_strlit("i64");
    reveal_strlit("float");
    reveal_strlit("double");
    let t = primitive_ir(p);
    assert("i1"@.len() == 2 && "i1"@[0] == 'i' && "i1"@[1] == '1');
    assert("i8"@.len() == 2 && "i8"@[0] == 'i' && "i8"@[1] == '8');
    assert("i16"@.len() == 3 && "i16"@[0] == 'i' && "i16"@[1] == '1' && "i16"@[2] == '6');
    assert("i32"@.len() == 3 && "i32"@[0] == 'i' && "i32"@[1] == '3' && "i32"@[2] == '2');
    assert("i64"@.len() == 3 && "i64"@[0] == 'i' && "i64"@[1] == '6' && "i64"@[2] == '4');
    assert("float"@.len() == 5 && "float"@[0] == 'f' && "float"@[4] == 't');
    assert("double"@.len() == 6 && "double"@[0] == 'd' && "double"@[5] == 'e');
}

// ─── Calls ─────────────────────────────────────────────────────────────────

/// The automaton has a transition of the given name.
pub open spec fn has_it(i: Item, name: Seq<char>) -> bool {
    match i {
        Item::Automaton(d) => exists|t: int|
            0 <= t < d.transitions@.len() && (#[trigger] d.transitions@[t]).name@ == name,
        _ => false,
    }
}

proof fn first_owner(items: Seq<Item>, name: Seq<char>) -> (j: int)
    ensures
        match find_owner(items, name) {
            Some(o) => {
                &&& 0 <= j < items.len()
                &&& has_it(items[j], name)
                &&& items[j]->Automaton_0.name@ == o
                &&& forall|k: int| 0 <= k < j ==> !has_it(#[trigger] items[k], name)
            },
            None => forall|k: int| 0 <= k < items.len() ==> !has_it(#[trigger] items[k], name),
        },
    decreases items.len(),
{
    if items.len() == 0 {
        0
    } else {
        let front = items.drop_last();
        let n = items.len() - 1;
        assert(items[n] == items.last());
        let j = first_owner(front, name);
        assert forall|k: int| 0 <= k < n implies front[k] == #[trigger] items[k] by {}
        if find_owner(front, name) is Some {
            assert forall|k: int| 0 <= k < j implies !has_it(#[trigger] items[k], name) by {
                assert(!has_it(front[k], name));
            }
            j
        } else {
            assert forall|k: int| 0 <= k < n implies !has_it(#[trigger] items[k], name) by {
                assert(!has_it(front[k], name));
            }
            n
        }
    }
}

/// A `#>` call inside a transition means the transition of the same automaton
/// where that has one of the name. Otherwise it means that of the first automaton
/// that has one. A call that is bound to no transition keeps its name.
pub proof fn calls_mean_the_nearest_transition(env: Env, st: EmitState, s: Stmt, name: Seq<char>, j: int)
    ensures
        ({
            let to_transition = match env.resolution.binding(s.span) {
                Some(BindingRef::Proc { ctx: CallContext::Transition, .. }) => true,
                _ => false,
            };
            let own = st.owner is Some && exists|i: int|
                0 <= i < env.items.len() && has_it(#[trigger] env.items[i], name)
                    && env.items[i]->Automaton_0.name@ == st.owner->0;
            &&& !to_transition ==> callee_symbol(env, st, s, name) == name
            &&& to_transition && own && st.owner->0.len() > 0 ==> callee_symbol(env, st, s, name)
                == st.owner->0 + "_"@ + name
            &&& to_transition && !own && 0 <= j < env.items.len() && has_it(env.items[j], name) && (
            forall|k: int| 0 <= k < j ==> !has_it(#[trigger] env.items[k], name))
                && env.items[j]->Automaton_0.name@.len() > 0 ==> callee_symbol(env, st, s, name)
                == env.items[j]->Automaton_0.name@ + "_"@ + name
        }),
{
    let own = st.owner is Some && exists|i: int|
        0 <= i < env.items.len() && has_it(#[trigger] env.items[i], name)
            && env.items[i]->Automaton_0.name@ == st.owner->0;
    if st.owner is Some {
        let o = st.owner->0;
        assert(declares_transition(env.items, o, name) <==> own) by {
            if own {
                let i = choose|i: int|
                    0 <= i < env.items.len() && has_it(#[trigger] env.items[i], name)
                        && env.items[i]->Automaton_0.name@ == o;
                assert(is_transition_of(env.items[i], o, name));
            }
            if declares_transition(env.items, o, name) {
                let i = choose|i: int|
                    0 <= i < env.items.len() && is_transition_of(
                        #[trigger] env.items[i],
                        o,
                        name,
                    );
                assert(has_it(env.items[i], name));
            }
        }
    }
    let f = first_owner(env.items, name);
    if 0 <= j < env.items.len() && has_it(env.items[j], name) && (forall|k: int|
        0 <= k < j ==> !has_it(#[trigger] env.items[k], name)) {
        if find_owner(env.items, name) is Some {
            if f < j {
                assert(!has_it(env.items[f], name));
            }
            if j < f {
                assert(!has_it(env.items[j], name));
            }
        }
    }
}

// ─── Modules ───────────────────────────────────────────────────────────────

/// The `k`th item leads from the `k`th state to the next.
pub open spec fn item_next(env: Env, is: Seq<Item>, states: Seq<EmitState>, k: int) -> bool {
    states[k + 1] == item(env, states[k], is[k])
}

/// The `k`th item leads from the `k`th state to the next.
pub open spec fn struct_next(env: Env, is: Seq<Item>, states: Seq<EmitState>, k: int) -> bool {
    states[k + 1] == state_struct(env, states[k], is[k])
}

proof fn items_in_order(env: Env, st: EmitState, is: Seq<Item>) -> (states: Seq<EmitState>)
    ensures
        states.len() == is.len() + 1,
        states[0] == st,
        states.last() == items(env, st, is),
        forall|k: int| 0 <= k < is.len() ==> #[trigger] item_next(env, is, states, k),
    decreases is.len(),
{
    if is.len() == 0 {
        seq![st]
    } else {
        let before = items_in_order(env, st, is.drop_last());
        let states = before.push(items(env, st, is));
        assert forall|k: int| 0 <= k < is.len() implies #[trigger] item_next(
            env,
            is,
            states,
            k,
        ) by {
            if k < is.len() - 1 {
                assert(item_next(env, is.drop_last(), before, k));
            }
        }
        states
    }
}

proof fn structs_in_order(env: Env, st: EmitState, is: Seq<Item>) -> (states: Seq<EmitState>)
    ensures
        states.len() == is.len() + 1,
        states[0] == st,
        states.last() == state_structs(env, st, is),
        forall|k: int| 0 <= k < is.len() ==> #[trigger] struct_next(env, is, states, k),
    decreases is.len(),
{
    if is.len() == 0 {
        seq![st]
    } else {
        let before = structs_in_order(env, st, is.drop_last());
        let states = before.push(state_structs(env, st, is));
        assert forall|k: int| 0 <= k < is.len() implies #[trigger] struct_next(
            env,
            is,
            states,
            k,
        ) by {
            if k < is.len() - 1 {
                assert(struct_next(env, is.drop_last(), before, k));
            }
        }
        states
    }
}

/// A module is its name, the states of all automatons in order, the declaration
/// that flushes need where some automaton has a shadow, and what all items become
/// in order. It is given where nothing went wrong, else every error.
pub proof fn modules_hold_every_item_in_order(
    program: Program,
    resolution: Resolution,
    typing: Typing,
    name: Seq<char>,
) -> (r: (Seq<EmitState>, Seq<EmitState>))
    ensures
        ({
            let (structs, functions) = r;
            let env = Env { items: program.items@, resolution, typing };
            let n = program.items@.len();
            let outcome = lowered(program, resolution, typing, name);
            let shadowed = exists|i: int|
                0 <= i < n && #[trigger] program.items@[i] is Automaton
                    && program.items@[i]->Automaton_0.staged
                    && program.items@[i]->Automaton_0.address is None;
            &&& structs.len() == n + 1
            &&& functions.len() == n + 1
            &&& structs[0] == (EmitState {
                out: "; ModuleID = '"@ + name + "'\n"@ + "source_filename = \""@ + name + "\"\n"@
                    + "\n"@,
                ..EmitState::initial()
            })
            &&& forall|k: int| 0 <= k < n ==> #[trigger] struct_next(env, env.items, structs, k)
            &&& functions[0] == (EmitState {
                out: if shadowed {
                    structs.last().out
                        + "declare void @llvm.memcpy.p0.p0.i64(i8*, i8*, i64, i1)\n"@ + "\n"@
                } else {
                    structs.last().out
                },
                ..structs.last()
            })
            &&& forall|k: int| 0 <= k < n ==> #[trigger] item_next(env, env.items, functions, k)
            &&& functions.last().errors.len() == 0 ==> outcome == Ok::<
                Seq<char>,
                Seq<crate::codegen::error::CodegenErrorView>,
            >(functions.last().out)
            &&& functions.last().errors.len() > 0 ==> outcome == Err::<
                Seq<char>,
                Seq<crate::codegen::error::CodegenErrorView>,
            >(functions.last().errors)
        }),
{
    let env = Env { items: program.items@, resolution, typing };
    let head = module_header(EmitState::initial(), name);
    assert(Seq::<char>::empty() + "; ModuleID = '"@ =~= "; ModuleID = '"@);
    let structs = structs_in_order(env, head, env.items);
    let declared = staged_intrinsics(structs.last(), env.items);
    assert((exists|i: int| 0 <= i < env.items.len() && flushable(#[trigger] env.items[i]))
        <==> exists|i: int|
        0 <= i < env.items.len() && #[trigger] env.items[i] is Automaton
            && env.items[i]->Automaton_0.staged && env.items[i]->Automaton_0.address is None) by {
        if exists|i: int| 0 <= i < env.items.len() && flushable(#[trigger] env.items[i]) {
            let i = choose|i: int| 0 <= i < env.items.len() && flushable(#[trigger] env.items[i]);
            assert(env.items[i] is Automaton);
        }
        if exists|i: int|
            0 <= i < env.items.len() && #[trigger] env.items[i] is Automaton
                && env.items[i]->Automaton_0.staged && env.items[i]->Automaton_0.address is None {
            let i = choose|i: int|
                0 <= i < env.items.len() && #[trigger] env.items[i] is Automaton
                    && env.items[i]->Automaton_0.staged
                    && env.items[i]->Automaton_0.address is None;
            assert(flushable(env.items[i]));
        }
    }
    let functions = items_in_order(env, declared, env.items);
    (structs, functions)
}

} // verus!
