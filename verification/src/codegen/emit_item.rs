//! The emitter for items and whole modules.
use vstd::prelude::*;

use crate::ast::{
    AtomicKind, AutomatonDecl, Block, EffectDecl, FnDecl, InterruptDecl, Item, Param, Program,
    TraitRef, TransitionDecl, TypeExpr,
};
use crate::codegen::error::{CodegenError, CodegenErrorView};
use crate::codegen::irtype::lower_type;
use crate::codegen::lowering::{
    atomic_entry, destination, entry_fence, field_errors, flushable, function, has_trait, item,
    items, leaving_fence, module, module_header, parameters, put_entry, return_type,
    staged_intrinsics, state_struct, state_structs, struct_types, transition, transitions,
};
use crate::codegen::registry::Context;
use crate::codegen::state::{EmitState, Emitter, LocalStorage};
use crate::text::{join, push_part, same};

verus! {

/// The fences of a callable.
pub struct MemoryOrdering {
    /// The ordering of the fence at the entry.
    pub entry: Option<&'static str>,
    /// The ordering of the fence before each return.
    pub exit: Option<&'static str>,
}

/// An optional ordering as a mathematical value.
pub open spec fn fence_view(f: Option<&'static str>) -> Option<Seq<char>> {
    match f {
        Some(s) => Some(s@),
        None => None,
    }
}

fn lists_trait(traits: &Vec<TraitRef>, name: &str) -> (r: bool)
    ensures
        r == has_trait(traits@, name@),
{
    let mut i: usize = 0;
    while i < traits.len()
        invariant
            i <= traits@.len(),
            forall|j: int| 0 <= j < i ==> (#[trigger] traits@[j]).name@ != name@,
        decreases traits@.len() - i,
    {
        if same(traits[i].name.as_str(), name) {
            return true;
        }
        i = i + 1;
    }
    false
}

/// The fences that a trait list asks for. `SeqCst` outranks the other two.
pub fn memory_ordering_from_traits(traits: &Vec<TraitRef>) -> (r: MemoryOrdering)
    ensures
        fence_view(r.entry) == entry_fence(traits@),
        fence_view(r.exit) == leaving_fence(traits@),
{
    if lists_trait(traits, "SeqCst") {
        return MemoryOrdering { entry: Some("seq_cst"), exit: Some("seq_cst") };
    }
    MemoryOrdering {
        entry: if lists_trait(traits, "Acquire") {
            Some("acquire")
        } else {
            None
        },
        exit: if lists_trait(traits, "Release") {
            Some("release")
        } else {
            None
        },
    }
}

proof fn parameters_prefix(st: EmitState, params: Seq<Param>, i: int)
    requires
        0 <= i <= params.len(),
        parameters(st, params.take(i)).1 is Err,
    ensures
        parameters(st, params) == parameters(st, params.take(i)),
    decreases params.len(),
{
    if i == params.len() {
        assert(params.take(i) =~= params);
    } else {
        assert(params.drop_last().take(i) =~= params.take(i));
        parameters_prefix(st, params.drop_last(), i);
    }
}

proof fn parameters_len(st: EmitState, params: Seq<Param>)
    requires
        parameters(st, params).1 is Ok,
    ensures
        parameters(st, params).1->Ok_0.len() == params.len(),
    decreases params.len(),
{
    if params.len() > 0 {
        parameters_len(st, params.drop_last());
    }
}

/// The types in the state struct of an automaton as text.
fn struct_types_text(cx: &Context<'_>, name: &str) -> (r: String)
    ensures
        r@ == join(struct_types(cx@, name@)),
{
    let a = match cx.automaton(name) {
        None => {
            return String::new();
        },
        Some(a) => a,
    };
    let ghost all = struct_types(cx@, name@);
    let mut out = String::new();
    let mut done: usize = 0;
    assert(all.take(0) =~= Seq::<Seq<char>>::empty());
    if a.is_multi_state() {
        push_part(&mut out, "i32", Ghost(all.take(0)), true);
        assert(all.take(0).push("i32"@) =~= all.take(1));
        done = 1;
    }
    let ghost shift = done;
    let mut i: usize = 0;
    while i < a.fields.len()
        invariant
            i <= a.fields@.len(),
            shift <= 1,
            all.len() == a.fields@.len() + shift,
            forall|k: int| 0 <= k < a.fields@.len() ==> all[k + shift] == #[trigger] a.fields@[k].1@,
            out@ == join(all.take(i + shift)),
            shift == (if a@.is_multi_state() {
                1usize
            } else {
                0usize
            }),
        decreases a.fields@.len() - i,
    {
        let part = a.fields[i].1.as_str();
        let first = i == 0 && !a.is_multi_state();
        push_part(&mut out, part, Ghost(all.take(i + shift)), first);
        assert(all.take(i + shift).push(part@) =~= all.take(i + 1 + shift));
        i = i + 1;
    }
    assert(all.take(i + shift) =~= all);
    out
}

impl Emitter {
    /// The lines that name the module.
    fn emit_module_header(&mut self, name: &str)
        ensures
            final(self)@ == module_header(old(self)@, name@),
    {
        self.put("; ModuleID = '");
        self.put(name);
        self.put("'\n");
        self.put("source_filename = \"");
        self.put(name);
        self.put("\"\n");
        self.put("\n");
    }

    /// The state struct of an automaton with its globals.
    fn emit_automaton_state_struct(&mut self, cx: &Context<'_>, i: &Item)
        ensures
            final(self)@ == state_struct(cx@, old(self)@, *i),
    {
        let decl = match i {
            Item::Automaton(d) => d,
            _ => {
                return;
            },
        };
        let name = decl.name.as_str();
        if decl.address.is_some() || cx.automaton(name).is_none() {
            return;
        }
        let types = struct_types_text(cx, name);
        self.put("%struct.");
        self.put(name);
        self.put(" = type { ");
        self.put(types.as_str());
        self.put(" }\n");
        self.put("@");
        self.put(name);
        self.put(".state = global %struct.");
        self.put(name);
        self.put(" zeroinitializer\n");
        if decl.staged {
            self.put("@");
            self.put(name);
            self.put(".shadow = global %struct.");
            self.put(name);
            self.put(" zeroinitializer\n");
        }
        self.put("\n");
    }

    /// The state structs of all automatons.
    fn emit_automaton_state_structs(&mut self, cx: &Context<'_>, is: &Vec<Item>)
        ensures
            final(self)@ == state_structs(cx@, old(self)@, is@),
    {
        let ghost start = self@;
        let mut i: usize = 0;
        assert(is@.take(0) =~= Seq::<Item>::empty());
        while i < is.len()
            invariant
                i <= is@.len(),
                self@ == state_structs(cx@, start, is@.take(i as int)),
            decreases is@.len() - i,
        {
            proof {
                assert(is@.take(i as int + 1).drop_last() =~= is@.take(i as int));
                assert(is@.take(i as int + 1).last() == is@[i as int]);
            }
            self.emit_automaton_state_struct(cx, &is[i]);
            i = i + 1;
        }
        assert(is@.take(i as int) =~= is@);
    }

    /// The declaration that flushes need, where there can be any.
    fn emit_staged_intrinsics_if_needed(&mut self, is: &Vec<Item>)
        ensures
            final(self)@ == staged_intrinsics(old(self)@, is@),
    {
        let mut i: usize = 0;
        while i < is.len()
            invariant
                i <= is@.len(),
                self@ == old(self)@,
                forall|j: int| 0 <= j < i ==> !flushable(#[trigger] is@[j]),
            decreases is@.len() - i,
        {
            let found = match &is[i] {
                Item::Automaton(d) => d.staged && d.address.is_none(),
                _ => false,
            };
            if found {
                assert(flushable(is@[i as int]));
                self.put("declare void @llvm.memcpy.p0.p0.i64(i8*, i8*, i64, i1)\n");
                self.put("\n");
                return;
            }
            i = i + 1;
        }
    }

    /// The IR type of a result.
    fn lower_return_type(&mut self, ret: &Option<TypeExpr>) -> (r: String)
        ensures
            (final(self)@, r@) == return_type(old(self)@, *ret),
    {
        match ret {
            None => "void".to_owned(),
            Some(t) => match lower_type(t) {
                Ok(ty) => ty,
                Err(x) => {
                    self.fail(x);
                    "void".to_owned()
                },
            },
        }
    }

    /// Brings the parameters into scope and gives their declarations.
    fn emit_params(&mut self, params: &Vec<Param>) -> (r: Result<String, CodegenError>)
        ensures
            match r {
                Ok(list) => {
                    let (st, parts) = parameters(old(self)@, params@);
                    final(self)@ == st && parts is Ok && list@ == join(parts->Ok_0)
                },
                Err(e) => parameters(old(self)@, params@) == (
                    final(self)@,
                    Err::<Seq<Seq<char>>, CodegenErrorView>(e@),
                ),
            },
    {
        let ghost start = self@;
        let mut out = String::new();
        let mut i: usize = 0;
        assert(params@.take(0) =~= Seq::<Param>::empty());
        while i < params.len()
            invariant
                i <= params@.len(),
                start == old(self)@,
                parameters(start, params@.take(i as int)).0 == self@,
                parameters(start, params@.take(i as int)).1 is Ok,
                out@ == join(parameters(start, params@.take(i as int)).1->Ok_0),
            decreases params@.len() - i,
        {
            let ghost sofar = parameters(start, params@.take(i as int)).1->Ok_0;
            proof {
                assert(params@.take(i as int + 1).drop_last() =~= params@.take(i as int));
                assert(params@.take(i as int + 1).last() == params@[i as int]);
                parameters_len(start, params@.take(i as int));
            }
            let ty = match lower_type(&params[i].ty) {
                Ok(ty) => ty,
                Err(x) => {
                    proof {
                        parameters_prefix(start, params@, i + 1);
                    }
                    return Err(x);
                },
            };
            let name = params[i].name.as_str();
            let mut part = ty.clone();
            part.append(" %");
            part.append(name);
            push_part(&mut out, part.as_str(), Ghost(sofar), i == 0);
            let mut value = "%".to_owned();
            value.append(name);
            self.bind(name, value, ty, LocalStorage::Ssa);
            i = i + 1;
        }
        assert(params@.take(i as int) =~= params@);
        Ok(out)
    }

    /// Masks interrupts at the entry of an `#atomic` body.
    fn emit_atomic_entry_mask(&mut self, atomic: &Option<AtomicKind>)
        ensures
            final(self)@ == atomic_entry(old(self)@, *atomic),
    {
        match atomic {
            None => {},
            Some(AtomicKind::InterruptCritical) => {
                self.put(
                    "  call void asm sideeffect \"cpsid i\", \"\"() ; #atomic: interrupt_critical entry (mask all maskable interrupts)\n",
                );
                self.set_unmask();
            },
            Some(AtomicKind::MulticoreCritical) => self.fail(
                CodegenError::NotYetImplemented {
                    what: "#atomic: multicore_critical (Decision #21 lock machinery, v0.7+)",
                },
            ),
            Some(AtomicKind::Custom(_)) => self.fail(
                CodegenError::NotYetImplemented {
                    what: "#atomic: <custom> kind (codegen only knows interrupt_critical today)",
                },
            ),
        }
    }

    fn put_entry(&mut self, fence: Option<&'static str>)
        ensures
            final(self)@ == put_entry(old(self)@, fence_view(fence)),
    {
        self.put("entry:\n");
        if let Some(ordering) = fence {
            self.put("  fence ");
            self.put(ordering);
            self.put("\n");
        }
    }

    /// A function with parameters and a result.
    fn emit_function(
        &mut self,
        cx: &Context<'_>,
        name: &str,
        params: &Vec<Param>,
        ret: &Option<TypeExpr>,
        section: &str,
        traits: &Vec<TraitRef>,
        atomic: &Option<AtomicKind>,
        b: &Block,
    )
        ensures
            final(self)@ == function(
                cx@,
                old(self)@,
                name@,
                params@,
                *ret,
                section@,
                traits@,
                *atomic,
                *b,
            ),
    {
        self.reset_per_function_state();
        let ret_ty = self.lower_return_type(ret);
        let list = match self.emit_params(params) {
            Ok(list) => list,
            Err(x) => {
                self.fail(x);
                return;
            },
        };
        let ordering = memory_ordering_from_traits(traits);
        self.set_exit_fence(ordering.exit);
        self.put("define ");
        self.put(ret_ty.as_str());
        self.put(" @");
        self.put(name);
        self.put("(");
        self.put(list.as_str());
        self.put(")");
        self.put(section);
        self.put(" {\n");
        self.put_entry(ordering.entry);
        self.emit_atomic_entry_mask(atomic);
        self.emit_block(cx, b, ret_ty.as_str());
        self.put("}\n");
        self.put("\n");
        self.set_exit_fence(None);
    }

    /// The function of an `@fn`.
    fn emit_fn(&mut self, cx: &Context<'_>, d: &FnDecl)
        ensures
            final(self)@ == item(cx@, old(self)@, Item::Fn(*d)),
    {
        let traits: Vec<TraitRef> = Vec::new();
        assert(traits@ =~= Seq::<TraitRef>::empty());
        self.emit_function(
            cx,
            d.name.as_str(),
            &d.params,
            &d.return_type,
            "",
            &traits,
            &None,
            &d.body,
        );
    }

    /// The function of an `#effect`.
    fn emit_effect(&mut self, cx: &Context<'_>, d: &EffectDecl)
        ensures
            final(self)@ == item(cx@, old(self)@, Item::Effect(*d)),
    {
        self.emit_function(
            cx,
            d.name.as_str(),
            &d.params,
            &d.return_type,
            "",
            &d.trait_list,
            &d.atomic,
            &d.body,
        );
    }

    /// The function of an `#interrupt`, in a section of its own.
    fn emit_interrupt(&mut self, cx: &Context<'_>, d: &InterruptDecl)
        ensures
            final(self)@ == item(cx@, old(self)@, Item::Interrupt(*d)),
    {
        self.emit_function(
            cx,
            d.name.as_str(),
            &d.params,
            &d.return_type,
            " section \".interrupts\"",
            &d.trait_list,
            &d.atomic,
            &d.body,
        );
    }

    /// The state tag that a transition leaves behind.
    fn destination_tag(&mut self, cx: &Context<'_>, owner: &str, dest: &Option<String>) -> (r: Option<
        (String, u32),
    >)
        ensures
            (
                final(self)@,
                match r {
                    Some((a, t)) => Some((a@, t as nat)),
                    None => None,
                },
            ) == destination(cx@, old(self)@, owner@, *dest),
    {
        let d = match dest {
            None => {
                return None;
            },
            Some(d) => d,
        };
        match cx.automaton(owner) {
            None => None,
            Some(a) => match a.state_tag(d.as_str()) {
                Some(tag) => Some((owner.to_owned(), tag)),
                None => {
                    if a.is_multi_state() {
                        let mut name = owner.to_owned();
                        name.append("#states[");
                        name.append(d.as_str());
                        name.append("]");
                        self.fail(CodegenError::UnresolvedName { name });
                    }
                    None
                },
            },
        }
    }

    /// The function of a `#transition`.
    fn emit_transition(&mut self, cx: &Context<'_>, owner: &str, t: &TransitionDecl)
        ensures
            final(self)@ == transition(cx@, old(self)@, owner@, *t),
    {
        self.reset_per_function_state();
        self.set_owner(Some(owner.to_owned()));
        if let Some(a) = cx.automaton(owner) {
            if a.is_audited {
                self.set_audited(Some(owner.to_owned()));
            }
        }
        let ordering = memory_ordering_from_traits(&t.trait_list);
        self.set_exit_fence(ordering.exit);
        let tag = self.destination_tag(cx, owner, &t.destination);
        self.set_tag_write(tag);
        self.put("define void @");
        self.put(owner);
        self.put("_");
        self.put(t.name.as_str());
        self.put("() {\n");
        self.put_entry(ordering.entry);
        self.emit_atomic_entry_mask(&t.atomic);
        self.emit_block(cx, &t.body, "void");
        self.put("}\n");
        self.put("\n");
        self.set_owner(None);
        self.set_exit_fence(None);
        self.set_tag_write(None);
    }

    /// The fields whose type has no IR type, and the functions of the transitions.
    fn emit_automaton_transitions(&mut self, cx: &Context<'_>, d: &AutomatonDecl)
        ensures
            final(self)@ == item(cx@, old(self)@, Item::Automaton(*d)),
    {
        let ghost start = self@;
        let mut k: usize = 0;
        while k < d.fields.len()
            invariant
                k <= d.fields@.len(),
                self@ == field_errors(start, *d, k as nat),
            decreases d.fields@.len() - k,
        {
            if let Err(x) = lower_type(&d.fields[k].ty) {
                self.fail(x);
            }
            k = k + 1;
        }
        let ghost mid = self@;
        let mut i: usize = 0;
        let ghost ts = d.transitions@;
        assert(ts.take(0) =~= Seq::<TransitionDecl>::empty());
        while i < d.transitions.len()
            invariant
                i <= ts.len(),
                ts == d.transitions@,
                self@ == transitions(cx@, mid, d.name@, ts.take(i as int)),
            decreases ts.len() - i,
        {
            proof {
                assert(ts.take(i as int + 1).drop_last() =~= ts.take(i as int));
                assert(ts.take(i as int + 1).last() == ts[i as int]);
            }
            self.emit_transition(cx, d.name.as_str(), &d.transitions[i]);
            i = i + 1;
        }
        assert(ts.take(i as int) =~= ts);
    }

    /// The functions of all items.
    fn emit_items(&mut self, cx: &Context<'_>, is: &Vec<Item>)
        ensures
            final(self)@ == items(cx@, old(self)@, is@),
    {
        let ghost start = self@;
        let mut i: usize = 0;
        assert(is@.take(0) =~= Seq::<Item>::empty());
        while i < is.len()
            invariant
                i <= is@.len(),
                self@ == items(cx@, start, is@.take(i as int)),
            decreases is@.len() - i,
        {
            proof {
                assert(is@.take(i as int + 1).drop_last() =~= is@.take(i as int));
                assert(is@.take(i as int + 1).last() == is@[i as int]);
            }
            match &is[i] {
                Item::Fn(d) => self.emit_fn(cx, d),
                Item::Effect(d) => self.emit_effect(cx, d),
                Item::Interrupt(d) => self.emit_interrupt(cx, d),
                Item::Automaton(d) => self.emit_automaton_transitions(cx, d),
                _ => {},
            }
            i = i + 1;
        }
        assert(is@.take(i as int) =~= is@);
    }

    /// The whole module.
    pub fn emit_module(&mut self, cx: &Context<'_>, program: &Program, name: &str)
        requires
            old(self)@ == EmitState::initial(),
            cx@.items == program.items@,
        ensures
            final(self)@ == module(cx@, name@),
    {
        self.emit_module_header(name);
        self.emit_automaton_state_structs(cx, &program.items);
        self.emit_staged_intrinsics_if_needed(&program.items);
        self.emit_items(cx, &program.items);
    }
}

} // verus!
