//! The state of the emitter: the text so far, and what the function that is
//! being emitted has defined.
use vstd::prelude::*;

use crate::codegen::error::{CodegenError, CodegenErrorView};
use crate::collections::{copy_option, option_view, views};
use crate::text::{dec, same, Counter};

verus! {

/// How the value of a local is held.
#[derive(Debug, Clone, Copy, PartialEq, Eq, Structural)]
pub enum LocalStorage {
    /// The binding's value is the value itself.
    Ssa,
    /// The binding's value is a pointer to a stack slot.
    Stack,
}

/// A local binding.
pub ghost struct LocalView {
    pub name: Seq<char>,
    pub value: Seq<char>,
    pub ir_type: Seq<char>,
    pub storage: LocalStorage,
}

/// The state of the emitter.
pub ghost struct EmitState {
    /// The text so far.
    pub out: Seq<char>,
    /// The number of the next value name.
    pub values: nat,
    /// The number of the next group of labels.
    pub labels: nat,
    /// The locals in scope, innermost last.
    pub locals: Seq<LocalView>,
    /// The automaton whose transition is being emitted.
    pub owner: Option<Seq<char>>,
    /// The same, where that automaton is audited.
    pub audited: Option<Seq<char>>,
    /// The fence due before every return.
    pub exit_fence: Option<Seq<char>>,
    /// The automaton and the state tag due to be written before every return.
    pub tag_write: Option<(Seq<char>, nat)>,
    /// The block that is being emitted.
    pub block: Seq<char>,
    /// That block already ends in a terminator.
    pub terminated: bool,
    /// Interrupts are masked and must be unmasked before every return.
    pub unmask: bool,
    /// Continue and exit label of each open loop, innermost last.
    pub loops: Seq<(Seq<char>, Seq<char>)>,
    /// The errors so far.
    pub errors: Seq<CodegenErrorView>,
}

/// The innermost local of the given name.
pub open spec fn find_local(locals: Seq<LocalView>, name: Seq<char>) -> Option<LocalView>
    decreases locals.len(),
{
    if locals.len() == 0 {
        None
    } else if locals.last().name == name {
        Some(locals.last())
    } else {
        find_local(locals.drop_last(), name)
    }
}

impl EmitState {
    /// Nothing emitted yet.
    pub open spec fn initial() -> EmitState {
        EmitState {
            out: Seq::empty(),
            values: 0,
            labels: 0,
            locals: Seq::empty(),
            owner: None,
            audited: None,
            exit_fence: None,
            tag_write: None,
            block: "entry"@,
            terminated: false,
            unmask: false,
            loops: Seq::empty(),
            errors: Seq::empty(),
        }
    }

    /// Ready for the next function: numbering, scopes and blocks start anew.
    pub open spec fn reset(self) -> EmitState {
        EmitState {
            values: 0,
            labels: 0,
            locals: Seq::empty(),
            owner: None,
            audited: None,
            block: "entry"@,
            terminated: false,
            unmask: false,
            loops: Seq::empty(),
            ..self
        }
    }

    /// More text.
    pub open spec fn put(self, s: Seq<char>) -> EmitState {
        EmitState { out: self.out + s, ..self }
    }

    /// The name of the next value.
    pub open spec fn next_value(self) -> Seq<char> {
        "%tmp."@ + dec(self.values)
    }

    /// The next value name is taken.
    pub open spec fn take_value(self) -> EmitState {
        EmitState { values: self.values + 1, ..self }
    }

    /// The next label number is taken.
    pub open spec fn take_label(self) -> EmitState {
        EmitState { labels: self.labels + 1, ..self }
    }

    /// A new innermost local.
    pub open spec fn bind(self, local: LocalView) -> EmitState {
        EmitState { locals: self.locals.push(local), ..self }
    }

    /// No more than the outermost `n` locals remain.
    pub open spec fn unbind(self, n: nat) -> EmitState {
        EmitState {
            locals: if n < self.locals.len() {
                self.locals.take(n as int)
            } else {
                self.locals
            },
            ..self
        }
    }

    /// One more error.
    pub open spec fn fail(self, e: CodegenErrorView) -> EmitState {
        EmitState { errors: self.errors.push(e), ..self }
    }

    /// The current block ends here.
    pub open spec fn terminate(self) -> EmitState {
        EmitState { terminated: true, ..self }
    }

    /// A new block starts.
    pub open spec fn start_block(self, label: Seq<char>) -> EmitState {
        EmitState { block: label, terminated: false, ..self.put(label).put(":\n"@) }
    }

    /// A loop opens.
    pub open spec fn open_loop(self, continue_label: Seq<char>, exit_label: Seq<char>) -> EmitState {
        EmitState { loops: self.loops.push((continue_label, exit_label)), ..self }
    }

    /// The innermost loop closes.
    pub open spec fn close_loop(self) -> EmitState {
        EmitState {
            loops: if self.loops.len() > 0 {
                self.loops.drop_last()
            } else {
                self.loops
            },
            ..self
        }
    }

    pub open spec fn with_owner(self, owner: Option<Seq<char>>) -> EmitState {
        EmitState { owner, ..self }
    }

    pub open spec fn with_audited(self, audited: Option<Seq<char>>) -> EmitState {
        EmitState { audited, ..self }
    }

    pub open spec fn with_exit_fence(self, exit_fence: Option<Seq<char>>) -> EmitState {
        EmitState { exit_fence, ..self }
    }

    pub open spec fn with_tag_write(self, tag_write: Option<(Seq<char>, nat)>) -> EmitState {
        EmitState { tag_write, ..self }
    }

    pub open spec fn with_unmask(self) -> EmitState {
        EmitState { unmask: true, ..self }
    }
}

// ─── The emitter's own data ────────────────────────────────────────────────

/// A local binding.
pub struct LocalBinding {
    pub name: String,
    pub value: String,
    pub ir_type: String,
    pub storage: LocalStorage,
}

impl View for LocalBinding {
    type V = LocalView;

    open spec fn view(&self) -> LocalView {
        LocalView {
            name: self.name@,
            value: self.value@,
            ir_type: self.ir_type@,
            storage: self.storage,
        }
    }
}

/// The text emitter.
pub struct Emitter {
    out: String,
    next_value_id: Counter,
    next_label_id: Counter,
    locals: Vec<LocalBinding>,
    enclosing_owner: Option<String>,
    current_audited_owner: Option<String>,
    pending_exit_fence: Option<&'static str>,
    pending_transition_tag_write: Option<(String, u32)>,
    current_block: String,
    current_block_terminated: bool,
    pending_atomic_exit_unmask: bool,
    sigma_loop_stack: Vec<(String, String)>,
    errors: Vec<CodegenError>,
}

spec fn loops_view(s: Seq<(String, String)>) -> Seq<(Seq<char>, Seq<char>)> {
    Seq::new(s.len(), |i: int| (s[i].0@, s[i].1@))
}

impl View for Emitter {
    type V = EmitState;

    closed spec fn view(&self) -> EmitState {
        EmitState {
            out: self.out@,
            values: self.next_value_id@,
            labels: self.next_label_id@,
            locals: views(self.locals@),
            owner: option_view(self.enclosing_owner),
            audited: option_view(self.current_audited_owner),
            exit_fence: match self.pending_exit_fence {
                Some(f) => Some(f@),
                None => None,
            },
            tag_write: match self.pending_transition_tag_write {
                Some((a, t)) => Some((a@, t as nat)),
                None => None,
            },
            block: self.current_block@,
            terminated: self.current_block_terminated,
            unmask: self.pending_atomic_exit_unmask,
            loops: loops_view(self.sigma_loop_stack@),
            errors: views(self.errors@),
        }
    }
}

impl Emitter {
    /// An emitter that has emitted nothing.
    pub fn new() -> (r: Emitter)
        ensures
            r@ == EmitState::initial(),
    {
        let r = Emitter {
            out: String::new(),
            next_value_id: Counter::zero(),
            next_label_id: Counter::zero(),
            locals: Vec::new(),
            enclosing_owner: None,
            current_audited_owner: None,
            pending_exit_fence: None,
            pending_transition_tag_write: None,
            current_block: "entry".to_owned(),
            current_block_terminated: false,
            pending_atomic_exit_unmask: false,
            sigma_loop_stack: Vec::new(),
            errors: Vec::new(),
        };
        assert(r@.locals =~= Seq::empty());
        assert(r@.loops =~= Seq::empty());
        assert(r@.errors =~= Seq::empty());
        r
    }

    /// The text, or the errors where there are any.
    pub fn finish(self) -> (r: Result<String, Vec<CodegenError>>)
        ensures
            match r {
                Ok(out) => self@.errors.len() == 0 && out@ == self@.out,
                Err(errors) => self@.errors.len() > 0 && views(errors@) == self@.errors,
            },
    {
        if self.errors.len() == 0 {
            Ok(self.out)
        } else {
            Err(self.errors)
        }
    }

    /// Starts a function: numbering, scopes and blocks start anew.
    pub fn reset_per_function_state(&mut self)
        ensures
            final(self)@ == old(self)@.reset(),
    {
        self.next_value_id = Counter::zero();
        self.next_label_id = Counter::zero();
        self.locals.clear();
        self.enclosing_owner = None;
        self.current_audited_owner = None;
        self.current_block = "entry".to_owned();
        self.current_block_terminated = false;
        self.pending_atomic_exit_unmask = false;
        self.sigma_loop_stack.clear();
        assert(self@.locals =~= Seq::empty());
        assert(self@.loops =~= Seq::empty());
    }

    /// Appends text.
    pub fn put(&mut self, s: &str)
        ensures
            final(self)@ == old(self)@.put(s@),
    {
        self.out.append(s);
    }

    /// Takes the next value name.
    pub fn fresh_value(&mut self) -> (r: String)
        ensures
            r@ == old(self)@.next_value(),
            final(self)@ == old(self)@.take_value(),
    {
        let mut name = "%tmp.".to_owned();
        let id = self.next_value_id.text();
        name.append(id.as_str());
        self.next_value_id.step();
        name
    }

    /// Takes the next label number.
    pub fn fresh_label(&mut self) -> (r: String)
        ensures
            r@ == dec(old(self)@.labels),
            final(self)@ == old(self)@.take_label(),
    {
        let id = self.next_label_id.text();
        self.next_label_id.step();
        id
    }

    /// Records an error.
    pub fn fail(&mut self, e: CodegenError)
        ensures
            final(self)@ == old(self)@.fail(e@),
    {
        self.errors.push(e);
        assert(self@.errors =~= old(self)@.errors.push(e@));
    }

    /// Brings a local into scope.
    pub fn bind(&mut self, name: &str, value: String, ir_type: String, storage: LocalStorage)
        ensures
            final(self)@ == old(self)@.bind(
                LocalView { name: name@, value: value@, ir_type: ir_type@, storage },
            ),
    {
        self.locals.push(LocalBinding { name: name.to_owned(), value, ir_type, storage });
        assert(self@.locals =~= old(self)@.locals.push(
            LocalView { name: name@, value: value@, ir_type: ir_type@, storage },
        ));
    }

    /// How many locals are in scope.
    pub fn scope(&self) -> (r: usize)
        ensures
            r == self@.locals.len(),
    {
        self.locals.len()
    }

    /// Drops the locals that came into scope since there were `n`.
    pub fn unbind(&mut self, n: usize)
        ensures
            final(self)@ == old(self)@.unbind(n as nat),
    {
        self.locals.truncate(n);
        assert(self@.locals =~= old(self)@.unbind(n as nat).locals);
    }

    /// The innermost local of the given name.
    pub fn local(&self, name: &str) -> (r: Option<&LocalBinding>)
        ensures
            match r {
                Some(b) => find_local(self@.locals, name@) == Some(b@),
                None => find_local(self@.locals, name@) is None,
            },
    {
        let mut i: usize = self.locals.len();
        let ghost ls = self@.locals;
        assert(ls.take(i as int) =~= ls);
        while i > 0
            invariant
                i <= self.locals@.len() == ls.len(),
                ls == self@.locals,
                find_local(ls, name@) == find_local(ls.take(i as int), name@),
            decreases i,
        {
            assert(ls.take(i as int).drop_last() =~= ls.take(i - 1));
            i = i - 1;
            if same(self.locals[i].name.as_str(), name) {
                return Some(&self.locals[i]);
            }
        }
        None
    }

    /// Marks the current block as ended.
    pub fn terminate(&mut self)
        ensures
            final(self)@ == old(self)@.terminate(),
    {
        self.current_block_terminated = true;
    }

    /// Whether the current block has ended.
    pub fn terminated(&self) -> (r: bool)
        ensures
            r == self@.terminated,
    {
        self.current_block_terminated
    }

    /// Starts a block.
    pub fn start_block(&mut self, label: &str)
        ensures
            final(self)@ == old(self)@.start_block(label@),
    {
        self.out.append(label);
        self.out.append(":\n");
        self.current_block = label.to_owned();
        self.current_block_terminated = false;
    }

    /// The label of the current block.
    pub fn block(&self) -> (r: String)
        ensures
            r@ == self@.block,
    {
        self.current_block.clone()
    }

    /// Opens a loop.
    pub fn open_loop(&mut self, continue_label: &str, exit_label: &str)
        ensures
            final(self)@ == old(self)@.open_loop(continue_label@, exit_label@),
    {
        self.sigma_loop_stack.push((continue_label.to_owned(), exit_label.to_owned()));
        assert(self@.loops =~= old(self)@.loops.push((continue_label@, exit_label@)));
    }

    /// Closes the innermost loop.
    pub fn close_loop(&mut self)
        ensures
            final(self)@ == old(self)@.close_loop(),
    {
        let _ = self.sigma_loop_stack.pop();
        assert(self@.loops =~= old(self)@.close_loop().loops);
    }

    /// Continue and exit label of the innermost loop.
    pub fn innermost_loop(&self) -> (r: Option<(String, String)>)
        ensures
            match r {
                Some(l) => self@.loops.len() > 0 && self@.loops.last() == (l.0@, l.1@),
                None => self@.loops.len() == 0,
            },
    {
        let n: usize = self.sigma_loop_stack.len();
        if n == 0 {
            None
        } else {
            let l = &self.sigma_loop_stack[n - 1];
            Some((l.0.clone(), l.1.clone()))
        }
    }

    /// The automaton whose transition is being emitted.
    pub fn owner(&self) -> (r: Option<String>)
        ensures
            option_view(r) == self@.owner,
    {
        copy_option(&self.enclosing_owner)
    }

    pub fn set_owner(&mut self, owner: Option<String>)
        ensures
            final(self)@ == old(self)@.with_owner(option_view(owner)),
    {
        self.enclosing_owner = owner;
    }

    /// The audited automaton whose transition is being emitted.
    pub fn audited(&self) -> (r: Option<String>)
        ensures
            option_view(r) == self@.audited,
    {
        copy_option(&self.current_audited_owner)
    }

    pub fn set_audited(&mut self, audited: Option<String>)
        ensures
            final(self)@ == old(self)@.with_audited(option_view(audited)),
    {
        self.current_audited_owner = audited;
    }

    /// The fence due before every return.
    pub fn exit_fence(&self) -> (r: Option<&'static str>)
        ensures
            match r {
                Some(f) => self@.exit_fence == Some(f@),
                None => self@.exit_fence is None,
            },
    {
        self.pending_exit_fence
    }

    pub fn set_exit_fence(&mut self, fence: Option<&'static str>)
        ensures
            final(self)@ == old(self)@.with_exit_fence(
                match fence {
                    Some(f) => Some(f@),
                    None => None,
                },
            ),
    {
        self.pending_exit_fence = fence;
    }

    /// The state tag due to be written before every return.
    pub fn tag_write(&self) -> (r: Option<(String, u32)>)
        ensures
            match r {
                Some((a, t)) => self@.tag_write == Some((a@, t as nat)),
                None => self@.tag_write is None,
            },
    {
        match &self.pending_transition_tag_write {
            Some((a, t)) => Some((a.clone(), *t)),
            None => None,
        }
    }

    pub fn set_tag_write(&mut self, tag_write: Option<(String, u32)>)
        ensures
            final(self)@ == old(self)@.with_tag_write(
                match tag_write {
                    Some((a, t)) => Some((a@, t as nat)),
                    None => None,
                },
            ),
    {
        self.pending_transition_tag_write = tag_write;
    }

    /// Whether interrupts must be unmasked before a return.
    pub fn unmask(&self) -> (r: bool)
        ensures
            r == self@.unmask,
    {
        self.pending_atomic_exit_unmask
    }

    pub fn set_unmask(&mut self)
        ensures
            final(self)@ == old(self)@.with_unmask(),
    {
        self.pending_atomic_exit_unmask = true;
    }
}

} // verus!
