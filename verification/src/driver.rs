//! The pipeline: the phases in order, and what each failure tells the user.
use vstd::prelude::*;

use crate::ast::Program;
use crate::check::{check, check_outcome, CheckError, CheckErrorView};
use crate::codegen::error::{CodegenError, CodegenErrorView};
use crate::codegen::lower;
use crate::codegen::lowering::lowered;
use crate::collections::views;
use crate::effect::callable::CallableView;
use crate::effect::callgraph::{extract_call_graph, graph_outcome};
use crate::effect::category::{categories_outcome, extract_categories};
use crate::effect::error::{EffectError, EffectErrorView};
use crate::effect::profile::{
    extract_mutation_profiles, profiles_outcome, MutationProfiles, ProfileView,
};
use crate::resolve::Resolution;
use crate::text::{
    char_is_digit, chars_of, contains, dec, decimal_is_digits, decimal_reads_back, find_first,
    find_first_is_first, find_from, has, is_digit, numeral_value, occurs_at, parse_unsigned, slice,
};
use crate::types::Typing;

pub mod messages;
pub mod offsets;

verus! {

// ─── Diagnostics ───────────────────────────────────────────────────────────

/// Where the run of digits that starts at `from` ends.
pub open spec fn digits_end(s: Seq<char>, from: int) -> int
    decreases s.len() - from,
{
    if 0 <= from < s.len() && is_digit(s[from]) {
        digits_end(s, from + 1)
    } else {
        from
    }
}

/// The first number that stands behind `byte ` at or after `from`.
pub open spec fn offset_in(s: Seq<char>, from: int) -> Option<nat>
    decreases s.len() - from,
{
    match find_first(s, "byte "@, from) {
        None => None,
        Some(i) => {
            let start = i + 5;
            let end = digits_end(s, start);
            if end > start && numeral_value(s.subrange(start, end), 10, usize::MAX as nat) is Some {
                numeral_value(s.subrange(start, end), 10, usize::MAX as nat)
            } else if from < start <= s.len() {
                offset_in(s, start)
            } else {
                None
            }
        },
    }
}

proof fn digits_end_bounds(s: Seq<char>, from: int)
    requires
        0 <= from <= s.len(),
    ensures
        from <= digits_end(s, from) <= s.len(),
    decreases s.len() - from,
{
    if from < s.len() && is_digit(s[from]) {
        digits_end_bounds(s, from + 1);
    }
}

/// The source offset that a message mentions: the first number behind `byte `.
pub fn byte_offset_from_msg(msg: &str) -> (r: Option<usize>)
    ensures
        match r {
            Some(n) => offset_in(msg@, 0) == Some(n as nat),
            None => offset_in(msg@, 0) is None,
        },
{
    let cs = chars_of(msg);
    let n: usize = cs.len();
    let needle = chars_of("byte ");
    proof {
        reveal_strlit("byte ");
    }
    let mut from: usize = 0;
    loop
        invariant
            from <= n == cs@.len(),
            cs@ == msg@,
            needle@ == "byte "@,
            needle@.len() == 5,
            offset_in(msg@, 0) == offset_in(msg@, from as int),
        decreases n - from,
    {
        proof {
            find_first_is_first(msg@, "byte "@, from as int);
        }
        let i: usize = match find_from(&cs, &needle, from) {
            None => {
                return None;
            },
            Some(i) => i,
        };
        let start: usize = i + 5;
        let mut end: usize = start;
        while end < n && char_is_digit(cs[end])
            invariant
                start <= end <= n == cs@.len(),
                cs@ == msg@,
                digits_end(msg@, start as int) == digits_end(msg@, end as int),
            decreases n - end,
        {
            end = end + 1;
        }
        if end > start {
            let digits = slice(msg, start, end);
            if let Some(v) = parse_unsigned(digits.as_str(), 10, usize::MAX as u64) {
                return Some(v as usize);
            }
        }
        from = start;
    }
}

/// The run of digits ends where the first other character stands.
pub proof fn digits_end_at(s: Seq<char>, from: int, to: int)
    requires
        0 <= from <= to <= s.len(),
        forall|i: int| from <= i < to ==> is_digit(#[trigger] s[i]),
        to < s.len() ==> !is_digit(s[to]),
    ensures
        digits_end(s, from) == to,
    decreases to - from,
{
    if from < to {
        digits_end_at(s, from + 1, to);
    }
}

/// A message that first says `byte `, then a number and then no further digit,
/// mentions the offset of that number.
pub proof fn first_mention_is_the_offset(before: Seq<char>, n: nat, after: Seq<char>)
    requires
        n <= usize::MAX,
        forall|i: int|
            0 <= i < before.len() ==> !occurs_at(before + "byte "@, "byte "@, i),
        after.len() > 0 ==> !is_digit(after[0]),
    ensures
        offset_in(before + "byte "@ + dec(n) + after, 0) == Some(n),
{
    reveal_strlit("byte ");
    let msg = before + "byte "@ + dec(n) + after;
    let at = before.len() as int;
    let start = at + 5;
    let end = start + dec(n).len();
    assert(msg.subrange(at, at + 5) =~= "byte "@);
    assert(occurs_at(msg, "byte "@, at));
    assert forall|i: int| 0 <= i < at implies !occurs_at(msg, "byte "@, i) by {
        if occurs_at(msg, "byte "@, i) {
            assert(msg.subrange(i, i + 5) =~= (before + "byte "@).subrange(i, i + 5));
            assert(occurs_at(before + "byte "@, "byte "@, i));
        }
    }
    find_first_is_first(msg, "byte "@, 0);
    assert(find_first(msg, "byte "@, 0) == Some(at));
    decimal_reads_back(n, usize::MAX as nat);
    decimal_is_digits(n);
    assert forall|i: int| start <= i < end implies is_digit(#[trigger] msg[i]) by {
        assert(msg[i] == dec(n)[i - start]);
    }
    if end < msg.len() {
        assert(msg[end] == after[0]);
    }
    digits_end_at(msg, start, end);
    assert(msg.subrange(start, end) =~= dec(n));
}

/// One error of a phase.
#[derive(Debug)]
pub struct PhaseDiag {
    /// The message, with its error code.
    pub message: String,
    /// The source offset that the message mentions.
    pub primary_offset: Option<usize>,
}

/// A [`PhaseDiag`] as a mathematical value.
pub ghost struct DiagView {
    pub message: Seq<char>,
    pub primary_offset: Option<nat>,
}

impl View for PhaseDiag {
    type V = DiagView;

    open spec fn view(&self) -> DiagView {
        DiagView {
            message: self.message@,
            primary_offset: match self.primary_offset {
                Some(n) => Some(n as nat),
                None => None,
            },
        }
    }
}

/// The diagnostic for a message.
pub open spec fn diagnostic(message: Seq<char>) -> DiagView {
    DiagView { message, primary_offset: offset_in(message, 0) }
}

impl PhaseDiag {
    /// The diagnostic for a message, with the offset that it mentions.
    pub fn from_error(message: &str) -> (r: PhaseDiag)
        ensures
            r@ == diagnostic(message@),
    {
        PhaseDiag { message: message.to_owned(), primary_offset: byte_offset_from_msg(message) }
    }

    /// The diagnostics of a phase that stops at its first error.
    pub fn from_single(message: &str) -> (r: Vec<PhaseDiag>)
        ensures
            views(r@) == seq![diagnostic(message@)],
    {
        let r: Vec<PhaseDiag> = vec![PhaseDiag::from_error(message)];
        assert(views(r@) =~= seq![diagnostic(message@)]);
        r
    }
}

/// Why a compilation failed.
#[derive(Debug)]
pub enum CompileError {
    /// A phase rejected the program.
    Phase {
        /// The phase.
        name: &'static str,
        /// One entry for each of its errors.
        diags: Vec<PhaseDiag>,
    },
    /// A file could not be read or written.
    Io(String),
}

/// A [`CompileError`] as a mathematical value.
pub ghost enum CompileErrorView {
    Phase { name: Seq<char>, diags: Seq<DiagView> },
    Io(Seq<char>),
}

impl View for CompileError {
    type V = CompileErrorView;

    open spec fn view(&self) -> CompileErrorView {
        match self {
            CompileError::Phase { name, diags } => CompileErrorView::Phase {
                name: name@,
                diags: views(diags@),
            },
            CompileError::Io(what) => CompileErrorView::Io(what@),
        }
    }
}

/// The failure of a phase with the given messages.
pub open spec fn phase_failure(name: Seq<char>, messages: Seq<Seq<char>>) -> CompileErrorView {
    CompileErrorView::Phase {
        name,
        diags: Seq::new(messages.len(), |i: int| diagnostic(messages[i])),
    }
}

/// The exit code of the compiler: 1 where a phase rejected the program, 3
/// where a file could not be read or written.
pub fn exit_code(e: &CompileError) -> (r: u8)
    ensures
        r == match e@ {
            CompileErrorView::Phase { .. } => 1u8,
            CompileErrorView::Io(_) => 3u8,
        },
{
    match e {
        CompileError::Phase { .. } => 1,
        CompileError::Io(_) => 3,
    }
}

/// The failure of a phase with the given messages.
pub fn phase_error(name: &'static str, messages: &Vec<String>) -> (r: CompileError)
    ensures
        r@ == phase_failure(name@, views(messages@)),
{
    let mut diags: Vec<PhaseDiag> = Vec::new();
    let mut i: usize = 0;
    while i < messages.len()
        invariant
            i <= messages@.len(),
            diags@.len() == i,
            forall|k: int|
                0 <= k < i ==> (#[trigger] diags@[k])@ == diagnostic(views(messages@)[k]),
        decreases messages@.len() - i,
    {
        diags.push(PhaseDiag::from_error(messages[i].as_str()));
        i = i + 1;
    }
    assert(views(diags@) =~= Seq::new(
        views(messages@).len(),
        |i: int| diagnostic(views(messages@)[i]),
    ));
    CompileError::Phase { name, diags }
}

/// The bytes to mark for a diagnostic at `offset`: one, or none at the end of
/// the source.
pub fn label_range(offset: usize, source_len: usize) -> (r: (usize, usize))
    ensures
        r.0 == if offset <= source_len {
            offset
        } else {
            source_len
        },
        r.1 == if offset + 1 <= source_len {
            (offset + 1) as usize
        } else {
            source_len
        },
        r.0 <= r.1 <= source_len,
{
    if offset < source_len {
        (offset, offset + 1)
    } else {
        (source_len, source_len)
    }
}

// ─── Source ────────────────────────────────────────────────────────────────

/// The source uses `#audit` and does not declare the auditor interface itself.
pub open spec fn wants_audit_module(source: Seq<char>) -> bool {
    !contains(source, "#interface PointerAuditor"@) && contains(source, "#audit"@)
}

/// Whether the audit module must be put before the source.
pub fn needs_audit_stdlib(source: &str) -> (r: bool)
    ensures
        r == wants_audit_module(source@),
{
    if has(source, "#interface PointerAuditor") {
        return false;
    }
    has(source, "#audit")
}

/// The source that is compiled: the given one, behind the audit module where
/// it needs that.
pub fn active_source(source: &str, audit_module: &str) -> (r: String)
    ensures
        r@ == if wants_audit_module(source@) {
            audit_module@ + "\n"@ + source@
        } else {
            source@
        },
{
    if needs_audit_stdlib(source) {
        let mut out = audit_module.to_owned();
        out.append("\n");
        out.append(source);
        out
    } else {
        source.to_owned()
    }
}

/// A source that declares the auditor interface itself is compiled as it is.
pub proof fn own_auditor_is_kept(source: Seq<char>)
    requires
        contains(source, "#interface PointerAuditor"@),
    ensures
        !wants_audit_module(source),
{
}

// ─── Phases ────────────────────────────────────────────────────────────────

/// The messages of check errors.
pub open spec fn check_messages(errors: Seq<CheckErrorView>) -> Seq<Seq<char>> {
    Seq::new(errors.len(), |i: int| errors[i].message())
}

/// The messages of effect errors.
pub open spec fn effect_messages(errors: Seq<EffectErrorView>) -> Seq<Seq<char>> {
    Seq::new(errors.len(), |i: int| errors[i].message())
}

/// The messages of code generation errors.
pub open spec fn codegen_messages(errors: Seq<CodegenErrorView>) -> Seq<Seq<char>> {
    Seq::new(errors.len(), |i: int| errors[i].message())
}

/// The profiles of a program that passes every check, or the failure of the
/// first phase that rejects it.
pub open spec fn analysis(program: Program, res: Resolution) -> Result<
    Map<CallableView, ProfileView>,
    CompileErrorView,
> {
    match check_outcome(program, res) {
        Err(errors) => Err(phase_failure("check"@, check_messages(errors))),
        Ok(_) => match categories_outcome(program.items@) {
            Err(errors) => Err(phase_failure("effect"@, effect_messages(errors))),
            Ok(_) => match profiles_outcome(program, res) {
                Err(errors) => Err(phase_failure("effect"@, effect_messages(errors))),
                Ok(profiles) => match graph_outcome(program, res) {
                    Err(errors) => Err(phase_failure("effect"@, effect_messages(errors))),
                    Ok(_) => Ok(profiles),
                },
            },
        },
    }
}

/// The text of a program that passed every check and the verdict on races, or
/// the failure of the first phase that rejects it.
pub open spec fn generation(
    program: Program,
    res: Resolution,
    typing: Typing,
    module_name: Seq<char>,
    races: Seq<Seq<char>>,
) -> Result<Seq<char>, CompileErrorView> {
    if races.len() > 0 {
        Err(phase_failure("ortho"@, races))
    } else {
        match lowered(program, res, typing, module_name) {
            Err(errors) => Err(phase_failure("codegen"@, codegen_messages(errors))),
            Ok(text) => Ok(text),
        }
    }
}

fn check_texts(errors: &Vec<CheckError>) -> (r: Vec<String>)
    ensures
        views(r@) == check_messages(views(errors@)),
{
    let mut out: Vec<String> = Vec::new();
    let mut i: usize = 0;
    while i < errors.len()
        invariant
            i <= errors@.len(),
            out@.len() == i,
            forall|k: int| 0 <= k < i ==> (#[trigger] out@[k])@ == errors@[k]@.message(),
        decreases errors@.len() - i,
    {
        out.push(errors[i].message());
        i = i + 1;
    }
    assert(views(out@) =~= check_messages(views(errors@)));
    out
}

fn effect_texts(errors: &Vec<EffectError>) -> (r: Vec<String>)
    ensures
        views(r@) == effect_messages(views(errors@)),
{
    let mut out: Vec<String> = Vec::new();
    let mut i: usize = 0;
    while i < errors.len()
        invariant
            i <= errors@.len(),
            out@.len() == i,
            forall|k: int| 0 <= k < i ==> (#[trigger] out@[k])@ == errors@[k]@.message(),
        decreases errors@.len() - i,
    {
        out.push(errors[i].message());
        i = i + 1;
    }
    assert(views(out@) =~= effect_messages(views(errors@)));
    out
}

fn codegen_texts(errors: &Vec<CodegenError>) -> (r: Vec<String>)
    ensures
        views(r@) == codegen_messages(views(errors@)),
{
    let mut out: Vec<String> = Vec::new();
    let mut i: usize = 0;
    while i < errors.len()
        invariant
            i <= errors@.len(),
            out@.len() == i,
            forall|k: int| 0 <= k < i ==> (#[trigger] out@[k])@ == errors@[k]@.message(),
        decreases errors@.len() - i,
    {
        out.push(errors[i].message());
        i = i + 1;
    }
    assert(views(out@) =~= codegen_messages(views(errors@)));
    out
}

/// Runs the checks and the effect analysis on a resolved program.
pub fn analyse(program: &Program, resolution: &Resolution) -> (r: Result<
    MutationProfiles,
    CompileError,
>)
    ensures
        match r {
            Ok(p) => analysis(*program, *resolution) == Ok::<
                Map<CallableView, ProfileView>,
                CompileErrorView,
            >(p@),
            Err(e) => analysis(*program, *resolution) == Err::<
                Map<CallableView, ProfileView>,
                CompileErrorView,
            >(e@),
        },
{
    if let Err(errors) = check(program, resolution) {
        let texts = check_texts(&errors);
        return Err(phase_error("check", &texts));
    }
    if let Err(errors) = extract_categories(program) {
        let texts = effect_texts(&errors);
        return Err(phase_error("effect", &texts));
    }
    let profiles = match extract_mutation_profiles(program, resolution) {
        Ok(p) => p,
        Err(errors) => {
            let texts = effect_texts(&errors);
            return Err(phase_error("effect", &texts));
        },
    };
    if let Err(errors) = extract_call_graph(program, resolution) {
        let texts = effect_texts(&errors);
        return Err(phase_error("effect", &texts));
    }
    Ok(profiles)
}

/// Generates code for a program that passed the checks. `races` holds the
/// messages of the verdict on races; where there are any, no code is made.
pub fn generate(
    program: &Program,
    resolution: &Resolution,
    typing: &Typing,
    module_name: &str,
    races: &Vec<String>,
) -> (r: Result<String, CompileError>)
    ensures
        match r {
            Ok(text) => generation(
                *program,
                *resolution,
                *typing,
                module_name@,
                views(races@),
            ) == Ok::<Seq<char>, CompileErrorView>(text@),
            Err(e) => generation(*program, *resolution, *typing, module_name@, views(races@))
                == Err::<Seq<char>, CompileErrorView>(e@),
        },
{
    if races.len() > 0 {
        return Err(phase_error("ortho", races));
    }
    match lower(program, resolution, typing, module_name) {
        Ok(text) => Ok(text),
        Err(errors) => {
            let texts = codegen_texts(&errors);
            Err(phase_error("codegen", &texts))
        },
    }
}

// ─── Laws ──────────────────────────────────────────────────────────────────

/// A program passes the analysis exactly where every phase of it accepts the
/// program, and then the profiles are those of the profile phase.
pub proof fn analysed_iff_every_phase_accepts(program: Program, res: Resolution)
    ensures
        analysis(program, res) is Ok <==> {
            &&& check_outcome(program, res) is Ok
            &&& categories_outcome(program.items@) is Ok
            &&& profiles_outcome(program, res) is Ok
            &&& graph_outcome(program, res) is Ok
        },
        analysis(program, res) is Ok ==> analysis(program, res)->Ok_0 == profiles_outcome(
            program,
            res,
        )->Ok_0,
{
}

/// A program that the checks reject is rejected as a whole with their errors,
/// whatever the later phases would say.
pub proof fn checks_speak_first(program: Program, res: Resolution)
    requires
        check_outcome(program, res) is Err,
    ensures
        analysis(program, res) == Err::<Map<CallableView, ProfileView>, CompileErrorView>(
            phase_failure("check"@, check_messages(check_outcome(program, res)->Err_0)),
        ),
{
}

/// No text is made for a program with races, and for one without it is the
/// lowered text.
pub proof fn races_stop_generation(
    program: Program,
    res: Resolution,
    typing: Typing,
    module_name: Seq<char>,
    races: Seq<Seq<char>>,
)
    ensures
        races.len() > 0 ==> generation(program, res, typing, module_name, races) is Err,
        races.len() == 0 ==> (generation(program, res, typing, module_name, races) is Ok <==> lowered(
            program,
            res,
            typing,
            module_name,
        ) is Ok),
{
}

/// The phases speak in order: the checks, the categories, the profiles, the call
/// graph. The first that rejects the program gives its errors, under its name and
/// in its order.
pub proof fn the_first_phase_to_reject_speaks(program: Program, res: Resolution)
    ensures
        analysis(program, res) matches Err(e) ==> {
            let rejected = if check_outcome(program, res) is Err {
                e == phase_failure("check"@, check_messages(check_outcome(program, res)->Err_0))
            } else if categories_outcome(program.items@) is Err {
                e == phase_failure(
                    "effect"@,
                    effect_messages(categories_outcome(program.items@)->Err_0),
                )
            } else if profiles_outcome(program, res) is Err {
                e == phase_failure(
                    "effect"@,
                    effect_messages(profiles_outcome(program, res)->Err_0),
                )
            } else {
                graph_outcome(program, res) is Err && e == phase_failure(
                    "effect"@,
                    effect_messages(graph_outcome(program, res)->Err_0),
                )
            };
            rejected
        },
{
}

/// A failure has one diagnostic for every message, in order, each with the offset
/// that the message mentions first.
pub proof fn failures_keep_every_message(name: Seq<char>, messages: Seq<Seq<char>>)
    ensures
        phase_failure(name, messages) matches CompileErrorView::Phase { name: n, diags } && {
            &&& n == name
            &&& diags.len() == messages.len()
            &&& forall|i: int|
                0 <= i < messages.len() ==> (#[trigger] diags[i]).message == messages[i]
                    && diags[i].primary_offset == offset_in(messages[i], 0)
        },
{
}

/// Without races the text of a program is the lowered text, and its failure that
/// of code generation. With races the failure holds them all.
pub proof fn generation_gives_the_lowered_text(
    program: Program,
    res: Resolution,
    typing: Typing,
    module_name: Seq<char>,
    races: Seq<Seq<char>>,
)
    ensures
        ({
            let text = generation(program, res, typing, module_name, races);
            let made = lowered(program, res, typing, module_name);
            &&& races.len() > 0 ==> text == Err::<Seq<char>, CompileErrorView>(
                phase_failure("ortho"@, races),
            )
            &&& races.len() == 0 && made is Ok ==> text == Ok::<Seq<char>, CompileErrorView>(
                made->Ok_0,
            )
            &&& races.len() == 0 && made is Err ==> text == Err::<Seq<char>, CompileErrorView>(
                phase_failure("codegen"@, codegen_messages(made->Err_0)),
            )
        }),
{
}

/// A source gets the audit module exactly where it uses `#audit` and does not
/// declare the auditor interface itself.
pub proof fn audited_sources_get_the_module(source: Seq<char>)
    ensures
        wants_audit_module(source) <==> (exists|i: int| occurs_at(source, "#audit"@, i)) && (forall|
            i: int,
        |
            !occurs_at(source, "#interface PointerAuditor"@, i)),
{
}

} // verus!
