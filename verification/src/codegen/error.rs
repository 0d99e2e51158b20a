//! The errors of code generation.
use vstd::prelude::*;

verus! {

/// Why a program, or a part of it, cannot be lowered.
#[derive(Debug, Clone, PartialEq, Eq)]
pub enum CodegenError {
    /// The construct has no lowering.
    NotYetImplemented {
        /// What the construct is.
        what: &'static str,
    },
    /// A name that refers to nothing that code generation knows.
    UnresolvedName {
        /// The name.
        name: String,
    },
    /// A literal that denotes no number, has an unknown suffix, or is out of
    /// the range of its suffix.
    BadLiteral {
        /// The literal as written.
        literal: String,
        /// What is wrong with it.
        reason: &'static str,
    },
}

/// A [`CodegenError`] as a mathematical value.
pub ghost enum CodegenErrorView {
    NotYetImplemented { what: Seq<char> },
    UnresolvedName { name: Seq<char> },
    BadLiteral { literal: Seq<char>, reason: Seq<char> },
}

impl View for CodegenError {
    type V = CodegenErrorView;

    open spec fn view(&self) -> CodegenErrorView {
        match self {
            CodegenError::NotYetImplemented { what } => CodegenErrorView::NotYetImplemented {
                what: what@,
            },
            CodegenError::UnresolvedName { name } => CodegenErrorView::UnresolvedName {
                name: name@,
            },
            CodegenError::BadLiteral { literal, reason } => CodegenErrorView::BadLiteral {
                literal: literal@,
                reason: reason@,
            },
        }
    }
}

impl CodegenErrorView {
    /// The text shown to the user.
    pub open spec fn message(self) -> Seq<char> {
        match self {
            CodegenErrorView::NotYetImplemented { what } => {
                "E0810: codegen not yet implemented for "@ + what
            },
            CodegenErrorView::UnresolvedName { name } => {
                "E0811: codegen could not resolve name `"@ + name
                    + "` (likely an upstream resolver bug)"@
            },
            CodegenErrorView::BadLiteral { literal, reason } => {
                "E0812: codegen could not interpret literal `"@ + literal + "`: "@ + reason
            },
        }
    }
}

impl CodegenError {
    /// The text shown to the user.
    pub fn message(&self) -> (r: String)
        ensures
            r@ == self@.message(),
    {
        match self {
            CodegenError::NotYetImplemented { what } => {
                let mut out = "E0810: codegen not yet implemented for ".to_owned();
                out.append(what);
                out
            },
            CodegenError::UnresolvedName { name } => {
                let mut out = "E0811: codegen could not resolve name `".to_owned();
                out.append(name.as_str());
                out.append("` (likely an upstream resolver bug)");
                out
            },
            CodegenError::BadLiteral { literal, reason } => {
                let mut out = "E0812: codegen could not interpret literal `".to_owned();
                out.append(literal.as_str());
                out.append("`: ");
                out.append(reason);
                out
            },
        }
    }
}

/// The result of a lowering step as a mathematical value.
pub open spec fn result_view(r: Result<String, CodegenError>) -> Result<Seq<char>, CodegenErrorView> {
    match r {
        Ok(s) => Ok(s@),
        Err(e) => Err(e@),
    }
}

/// The error for a construct that has no lowering.
pub open spec fn not_yet(what: Seq<char>) -> CodegenErrorView {
    CodegenErrorView::NotYetImplemented { what }
}

/// The error for a name that refers to nothing.
pub open spec fn unresolved(name: Seq<char>) -> CodegenErrorView {
    CodegenErrorView::UnresolvedName { name }
}

} // verus!
