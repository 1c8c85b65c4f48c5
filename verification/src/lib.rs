//! Front end of the Lyra language: source text to tokens to a syntax tree,
//! with diagnostics collected along the way.

pub mod ast;
pub mod diagnostic;
pub mod driver;
pub mod lexer;
pub mod parser;
pub mod span;
mod text;

use vstd::prelude::*;
use vstd::string::StringSliceAdditionalSpecFns;
use ast::{ItemView, Module};
use diagnostic::{diagnostics_view, Diagnostic, DiagnosticView};

verus! {

/// What compiling a source text gives: the module, as far as it could be built,
/// and everything that was reported on the way.
#[derive(Debug)]
pub struct CompileOutput {
    pub module: Module,
    pub diagnostics: Vec<Diagnostic>,
}

/// The mathematical value of a [`CompileOutput`].
pub struct CompileOutputView {
    pub module: Seq<ItemView>,
    pub diagnostics: Seq<DiagnosticView>,
}

impl View for CompileOutput {
    type V = CompileOutputView;

    open spec fn view(&self) -> CompileOutputView {
        CompileOutputView {
            module: self.module@,
            diagnostics: diagnostics_view(self.diagnostics@),
        }
    }
}

/// What compiling the text with the given bytes gives: the module parsed from its
/// tokens, and the lexer's diagnostics followed by the parser's.
pub open spec fn compiled(bytes: Seq<u8>) -> CompileOutputView {
    let tokens = lexer::model::lex(bytes).tokens;
    CompileOutputView {
        module: parser::model::module(tokens).items,
        diagnostics: lexer::model::lex(bytes).diagnostics + parser::model::module(
            tokens,
        ).diagnostics,
    }
}

/// Compiles a source text: tokens first, then the module. Nothing stops the run;
/// what goes wrong is in the diagnostics, the lexer's before the parser's.
#[must_use]
pub fn compile(source: &str) -> (out: CompileOutput)
    ensures
        out@ == compiled(source.spec_bytes()),
{
    let (tokens, mut diags) = lexer::tokenize(source);
    let (module, mut parse_diags) = parser::parse(tokens.as_slice());
    let ghost lexed = diagnostics_view(diags@);
    let ghost parsed = diagnostics_view(parse_diags@);
    diags.append(&mut parse_diags);
    assert(diagnostics_view(diags@) =~= lexed + parsed);
    CompileOutput { module, diagnostics: diags }
}

/// Compiling is a function of the text: whenever two texts are the same, so are
/// the modules and the diagnostics that compiling them gives.
pub proof fn lemma_compile_deterministic(
    first: &str,
    second: &str,
    a: CompileOutput,
    b: CompileOutput,
)
    requires
        first@ == second@,
        a@ == compiled(first.spec_bytes()),
        b@ == compiled(second.spec_bytes()),
    ensures
        a@.module == b@.module,
        a@.diagnostics == b@.diagnostics,
{
}

} // verus!
