//! What a front end around the compiler needs besides compiling: the choice of
//! what to print, and the text of a diagnostic.

use vstd::prelude::*;
use vstd::string::StringExecFns;
use crate::diagnostic::{Diagnostic, DiagnosticView, Severity};
use crate::lexer::ascii::DIGIT_0;
use crate::text::push_char;

verus! {

/// What to print besides the diagnostics.
#[derive(Debug, Clone, Copy, PartialEq, Eq, Structural)]
pub enum Emit {
    Nothing,
    Ast,
    Tokens,
}

/// The name of a severity as it stands in a rendered diagnostic.
pub open spec fn severity_name(s: Severity) -> Seq<char> {
    match s {
        Severity::Error => "error"@,
        Severity::Warning => "warning"@,
        Severity::Note => "note"@,
    }
}

/// The character for a value below ten.
pub open spec fn decimal_digit(d: nat) -> char {
    (DIGIT_0 + d) as char
}

/// A number written in base ten, without leading zeros.
pub open spec fn decimal(n: nat) -> Seq<char>
    decreases n,
{
    if n < 10 {
        seq![decimal_digit(n)]
    } else {
        decimal(n / 10).push(decimal_digit(n % 10))
    }
}

/// A diagnostic as one line: severity, `: `, the message, and where a span is
/// known ` at `, its start, `..` and its end.
pub open spec fn rendered(d: DiagnosticView) -> Seq<char> {
    let head = severity_name(d.severity) + ": "@ + d.message;
    match d.span {
        Some(span) => head + " at "@ + decimal(span.start as nat) + ".."@ + decimal(
            span.end as nat,
        ),
        None => head,
    }
}

/// Appends `n`, written in base ten.
fn push_decimal(s: &mut String, n: usize)
    ensures
        final(s)@ == old(s)@ + decimal(n as nat),
    decreases n,
{
    if n < 10 {
        push_char(s, (DIGIT_0 + n as u8) as char);
        assert(s@ =~= old(s)@ + decimal(n as nat));
    } else {
        push_decimal(s, n / 10);
        push_char(s, (DIGIT_0 + (n % 10) as u8) as char);
        assert(s@ =~= old(s)@ + decimal(n as nat));
    }
}

/// The line that shows a diagnostic to the user.
pub fn render_diag(d: &Diagnostic) -> (line: String)
    ensures
        line@ == rendered(d@),
{
    let sev = match d.severity {
        Severity::Error => "error",
        Severity::Warning => "warning",
        Severity::Note => "note",
    };
    let mut line = sev.to_owned();
    line.append(": ");
    line.append(d.message.as_str());
    match d.span {
        Some(span) => {
            line.append(" at ");
            push_decimal(&mut line, span.start);
            line.append("..");
            push_decimal(&mut line, span.end);
        },
        None => {},
    }
    line
}

} // verus!
