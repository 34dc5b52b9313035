//! Diagnostics: what the scanner and the parser have to say about a source
//! text, collected in the order in which it was found.

use crate::tokens::{Token, TokenType, TokenView};
use vstd::prelude::*;
use vstd::string::StringExecFns;

verus! {

/// One reported error: the line it was found on, where on that line (empty,
/// ` at end`, or ` at '` the lexeme `'`), and what is wrong.
#[derive(Debug, PartialEq)]
pub struct Diagnostic {
    pub line: usize,
    pub location: String,
    pub message: String,
}

/// The mathematical value of a [`Diagnostic`].
pub struct DiagnosticView {
    pub line: nat,
    pub location: Seq<char>,
    pub message: Seq<char>,
}

impl View for Diagnostic {
    type V = DiagnosticView;

    open spec fn view(&self) -> DiagnosticView {
        DiagnosticView {
            line: self.line as nat,
            location: self.location@,
            message: self.message@,
        }
    }
}

/// The digit `d` as text.
pub open spec fn digit_text(d: nat) -> Seq<char> {
    if d == 0 {
        "0"@
    } else if d == 1 {
        "1"@
    } else if d == 2 {
        "2"@
    } else if d == 3 {
        "3"@
    } else if d == 4 {
        "4"@
    } else if d == 5 {
        "5"@
    } else if d == 6 {
        "6"@
    } else if d == 7 {
        "7"@
    } else if d == 8 {
        "8"@
    } else {
        "9"@
    }
}

/// The decimal numeral of `n`, without leading zeros.
pub open spec fn decimal_text(n: nat) -> Seq<char>
    decreases n,
{
    if n < 10 {
        digit_text(n)
    } else {
        decimal_text(n / 10) + digit_text(n % 10)
    }
}

/// The line that a diagnostic is shown as: `[line `, the line number,
/// `] Error`, the location, `: ` and the message.
pub open spec fn diagnostic_text(d: DiagnosticView) -> Seq<char> {
    "[line "@ + decimal_text(d.line) + "] Error"@ + d.location + ": "@ + d.message
}

/// The digit `d` as text.
fn digit(d: usize) -> (r: &'static str)
    requires
        d < 10,
    ensures
        r@ == digit_text(d as nat),
{
    if d == 0 {
        "0"
    } else if d == 1 {
        "1"
    } else if d == 2 {
        "2"
    } else if d == 3 {
        "3"
    } else if d == 4 {
        "4"
    } else if d == 5 {
        "5"
    } else if d == 6 {
        "6"
    } else if d == 7 {
        "7"
    } else if d == 8 {
        "8"
    } else {
        "9"
    }
}

/// The decimal numeral of `n`, without leading zeros.
pub fn decimal(n: usize) -> (r: String)
    ensures
        r@ == decimal_text(n as nat),
    decreases n,
{
    if n < 10 {
        String::from_str(digit(n))
    } else {
        let mut text = decimal(n / 10);
        text.append(digit(n % 10));
        text
    }
}

impl Diagnostic {
    /// The line that the diagnostic is shown as.
    pub fn render(&self) -> (r: String)
        ensures
            r@ == diagnostic_text(self@),
    {
        let mut text = String::from_str("[line ");
        text.append(decimal(self.line).as_str());
        text.append("] Error");
        text.append(self.location.as_str());
        text.append(": ");
        text.append(self.message.as_str());
        text
    }
}

impl Clone for Diagnostic {
    fn clone(&self) -> (r: Self)
        ensures
            r == *self,
    {
        Diagnostic {
            line: self.line,
            location: self.location.clone(),
            message: self.message.clone(),
        }
    }
}

/// Collects diagnostics and remembers whether any was reported since the flag
/// was last cleared.
#[derive(Debug)]
pub struct Reporter {
    flag: bool,
    entries: Vec<Diagnostic>,
}

/// The views of a sequence of diagnostics, in order.
pub open spec fn diagnostics_view(entries: Seq<Diagnostic>) -> Seq<DiagnosticView> {
    Seq::new(entries.len(), |i: int| entries[i]@)
}

/// The location text for an error found at a token: ` at end` for the end
/// marker, otherwise the lexeme between quotes.
pub open spec fn location_of(token: TokenView) -> Seq<char> {
    if token.type_ == TokenType::Eof {
        " at end"@
    } else {
        " at '"@ + token.lexeme + "'"@
    }
}

impl Reporter {
    /// Whether an error was reported since the flag was last cleared.
    pub closed spec fn flagged(&self) -> bool {
        self.flag
    }

    /// Everything reported so far, oldest first.
    pub closed spec fn reported(&self) -> Seq<DiagnosticView> {
        diagnostics_view(self.entries@)
    }

    /// A reporter that has seen nothing.
    pub fn new() -> (r: Self)
        ensures
            !r.flagged(),
            r.reported() == Seq::<DiagnosticView>::empty(),
    {
        let r = Reporter { flag: false, entries: Vec::new() };
        assert(r.reported() =~= Seq::<DiagnosticView>::empty());
        r
    }

    /// How many diagnostics were reported so far.
    pub fn count(&self) -> (n: usize)
        ensures
            n == self.reported().len(),
    {
        self.entries.len()
    }

    /// The diagnostics reported so far, oldest first.
    pub fn diagnostics(&self) -> (r: Vec<Diagnostic>)
        ensures
            diagnostics_view(r@) == self.reported(),
    {
        let mut out: Vec<Diagnostic> = Vec::new();
        let mut i: usize = 0;
        while i < self.entries.len()
            invariant
                i <= self.entries.len(),
                out.len() == i,
                forall|j: int| 0 <= j < i ==> out[j] == self.entries[j],
            decreases self.entries.len() - i,
        {
            out.push(self.entries[i].clone());
            i += 1;
        }
        assert(diagnostics_view(out@) =~= diagnostics_view(self.entries@));
        out
    }
}

/// Records an error at `line` with its location text and message, and raises
/// the flag.
pub fn report(reporter: &mut Reporter, line: usize, where_: &str, message: &str)
    ensures
        final(reporter).flagged(),
        final(reporter).reported() == old(reporter).reported().push(
            DiagnosticView { line: line as nat, location: where_@, message: message@ },
        ),
{
    let entry = Diagnostic {
        line,
        location: where_.to_owned(),
        message: message.to_owned(),
    };
    reporter.entries.push(entry);
    reporter.flag = true;
    assert(final(reporter).reported() =~= old(reporter).reported().push(
        DiagnosticView { line: line as nat, location: where_@, message: message@ },
    ));
}

/// Records an error at `line` that is tied to no token.
pub fn error(reporter: &mut Reporter, line: usize, message: &str)
    ensures
        final(reporter).flagged(),
        final(reporter).reported() == old(reporter).reported().push(
            DiagnosticView { line: line as nat, location: Seq::<char>::empty(), message: message@ },
        ),
{
    let empty = String::new();
    report(reporter, line, empty.as_str(), message);
}

/// Records an error found at `token`: at its line, located by
/// [`location_of`].
pub fn error_at_token(reporter: &mut Reporter, token: &Token, message: &str)
    ensures
        final(reporter).flagged(),
        final(reporter).reported() == old(reporter).reported().push(
            DiagnosticView {
                line: token.line as nat,
                location: location_of(token@),
                message: message@,
            },
        ),
{
    if token.type_ == TokenType::Eof {
        report(reporter, token.line, " at end", message);
    } else {
        let mut location = String::from_str(" at '");
        location.append(token.lexeme.as_str());
        location.append("'");
        report(reporter, token.line, location.as_str(), message);
    }
}

/// Whether an error was reported since the flag was last cleared.
pub fn had_error(reporter: &Reporter) -> (b: bool)
    ensures
        b == reporter.flagged(),
{
    reporter.flag
}

/// Sets or clears the flag; what was reported stays.
pub fn set_had_error(reporter: &mut Reporter, b: bool)
    ensures
        final(reporter).flagged() == b,
        final(reporter).reported() == old(reporter).reported(),
{
    reporter.flag = b;
}

} // verus!
