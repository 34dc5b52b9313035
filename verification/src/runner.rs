//! From source text to a machine that is ready to run it.

use crate::ast::StmtView;
use crate::interpreter::{scheduled, Interpreter, MachineView};
use crate::parser::{parse_program, reported_as, Parsed, Parser};
use crate::report::{had_error, Reporter};
use crate::scanner::{lemma_scan_from_shape, scan, Scanner};
use crate::tokens::tokens_view;
use vstd::prelude::*;
use vstd::string::StrSliceExecFns;

verus! {

/// What became of a source text.
#[derive(Debug, Clone, Copy, PartialEq, Eq, Structural)]
pub enum Loaded {
    /// The text was scanned and parsed without error, and its statements
    /// are the machine's next work.
    Ready,
    /// An error is on record, from this text or from before: nothing was
    /// given to the machine.
    Rejected,
    /// The text is as long as the address space: it was not read.
    TooLong,
}

/// The statements that a source text spells, and the errors that the
/// parser finds in its tokens.
pub open spec fn program(source: Seq<char>) -> Parsed<Seq<StmtView>> {
    parse_program(scan(source).tokens)
}

/// Scans and parses `source`, reporting its errors to `reporter`, and, if no
/// error is on record after that, puts its statements on top of the
/// machine's work. [`Interpreter::step`] then runs them.
pub fn run(source: &str, interpreter: &mut Interpreter, reporter: &mut Reporter) -> (r: Loaded)
    requires
        old(interpreter)@.ok(),
    ensures
        final(interpreter)@.ok(),
        source@.len() < usize::MAX ==> reported_as(
            final(reporter),
            old(reporter),
            scan(source@).errors + program(source@).errors,
        ),
        match r {
            Loaded::TooLong => {
                &&& source@.len() >= usize::MAX
                &&& *final(reporter) == *old(reporter)
                &&& final(interpreter)@ == old(interpreter)@
            },
            Loaded::Rejected => {
                &&& source@.len() < usize::MAX
                &&& final(reporter).flagged()
                &&& final(interpreter)@ == old(interpreter)@
            },
            Loaded::Ready => {
                &&& source@.len() < usize::MAX
                &&& !final(reporter).flagged()
                &&& final(interpreter)@ == (MachineView {
                    tasks: old(interpreter)@.tasks + scheduled(program(source@).value.unwrap()),
                    ..old(interpreter)@
                })
            },
        },
{
    if source.unicode_len() == usize::MAX {
        return Loaded::TooLong;
    }
    let ghost scanned = scan(source@);
    let ghost parsed = parse_program(scanned.tokens);
    let ghost seen = *reporter;
    let mut scanner = Scanner::new(source.to_owned());
    let tokens = scanner.scan_tokens(reporter);
    proof {
        lemma_scan_from_shape(source@, 0, 1);
        assert(tokens_view(tokens@) =~= scanned.tokens);
        assert(tokens@.last()@ == tokens_view(tokens@).last());
    }
    let mut parser = Parser::new(tokens);
    let statements = parser.parse(reporter);
    proof {
        assert(seen.reported() + (scanned.errors + parsed.errors) =~= (seen.reported()
            + scanned.errors) + parsed.errors);
    }
    if had_error(reporter) {
        Loaded::Rejected
    } else {
        interpreter.interpret(statements.as_slice());
        Loaded::Ready
    }
}

} // verus!
