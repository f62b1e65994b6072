//! The error sink, and the front end that scans and parses a source text.

use vstd::prelude::*;
use crate::machine::{Step, StepView};
use crate::parser::{program, Outcome, ParseError, Parser};
use crate::runtime_error::RuntimeError;
use crate::scanner::{reported, scan, Scanner};
use crate::stmt::{stmt_views, Stmt, StmtView};
use crate::text::{decimal, decimal_text};

verus! {

/// The exit code of a run that met an error.
pub const EXIT_ERROR: u8 = 65;

/// The error sink of a run: it remembers whether an error was reported, and
/// the diagnostics in the order in which they came. Writing them out is the
/// host's part.
pub struct RLox {
    had_error: bool,
    diagnostics: Vec<String>,
}

/// The mathematical value of the sink.
pub struct RLoxView {
    pub had_error: bool,
    pub diagnostics: Seq<Seq<char>>,
}

/// The line that reports `message` at `line`: `[line N] Error <location>: <message>`.
pub open spec fn diagnostic(line: u64, location: Seq<char>, message: Seq<char>) -> Seq<char> {
    "[line "@ + decimal_text(line as nat) + "] Error "@ + location + ": "@ + message
}

impl View for RLox {
    type V = RLoxView;

    closed spec fn view(&self) -> RLoxView {
        RLoxView {
            had_error: self.had_error,
            diagnostics: self.diagnostics@.map_values(|text: String| text@),
        }
    }
}

impl RLoxView {
    /// The sink after one more report.
    pub open spec fn report(self, line: u64, location: Seq<char>, message: Seq<char>) -> RLoxView {
        RLoxView {
            had_error: true,
            diagnostics: self.diagnostics.push(diagnostic(line, location, message)),
        }
    }
}

/// What running the front end on a source text gives: the program, if the
/// text is one, and the sink after the problems found were reported. A text
/// with a scanning problem is not parsed, nor is any text once the sink
/// holds an error.
pub open spec fn front_end(sink: RLoxView, source: Seq<char>) -> (Option<Seq<StmtView>>, RLoxView) {
    let scanned = scan(source);
    let after = reported(sink, scanned.problems);
    if after.had_error {
        (None, after)
    } else {
        match program(scanned.tokens) {
            Outcome::Parsed { value, consumed } => (Some(value), after),
            Outcome::Failed(error) => (
                None,
                after.report(error.line_spec() as u64, Seq::empty(), error.message_spec()),
            ),
        }
    }
}

/// Scanning and parsing are functions of the source text: the same text
/// gives the same tokens, the same problems and the same program or the
/// same error, whenever and wherever it is read.
pub proof fn front_end_is_deterministic(sink: RLoxView, first: Seq<char>, second: Seq<char>)
    requires
        first == second,
    ensures
        scan(first) == scan(second),
        program(scan(first).tokens) == program(scan(second).tokens),
        front_end(sink, first) == front_end(sink, second),
{
}

impl RLox {
    pub fn new() -> (rlox: Self)
        ensures
            rlox@ == (RLoxView { had_error: false, diagnostics: Seq::empty() }),
    {
        let rlox = RLox { had_error: false, diagnostics: Vec::new() };
        assert(rlox@.diagnostics =~= Seq::empty());
        rlox
    }

    /// Reports `message` at `line`, with no location.
    pub fn error(&mut self, line: u64, message: String)
        ensures
            final(self)@ == old(self)@.report(line, Seq::empty(), message@),
    {
        self.report(line, String::new(), message);
    }

    /// Records the diagnostic and remembers that there was an error.
    pub fn report(&mut self, line: u64, location: String, message: String)
        ensures
            final(self)@ == old(self)@.report(line, location@, message@),
    {
        let mut text = String::from_str("[line ");
        let number = decimal(line);
        text.append(number.as_str());
        text.append("] Error ");
        text.append(location.as_str());
        text.append(": ");
        text.append(message.as_str());
        self.diagnostics.push(text);
        self.had_error = true;
        assert(self@.diagnostics =~= old(self)@.diagnostics.push(
            diagnostic(line, location@, message@),
        ));
    }

    /// Whether an error was reported since the sink was made or last cleared.
    pub fn had_error(&self) -> (flag: bool)
        ensures
            flag == self@.had_error,
    {
        self.had_error
    }

    /// Forgets that there was an error; the diagnostics stay.
    pub fn clear_error(&mut self)
        ensures
            final(self)@ == (RLoxView { had_error: false, diagnostics: old(self)@.diagnostics }),
    {
        self.had_error = false;
    }

    /// The diagnostics reported so far, oldest first.
    pub fn diagnostics(&self) -> (lines: &Vec<String>)
        ensures
            lines@.map_values(|text: String| text@) == self@.diagnostics,
    {
        &self.diagnostics
    }

    /// The exit code of a run: 65 after an error, 0 otherwise.
    pub fn exit_code(&self) -> (code: u8)
        ensures
            code == (if self@.had_error {
                EXIT_ERROR
            } else {
                0u8
            }),
    {
        if self.had_error {
            EXIT_ERROR
        } else {
            0
        }
    }

    /// Reports a parse error.
    pub fn parse_error(&mut self, error: &ParseError)
        ensures
            final(self)@ == old(self)@.report(
                error.line_spec() as u64,
                Seq::empty(),
                error.message_spec(),
            ),
    {
        self.error(error.line() as u64, error.message());
    }

    /// Reports a runtime error.
    pub fn runtime_error(&mut self, error: &RuntimeError)
        ensures
            final(self)@ == old(self)@.report(error@.line() as u64, Seq::empty(), error@.message()),
    {
        self.error(error.line() as u64, error.message());
    }

    /// Takes note of how a step of the interpreter ended, and says whether
    /// the run is over: it is when the program has finished, and when a
    /// runtime error stopped it, which is then reported.
    pub fn conclude(&mut self, outcome: &Step) -> (over: bool)
        ensures
            over == (outcome@ is Finished || outcome@ is Failed),
            final(self)@ == (match outcome@ {
                StepView::Failed(error) => old(self)@.report(
                    error.line() as u64,
                    Seq::empty(),
                    error.message(),
                ),
                _ => old(self)@,
            }),
    {
        match outcome {
            Step::Finished => true,
            Step::Failed(error) => {
                self.runtime_error(error);
                true
            },
            _ => false,
        }
    }

    /// Scans and parses `source`. The result is the program to interpret, or
    /// `None` where the text is no program; every problem found is reported
    /// to this sink.
    pub fn run(&mut self, source: String) -> (program: Option<Vec<Stmt>>)
        ensures
            final(self)@ == front_end(old(self)@, source@).1,
            match front_end(old(self)@, source@).0 {
                Some(statements) => program is Some && stmt_views(program->Some_0@) == statements,
                None => program is None,
            },
    {
        let mut scanner = Scanner::new(source);
        let tokens = scanner.scan_tokens(self);
        if self.had_error {
            return None;
        }
        let mut parser = Parser::new(tokens);
        match parser.parse() {
            Ok(statements) => Some(statements),
            Err(error) => {
                self.parse_error(&error);
                None
            },
        }
    }
}

} // verus!
