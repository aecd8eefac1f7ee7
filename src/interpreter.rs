use vstd::prelude::*;

use crate::instruction::ParseError;
use crate::lexer::{lex_source, parse};
use crate::machine::{lemma_runs_agree, run, run_program, RunOutcome, Status};

verus! {

/// Lexes `src` and, when that succeeds, runs it on a fresh machine for at most
/// `max_steps` steps with `input` as its input bytes. A source that does not
/// lex is never run.
pub fn interpret(src: &str, input: &Vec<u8>, max_steps: usize) -> (r: Result<
    RunOutcome,
    ParseError,
>)
    ensures
        match lex_source(src@) {
            Ok(p) => r matches Ok(o) && (o.status, o.output@) == run_program(
                p,
                input@,
                max_steps as nat,
            ),
            Err(e) => r == Err::<RunOutcome, ParseError>(e),
        },
{
    match parse(src) {
        Ok(program) => Ok(run(&program, input, max_steps)),
        Err(e) => Err(e),
    }
}

/// Interpreting a source is deterministic: lexing it gives one program, and two
/// runs of it on the same input that both end within their budgets of steps
/// end alike and print the same bytes.
pub proof fn lemma_interpret_deterministic(src: Seq<char>, input: Seq<u8>, f1: nat, f2: nat)
    requires
        lex_source(src) is Ok,
        run_program(lex_source(src)->Ok_0, input, f1).0 != Status::OutOfSteps,
        run_program(lex_source(src)->Ok_0, input, f2).0 != Status::OutOfSteps,
    ensures
        run_program(lex_source(src)->Ok_0, input, f1) == run_program(
            lex_source(src)->Ok_0,
            input,
            f2,
        ),
{
    lemma_runs_agree(lex_source(src)->Ok_0, input, f1, f2);
}

} // verus!
