use vstd::prelude::*;

use crate::instruction::{is_command, is_command_char, simple_instruction, Instruction, ParseError};
use crate::machine::valid_program;

verus! {

/// The subsequence of `s` made of instruction-alphabet characters, in order.
/// Instruction indices and loop targets count positions in this subsequence.
pub open spec fn commands(s: Seq<char>) -> Seq<char> {
    s.filter(|c: char| is_command(c))
}

/// What one character adds to a bracket depth counter.
pub open spec fn weight(c: char, open: char, close: char) -> int {
    if c == open {
        1
    } else if c == close {
        -1
    } else {
        0
    }
}

/// The number of `open` minus the number of `close` in `code[lo..hi]`.
pub open spec fn depth(code: Seq<char>, open: char, close: char, lo: int, hi: int) -> int
    decreases hi - lo,
{
    if hi <= lo {
        0
    } else {
        depth(code, open, close, lo, hi - 1) + weight(code[hi - 1], open, close)
    }
}

/// Whether position `k` lies between `start` and `stop`, both included.
pub open spec fn in_scan(start: int, stop: int, k: int) -> bool {
    if start <= stop {
        start <= k <= stop
    } else {
        stop <= k <= start
    }
}

pub open spec fn distance(a: int, b: int) -> int {
    if a <= b {
        b - a
    } else {
        a - b
    }
}

/// The depth counter once a scan from `start` has taken in position `k`.
pub open spec fn window_depth(code: Seq<char>, open: char, close: char, start: int, k: int) -> int {
    if start <= k {
        depth(code, open, close, start, k + 1)
    } else {
        depth(code, open, close, k, start + 1)
    }
}

/// The depth counter of a scan from `start` just before it takes in position `k`.
pub open spec fn scanned_depth(code: Seq<char>, open: char, close: char, start: int, k: int) -> int {
    if start <= k {
        depth(code, open, close, start, k)
    } else {
        depth(code, open, close, k + 1, start + 1)
    }
}

/// `j` is the first position, walking from `start` toward `stop`, at which the
/// depth counter is back at zero.
pub open spec fn is_partner(
    code: Seq<char>,
    open: char,
    close: char,
    start: int,
    stop: int,
    j: int,
) -> bool {
    &&& in_scan(start, stop, j)
    &&& window_depth(code, open, close, start, j) == 0
    &&& forall|k: int|
        #![trigger window_depth(code, open, close, start, k)]
        in_scan(start, stop, k) && distance(start, k) < distance(start, j) ==> window_depth(
            code,
            open,
            close,
            start,
            k,
        ) != 0
}

pub open spec fn has_partner(
    code: Seq<char>,
    open: char,
    close: char,
    start: int,
    stop: int,
) -> bool {
    exists|j: int| #[trigger] is_partner(code, open, close, start, stop, j)
}

pub proof fn lemma_depth_prepend(code: Seq<char>, open: char, close: char, lo: int, hi: int)
    requires
        lo < hi,
    ensures
        depth(code, open, close, lo, hi) == weight(code[lo], open, close) + depth(
            code,
            open,
            close,
            lo + 1,
            hi,
        ),
    decreases hi - lo,
{
    if lo + 1 < hi {
        lemma_depth_prepend(code, open, close, lo, hi - 1);
        assert(depth(code, open, close, lo + 1, hi) == depth(code, open, close, lo + 1, hi - 1)
            + weight(code[hi - 1], open, close));
    } else {
        assert(depth(code, open, close, lo, lo) == 0);
        assert(depth(code, open, close, lo + 1, hi) == 0);
    }
}

/// Where the `[` at position `i` of `code` finds its partner.
pub open spec fn forward_partner(code: Seq<char>, i: int) -> int {
    choose|j: int| #[trigger] is_partner(code, '[', ']', i, code.len() - 1, j)
}

/// Where the `]` at position `i` of `code` finds its partner.
pub open spec fn backward_partner(code: Seq<char>, i: int) -> int {
    choose|j: int| #[trigger] is_partner(code, ']', '[', i, 0, j)
}

/// A bracket at position `i` finds its partner within `code`.
pub open spec fn bracket_matched(code: Seq<char>, i: int) -> bool {
    &&& code[i] == '[' ==> has_partner(code, '[', ']', i, code.len() - 1)
    &&& code[i] == ']' ==> has_partner(code, ']', '[', i, 0)
}

pub open spec fn all_matched(code: Seq<char>) -> bool {
    forall|i: int| 0 <= i < code.len() ==> #[trigger] bracket_matched(code, i)
}

/// The instruction lexed from position `i` of a filtered sequence.
pub open spec fn instruction_at(code: Seq<char>, i: int) -> Instruction {
    if code[i] == '[' {
        Instruction::StartLoop(forward_partner(code, i) as usize)
    } else if code[i] == ']' {
        Instruction::EndLoop(backward_partner(code, i) as usize)
    } else {
        simple_instruction(code[i])->0
    }
}

/// Lexing a filtered sequence: one instruction per character, or
/// `UnmatchedLoop` when some bracket has no partner.
pub open spec fn lex(code: Seq<char>) -> Result<Seq<Instruction>, ParseError> {
    if all_matched(code) {
        Ok(Seq::new(code.len(), |i: int| instruction_at(code, i)))
    } else {
        Err(ParseError::UnmatchedLoop)
    }
}

/// Lexing source text: the lexing of its instruction-alphabet characters.
pub open spec fn lex_source(src: Seq<char>) -> Result<Seq<Instruction>, ParseError> {
    lex(commands(src))
}

pub proof fn lemma_partner_unique(
    code: Seq<char>,
    open: char,
    close: char,
    start: int,
    stop: int,
    j1: int,
    j2: int,
)
    requires
        is_partner(code, open, close, start, stop, j1),
        is_partner(code, open, close, start, stop, j2),
    ensures
        j1 == j2,
{
    if distance(start, j1) < distance(start, j2) {
        assert(window_depth(code, open, close, start, j1) != 0);
    } else if distance(start, j2) < distance(start, j1) {
        assert(window_depth(code, open, close, start, j2) != 0);
    }
}

pub proof fn lemma_depth_split(code: Seq<char>, open: char, close: char, lo: int, mid: int, hi: int)
    requires
        lo <= mid <= hi,
    ensures
        depth(code, open, close, lo, hi) == depth(code, open, close, lo, mid) + depth(
            code,
            open,
            close,
            mid,
            hi,
        ),
    decreases hi - mid,
{
    if mid < hi {
        lemma_depth_split(code, open, close, lo, mid, hi - 1);
    } else {
        assert(depth(code, open, close, mid, hi) == 0);
    }
}

/// Counting with the roles of the two symbols swapped negates the depth.
pub proof fn lemma_depth_swap(code: Seq<char>, open: char, close: char, lo: int, hi: int)
    requires
        open != close,
    ensures
        depth(code, close, open, lo, hi) == -depth(code, open, close, lo, hi),
    decreases hi - lo,
{
    if lo < hi {
        lemma_depth_swap(code, open, close, lo, hi - 1);
    }
}

/// The nesting depth before position `k`: brackets opened and not yet closed.
pub open spec fn nesting(code: Seq<char>, k: int) -> int {
    depth(code, '[', ']', 0, k)
}

proof fn lemma_forward_positive(code: Seq<char>, i: int, j: int, k: int)
    requires
        0 <= i < code.len(),
        code[i] == '[',
        is_partner(code, '[', ']', i, code.len() - 1, j),
        i <= k < j,
    ensures
        depth(code, '[', ']', i, k + 1) >= 1,
    decreases k - i,
{
    if k > i {
        lemma_forward_positive(code, i, j, k - 1);
        assert(window_depth(code, '[', ']', i, k) != 0);
    } else {
        assert(depth(code, '[', ']', i, i) == 0);
    }
}

proof fn lemma_backward_positive(code: Seq<char>, j: int, i: int, k: int)
    requires
        0 <= j < code.len(),
        code[j] == ']',
        is_partner(code, ']', '[', j, 0, i),
        i < k <= j,
    ensures
        depth(code, ']', '[', k, j + 1) >= 1,
    decreases j - k,
{
    lemma_depth_prepend(code, ']', '[', k, j + 1);
    if k < j {
        lemma_backward_positive(code, j, i, k + 1);
        assert(window_depth(code, ']', '[', j, k) != 0);
    } else {
        assert(depth(code, ']', '[', j + 1, j + 1) == 0);
    }
}

/// The partner found forward from a `[` is a `]` whose backward scan leads
/// back to that `[`, at the same nesting depth.
pub proof fn lemma_forward_pair(code: Seq<char>, i: int, j: int)
    requires
        0 <= i < code.len(),
        code[i] == '[',
        is_partner(code, '[', ']', i, code.len() - 1, j),
    ensures
        i < j < code.len(),
        code[j] == ']',
        is_partner(code, ']', '[', j, 0, i),
        nesting(code, i) == nesting(code, j + 1),
{
    assert(depth(code, '[', ']', i, i) == 0);
    assert(j != i);
    lemma_forward_positive(code, i, j, j - 1);
    assert(code[j] == ']');
    lemma_depth_swap(code, '[', ']', i, j + 1);
    assert forall|k: int|
        #![trigger window_depth(code, ']', '[', j, k)]
        in_scan(j, 0, k) && distance(j, k) < distance(j, i) implies window_depth(
            code,
            ']',
            '[',
            j,
            k,
        ) != 0 by {
        lemma_depth_split(code, '[', ']', i, k, j + 1);
        lemma_depth_swap(code, '[', ']', k, j + 1);
        lemma_forward_positive(code, i, j, k - 1);
    }
    lemma_depth_split(code, '[', ']', 0, i, j + 1);
}

/// The partner found backward from a `]` is a `[` whose forward scan leads
/// back to that `]`, at the same nesting depth.
pub proof fn lemma_backward_pair(code: Seq<char>, j: int, i: int)
    requires
        0 <= j < code.len(),
        code[j] == ']',
        is_partner(code, ']', '[', j, 0, i),
    ensures
        0 <= i < j,
        code[i] == '[',
        is_partner(code, '[', ']', i, code.len() - 1, j),
        nesting(code, i) == nesting(code, j + 1),
{
    lemma_depth_prepend(code, ']', '[', j, j + 1);
    assert(depth(code, ']', '[', j + 1, j + 1) == 0);
    assert(i != j);
    lemma_depth_prepend(code, ']', '[', i, j + 1);
    lemma_backward_positive(code, j, i, i + 1);
    assert(code[i] == '[');
    lemma_depth_swap(code, '[', ']', i, j + 1);
    assert forall|k: int|
        #![trigger window_depth(code, '[', ']', i, k)]
        in_scan(i, code.len() - 1, k) && distance(i, k) < distance(i, j) implies window_depth(
            code,
            '[',
            ']',
            i,
            k,
        ) != 0 by {
        lemma_depth_split(code, '[', ']', i, k + 1, j + 1);
        lemma_depth_swap(code, '[', ']', k + 1, j + 1);
        lemma_backward_positive(code, j, i, k + 1);
    }
    lemma_depth_split(code, '[', ']', 0, i, j + 1);
}

/// Lexing depends on the instruction-alphabet characters alone: two sources
/// that hold the same such characters in the same order lex alike, whatever
/// other characters lie between them.
pub proof fn lemma_lex_ignores_other_characters(a: Seq<char>, b: Seq<char>)
    requires
        commands(a) == commands(b),
    ensures
        lex_source(a) == lex_source(b),
{
}

/// Inserting text without instruction-alphabet characters anywhere in a source
/// leaves its lexing unchanged.
pub proof fn lemma_lex_ignores_inserted_text(front: Seq<char>, back: Seq<char>, extra: Seq<char>)
    requires
        forall|k: int| 0 <= k < extra.len() ==> !is_command(#[trigger] extra[k]),
    ensures
        lex_source(front + extra + back) == lex_source(front + back),
{
    let pred = |c: char| is_command(c);
    Seq::filter_distributes_over_add(front + extra, back, pred);
    Seq::filter_distributes_over_add(front, extra, pred);
    Seq::filter_distributes_over_add(front, back, pred);
    extra.lemma_all_neg_filter_empty(pred);
    assert(commands(front + extra) =~= commands(front));
    lemma_lex_ignores_other_characters(front + extra + back, front + back);
}

/// Every loop instruction of a lexed program targets its partner, whose own
/// target leads back to it, and a loop opens and closes at the same nesting
/// depth. (Any program that fits in memory has at most `usize::MAX`
/// instructions.)
pub proof fn lemma_loop_targets_paired(src: Seq<char>, prog: Seq<Instruction>, i: int)
    requires
        lex_source(src) == Ok::<Seq<Instruction>, ParseError>(prog),
        prog.len() <= usize::MAX,
        0 <= i < prog.len(),
    ensures
        prog[i] matches Instruction::StartLoop(j) ==> {
            &&& i < j < prog.len()
            &&& prog[j as int] == Instruction::EndLoop(i as usize)
            &&& nesting(commands(src), i) == nesting(commands(src), j + 1)
        },
        prog[i] matches Instruction::EndLoop(j) ==> {
            &&& j < i
            &&& prog[j as int] == Instruction::StartLoop(i as usize)
            &&& nesting(commands(src), j as int) == nesting(commands(src), i + 1)
        },
{
    broadcast use vstd::seq_lib::group_filter_ensures;

    let code = commands(src);
    assert(all_matched(code));
    assert(prog == Seq::new(code.len(), |k: int| instruction_at(code, k)));
    assert(bracket_matched(code, i));
    assert(is_command(code[i]));
    if code[i] == '[' {
        let j = forward_partner(code, i);
        lemma_forward_pair(code, i, j);
        assert(bracket_matched(code, j));
        lemma_partner_unique(code, ']', '[', j, 0, i, backward_partner(code, j));
        assert(prog[i] == Instruction::StartLoop(j as usize));
        assert(prog[j] == Instruction::EndLoop(i as usize));
    } else if code[i] == ']' {
        let j = backward_partner(code, i);
        lemma_backward_pair(code, i, j);
        assert(bracket_matched(code, j));
        lemma_partner_unique(code, '[', ']', j, code.len() - 1, i, forward_partner(code, j));
        assert(prog[i] == Instruction::EndLoop(j as usize));
        assert(prog[j] == Instruction::StartLoop(i as usize));
    } else {
        assert(prog[i] == simple_instruction(code[i])->0);
    }
}

/// Every loop target of a lexed program lies inside it.
pub proof fn lemma_lexed_program_valid(src: Seq<char>, prog: Seq<Instruction>)
    requires
        lex_source(src) == Ok::<Seq<Instruction>, ParseError>(prog),
        prog.len() <= usize::MAX,
    ensures
        valid_program(prog),
{
    broadcast use vstd::seq_lib::group_filter_ensures;

    let code = commands(src);
    assert(all_matched(code));
    assert(prog.len() == code.len());
    assert forall|k: int| 0 <= k < prog.len() implies match #[trigger] prog[k] {
        Instruction::StartLoop(t) => t < prog.len(),
        Instruction::EndLoop(t) => t < prog.len(),
        _ => true,
    } by {
        assert(bracket_matched(code, k));
        assert(prog[k] == instruction_at(code, k));
        assert(is_command(code[k]));
        if code[k] == '[' {
            assert(is_partner(code, '[', ']', k, code.len() - 1, forward_partner(code, k)));
        } else if code[k] == ']' {
            assert(is_partner(code, ']', '[', k, 0, backward_partner(code, k)));
        }
    }
}

/// The instruction-alphabet characters of `src`, in order.
pub fn commands_of(src: &str) -> (r: Vec<char>)
    ensures
        r@ == commands(src@),
{
    let mut out: Vec<char> = Vec::new();
    for c in it: src.chars()
        invariant
            it.seq() == src@,
            out@ == commands(src@.take(it.index() as int)),
    {
        proof {
            src@.lemma_take_succ_push(it.index() as int);
            src@.take(it.index() as int).lemma_filter_push(c, |c: char| is_command(c));
        }
        if is_command_char(c) {
            out.push(c);
        }
    }
    proof {
        assert(src@.take(src@.len() as int) =~= src@);
    }
    out
}

/// Scans `code` from `start_index` toward `stop_index`, both included, keeping
/// a depth counter that `start_symbol` raises and `close_symbol` lowers, and
/// returns the first position where the counter is back at zero.
pub fn find_index(
    code: &Vec<char>,
    start_symbol: char,
    close_symbol: char,
    start_index: usize,
    stop_index: usize,
) -> (r: Result<usize, ParseError>)
    requires
        start_index < code.len(),
        stop_index < code.len(),
    ensures
        match r {
            Ok(j) => is_partner(
                code@,
                start_symbol,
                close_symbol,
                start_index as int,
                stop_index as int,
                j as int,
            ),
            Err(e) => e == ParseError::UnmatchedLoop && !has_partner(
                code@,
                start_symbol,
                close_symbol,
                start_index as int,
                stop_index as int,
            ),
        },
{
    let ghost c = code@;
    let ghost s = start_index as int;
    let ghost t = stop_index as int;
    let mut index: usize = start_index;
    let mut opened: usize = 0;
    let mut closed: usize = 0;
    loop
        invariant
            start_index < code.len(),
            stop_index < code.len(),
            c == code@,
            s == start_index,
            t == stop_index,
            in_scan(s, t, index as int),
            opened + closed <= distance(s, index as int),
            opened - closed == scanned_depth(c, start_symbol, close_symbol, s, index as int),
            forall|k: int|
                #![trigger window_depth(c, start_symbol, close_symbol, s, k)]
                in_scan(s, t, k) && distance(s, k) < distance(s, index as int) ==> window_depth(
                    c,
                    start_symbol,
                    close_symbol,
                    s,
                    k,
                ) != 0,
        decreases distance(t, index as int),
    {
        let cur = code[index];
        proof {
            if index < start_index {
                lemma_depth_prepend(c, start_symbol, close_symbol, index as int, s + 1);
            }
        }
        if cur == start_symbol {
            opened = opened + 1;
        } else if cur == close_symbol {
            closed = closed + 1;
        }
        assert(opened - closed == window_depth(c, start_symbol, close_symbol, s, index as int));
        if opened == closed {
            return Ok(index);
        }
        if index == stop_index {
            proof {
                assert forall|j: int| !is_partner(c, start_symbol, close_symbol, s, t, j) by {
                    if is_partner(c, start_symbol, close_symbol, s, t, j) && j != index {
                        assert(distance(s, j) < distance(s, index as int));
                    }
                }
            }
            return Err(ParseError::UnmatchedLoop);
        } else if start_index < stop_index {
            index = index + 1;
        } else {
            index = index - 1;
        }
    }
}

/// Lexes source text: characters outside the instruction alphabet are dropped,
/// and each bracket gets the index of its partner among what remains.
pub fn parse(src: &str) -> (r: Result<Vec<Instruction>, ParseError>)
    ensures
        match r {
            Ok(p) => lex_source(src@) == Ok::<Seq<Instruction>, ParseError>(p@) && valid_program(
                p@,
            ),
            Err(e) => lex_source(src@) == Err::<Seq<Instruction>, ParseError>(e),
        },
{
    let code = commands_of(src);
    let ghost cs = code@;
    let n = code.len();
    let mut out: Vec<Instruction> = Vec::new();
    let mut i: usize = 0;
    while i < n
        invariant
            n == code.len(),
            cs == code@,
            cs == commands(src@),
            i <= n,
            out.len() == i,
            forall|k: int| 0 <= k < i ==> #[trigger] bracket_matched(cs, k),
            forall|k: int| 0 <= k < i ==> out@[k] == instruction_at(cs, k),
        decreases n - i,
    {
        let c = code[i];
        let made = if c == '[' {
            match find_index(&code, '[', ']', i, n - 1) {
                Ok(j) => {
                    proof {
                        let f = forward_partner(cs, i as int);
                        lemma_partner_unique(cs, '[', ']', i as int, n - 1, j as int, f);
                    }
                    Instruction::from_bracket(c, j)
                },
                Err(e) => {
                    assert(!bracket_matched(cs, i as int));
                    return Err(e);
                },
            }
        } else if c == ']' {
            match find_index(&code, ']', '[', i, 0) {
                Ok(j) => {
                    proof {
                        let b = backward_partner(cs, i as int);
                        lemma_partner_unique(cs, ']', '[', i as int, 0, j as int, b);
                    }
                    Instruction::from_bracket(c, j)
                },
                Err(e) => {
                    assert(!bracket_matched(cs, i as int));
                    return Err(e);
                },
            }
        } else {
            proof {
                assert(cs.contains(c)) by {
                    assert(cs[i as int] == c);
                }
                broadcast use vstd::seq_lib::group_filter_ensures;

            }
            Instruction::from_char(c)
        };
        match made {
            Ok(ins) => {
                out.push(ins);
            },
            Err(e) => {
                assert(false);
                return Err(e);
            },
        }
        i = i + 1;
    }
    assert(all_matched(cs));
    assert(out@ =~= Seq::new(cs.len(), |k: int| instruction_at(cs, k)));
    proof {
        lemma_lexed_program_valid(src@, out@);
    }
    Ok(out)
}

} // verus!
