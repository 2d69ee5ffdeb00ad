//! Executing a compiled program against a fixed-size byte tape.
//!
//! The meaning of a program is given by a small-step machine over a ghost
//! state: [`step`] makes one transition, [`steps`] iterates it. The
//! executable interpreter [`run`] is proved to return exactly the outcome
//! that the machine reaches, and the machine is proved deterministic, so
//! that outcome is unique. Source programs can loop forever, so [`run`]
//! takes a step budget and reports when the machine is still running
//! after that many transitions.

use vstd::prelude::*;

use crate::compiler::balanced;
use crate::compiler::jump_table_ok;
use crate::compiler::CompiledCode;
use crate::ops::BrainFuckError;
use crate::ops::Operation;
use crate::parser::parse_spec;

verus! {

/// Whether the machine is still running, has completed, or has failed.
pub ghost enum Status {
    Running,
    Done,
    Fault(BrainFuckError),
}

/// The full state of the machine: instruction pointer, data pointer, tape
/// contents, position in the input sequence, output emitted so far, and
/// whether the run has terminated.
pub ghost struct ExecState {
    pub ip: int,
    pub dp: int,
    pub tape: Seq<u8>,
    pub in_pos: int,
    pub out: Seq<u8>,
    pub status: Status,
}

/// The state a run starts from: everything at zero over a zeroed tape.
pub open spec fn init_state(tape_len: nat) -> ExecState {
    ExecState {
        ip: 0,
        dp: 0,
        tape: Seq::new(tape_len, |i: int| 0u8),
        in_pos: 0,
        out: Seq::empty(),
        status: Status::Running,
    }
}

/// A state the machine never leaves: completed or failed.
pub open spec fn is_terminal(s: ExecState) -> bool {
    !(s.status is Running)
}

/// The given state, stopped with the given failure.
pub open spec fn fault(s: ExecState, e: BrainFuckError) -> ExecState {
    ExecState { status: Status::Fault(e), ..s }
}

/// One transition of the machine: dispatch on the instruction under the
/// instruction pointer, as long as the state is running. The data pointer
/// must stay strictly inside the tape and cells must stay within 0..=255;
/// any violation stops the machine with the matching failure. Jumps land
/// on the partner bracket itself and the step advances past it.
pub open spec fn step(
    code: Seq<Operation>,
    jt: Seq<usize>,
    input: Seq<u8>,
    s: ExecState,
) -> ExecState {
    if !(s.status is Running) {
        s
    } else if !(0 <= s.ip < code.len()) {
        ExecState { status: Status::Done, ..s }
    } else {
        match code[s.ip] {
            Operation::Right => if s.dp + 1 >= s.tape.len() {
                fault(s, BrainFuckError::PointerOutOfBound)
            } else {
                ExecState { ip: s.ip + 1, dp: s.dp + 1, ..s }
            },
            Operation::Left => if s.dp == 0 {
                fault(s, BrainFuckError::PointerOutOfBound)
            } else {
                ExecState { ip: s.ip + 1, dp: s.dp - 1, ..s }
            },
            Operation::Add => if !(0 <= s.dp < s.tape.len()) {
                fault(s, BrainFuckError::PointerOutOfBound)
            } else if s.tape[s.dp] == 255 {
                fault(s, BrainFuckError::IncorrectValue)
            } else {
                ExecState {
                    ip: s.ip + 1,
                    tape: s.tape.update(s.dp, (s.tape[s.dp] + 1) as u8),
                    ..s
                }
            },
            Operation::Sub => if !(0 <= s.dp < s.tape.len()) {
                fault(s, BrainFuckError::PointerOutOfBound)
            } else if s.tape[s.dp] == 0 {
                fault(s, BrainFuckError::IncorrectValue)
            } else {
                ExecState {
                    ip: s.ip + 1,
                    tape: s.tape.update(s.dp, (s.tape[s.dp] - 1) as u8),
                    ..s
                }
            },
            Operation::Output => if !(0 <= s.dp < s.tape.len()) {
                fault(s, BrainFuckError::PointerOutOfBound)
            } else {
                ExecState { ip: s.ip + 1, out: s.out.push(s.tape[s.dp]), ..s }
            },
            Operation::Input => if !(0 <= s.dp < s.tape.len()) {
                fault(s, BrainFuckError::PointerOutOfBound)
            } else if s.in_pos >= input.len() {
                fault(s, BrainFuckError::InputExhausted)
            } else {
                ExecState {
                    ip: s.ip + 1,
                    tape: s.tape.update(s.dp, input[s.in_pos]),
                    in_pos: s.in_pos + 1,
                    ..s
                }
            },
            Operation::LeftBracket => if !(0 <= s.dp < s.tape.len()) {
                fault(s, BrainFuckError::PointerOutOfBound)
            } else if s.tape[s.dp] == 0 {
                ExecState { ip: jt[s.ip] + 1, ..s }
            } else {
                ExecState { ip: s.ip + 1, ..s }
            },
            Operation::RightBracket => if !(0 <= s.dp < s.tape.len()) {
                fault(s, BrainFuckError::PointerOutOfBound)
            } else if s.tape[s.dp] != 0 {
                ExecState { ip: jt[s.ip] + 1, ..s }
            } else {
                ExecState { ip: s.ip + 1, ..s }
            },
        }
    }
}

/// The machine after `n` transitions from `s`.
pub open spec fn steps(
    code: Seq<Operation>,
    jt: Seq<usize>,
    input: Seq<u8>,
    s: ExecState,
    n: nat,
) -> ExecState
    decreases n,
{
    if n == 0 {
        s
    } else {
        step(code, jt, input, steps(code, jt, input, s, (n - 1) as nat))
    }
}

/// What one terminated run of a program hands back.
pub struct RunOutcome {
    /// The bytes emitted by `Output` instructions, in order. On a failed
    /// run, the output emitted before the failure stands.
    pub output: Vec<u8>,
    /// `None` on success, otherwise the failure classification.
    pub error: Option<BrainFuckError>,
    /// The tape as the run left it.
    pub tape: Vec<u8>,
    /// The data pointer as the run left it.
    pub pointer: usize,
}

/// The outcome reports exactly the terminal machine state `s`.
pub open spec fn outcome_matches(s: ExecState, r: RunOutcome) -> bool {
    &&& is_terminal(s)
    &&& r.output@ == s.out
    &&& r.tape@ == s.tape
    &&& r.pointer as int == s.dp
    &&& match s.status {
        Status::Running => false,
        Status::Done => r.error is None,
        Status::Fault(e) => r.error == Some(e),
    }
}

/// A running state's components, assembled for the loop invariant below.
pub open spec fn live_state(
    ip: int,
    dp: int,
    tape: Seq<u8>,
    in_pos: int,
    out: Seq<u8>,
) -> ExecState {
    ExecState { ip, dp, tape, in_pos, out, status: Status::Running }
}

/// The machine never leaves a terminal state.
pub proof fn lemma_terminal_stays(
    code: Seq<Operation>,
    jt: Seq<usize>,
    input: Seq<u8>,
    s: ExecState,
    n: nat,
)
    requires
        is_terminal(s),
    ensures
        steps(code, jt, input, s, n) == s,
    decreases n,
{
    if n > 0 {
        lemma_terminal_stays(code, jt, input, s, (n - 1) as nat);
    }
}

/// Running `a + b` steps is running `a` steps, then `b` more.
pub proof fn lemma_steps_add(
    code: Seq<Operation>,
    jt: Seq<usize>,
    input: Seq<u8>,
    s: ExecState,
    a: nat,
    b: nat,
)
    ensures
        steps(code, jt, input, s, a + b) == steps(
            code,
            jt,
            input,
            steps(code, jt, input, s, a),
            b,
        ),
    decreases b,
{
    if b > 0 {
        lemma_steps_add(code, jt, input, s, a, (b - 1) as nat);
    }
}

/// Once the machine has reached a terminal state, every later step count
/// finds that same state.
pub proof fn lemma_stays_until(
    code: Seq<Operation>,
    jt: Seq<usize>,
    input: Seq<u8>,
    s: ExecState,
    n1: nat,
    n2: nat,
)
    requires
        n1 <= n2,
        is_terminal(steps(code, jt, input, s, n1)),
    ensures
        steps(code, jt, input, s, n2) == steps(code, jt, input, s, n1),
{
    lemma_steps_add(code, jt, input, s, n1, (n2 - n1) as nat);
    lemma_terminal_stays(code, jt, input, steps(code, jt, input, s, n1), (n2 - n1) as nat);
}

/// The machine is deterministic: whenever two step counts both reach a
/// terminal state from the same start state, they reach the same state.
pub proof fn lemma_terminal_unique(
    code: Seq<Operation>,
    jt: Seq<usize>,
    input: Seq<u8>,
    s: ExecState,
    n1: nat,
    n2: nat,
)
    requires
        is_terminal(steps(code, jt, input, s, n1)),
        is_terminal(steps(code, jt, input, s, n2)),
    ensures
        steps(code, jt, input, s, n1) == steps(code, jt, input, s, n2),
{
    if n1 <= n2 {
        lemma_stays_until(code, jt, input, s, n1, n2);
    } else {
        lemma_stays_until(code, jt, input, s, n2, n1);
    }
}

/// Running one program twice on the same tape size and the same input
/// always gives the same output, the same final tape and pointer, and the
/// same error classification: the outcome is a pure function of program,
/// tape size and input.
pub proof fn lemma_run_deterministic(
    code: Seq<Operation>,
    jt: Seq<usize>,
    input: Seq<u8>,
    tape_len: nat,
    r1: RunOutcome,
    r2: RunOutcome,
    n1: nat,
    n2: nat,
)
    requires
        outcome_matches(steps(code, jt, input, init_state(tape_len), n1), r1),
        outcome_matches(steps(code, jt, input, init_state(tape_len), n2), r2),
    ensures
        r1.output@ == r2.output@,
        r1.error == r2.error,
        r1.tape@ == r2.tape@,
        r1.pointer == r2.pointer,
{
    lemma_terminal_unique(code, jt, input, init_state(tape_len), n1, n2);
}

/// Which valid jump table is used cannot be observed: one transition is
/// the same under any two jump tables for the program, because the
/// machine consults the table only at bracket positions, where all valid
/// tables agree.
pub proof fn lemma_step_table_independent(
    code: Seq<Operation>,
    jt1: Seq<usize>,
    jt2: Seq<usize>,
    input: Seq<u8>,
    s: ExecState,
)
    requires
        jump_table_ok(code, jt1),
        jump_table_ok(code, jt2),
    ensures
        step(code, jt1, input, s) == step(code, jt2, input, s),
{
    if s.status is Running && 0 <= s.ip < code.len() {
        if code[s.ip] == Operation::LeftBracket || code[s.ip] == Operation::RightBracket {
            crate::compiler::lemma_tables_agree_on_brackets(code, jt1, jt2, s.ip);
        }
    }
}

/// Any number of transitions is the same under any two valid jump tables
/// for the program.
pub proof fn lemma_steps_table_independent(
    code: Seq<Operation>,
    jt1: Seq<usize>,
    jt2: Seq<usize>,
    input: Seq<u8>,
    s: ExecState,
    n: nat,
)
    requires
        jump_table_ok(code, jt1),
        jump_table_ok(code, jt2),
    ensures
        steps(code, jt1, input, s, n) == steps(code, jt2, input, s, n),
    decreases n,
{
    if n > 0 {
        lemma_steps_table_independent(code, jt1, jt2, input, s, (n - 1) as nat);
        lemma_step_table_independent(
            code,
            jt1,
            jt2,
            input,
            steps(code, jt1, input, s, (n - 1) as nat),
        );
    }
}

/// Running one program twice through the whole pipeline on the same tape
/// size and the same input yields identical outcomes — the same output,
/// error classification, final tape and pointer — whichever valid jump
/// tables and step counts the two runs used.
pub proof fn lemma_pipeline_deterministic(
    code: Seq<Operation>,
    jt1: Seq<usize>,
    jt2: Seq<usize>,
    input: Seq<u8>,
    tape_len: nat,
    r1: RunOutcome,
    r2: RunOutcome,
    n1: nat,
    n2: nat,
)
    requires
        jump_table_ok(code, jt1),
        jump_table_ok(code, jt2),
        outcome_matches(steps(code, jt1, input, init_state(tape_len), n1), r1),
        outcome_matches(steps(code, jt2, input, init_state(tape_len), n2), r2),
    ensures
        r1.output@ == r2.output@,
        r1.error == r2.error,
        r1.tape@ == r2.tape@,
        r1.pointer == r2.pointer,
{
    lemma_steps_table_independent(code, jt1, jt2, input, init_state(tape_len), n2);
    lemma_run_deterministic(code, jt1, input, tape_len, r1, r2, n1, n2);
}

/// Execute a compiled program against a fresh zeroed tape of
/// `memory_size` cells, consuming bytes of `input` in order, for at most
/// `max_steps` machine transitions. Returns the machine's terminal
/// outcome when it terminates within the budget, and `None` exactly when
/// the machine is still running after `max_steps` transitions.
pub fn run(memory_size: usize, compiled_code: CompiledCode, input: &[u8], max_steps: u64) -> (r:
    Option<RunOutcome>)
    requires
        compiled_code.wf(),
    ensures
        match r {
            Some(outcome) => outcome_matches(
                steps(
                    compiled_code.code@,
                    compiled_code.redirection@,
                    input@,
                    init_state(memory_size as nat),
                    max_steps as nat + 1,
                ),
                outcome,
            ),
            None => !is_terminal(
                steps(
                    compiled_code.code@,
                    compiled_code.redirection@,
                    input@,
                    init_state(memory_size as nat),
                    max_steps as nat,
                ),
            ),
        },
{
    let n_code: usize = compiled_code.code.len();
    let mut memory: Vec<u8> = Vec::new();
    let mut z: usize = 0;
    while z < memory_size
        invariant
            0 <= z <= memory_size,
            memory@ == Seq::new(z as nat, |i: int| 0u8),
        decreases memory_size - z,
    {
        memory.push(0);
        proof {
            assert(memory@ =~= Seq::new((z + 1) as nat, |i: int| 0u8));
        }
        z = z + 1;
    }

    let mut mem_loc: usize = 0;
    let mut code_loc: usize = 0;
    let mut in_pos: usize = 0;
    let mut out: Vec<u8> = Vec::new();
    let mut steps_done: u64 = 0;

    proof {
        assert(steps(compiled_code.code@, compiled_code.redirection@, input@, init_state(memory_size as nat), 0) == init_state(memory_size as nat));
        assert(init_state(memory_size as nat) == live_state(0, 0, memory@, 0, out@));
    }

    while code_loc < n_code
        invariant
            n_code == compiled_code.code@.len(),
            jump_table_ok(compiled_code.code@, compiled_code.redirection@),
            memory@.len() == memory_size,
            mem_loc < memory_size || (memory_size == 0 && mem_loc == 0),
            in_pos <= input@.len(),
            steps_done <= max_steps,
            steps(compiled_code.code@, compiled_code.redirection@, input@, init_state(memory_size as nat), steps_done as nat) == live_state(
                code_loc as int,
                mem_loc as int,
                memory@,
                in_pos as int,
                out@,
            ),
        decreases max_steps - steps_done,
    {
        if steps_done == max_steps {
            return None;
        }
        let ghost pre = live_state(code_loc as int, mem_loc as int, memory@, in_pos as int, out@);
        let ghost n_next = steps_done as nat + 1;
        proof {
            assert(steps(compiled_code.code@, compiled_code.redirection@, input@, init_state(memory_size as nat), n_next) == step(compiled_code.code@, compiled_code.redirection@, input@, pre));
        }
        let op = compiled_code.code[code_loc];
        match op {
            Operation::Right => {
                let new_loc = mem_loc + 1;
                if new_loc >= memory_size {
                    proof {
                        assert(steps(compiled_code.code@, compiled_code.redirection@, input@, init_state(memory_size as nat), n_next) == fault(
                            pre,
                            BrainFuckError::PointerOutOfBound,
                        ));
                        lemma_stays_until(compiled_code.code@, compiled_code.redirection@, input@, init_state(memory_size as nat), n_next, max_steps as nat + 1);
                    }
                    return Some(
                        RunOutcome {
                            output: out,
                            error: Some(BrainFuckError::PointerOutOfBound),
                            tape: memory,
                            pointer: mem_loc,
                        },
                    );
                }
                mem_loc = new_loc;
            },
            Operation::Left => {
                if mem_loc == 0 {
                    proof {
                        assert(steps(compiled_code.code@, compiled_code.redirection@, input@, init_state(memory_size as nat), n_next) == fault(
                            pre,
                            BrainFuckError::PointerOutOfBound,
                        ));
                        lemma_stays_until(compiled_code.code@, compiled_code.redirection@, input@, init_state(memory_size as nat), n_next, max_steps as nat + 1);
                    }
                    return Some(
                        RunOutcome {
                            output: out,
                            error: Some(BrainFuckError::PointerOutOfBound),
                            tape: memory,
                            pointer: mem_loc,
                        },
                    );
                }
                mem_loc = mem_loc - 1;
            },
            Operation::Add => {
                if mem_loc >= memory.len() {
                    proof {
                        assert(steps(compiled_code.code@, compiled_code.redirection@, input@, init_state(memory_size as nat), n_next) == fault(
                            pre,
                            BrainFuckError::PointerOutOfBound,
                        ));
                        lemma_stays_until(compiled_code.code@, compiled_code.redirection@, input@, init_state(memory_size as nat), n_next, max_steps as nat + 1);
                    }
                    return Some(
                        RunOutcome {
                            output: out,
                            error: Some(BrainFuckError::PointerOutOfBound),
                            tape: memory,
                            pointer: mem_loc,
                        },
                    );
                }
                let v = memory[mem_loc];
                if v == 255 {
                    proof {
                        assert(steps(compiled_code.code@, compiled_code.redirection@, input@, init_state(memory_size as nat), n_next) == fault(
                            pre,
                            BrainFuckError::IncorrectValue,
                        ));
                        lemma_stays_until(compiled_code.code@, compiled_code.redirection@, input@, init_state(memory_size as nat), n_next, max_steps as nat + 1);
                    }
                    return Some(
                        RunOutcome {
                            output: out,
                            error: Some(BrainFuckError::IncorrectValue),
                            tape: memory,
                            pointer: mem_loc,
                        },
                    );
                }
                memory.set(mem_loc, v + 1);
            },
            Operation::Sub => {
                if mem_loc >= memory.len() {
                    proof {
                        assert(steps(compiled_code.code@, compiled_code.redirection@, input@, init_state(memory_size as nat), n_next) == fault(
                            pre,
                            BrainFuckError::PointerOutOfBound,
                        ));
                        lemma_stays_until(compiled_code.code@, compiled_code.redirection@, input@, init_state(memory_size as nat), n_next, max_steps as nat + 1);
                    }
                    return Some(
                        RunOutcome {
                            output: out,
                            error: Some(BrainFuckError::PointerOutOfBound),
                            tape: memory,
                            pointer: mem_loc,
                        },
                    );
                }
                let v = memory[mem_loc];
                if v == 0 {
                    proof {
                        assert(steps(compiled_code.code@, compiled_code.redirection@, input@, init_state(memory_size as nat), n_next) == fault(
                            pre,
                            BrainFuckError::IncorrectValue,
                        ));
                        lemma_stays_until(compiled_code.code@, compiled_code.redirection@, input@, init_state(memory_size as nat), n_next, max_steps as nat + 1);
                    }
                    return Some(
                        RunOutcome {
                            output: out,
                            error: Some(BrainFuckError::IncorrectValue),
                            tape: memory,
                            pointer: mem_loc,
                        },
                    );
                }
                memory.set(mem_loc, v - 1);
            },
            Operation::Output => {
                if mem_loc >= memory.len() {
                    proof {
                        assert(steps(compiled_code.code@, compiled_code.redirection@, input@, init_state(memory_size as nat), n_next) == fault(
                            pre,
                            BrainFuckError::PointerOutOfBound,
                        ));
                        lemma_stays_until(compiled_code.code@, compiled_code.redirection@, input@, init_state(memory_size as nat), n_next, max_steps as nat + 1);
                    }
                    return Some(
                        RunOutcome {
                            output: out,
                            error: Some(BrainFuckError::PointerOutOfBound),
                            tape: memory,
                            pointer: mem_loc,
                        },
                    );
                }
                let v = memory[mem_loc];
                out.push(v);
            },
            Operation::Input => {
                if mem_loc >= memory.len() {
                    proof {
                        assert(steps(compiled_code.code@, compiled_code.redirection@, input@, init_state(memory_size as nat), n_next) == fault(
                            pre,
                            BrainFuckError::PointerOutOfBound,
                        ));
                        lemma_stays_until(compiled_code.code@, compiled_code.redirection@, input@, init_state(memory_size as nat), n_next, max_steps as nat + 1);
                    }
                    return Some(
                        RunOutcome {
                            output: out,
                            error: Some(BrainFuckError::PointerOutOfBound),
                            tape: memory,
                            pointer: mem_loc,
                        },
                    );
                }
                if in_pos >= input.len() {
                    proof {
                        assert(steps(compiled_code.code@, compiled_code.redirection@, input@, init_state(memory_size as nat), n_next) == fault(
                            pre,
                            BrainFuckError::InputExhausted,
                        ));
                        lemma_stays_until(compiled_code.code@, compiled_code.redirection@, input@, init_state(memory_size as nat), n_next, max_steps as nat + 1);
                    }
                    return Some(
                        RunOutcome {
                            output: out,
                            error: Some(BrainFuckError::InputExhausted),
                            tape: memory,
                            pointer: mem_loc,
                        },
                    );
                }
                let b = *vstd::slice::slice_index_get(input, in_pos);
                memory.set(mem_loc, b);
                in_pos = in_pos + 1;
            },
            Operation::LeftBracket => {
                if mem_loc >= memory.len() {
                    proof {
                        assert(steps(compiled_code.code@, compiled_code.redirection@, input@, init_state(memory_size as nat), n_next) == fault(
                            pre,
                            BrainFuckError::PointerOutOfBound,
                        ));
                        lemma_stays_until(compiled_code.code@, compiled_code.redirection@, input@, init_state(memory_size as nat), n_next, max_steps as nat + 1);
                    }
                    return Some(
                        RunOutcome {
                            output: out,
                            error: Some(BrainFuckError::PointerOutOfBound),
                            tape: memory,
                            pointer: mem_loc,
                        },
                    );
                }
                if memory[mem_loc] == 0 {
                    proof {
                        assert(compiled_code.code@[code_loc as int] == Operation::LeftBracket);
                        assert(compiled_code.redirection@[code_loc as int] < n_code);
                    }
                    code_loc = compiled_code.redirection[code_loc];
                }
            },
            Operation::RightBracket => {
                if mem_loc >= memory.len() {
                    proof {
                        assert(steps(compiled_code.code@, compiled_code.redirection@, input@, init_state(memory_size as nat), n_next) == fault(
                            pre,
                            BrainFuckError::PointerOutOfBound,
                        ));
                        lemma_stays_until(compiled_code.code@, compiled_code.redirection@, input@, init_state(memory_size as nat), n_next, max_steps as nat + 1);
                    }
                    return Some(
                        RunOutcome {
                            output: out,
                            error: Some(BrainFuckError::PointerOutOfBound),
                            tape: memory,
                            pointer: mem_loc,
                        },
                    );
                }
                if memory[mem_loc] != 0 {
                    proof {
                        assert(compiled_code.code@[code_loc as int] == Operation::RightBracket);
                        assert(compiled_code.redirection@[code_loc as int] < n_code);
                    }
                    code_loc = compiled_code.redirection[code_loc];
                }
            },
        }
        code_loc = code_loc + 1;
        steps_done = steps_done + 1;
        proof {
            assert(steps(compiled_code.code@, compiled_code.redirection@, input@, init_state(memory_size as nat), steps_done as nat) == live_state(
                code_loc as int,
                mem_loc as int,
                memory@,
                in_pos as int,
                out@,
            ));
        }
    }
    proof {
        assert(steps(compiled_code.code@, compiled_code.redirection@, input@, init_state(memory_size as nat), steps_done as nat + 1) == ExecState {
            status: Status::Done,
            ..live_state(code_loc as int, mem_loc as int, memory@, in_pos as int, out@)
        });
        lemma_stays_until(compiled_code.code@, compiled_code.redirection@, input@, init_state(memory_size as nat), steps_done as nat + 1, max_steps as nat + 1);
    }
    Some(RunOutcome { output: out, error: None, tape: memory, pointer: mem_loc })
}

/// The whole pipeline in one call: parse the source text, resolve its
/// brackets, and run it against a fresh zeroed tape of `memory_size`
/// cells with a budget of `max_steps` machine transitions. `Err` is
/// returned exactly on unbalanced brackets, before anything runs;
/// `Ok(None)` means the program was still running when the budget ran
/// out; a failure during execution is reported inside the outcome, with
/// the output emitted up to that point.
pub fn execute_source(source_code: &str, memory_size: usize, input: &[u8], max_steps: u64) -> (r:
    Result<Option<RunOutcome>, BrainFuckError>)
    ensures
        match r {
            Ok(Some(outcome)) => balanced(parse_spec(source_code@)) && exists|jt: Seq<usize>|
                jump_table_ok(parse_spec(source_code@), jt) && outcome_matches(
                    #[trigger] steps(
                        parse_spec(source_code@),
                        jt,
                        input@,
                        init_state(memory_size as nat),
                        max_steps as nat + 1,
                    ),
                    outcome,
                ),
            Ok(None) => balanced(parse_spec(source_code@)) && exists|jt: Seq<usize>|
                jump_table_ok(parse_spec(source_code@), jt) && !is_terminal(
                    #[trigger] steps(
                        parse_spec(source_code@),
                        jt,
                        input@,
                        init_state(memory_size as nat),
                        max_steps as nat,
                    ),
                ),
            Err(e) => e == BrainFuckError::SyntaxError && !balanced(parse_spec(source_code@)),
        },
{
    let code = crate::parser::parse_code(source_code);
    match crate::compiler::compile_code(code) {
        Ok(compiled) => {
            let ghost jt = compiled.redirection@;
            let r = run(memory_size, compiled, input, max_steps);
            proof {
                assert(jump_table_ok(parse_spec(source_code@), jt));
                if r is Some {
                    assert(outcome_matches(
                        steps(
                            parse_spec(source_code@),
                            jt,
                            input@,
                            init_state(memory_size as nat),
                            max_steps as nat + 1,
                        ),
                        r->0,
                    ));
                } else {
                    assert(!is_terminal(
                        steps(
                            parse_spec(source_code@),
                            jt,
                            input@,
                            init_state(memory_size as nat),
                            max_steps as nat,
                        ),
                    ));
                }
            }
            Ok(r)
        },
        Err(e) => Err(e),
    }
}

} // verus!
