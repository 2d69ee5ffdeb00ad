//! Resolving loop brackets into a bidirectional jump table.
//!
//! A single left-to-right pass keeps a last-in-first-out frame of pending
//! open-bracket positions. Each close bracket pairs with the most recent
//! pending open; a close with no pending open, or an open still pending at
//! the end, is a syntax error. The jump table is a vector as long as the
//! instruction sequence; it is meaningful only at bracket positions, where
//! it holds the position of the matching bracket.

use vstd::pervasive::VecAdditionalExecFns;
use vstd::prelude::*;

use crate::ops::BrainFuckError;
use crate::ops::Operation;

verus! {

/// How one instruction changes the bracket nesting depth.
pub open spec fn bracket_delta(op: Operation) -> int {
    match op {
        Operation::LeftBracket => 1,
        Operation::RightBracket => -1,
        _ => 0,
    }
}

/// Bracket nesting depth after the first `n` instructions: opens seen
/// minus closes seen.
pub open spec fn depth(code: Seq<Operation>, n: int) -> int
    decreases n,
{
    if n <= 0 {
        0
    } else {
        depth(code, n - 1) + bracket_delta(code[n - 1])
    }
}

/// The bracket sequence is balanced: no prefix closes more brackets than
/// it has opened, and every open bracket is eventually closed.
pub open spec fn balanced(code: Seq<Operation>) -> bool {
    &&& depth(code, code.len() as int) == 0
    &&& forall|n: int| 0 <= n <= code.len() ==> #[trigger] depth(code, n) >= 0
}

/// Positions `i` and `j` hold a matching open/close bracket pair by
/// nesting order: the depth returns to its starting value right after `j`
/// and stays strictly above it everywhere in between.
pub open spec fn pair_ok(code: Seq<Operation>, i: int, j: int) -> bool {
    &&& 0 <= i < j < code.len()
    &&& code[i] == Operation::LeftBracket
    &&& code[j] == Operation::RightBracket
    &&& depth(code, j + 1) == depth(code, i)
    &&& forall|k: int| i < k <= j ==> #[trigger] depth(code, k) > depth(code, i)
}

/// The jump table is total over bracket positions and sends every bracket
/// to its matching partner, the partner pointing straight back.
pub open spec fn jump_table_ok(code: Seq<Operation>, jt: Seq<usize>) -> bool {
    &&& jt.len() == code.len()
    &&& forall|i: int|
        #![trigger code[i]]
        0 <= i < code.len() ==> {
            &&& (code[i] == Operation::LeftBracket ==> pair_ok(code, i, jt[i] as int)
                && jt[jt[i] as int] == i)
            &&& (code[i] == Operation::RightBracket ==> pair_ok(code, jt[i] as int, i)
                && jt[jt[i] as int] == i)
        }
}

/// An open bracket has at most one matching close by nesting order.
pub proof fn lemma_match_unique_close(code: Seq<Operation>, i: int, j1: int, j2: int)
    requires
        pair_ok(code, i, j1),
        pair_ok(code, i, j2),
    ensures
        j1 == j2,
{
    if j1 < j2 {
        assert(depth(code, j1 + 1) > depth(code, i));
    }
    if j2 < j1 {
        assert(depth(code, j2 + 1) > depth(code, i));
    }
}

/// A close bracket has at most one matching open by nesting order.
pub proof fn lemma_match_unique_open(code: Seq<Operation>, i1: int, i2: int, j: int)
    requires
        pair_ok(code, i1, j),
        pair_ok(code, i2, j),
    ensures
        i1 == i2,
{
    if i1 < i2 {
        assert(depth(code, i2) > depth(code, i1));
    }
    if i2 < i1 {
        assert(depth(code, i1) > depth(code, i2));
    }
}

/// The jump table is an involution on the bracket positions: following it
/// twice from any bracket leads back to that bracket, and it always sends
/// an open bracket strictly forward to a close, a close strictly backward
/// to an open.
pub proof fn lemma_jump_table_involution(code: Seq<Operation>, jt: Seq<usize>, i: int)
    requires
        jump_table_ok(code, jt),
        0 <= i < code.len(),
        code[i] == Operation::LeftBracket || code[i] == Operation::RightBracket,
    ensures
        jt[jt[i] as int] == i,
        code[i] == Operation::LeftBracket ==> i < jt[i] && code[jt[i] as int]
            == Operation::RightBracket,
        code[i] == Operation::RightBracket ==> jt[i] < i && code[jt[i] as int]
            == Operation::LeftBracket,
{
}

/// Every open/close pair matched by nesting order is mutually mapped by
/// the jump table.
pub proof fn lemma_jump_table_maps_pairs(code: Seq<Operation>, jt: Seq<usize>, i: int, j: int)
    requires
        jump_table_ok(code, jt),
        pair_ok(code, i, j),
    ensures
        jt[i] as int == j,
        jt[j] as int == i,
{
    lemma_match_unique_close(code, i, jt[i] as int, j);
    lemma_match_unique_open(code, jt[j] as int, i, j);
}

/// The bracket matching of an instruction sequence is unique: any two
/// jump tables for it agree on every bracket position.
pub proof fn lemma_tables_agree_on_brackets(
    code: Seq<Operation>,
    jt1: Seq<usize>,
    jt2: Seq<usize>,
    i: int,
)
    requires
        jump_table_ok(code, jt1),
        jump_table_ok(code, jt2),
        0 <= i < code.len(),
        code[i] == Operation::LeftBracket || code[i] == Operation::RightBracket,
    ensures
        jt1[i] == jt2[i],
{
    if code[i] == Operation::LeftBracket {
        lemma_match_unique_close(code, i, jt1[i] as int, jt2[i] as int);
    } else {
        lemma_match_unique_open(code, jt1[i] as int, jt2[i] as int, i);
    }
}

/// An instruction sequence together with its finished jump table.
pub struct CompiledCode {
    /// The instruction sequence, exactly as the parser produced it.
    pub code: Vec<Operation>,
    /// The jump table: `redirection[i]` is the partner of the bracket at
    /// `i`, and is meaningless where `code[i]` is not a bracket.
    pub redirection: Vec<usize>,
}

impl CompiledCode {
    /// The jump table really is the bracket matching of `code`.
    pub open spec fn wf(&self) -> bool {
        jump_table_ok(self.code@, self.redirection@)
    }
}

/// Resolve the loop brackets of `code`. Succeeds exactly on balanced
/// bracket sequences, handing the instructions back unchanged together
/// with the jump table; an unmatched bracket of either kind is a
/// `SyntaxError` instead.
pub fn compile_code(code: Vec<Operation>) -> (r: Result<CompiledCode, BrainFuckError>)
    ensures
        match r {
            Ok(cc) => cc.code@ == code@ && cc.wf() && balanced(code@),
            Err(e) => e == BrainFuckError::SyntaxError && !balanced(code@),
        },
{
    let n: usize = code.len();
    let mut redirection: Vec<usize> = Vec::new();
    let mut k: usize = 0;
    while k < n
        invariant
            redirection@.len() == k,
            0 <= k <= n,
        decreases n - k,
    {
        redirection.push(0);
        k = k + 1;
    }

    let mut stack: Vec<usize> = Vec::new();
    let mut i: usize = 0;
    while i < n
        invariant
            n == code@.len(),
            0 <= i <= n,
            redirection@.len() == n,
            forall|m: int| 0 <= m <= i ==> #[trigger] depth(code@, m) >= 0,
            stack@.len() == depth(code@, i as int),
            forall|m: int|
                #![trigger stack@[m]]
                0 <= m < stack@.len() ==> {
                    &&& 0 <= stack@[m] < i
                    &&& code@[stack@[m] as int] == Operation::LeftBracket
                    &&& depth(code@, stack@[m] as int) == m
                    &&& forall|k2: int|
                        stack@[m] < k2 <= i ==> #[trigger] depth(code@, k2) >= m + 1
                },
            forall|p: int|
                #![trigger code@[p]]
                0 <= p < i ==> {
                    &&& (code@[p] == Operation::RightBracket ==> pair_ok(
                        code@,
                        redirection@[p] as int,
                        p,
                    ) && redirection@[redirection@[p] as int] == p)
                    &&& (code@[p] == Operation::LeftBracket && !stack@.contains(p as usize)
                        ==> pair_ok(code@, p, redirection@[p] as int) && redirection@[p] < i
                        && redirection@[redirection@[p] as int] == p)
                },
        decreases n - i,
    {
        let op = code[i];
        proof {
            assert(depth(code@, i + 1) == depth(code@, i as int) + bracket_delta(code@[i as int]));
        }
        match op {
            Operation::LeftBracket => {
                let ghost old_stack = stack@;
                stack.push(i);
                proof {
                    assert(stack@[old_stack.len() as int] == i);
                    assert(stack@.contains(i as usize));
                    assert forall|p: usize| old_stack.contains(p) implies stack@.contains(p) by {
                        let m = choose|m: int| 0 <= m < old_stack.len() && old_stack[m] == p;
                        assert(stack@[m] == p);
                    }
                }
            },
            Operation::RightBracket => {
                if stack.len() == 0 {
                    proof {
                        assert(depth(code@, i + 1) == -1);
                    }
                    return Err(BrainFuckError::SyntaxError);
                }
                let s = stack[stack.len() - 1];
                let ghost old_stack = stack@;
                let ghost old_jt = redirection@;
                let ghost m_top = old_stack.len() - 1;
                stack.pop();
                redirection.set(s, i);
                redirection.set(i, s);
                proof {
                    assert(stack@ =~= old_stack.subrange(0, m_top));
                    // the popped open and the current close are a matching pair
                    assert(depth(code@, s as int) == m_top);
                    assert(depth(code@, i as int) == m_top + 1);
                    assert(pair_ok(code@, s as int, i as int)) by {
                        assert(forall|k2: int|
                            s < k2 <= i ==> #[trigger] depth(code@, k2) >= m_top + 1);
                    }
                    // the popped open is on the stack only once
                    assert(!stack@.contains(s)) by {
                        assert forall|m: int| 0 <= m < stack@.len() implies stack@[m] != s by {
                            assert(depth(code@, stack@[m] as int) == m);
                            assert(depth(code@, s as int) == m_top);
                        }
                    }
                    // pairs recorded earlier never touch positions s or i
                    assert forall|p: int|
                        0 <= p < i && #[trigger] code@[p] == Operation::RightBracket implies {
                        &&& redirection@[p] == old_jt[p]
                        &&& redirection@[old_jt[p] as int] == old_jt[old_jt[p] as int]
                    } by {
                        let q = old_jt[p] as int;
                        assert(pair_ok(code@, q, p));
                        if q == s {
                            assert(depth(code@, p + 1) == depth(code@, s as int));
                            assert(s < p + 1 <= i);
                            assert(depth(code@, p + 1) >= m_top + 1);
                            assert(false);
                        }
                    }
                    assert forall|p: int|
                        0 <= p < i && #[trigger] code@[p] == Operation::LeftBracket
                            && !old_stack.contains(p as usize) implies {
                        &&& redirection@[p] == old_jt[p]
                        &&& redirection@[old_jt[p] as int] == old_jt[old_jt[p] as int]
                    } by {
                        assert(p != s) by {
                            assert(old_stack[m_top] == s);
                        }
                        let q = old_jt[p] as int;
                        assert(pair_ok(code@, p, q));
                        assert(q < i);
                    }
                    assert forall|p: int|
                        0 <= p < i && #[trigger] code@[p] == Operation::LeftBracket
                            && old_stack.contains(p as usize) && !stack@.contains(p as usize)
                            implies p == s by {
                        let m = choose|m: int|
                            0 <= m < old_stack.len() && old_stack[m] == p as usize;
                        if m < m_top {
                            assert(stack@[m] == old_stack[m]);
                            assert(stack@.contains(p as usize));
                        }
                    }
                    assert(s < i);
                    assert(redirection@[s as int] == i as usize);
                    assert(redirection@[i as int] == s);
                }
            },
            _ => {},
        }
        i = i + 1;
    }
    if stack.len() > 0 {
        proof {
            assert(depth(code@, n as int) > 0);
        }
        return Err(BrainFuckError::SyntaxError);
    }
    proof {
        assert forall|p: int|
            0 <= p < n && #[trigger] code@[p] == Operation::LeftBracket implies !stack@.contains(
            p as usize,
        ) by {
            assert(stack@.len() == 0);
        }
        assert(jump_table_ok(code@, redirection@));
        assert(balanced(code@));
    }
    Ok(CompiledCode { code, redirection })
}

} // verus!
