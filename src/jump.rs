//! Bracket matching: the static analysis that pairs every loop-open with its
//! loop-close before anything runs.
use vstd::prelude::*;

use crate::instr::{LBR, RBR};

verus! {

/// The change in nesting depth that the byte `b` makes.
pub open spec fn depth_change(b: u8) -> int {
    if b == LBR {
        1
    } else if b == RBR {
        -1
    } else {
        0
    }
}

/// Loop-opens minus loop-closes among the first `n` bytes of `s`.
pub open spec fn depth(s: Seq<u8>, n: int) -> int
    decreases n,
{
    if n <= 0 {
        0
    } else {
        depth(s, n - 1) + depth_change(s[n - 1])
    }
}

/// No prefix of `s` closes more loops than it has opened.
pub open spec fn closes_covered(s: Seq<u8>) -> bool {
    forall|k: int| 0 <= k <= s.len() ==> #[trigger] depth(s, k) >= 0
}

/// Every loop-open of `s` has its loop-close and the other way round.
pub open spec fn balanced(s: Seq<u8>) -> bool {
    closes_covered(s) && depth(s, s.len() as int) == 0
}

/// The loop-open at `i` and the loop-close at `j` are partners: the nesting
/// depth stays above its level before `i` up to `j`, and `j` brings it back.
pub open spec fn partners(s: Seq<u8>, i: int, j: int) -> bool {
    &&& 0 <= i < j < s.len()
    &&& s[i] == LBR
    &&& s[j] == RBR
    &&& depth(s, j + 1) == depth(s, i)
    &&& forall|k: int| i < k <= j ==> #[trigger] depth(s, k) > depth(s, i)
}

/// The loop-close at `p` is the first one that has no loop-open left to close.
pub open spec fn first_unmatched_close(s: Seq<u8>, p: int) -> bool {
    &&& 0 <= p < s.len()
    &&& s[p] == RBR
    &&& depth(s, p) == 0
    &&& forall|k: int| 0 <= k <= p ==> #[trigger] depth(s, k) >= 0
}

/// The loop-open at `i` is never closed: the depth stays above its level
/// before `i` to the end of `s`.
pub open spec fn unmatched_open(s: Seq<u8>, i: int) -> bool {
    &&& 0 <= i < s.len()
    &&& s[i] == LBR
    &&& forall|k: int| i < k <= s.len() ==> #[trigger] depth(s, k) > depth(s, i)
}

/// `t` is the jump table of `s`: each bracket holds the index of its partner,
/// and every other byte holds 0.
pub open spec fn is_jump_table(s: Seq<u8>, t: Seq<u32>) -> bool {
    &&& t.len() == s.len()
    &&& forall|i: int| 0 <= i < s.len() && s[i] == LBR ==> partners(s, i, #[trigger] t[i] as int)
    &&& forall|j: int| 0 <= j < s.len() && s[j] == RBR ==> partners(s, #[trigger] t[j] as int, j)
    &&& forall|k: int| 0 <= k < s.len() && s[k] != LBR && s[k] != RBR ==> #[trigger] t[k] == 0
}

/// A loop-open has at most one partner, and so has a loop-close.
pub proof fn lemma_partners_unique(s: Seq<u8>, i: int, j: int, i2: int, j2: int)
    requires
        partners(s, i, j),
        partners(s, i2, j2),
        i == i2 || j == j2,
    ensures
        i == i2 && j == j2,
{
    if i == i2 && j < j2 {
        assert(depth(s, j + 1) > depth(s, i));
    } else if i == i2 && j2 < j {
        assert(depth(s, j2 + 1) > depth(s, i));
    } else if j == j2 && i < i2 {
        assert(depth(s, i2) > depth(s, i));
    } else if j == j2 && i2 < i {
        assert(depth(s, i) > depth(s, i2));
    }
}

/// The jump table is symmetric: for two brackets at `i` and `j`, the entry at
/// `i` is `j` exactly when the entry at `j` is `i`.
pub proof fn lemma_jump_table_symmetric(s: Seq<u8>, t: Seq<u32>)
    requires
        is_jump_table(s, t),
    ensures
        forall|i: int, j: int|
            0 <= i < s.len() && 0 <= j < s.len() && (s[i] == LBR || s[i] == RBR) && (s[j] == LBR
                || s[j] == RBR) ==> (#[trigger] t[i] == j <==> #[trigger] t[j] == i),
{
    assert forall|i: int, j: int|
        0 <= i < s.len() && 0 <= j < s.len() && (s[i] == LBR || s[i] == RBR) && (s[j] == LBR
            || s[j] == RBR) implies (#[trigger] t[i] == j <==> #[trigger] t[j] == i) by {
        if s[i] == LBR && t[i] == j {
            lemma_partners_unique(s, i, j, t[j] as int, j);
        }
        if s[i] == RBR && t[i] == j {
            lemma_partners_unique(s, j, i, j, t[j] as int);
        }
        if s[j] == LBR && t[j] == i {
            lemma_partners_unique(s, j, i, t[i] as int, i);
        }
        if s[j] == RBR && t[j] == i {
            lemma_partners_unique(s, i, j, i, t[i] as int);
        }
    }
}

/// Why a program has no jump table.
#[derive(Debug, Clone, PartialEq, Eq)]
pub enum BracketError {
    /// A loop-close with no loop-open before it to close, at this position.
    UnmatchedClose(usize),
    /// Loop-opens that are never closed, at these positions in increasing order.
    UnmatchedOpen(Vec<usize>),
}

/// `e` reports exactly why `s` has no jump table: the first loop-close that
/// closes nothing or, when there is none, every loop-open left open.
pub open spec fn explains_failure(s: Seq<u8>, e: BracketError) -> bool {
    match e {
        BracketError::UnmatchedClose(p) => first_unmatched_close(s, p as int),
        BracketError::UnmatchedOpen(ps) => {
            &&& closes_covered(s)
            &&& ps@.len() > 0
            &&& forall|a: int, b: int| 0 <= a < b < ps@.len() ==> ps@[a] < ps@[b]
            &&& forall|a: int| 0 <= a < ps@.len() ==> unmatched_open(s, #[trigger] ps@[a] as int)
            &&& forall|i: int| #[trigger] unmatched_open(s, i) ==> ps@.contains(i as usize)
        },
    }
}

/// Builds the jump table of `src`, pairing each loop-open with its loop-close.
///
/// Fails with the first loop-close that closes nothing, or, when every
/// loop-close is matched, with the position of every loop-open left open.
pub fn generate_bracket_jumptables(src: &[u8]) -> (r: Result<Vec<u32>, BracketError>)
    requires
        src@.len() <= u32::MAX,
    ensures
        r is Ok <==> balanced(src@),
        !closes_covered(src@) ==> r matches Err(BracketError::UnmatchedClose(_)),
        closes_covered(src@) && !balanced(src@) ==> r matches Err(BracketError::UnmatchedOpen(_)),
        match r {
            Ok(table) => is_jump_table(src@, table@),
            Err(e) => explains_failure(src@, e),
        },
{
    let n = src.len();
    let mut table: Vec<u32> = vec![0u32; n];
    let mut stack: Vec<usize> = Vec::new();
    let mut i: usize = 0;
    while i < n
        invariant
            n == src@.len(),
            n <= u32::MAX,
            0 <= i <= n,
            table@.len() == n,
            forall|k: int| 0 <= k <= i ==> #[trigger] depth(src@, k) >= 0,
            stack@.len() == depth(src@, i as int),
            forall|a: int, b: int| 0 <= a < b < stack@.len() ==> stack@[a] < stack@[b],
            forall|a: int|
                0 <= a < stack@.len() ==> {
                    &&& #[trigger] stack@[a] < i
                    &&& src@[stack@[a] as int] == LBR
                    &&& depth(src@, stack@[a] as int) == a
                    &&& forall|k: int| stack@[a] < k <= i ==> #[trigger] depth(src@, k) > a
                },
            forall|o: int|
                0 <= o < i && src@[o] == LBR ==> stack@.contains(o as usize) || (
                    #[trigger] table@[o] < i && partners(src@, o, table@[o] as int)),
            forall|c: int| 0 <= c < i && src@[c] == RBR ==> partners(src@, #[trigger] table@[c] as int, c),
            forall|k: int|
                0 <= k < n && (i <= k || (src@[k] != LBR && src@[k] != RBR)) ==> #[trigger] table@[k] == 0,
        decreases n - i,
    {
        let byte = src[i];
        if byte == LBR {
            let ghost before = stack@;
            stack.push(i);
            assert(stack@[stack@.len() - 1] == i);
            assert forall|o: int| 0 <= o < i && #[trigger] before.contains(o as usize) implies stack@.contains(
                o as usize,
            ) by {
                let a = choose|a: int| 0 <= a < before.len() && before[a] == o as usize;
                assert(stack@[a] == o as usize);
            }
        } else if byte == RBR {
            let ghost before = stack@;
            match stack.pop() {
                Some(start) => {
                    assert(depth(src@, i as int + 1) == depth(src@, start as int));
                    assert(partners(src@, start as int, i as int));
                    table.set(start, i as u32);
                    table.set(i, start as u32);
                    assert forall|o: int| 0 <= o < i && #[trigger] before.contains(o as usize) && o != start implies
                        stack@.contains(o as usize) by {
                        let a = choose|a: int| 0 <= a < before.len() && before[a] == o as usize;
                        assert(stack@[a] == o as usize);
                    }
                },
                None => {
                    assert(depth(src@, i as int + 1) < 0);
                    return Err(BracketError::UnmatchedClose(i));
                },
            }
        }
        assert(depth(src@, i as int + 1) == depth(src@, i as int) + depth_change(byte));
        i = i + 1;
    }
    if stack.len() > 0 {
        assert forall|o: int| #[trigger] unmatched_open(src@, o) implies stack@.contains(o as usize) by {
            if !stack@.contains(o as usize) {
                assert(depth(src@, table@[o] as int + 1) == depth(src@, o));
            }
        }
        Err(BracketError::UnmatchedOpen(stack))
    } else {
        assert forall|o: int| 0 <= o < n && src@[o] == LBR implies partners(
            src@,
            o,
            #[trigger] table@[o] as int,
        ) by {
            assert(!stack@.contains(o as usize));
        }
        Ok(table)
    }
}

} // verus!
