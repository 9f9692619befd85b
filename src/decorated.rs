//! Loop resolution: matching brackets once, so that every loop instruction
//! carries the index of its partner.
use vstd::prelude::*;

use crate::instruction::{PositionedInstruction, RawInstruction};
use crate::program::{increasing, kinds, precedes, Program};

verus! {

/// The state of a left-to-right bracket scan over a prefix.
pub enum Brackets {
    /// No loop-close lacked an opener; `open` holds the indices of the
    /// loop-opens not closed yet, the most recent last.
    Pending { open: Seq<int> },
    /// The loop-close at `closer` was the first one with no opener.
    Unopened { closer: int },
}

/// Strict LIFO bracket matching over the instruction kinds `k`.
pub open spec fn bracket_scan(k: Seq<RawInstruction>) -> Brackets
    decreases k.len(),
{
    if k.len() == 0 {
        Brackets::Pending { open: Seq::empty() }
    } else {
        let last = k.len() - 1;
        match bracket_scan(k.drop_last()) {
            Brackets::Unopened { closer } => Brackets::Unopened { closer },
            Brackets::Pending { open } => {
                if k.last() == RawInstruction::OpenLoop {
                    Brackets::Pending { open: open.push(last) }
                } else if k.last() == RawInstruction::CloseLoop {
                    if open.len() == 0 {
                        Brackets::Unopened { closer: last }
                    } else {
                        Brackets::Pending { open: open.drop_last() }
                    }
                } else {
                    Brackets::Pending { open }
                }
            },
        }
    }
}

/// The index of the loop-open that the loop-close at `j` closes.
pub open spec fn opener_of(k: Seq<RawInstruction>, j: int) -> int {
    bracket_scan(k.take(j))->open.last()
}

/// The pending loop-opens are loop-opens of the scanned prefix, in increasing
/// order.
proof fn lemma_scan_stack(k: Seq<RawInstruction>)
    ensures
        bracket_scan(k) matches Brackets::Pending { open } ==> {
            &&& forall|t: int|
                0 <= t < open.len() ==> 0 <= #[trigger] open[t] < k.len() && k[open[t]]
                    == RawInstruction::OpenLoop
            &&& forall|t1: int, t2: int|
                0 <= t1 < t2 < open.len() ==> #[trigger] open[t1] < #[trigger] open[t2]
        },
    decreases k.len(),
{
    if k.len() > 0 {
        lemma_scan_stack(k.drop_last());
    }
}

/// Once a loop-close without opener has been met, the scan's result stays.
proof fn lemma_unopened_persists(k: Seq<RawInstruction>, m: int)
    requires
        0 <= m <= k.len(),
        bracket_scan(k.take(m)) is Unopened,
    ensures
        bracket_scan(k) == bracket_scan(k.take(m)),
    decreases k.len() - m,
{
    if m < k.len() {
        assert(k.take(m + 1).drop_last() =~= k.take(m));
        lemma_unopened_persists(k, m + 1);
    } else {
        assert(k.take(m) =~= k);
    }
}

/// Loop nesting depth after the instruction kinds `k`.
pub open spec fn depth(k: Seq<RawInstruction>) -> int
    decreases k.len(),
{
    if k.len() == 0 {
        0
    } else if k.last() == RawInstruction::OpenLoop {
        depth(k.drop_last()) + 1
    } else if k.last() == RawInstruction::CloseLoop {
        depth(k.drop_last()) - 1
    } else {
        depth(k.drop_last())
    }
}

/// Balanced, properly nested brackets: no prefix closes more loops than it
/// opens, and the whole closes them all.
pub open spec fn balanced(k: Seq<RawInstruction>) -> bool {
    &&& depth(k) == 0
    &&& forall|m: int| 0 <= m <= k.len() ==> depth(#[trigger] k.take(m)) >= 0
}

proof fn lemma_scan_tracks_depth(k: Seq<RawInstruction>, m: int)
    requires
        0 <= m <= k.len(),
        forall|p: int| 0 <= p <= k.len() ==> depth(#[trigger] k.take(p)) >= 0,
    ensures
        bracket_scan(k.take(m)) matches Brackets::Pending { open } && open.len() == depth(
            k.take(m),
        ),
    decreases m,
{
    if m == 0 {
        assert(k.take(0) =~= Seq::<RawInstruction>::empty());
    } else {
        lemma_scan_tracks_depth(k, m - 1);
        assert(k.take(m).drop_last() =~= k.take(m - 1));
        assert(depth(k.take(m)) >= 0);
    }
}

proof fn lemma_opens_refer_back(instrs: Seq<PositionedInstruction>, out: Seq<DecoratedInstruction>)
    requires
        decorates(instrs, out),
    ensures
        forall|i: int|
            0 <= i < out.len() && (#[trigger] out[i]) is OpenLoop ==> {
                let c = out[i]->closer_index as int;
                &&& 0 <= c < out.len()
                &&& out[c] is CloseLoop
                &&& out[c]->opener_index == i
            },
{
    assert forall|i: int| 0 <= i < out.len() && (#[trigger] out[i]) is OpenLoop implies {
        let c = out[i]->closer_index as int;
        &&& 0 <= c < out.len()
        &&& out[c] is CloseLoop
        &&& out[c]->opener_index == i
    } by {
        if kind_at(instrs, i) == RawInstruction::OpenLoop {
            let c = out[i]->closer_index as int;
            assert(kind_at(instrs, c) == RawInstruction::CloseLoop);
        } else if kind_at(instrs, i) == RawInstruction::CloseLoop {
        }
    }
}

proof fn lemma_closes_refer_back(instrs: Seq<PositionedInstruction>, out: Seq<DecoratedInstruction>)
    requires
        decorates(instrs, out),
        instrs.len() <= usize::MAX,
    ensures
        forall|j: int|
            0 <= j < out.len() && (#[trigger] out[j]) is CloseLoop ==> {
                let o = out[j]->opener_index as int;
                &&& 0 <= o < out.len()
                &&& out[o] is OpenLoop
                &&& out[o]->closer_index == j
            },
{
    assert forall|j: int| 0 <= j < out.len() && (#[trigger] out[j]) is CloseLoop implies {
        let o = out[j]->opener_index as int;
        &&& 0 <= o < out.len()
        &&& out[o] is OpenLoop
        &&& out[o]->closer_index == j
    } by {
        if kind_at(instrs, j) == RawInstruction::CloseLoop {
        } else if kind_at(instrs, j) == RawInstruction::OpenLoop {
        }
    }
}

/// Bracket matching is stack matching: on balanced, properly nested
/// brackets resolution succeeds, every loop-open's recorded loop-close
/// refers back to it and vice versa, and the resolved loops nest.
pub proof fn lemma_balanced_brackets_match(
    instrs: Seq<PositionedInstruction>,
    out: Seq<DecoratedInstruction>,
)
    requires
        balanced(kinds(instrs)),
        instrs.len() <= usize::MAX,
    ensures
        bracket_scan(kinds(instrs)) == (Brackets::Pending { open: Seq::empty() }),
        decorates(instrs, out) ==> forall|i: int|
            0 <= i < out.len() && (#[trigger] out[i]) is OpenLoop ==> {
                let c = out[i]->closer_index as int;
                &&& 0 <= c < out.len()
                &&& out[c] is CloseLoop
                &&& out[c]->opener_index == i
            },
        decorates(instrs, out) ==> forall|j: int|
            0 <= j < out.len() && (#[trigger] out[j]) is CloseLoop ==> {
                let o = out[j]->opener_index as int;
                &&& 0 <= o < out.len()
                &&& out[o] is OpenLoop
                &&& out[o]->closer_index == j
            },
        decorates(instrs, out) ==> properly_nested(out),
{
    let k = kinds(instrs);
    lemma_scan_tracks_depth(k, k.len() as int);
    assert(k.take(k.len() as int) =~= k);
    if let Brackets::Pending { open } = bracket_scan(k) {
        assert(open =~= Seq::<int>::empty());
    }
    if decorates(instrs, out) {
        lemma_opens_refer_back(instrs, out);
        lemma_closes_refer_back(instrs, out);
        lemma_decorates_nested(instrs, out);
    }
}

/// The instruction kind at index `i`.
pub open spec fn kind_at(instrs: Seq<PositionedInstruction>, i: int) -> RawInstruction {
    instrs[i].instruction
}

/// An instruction prepared for execution: a loop instruction knows where its
/// partner stands.
#[derive(Debug, Clone, Copy)]
pub enum DecoratedInstruction {
    /// A loop opens here; `closer` at index `closer_index` closes it.
    OpenLoop {
        instruction: PositionedInstruction,
        closer: PositionedInstruction,
        closer_index: usize,
    },
    /// A loop closes here; `opener` at index `opener_index` opened it.
    CloseLoop {
        instruction: PositionedInstruction,
        opener: PositionedInstruction,
        opener_index: usize,
    },
    /// Any other instruction, used as it is.
    Instruction(PositionedInstruction),
}

impl DecoratedInstruction {
    /// The positioned instruction itself.
    pub open spec fn positioned(self) -> PositionedInstruction {
        match self {
            DecoratedInstruction::OpenLoop { instruction, .. } => instruction,
            DecoratedInstruction::CloseLoop { instruction, .. } => instruction,
            DecoratedInstruction::Instruction(instruction) => instruction,
        }
    }

    pub fn instruction(&self) -> (r: PositionedInstruction)
        ensures
            r == self.positioned(),
    {
        match self {
            DecoratedInstruction::OpenLoop { instruction, .. } => *instruction,
            DecoratedInstruction::CloseLoop { instruction, .. } => *instruction,
            DecoratedInstruction::Instruction(instruction) => *instruction,
        }
    }

    pub fn line(&self) -> (r: usize)
        ensures
            r == self.positioned().line,
    {
        self.instruction().line()
    }

    pub fn character(&self) -> (r: usize)
        ensures
            r == self.positioned().character,
    {
        self.instruction().character()
    }
}

/// `out` is the decoration of `instrs`: other instructions pass through,
/// each loop-close and the loop-open it closes (by LIFO matching) refer to
/// each other by position and index, and every bracket inside a loop has its
/// partner inside it too.
pub open spec fn decorates(
    instrs: Seq<PositionedInstruction>,
    out: Seq<DecoratedInstruction>,
) -> bool {
    let k = kinds(instrs);
    &&& out.len() == instrs.len()
    &&& forall|i: int|
        0 <= i < instrs.len() && !(#[trigger] kind_at(instrs, i)).is_bracket() ==> out[i]
            == DecoratedInstruction::Instruction(instrs[i])
    &&& forall|j: int|
        0 <= j < instrs.len() && #[trigger] kind_at(instrs, j) == RawInstruction::CloseLoop
            ==> {
            let o = opener_of(k, j);
            &&& 0 <= o < j
            &&& out[j] == DecoratedInstruction::CloseLoop {
                instruction: instrs[j],
                opener: instrs[o],
                opener_index: o as usize,
            }
            &&& out[o] == DecoratedInstruction::OpenLoop {
                instruction: instrs[o],
                closer: instrs[j],
                closer_index: j as usize,
            }
        }
    &&& forall|i: int|
        0 <= i < instrs.len() && #[trigger] kind_at(instrs, i) == RawInstruction::OpenLoop
            ==> {
            &&& out[i] is OpenLoop
            &&& 0 <= out[i]->closer_index < instrs.len()
            &&& instrs[out[i]->closer_index as int].instruction == RawInstruction::CloseLoop
            &&& opener_of(k, out[i]->closer_index as int) == i
        }
    &&& forall|j: int, m: int|
        0 <= j < instrs.len() && kind_at(instrs, j) == RawInstruction::CloseLoop && opener_of(
            k,
            j,
        ) < m < j ==> #[trigger] partner_inside(instrs, out, m, opener_of(k, j), j)
}

/// What holds of every decorated program: positions increase, a
/// pass-through instruction is no bracket, and each loop-open and loop-close
/// refer to each other, the open first. (Each loop-open thus has exactly one
/// loop-close that refers back to it.)
pub open spec fn well_formed(out: Seq<DecoratedInstruction>) -> bool {
    &&& forall|i: int, j: int|
        0 <= i < j < out.len() ==> precedes(
            (#[trigger] out[i]).positioned(),
            (#[trigger] out[j]).positioned(),
        )
    &&& forall|i: int|
        0 <= i < out.len() ==> match #[trigger] out[i] {
            DecoratedInstruction::Instruction(p) => !p.instruction.is_bracket(),
            DecoratedInstruction::OpenLoop { instruction, closer, closer_index } => {
                &&& instruction.instruction == RawInstruction::OpenLoop
                &&& i < closer_index < out.len()
                &&& out[closer_index as int] == DecoratedInstruction::CloseLoop {
                    instruction: closer,
                    opener: instruction,
                    opener_index: i as usize,
                }
            },
            DecoratedInstruction::CloseLoop { instruction, opener, opener_index } => {
                &&& instruction.instruction == RawInstruction::CloseLoop
                &&& opener_index < i
                &&& out[opener_index as int] == DecoratedInstruction::OpenLoop {
                    instruction: opener,
                    closer: instruction,
                    closer_index: i as usize,
                }
            },
        }
}

/// The instruction at `m`, inside the loop that opens at `o` and closes at
/// `j`, has its partner inside that loop too.
pub open spec fn partner_inside(
    instrs: Seq<PositionedInstruction>,
    out: Seq<DecoratedInstruction>,
    m: int,
    o: int,
    j: int,
) -> bool {
    &&& kind_at(instrs, m) == RawInstruction::OpenLoop ==> out[m] is OpenLoop
        && out[m]->closer_index < j
    &&& kind_at(instrs, m) == RawInstruction::CloseLoop ==> opener_of(kinds(instrs), m) > o
}

/// Within the loop that opens at `i`, the instruction at `m` has its partner
/// inside the loop too.
pub open spec fn nested_inside(out: Seq<DecoratedInstruction>, i: int, m: int) -> bool {
    &&& out[m] is OpenLoop ==> out[m]->closer_index < out[i]->closer_index
    &&& out[m] is CloseLoop ==> out[m]->opener_index > i
}

/// Loops are properly nested: they never overlap without one containing
/// the other.
pub open spec fn properly_nested(out: Seq<DecoratedInstruction>) -> bool {
    forall|i: int, m: int|
        0 <= i < out.len() && out[i] is OpenLoop && i < m < out[i]->closer_index
            ==> #[trigger] nested_inside(out, i, m)
}

/// The resolution of the first `n` instructions: `open` holds the loop-opens
/// still waiting for a close, whose entries in `out` are provisional
/// pass-through entries.
spec fn resolved_prefix(
    instrs: Seq<PositionedInstruction>,
    out: Seq<DecoratedInstruction>,
    open: Seq<int>,
    n: int,
) -> bool {
    let k = kinds(instrs);
    &&& 0 <= n <= instrs.len()
    &&& out.len() == n
    &&& bracket_scan(k.take(n)) == (Brackets::Pending { open })
    &&& forall|t: int|
        0 <= t < open.len() ==> 0 <= #[trigger] open[t] < n && instrs[open[t]].instruction
            == RawInstruction::OpenLoop
    &&& forall|t1: int, t2: int|
        0 <= t1 < t2 < open.len() ==> #[trigger] open[t1] < #[trigger] open[t2]
    &&& forall|j: int, t: int|
        0 <= j < n && #[trigger] kind_at(instrs, j) == RawInstruction::CloseLoop && 0 <= t
            < open.len() ==> #[trigger] open[t] < opener_of(k, j) || open[t] > j
    &&& forall|j: int, m: int|
        0 <= j < n && kind_at(instrs, j) == RawInstruction::CloseLoop && opener_of(k, j) < m < j
            ==> #[trigger] partner_inside(instrs, out, m, opener_of(k, j), j)
    &&& forall|m: int|
        0 <= m < n && !(#[trigger] kind_at(instrs, m)).is_bracket() ==> out[m]
            == DecoratedInstruction::Instruction(instrs[m])
    &&& forall|j: int|
        0 <= j < n && #[trigger] kind_at(instrs, j) == RawInstruction::CloseLoop ==> {
            let o = opener_of(k, j);
            &&& 0 <= o < j
            &&& out[j] == DecoratedInstruction::CloseLoop {
                instruction: instrs[j],
                opener: instrs[o],
                opener_index: o as usize,
            }
            &&& out[o] == DecoratedInstruction::OpenLoop {
                instruction: instrs[o],
                closer: instrs[j],
                closer_index: j as usize,
            }
        }
    &&& forall|m: int|
        0 <= m < n && #[trigger] kind_at(instrs, m) == RawInstruction::OpenLoop ==> {
            &&& open.contains(m) <==> out[m] == DecoratedInstruction::Instruction(instrs[m])
            &&& !open.contains(m) ==> {
                &&& out[m] is OpenLoop
                &&& 0 <= out[m]->closer_index < n
                &&& instrs[out[m]->closer_index as int].instruction == RawInstruction::CloseLoop
                &&& opener_of(k, out[m]->closer_index as int) == m
            }
        }
}

proof fn lemma_prefix_facts(instrs: Seq<PositionedInstruction>, n: int)
    requires
        0 <= n < instrs.len(),
    ensures
        kinds(instrs).take(n + 1).drop_last() == kinds(instrs).take(n),
        kinds(instrs).take(n + 1).last() == instrs[n].instruction,
        bracket_scan(kinds(instrs).take(n)) matches Brackets::Pending { open } ==> forall|t: int|
            0 <= t < open.len() ==> 0 <= #[trigger] open[t] < n && instrs[open[t]].instruction
                == RawInstruction::OpenLoop,
        bracket_scan(kinds(instrs).take(n)) matches Brackets::Pending { open } ==> forall|
            t1: int,
            t2: int,
        | 0 <= t1 < t2 < open.len() ==> #[trigger] open[t1] < #[trigger] open[t2],
{
    let k = kinds(instrs);
    assert(k.take(n + 1).drop_last() =~= k.take(n));
    lemma_scan_stack(k.take(n));
}

proof fn lemma_step_other(
    instrs: Seq<PositionedInstruction>,
    out: Seq<DecoratedInstruction>,
    open: Seq<int>,
    n: int,
)
    requires
        resolved_prefix(instrs, out, open, n),
        n < instrs.len(),
        !instrs[n].instruction.is_bracket(),
    ensures
        resolved_prefix(instrs, out.push(DecoratedInstruction::Instruction(instrs[n])), open, n + 1),
{
    lemma_prefix_facts(instrs, n);
    let k = kinds(instrs);
    let out2 = out.push(DecoratedInstruction::Instruction(instrs[n]));
    assert forall|j: int, m: int|
        0 <= j < n + 1 && kind_at(instrs, j) == RawInstruction::CloseLoop && opener_of(k, j) < m
            < j implies #[trigger] partner_inside(instrs, out2, m, opener_of(k, j), j) by {
        assert(partner_inside(instrs, out, m, opener_of(k, j), j));
        assert(out2[m] == out[m]);
    }
}

proof fn lemma_step_open(
    instrs: Seq<PositionedInstruction>,
    out: Seq<DecoratedInstruction>,
    open: Seq<int>,
    n: int,
)
    requires
        resolved_prefix(instrs, out, open, n),
        n < instrs.len(),
        instrs[n].instruction == RawInstruction::OpenLoop,
    ensures
        resolved_prefix(
            instrs,
            out.push(DecoratedInstruction::Instruction(instrs[n])),
            open.push(n),
            n + 1,
        ),
{
    lemma_prefix_facts(instrs, n);
    let k = kinds(instrs);
    let out2 = out.push(DecoratedInstruction::Instruction(instrs[n]));
    let open2 = open.push(n);
    assert forall|j: int, m: int|
        0 <= j < n + 1 && kind_at(instrs, j) == RawInstruction::CloseLoop && opener_of(k, j) < m
            < j implies #[trigger] partner_inside(instrs, out2, m, opener_of(k, j), j) by {
        assert(partner_inside(instrs, out, m, opener_of(k, j), j));
        assert(out2[m] == out[m]);
    }
    assert forall|j: int, t: int|
        0 <= j < n + 1 && #[trigger] kind_at(instrs, j) == RawInstruction::CloseLoop && 0 <= t
            < open2.len() implies #[trigger] open2[t] < opener_of(k, j) || open2[t] > j by {
        if t < open.len() {
            assert(open2[t] == open[t]);
        }
    }
    assert forall|m: int|
        0 <= m < n + 1 && #[trigger] kind_at(instrs, m) == RawInstruction::OpenLoop implies {
        &&& open2.contains(m) <==> out2[m] == DecoratedInstruction::Instruction(instrs[m])
        &&& !open2.contains(m) ==> {
            &&& out2[m] is OpenLoop
            &&& 0 <= out2[m]->closer_index < n + 1
            &&& instrs[out2[m]->closer_index as int].instruction == RawInstruction::CloseLoop
            &&& opener_of(kinds(instrs), out2[m]->closer_index as int) == m
        }
    } by {
        if m < n {
            assert(open2.contains(m) <==> open.contains(m)) by {
                if open2.contains(m) {
                    let t = choose|t: int| 0 <= t < open2.len() && open2[t] == m;
                    assert(t < open.len());
                    assert(open[t] == m);
                }
                if open.contains(m) {
                    let t = choose|t: int| 0 <= t < open.len() && open[t] == m;
                    assert(open2[t] == m);
                }
            }
        } else {
            assert(open2[open.len() as int] == n);
        }
    }
}

proof fn lemma_step_close(
    instrs: Seq<PositionedInstruction>,
    out: Seq<DecoratedInstruction>,
    open: Seq<int>,
    n: int,
)
    requires
        resolved_prefix(instrs, out, open, n),
        n < instrs.len(),
        instrs.len() <= usize::MAX,
        instrs[n].instruction == RawInstruction::CloseLoop,
        open.len() > 0,
    ensures
        ({
            let o = open.last();
            resolved_prefix(
                instrs,
                out.update(
                    o,
                    DecoratedInstruction::OpenLoop {
                        instruction: instrs[o],
                        closer: instrs[n],
                        closer_index: n as usize,
                    },
                ).push(
                    DecoratedInstruction::CloseLoop {
                        instruction: instrs[n],
                        opener: instrs[o],
                        opener_index: o as usize,
                    },
                ),
                open.drop_last(),
                n + 1,
            )
        }),
{
    lemma_prefix_facts(instrs, n);
    let k = kinds(instrs);
    let o = open.last();
    let open2 = open.drop_last();
    let out2 = out.update(
        o,
        DecoratedInstruction::OpenLoop {
            instruction: instrs[o],
            closer: instrs[n],
            closer_index: n as usize,
        },
    ).push(
        DecoratedInstruction::CloseLoop {
            instruction: instrs[n],
            opener: instrs[o],
            opener_index: o as usize,
        },
    );
    assert(open[open.len() - 1] == o);
    assert(0 <= o < n);
    assert(kind_at(instrs, o) == RawInstruction::OpenLoop);
    assert(open.contains(o));
    assert(out[o] == DecoratedInstruction::Instruction(instrs[o]));
    assert(opener_of(k, n) == o);
    assert forall|m: int| 0 <= m < n && m != o implies #[trigger] out2[m] == out[m] by {}
    assert(!open2.contains(o)) by {
        if open2.contains(o) {
            let t = choose|t: int| 0 <= t < open2.len() && open2[t] == o;
            assert(open[t] < open[open.len() - 1]);
        }
    }
    assert forall|m: int| m != o implies (open2.contains(m) <==> open.contains(m)) by {
        if open2.contains(m) {
            let t = choose|t: int| 0 <= t < open2.len() && open2[t] == m;
            assert(open[t] == m);
        }
        if open.contains(m) {
            let t = choose|t: int| 0 <= t < open.len() && open[t] == m;
            if t == open.len() - 1 {
                assert(m == o);
            } else {
                assert(open2[t] == m);
            }
        }
    }
    assert forall|j: int|
        0 <= j < n + 1 && #[trigger] kind_at(instrs, j) == RawInstruction::CloseLoop implies {
        let oj = opener_of(k, j);
        &&& 0 <= oj < j
        &&& out2[j] == DecoratedInstruction::CloseLoop {
            instruction: instrs[j],
            opener: instrs[oj],
            opener_index: oj as usize,
        }
        &&& out2[oj] == DecoratedInstruction::OpenLoop {
            instruction: instrs[oj],
            closer: instrs[j],
            closer_index: j as usize,
        }
    } by {
        if j < n {
            let oj = opener_of(k, j);
            assert(out[oj] is OpenLoop);
            assert(oj != o);
        }
    }
    assert forall|j: int, t: int|
        0 <= j < n + 1 && #[trigger] kind_at(instrs, j) == RawInstruction::CloseLoop && 0 <= t
            < open2.len() implies #[trigger] open2[t] < opener_of(k, j) || open2[t] > j by {
        assert(open2[t] == open[t]);
        if j == n {
            assert(open[t] < open[open.len() - 1]);
        }
    }
    assert forall|j: int, m: int|
        0 <= j < n + 1 && kind_at(instrs, j) == RawInstruction::CloseLoop && opener_of(k, j) < m
            < j implies #[trigger] partner_inside(instrs, out2, m, opener_of(k, j), j) by {
        if j == n {
            if kind_at(instrs, m) == RawInstruction::OpenLoop {
                if open.contains(m) {
                    let t = choose|t: int| 0 <= t < open.len() && open[t] == m;
                    if t < open.len() - 1 {
                        assert(open[t] < open[open.len() - 1]);
                    }
                }
                assert(out2[m] == out[m]);
            } else if kind_at(instrs, m) == RawInstruction::CloseLoop {
                assert(open[open.len() - 1] < opener_of(k, m) || open[open.len() - 1] > m);
            }
        } else {
            let oj = opener_of(k, j);
            assert(open[open.len() - 1] < oj || open[open.len() - 1] > j);
            assert(partner_inside(instrs, out, m, oj, j));
            assert(out2[m] == out[m]);
        }
    }
}

/// The loop-close at `n` has no opener: resolution fails there.
proof fn lemma_step_unopened(
    instrs: Seq<PositionedInstruction>,
    out: Seq<DecoratedInstruction>,
    open: Seq<int>,
    n: int,
)
    requires
        resolved_prefix(instrs, out, open, n),
        n < instrs.len(),
        instrs[n].instruction == RawInstruction::CloseLoop,
        open.len() == 0,
    ensures
        bracket_scan(kinds(instrs)) == (Brackets::Unopened { closer: n }),
{
    lemma_prefix_facts(instrs, n);
    lemma_unopened_persists(kinds(instrs), n + 1);
}

proof fn lemma_resolved(
    instrs: Seq<PositionedInstruction>,
    out: Seq<DecoratedInstruction>,
    open: Seq<int>,
)
    requires
        resolved_prefix(instrs, out, open, instrs.len() as int),
    ensures
        bracket_scan(kinds(instrs)) == (Brackets::Pending { open }),
        open.len() == 0 ==> decorates(instrs, out),
{
    assert(kinds(instrs).take(instrs.len() as int) =~= kinds(instrs));
    if open.len() == 0 {
        assert forall|m: int| !open.contains(m) by {}
    }
}

proof fn lemma_decorates_positions(
    instrs: Seq<PositionedInstruction>,
    out: Seq<DecoratedInstruction>,
)
    requires
        decorates(instrs, out),
    ensures
        forall|i: int| 0 <= i < out.len() ==> (#[trigger] out[i]).positioned() == instrs[i],
{
    let k = kinds(instrs);
    assert forall|i: int| 0 <= i < out.len() implies (#[trigger] out[i]).positioned()
        == instrs[i] by {
        if kind_at(instrs, i) == RawInstruction::OpenLoop {
            let j = out[i]->closer_index as int;
            assert(kind_at(instrs, j) == RawInstruction::CloseLoop);
        }
    }
}

proof fn lemma_decorates_nested(instrs: Seq<PositionedInstruction>, out: Seq<DecoratedInstruction>)
    requires
        decorates(instrs, out),
    ensures
        properly_nested(out),
{
    let k = kinds(instrs);
    assert forall|i: int, m: int|
        0 <= i < out.len() && out[i] is OpenLoop && i < m < out[i]->closer_index implies #[trigger] nested_inside(
        out,
        i,
        m,
    ) by {
        if kind_at(instrs, i) == RawInstruction::OpenLoop {
            let c = out[i]->closer_index as int;
            assert(kind_at(instrs, c) == RawInstruction::CloseLoop);
            assert(partner_inside(instrs, out, m, i, c));
            if kind_at(instrs, m) == RawInstruction::CloseLoop {
            } else if kind_at(instrs, m) == RawInstruction::OpenLoop {
            }
        } else if kind_at(instrs, i) == RawInstruction::CloseLoop {
        }
    }
}

proof fn lemma_decorates_well_formed(
    instrs: Seq<PositionedInstruction>,
    out: Seq<DecoratedInstruction>,
)
    requires
        decorates(instrs, out),
        increasing(instrs),
        instrs.len() <= usize::MAX,
    ensures
        well_formed(out),
{
    let k = kinds(instrs);
    lemma_decorates_positions(instrs, out);
    assert forall|i: int, j: int| 0 <= i < j < out.len() implies precedes(
        (#[trigger] out[i]).positioned(),
        (#[trigger] out[j]).positioned(),
    ) by {
        assert(precedes(instrs[i], instrs[j]));
    }
    assert forall|i: int| 0 <= i < out.len() implies match #[trigger] out[i] {
        DecoratedInstruction::Instruction(p) => !p.instruction.is_bracket(),
        DecoratedInstruction::OpenLoop { instruction, closer, closer_index } => {
            &&& instruction.instruction == RawInstruction::OpenLoop
            &&& i < closer_index < out.len()
            &&& out[closer_index as int] == DecoratedInstruction::CloseLoop {
                instruction: closer,
                opener: instruction,
                opener_index: i as usize,
            }
        },
        DecoratedInstruction::CloseLoop { instruction, opener, opener_index } => {
            &&& instruction.instruction == RawInstruction::CloseLoop
            &&& opener_index < i
            &&& out[opener_index as int] == DecoratedInstruction::OpenLoop {
                instruction: opener,
                closer: instruction,
                closer_index: i as usize,
            }
        },
    } by {
        if kind_at(instrs, i) == RawInstruction::OpenLoop {
            let j = out[i]->closer_index as int;
            assert(kind_at(instrs, j) == RawInstruction::CloseLoop);
        } else if kind_at(instrs, i) == RawInstruction::CloseLoop {
            let o = opener_of(k, i);
            assert(out[o].positioned() == instrs[o]);
        }
    }
}

/// Why a program's brackets do not match.
#[derive(Debug)]
pub enum ParseError {
    /// A loop-close with no loop-open before it.
    UnopenedBracket { closer: PositionedInstruction, source_file: String },
    /// A loop-open that is never closed.
    UnclosedBracket { opener: PositionedInstruction, source_file: String },
}

/// A program whose brackets match, prepared for execution.
pub struct DecoratedProgram {
    file: String,
    decorated_instructions: Vec<DecoratedInstruction>,
}

impl View for DecoratedProgram {
    type V = Seq<DecoratedInstruction>;

    closed spec fn view(&self) -> Seq<DecoratedInstruction> {
        self.decorated_instructions@
    }
}

impl DecoratedProgram {
    /// The name of the source file.
    pub closed spec fn file_name(&self) -> Seq<char> {
        self.file@
    }

    #[verifier::type_invariant]
    spec fn is_well_formed(&self) -> bool {
        well_formed(self.decorated_instructions@) && properly_nested(self.decorated_instructions@)
    }

    /// Matches the brackets of `prog` in one pass with a stack of unmatched
    /// loop-opens. Fails at the first loop-close with no opener, or else, if
    /// some loop-open is never closed, at the innermost such one.
    pub fn from_program(prog: &Program) -> (r: Result<DecoratedProgram, ParseError>)
        ensures
            match bracket_scan(kinds(prog@)) {
                Brackets::Unopened { closer } => r matches Err(
                    ParseError::UnopenedBracket { closer: c, source_file: f },
                ) && c == prog@[closer] && f@ == prog.file_name(),
                Brackets::Pending { open } => if open.len() > 0 {
                    r matches Err(ParseError::UnclosedBracket { opener: o, source_file: f }) && o
                        == prog@[open.last()] && f@ == prog.file_name()
                } else {
                    r matches Ok(d) && decorates(prog@, d@) && d.file_name() == prog.file_name()
                },
            },
    {
        let instrs = prog.instructions();
        let mut stack: Vec<usize> = Vec::new();
        let mut out: Vec<DecoratedInstruction> = Vec::new();
        let ghost open: Seq<int> = Seq::empty();
        let mut i: usize = 0;
        proof {
            assert(kinds(instrs@).take(0) =~= Seq::<RawInstruction>::empty());
        }
        while i < instrs.len()
            invariant
                instrs@ == prog@,
                resolved_prefix(instrs@, out@, open, i as int),
                stack@.len() == open.len(),
                forall|t: int| 0 <= t < open.len() ==> stack@[t] as int == #[trigger] open[t],
            decreases instrs.len() - i,
        {
            let instruction = instrs[i];
            proof {
                lemma_prefix_facts(instrs@, i as int);
            }
            match instruction.instruction {
                RawInstruction::OpenLoop => {
                    proof {
                        lemma_step_open(instrs@, out@, open, i as int);
                        open = open.push(i as int);
                    }
                    stack.push(i);
                    out.push(DecoratedInstruction::Instruction(instruction));
                },
                RawInstruction::CloseLoop => {
                    if stack.len() == 0 {
                        proof {
                            lemma_step_unopened(instrs@, out@, open, i as int);
                        }
                        return Err(
                            ParseError::UnopenedBracket {
                                closer: instruction,
                                source_file: prog.file().to_owned(),
                            },
                        );
                    }
                    let o = stack[stack.len() - 1];
                    assert(open[open.len() - 1] == o as int);
                    stack.pop();
                    let opener = instrs[o];
                    proof {
                        lemma_step_close(instrs@, out@, open, i as int);
                        open = open.drop_last();
                    }
                    out.set(
                        o,
                        DecoratedInstruction::OpenLoop {
                            instruction: opener,
                            closer: instruction,
                            closer_index: i,
                        },
                    );
                    out.push(
                        DecoratedInstruction::CloseLoop { instruction, opener, opener_index: o },
                    );
                },
                _ => {
                    proof {
                        lemma_step_other(instrs@, out@, open, i as int);
                    }
                    out.push(DecoratedInstruction::Instruction(instruction));
                },
            }
            i = i + 1;
        }
        proof {
            lemma_resolved(instrs@, out@, open);
        }
        if stack.len() > 0 {
            let o = stack[stack.len() - 1];
            return Err(
                ParseError::UnclosedBracket { opener: instrs[o], source_file: prog.file().to_owned() },
            );
        }
        proof {
            lemma_decorates_well_formed(instrs@, out@);
            lemma_decorates_nested(instrs@, out@);
        }
        Ok(DecoratedProgram { file: prog.file().to_owned(), decorated_instructions: out })
    }

    /// The index of the instruction at `line` and `character`, found by
    /// binary search over the increasing positions.
    pub fn position_to_index(&self, line: usize, character: usize) -> (r: usize)
        requires
            exists|i: int|
                0 <= i < self@.len() && (#[trigger] self@[i]).positioned().line == line
                    && self@[i].positioned().character == character,
        ensures
            r < self@.len(),
            self@[r as int].positioned().line == line,
            self@[r as int].positioned().character == character,
    {
        proof {
            use_type_invariant(self);
        }
        let instructions = &self.decorated_instructions;
        let mut lo: usize = 0;
        let mut hi: usize = instructions.len();
        while lo < hi
            invariant
                well_formed(instructions@),
                instructions@ == self@,
                hi <= instructions@.len(),
                forall|i: int|
                    0 <= i < instructions@.len() && (#[trigger] instructions@[i]).positioned().line
                        == line && instructions@[i].positioned().character == character ==> lo <= i
                        < hi,
            decreases hi - lo,
        {
            let mid = lo + (hi - lo) / 2;
            let found = instructions[mid].instruction();
            if found.line == line && found.character == character {
                return mid;
            }
            if found.line < line || (found.line == line && found.character < character) {
                assert forall|i: int|
                    0 <= i < instructions@.len() && (#[trigger] instructions@[i]).positioned().line
                        == line && instructions@[i].positioned().character == character implies mid
                    < i by {
                    if i < mid {
                        assert(precedes(instructions@[i].positioned(), instructions@[mid as int].positioned()));
                    }
                }
                lo = mid + 1;
            } else {
                assert forall|i: int|
                    0 <= i < instructions@.len() && (#[trigger] instructions@[i]).positioned().line
                        == line && instructions@[i].positioned().character == character implies i
                    < mid by {
                    if i > mid {
                        assert(precedes(instructions@[mid as int].positioned(), instructions@[i].positioned()));
                    }
                }
                hi = mid;
            }
        }
        lo
    }

    /// The name of the source file.
    pub fn file(&self) -> (r: &str)
        ensures
            r@ == self.file_name(),
    {
        self.file.as_str()
    }

    /// The decorated instructions, in source order.
    pub fn decorated_instructions(&self) -> (r: &[DecoratedInstruction])
        ensures
            r@ == self@,
            self@.len() <= usize::MAX,
            well_formed(self@),
            properly_nested(self@),
    {
        proof {
            use_type_invariant(self);
        }
        let _ = self.decorated_instructions.len();
        self.decorated_instructions.as_slice()
    }
}

} // verus!
