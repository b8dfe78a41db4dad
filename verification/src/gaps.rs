//! Quantization of tick gaps into `WaitTicks` commands: a greedy
//! decomposition of a gap over a fixed ascending table of 32 wait-duration
//! denominations, scanning from the largest denomination down and
//! subtracting the first one that fits until the gap is exhausted.

use vstd::prelude::*;

use crate::commands::FlanSeqCommand;

verus! {

/// The fixed table of 32 wait-duration denominations, in ticks, ascending.
pub open spec fn wait_lut() -> Seq<u16> {
    seq![
        1u16,
        2u16,
        3u16,
        4u16,
        6u16,
        8u16,
        12u16,
        16u16,
        20u16,
        24u16,
        28u16,
        32u16,
        40u16,
        48u16,
        56u16,
        64u16,
        80u16,
        96u16,
        112u16,
        128u16,
        160u16,
        192u16,
        224u16,
        256u16,
        320u16,
        384u16,
        448u16,
        512u16,
        640u16,
        768u16,
        896u16,
        1024u16,
    ]
}

/// Read one entry of the wait-duration table.
pub fn wait_lut_entry(i: usize) -> (r: u16)
    requires
        i < 32,
    ensures
        r == wait_lut()[i as int],
{
    let lut: [u16; 32] = [
        1, 2, 3, 4, 6, 8, 12, 16, 20, 24, 28, 32, 40, 48, 56, 64, 80, 96, 112, 128, 160, 192,
        224, 256, 320, 384, 448, 512, 640, 768, 896, 1024,
    ];
    lut[i]
}

/// The index the greedy scan picks when the remaining gap is `g`: the
/// largest index `k <= i` whose denomination fits in `g` (index 0, the
/// one-tick denomination, always fits when `g >= 1`).
pub open spec fn largest_fit(g: u16, i: int) -> int
    recommends
        1 <= g,
        0 <= i < 32,
    decreases i,
{
    if i <= 0 {
        0
    } else if wait_lut()[i] <= g {
        i
    } else {
        largest_fit(g, i - 1)
    }
}

/// The greedy scan picks an in-range index whose denomination fits, and
/// every larger index in range does not fit.
pub proof fn lemma_largest_fit(g: u16, i: int)
    requires
        1 <= g,
        0 <= i < 32,
    ensures
        0 <= largest_fit(g, i) <= i,
        1 <= wait_lut()[largest_fit(g, i)] <= g,
        forall|j: int| largest_fit(g, i) < j <= i ==> wait_lut()[j] > g,
    decreases i,
{
    if i <= 0 {
    } else if wait_lut()[i] <= g {
    } else {
        lemma_largest_fit(g, i - 1);
    }
}

/// The `WaitTicks` run the translator synthesizes for a gap of `g` ticks:
/// greedily take the largest denomination that still fits, then recurse on
/// what remains.
pub open spec fn gap_commands(g: u16) -> Seq<FlanSeqCommand>
    decreases g,
    via gap_commands_decreases
{
    if g == 0 {
        Seq::empty()
    } else {
        let k = largest_fit(g, 31);
        seq![FlanSeqCommand::WaitTicks { index_into_lut: k as usize }]
            + gap_commands((g - wait_lut()[k]) as u16)
    }
}

#[via_fn]
proof fn gap_commands_decreases(g: u16) {
    if g != 0 {
        lemma_largest_fit(g, 31);
    }
}

/// The total tick duration of a command run: the sum of the LUT entries of
/// its `WaitTicks` commands (other commands take no time).
pub open spec fn wait_sum(cmds: Seq<FlanSeqCommand>) -> int
    decreases cmds.len(),
{
    if cmds.len() == 0 {
        0
    } else {
        (match cmds[0] {
            FlanSeqCommand::WaitTicks { index_into_lut } => wait_lut()[index_into_lut as int] as int,
            _ => 0,
        }) + wait_sum(cmds.drop_first())
    }
}

proof fn lemma_wait_sum_cons(c: FlanSeqCommand, rest: Seq<FlanSeqCommand>)
    ensures
        wait_sum(seq![c] + rest) == (match c {
            FlanSeqCommand::WaitTicks { index_into_lut } => wait_lut()[index_into_lut as int] as int,
            _ => 0,
        }) + wait_sum(rest),
{
    let whole = seq![c] + rest;
    assert(whole.len() >= 1);
    assert(whole[0] == c);
    assert(whole.drop_first() =~= rest);
}

/// The greedy invariant at position `j` of the run synthesized for gap `g`:
/// the command is an in-range `WaitTicks` whose denomination is at most the
/// gap still remaining when it was selected.
pub open spec fn greedy_entry_ok(g: u16, cmds: Seq<FlanSeqCommand>, j: int) -> bool {
    &&& cmds[j] matches FlanSeqCommand::WaitTicks { index_into_lut }
    &&& cmds[j]->index_into_lut < 32
    &&& wait_lut()[cmds[j]->index_into_lut as int] <= g - wait_sum(cmds.take(j))
}

/// Law (gap decomposition correctness): the `WaitTicks` run synthesized for
/// a gap `g` sums to exactly `g`, uses at most `g` commands, consists only
/// of in-range `WaitTicks`, and obeys the greedy invariant: every entry used
/// is at most the gap remaining when it was selected.
pub proof fn lemma_gap_decomposition(g: u16)
    ensures
        wait_sum(gap_commands(g)) == g,
        gap_commands(g).len() <= g,
        forall|j: int|
            0 <= j < gap_commands(g).len() ==> #[trigger] greedy_entry_ok(g, gap_commands(g), j),
    decreases g,
{
    if g == 0 {
    } else {
        lemma_largest_fit(g, 31);
        let k = largest_fit(g, 31);
        let d = wait_lut()[k];
        let g2 = (g - d) as u16;
        let first = FlanSeqCommand::WaitTicks { index_into_lut: k as usize };
        let rest = gap_commands(g2);
        let cmds = gap_commands(g);
        lemma_gap_decomposition(g2);
        lemma_wait_sum_cons(first, rest);
        assert(cmds == seq![first] + rest);
        assert(wait_sum(cmds) == d + wait_sum(rest));
        assert forall|j: int| 0 <= j < cmds.len() implies #[trigger] greedy_entry_ok(
            g,
            cmds,
            j,
        ) by {
            if j == 0 {
                assert(cmds.take(0) =~= Seq::<FlanSeqCommand>::empty());
                assert(cmds[0] == first);
            } else {
                assert(cmds[j] == rest[j - 1]);
                assert(cmds.take(j) =~= seq![first] + rest.take(j - 1));
                lemma_wait_sum_cons(first, rest.take(j - 1));
                assert(wait_sum(cmds.take(j)) == d + wait_sum(rest.take(j - 1)));
                assert(greedy_entry_ok(g2, rest, j - 1));
            }
        }
    }
}

/// Every command in a synthesized gap run is a well-formed `WaitTicks`.
pub proof fn lemma_gap_commands_wf(g: u16)
    ensures
        forall|j: int|
            0 <= j < gap_commands(g).len() ==> (#[trigger] gap_commands(g)[j]).wf(),
{
    lemma_gap_decomposition(g);
    assert forall|j: int| 0 <= j < gap_commands(g).len() implies (#[trigger] gap_commands(
        g,
    )[j]).wf() by {
        assert(greedy_entry_ok(g, gap_commands(g), j));
    }
}

/// Mirror of the greedy scan: the largest denomination index that fits in
/// the remaining gap `g`, scanning down from index `i`.
fn find_fit_from(g: u16, i: usize) -> (k: usize)
    requires
        1 <= g,
        i < 32,
    ensures
        k == largest_fit(g, i as int),
    decreases i,
{
    if i == 0 {
        0
    } else if wait_lut_entry(i) <= g {
        i
    } else {
        find_fit_from(g, i - 1)
    }
}

/// Synthesize the `WaitTicks` run for a gap of `gap` ticks.
pub fn make_gap_commands(gap: u16) -> (r: Vec<FlanSeqCommand>)
    ensures
        r@ == gap_commands(gap),
{
    let mut r: Vec<FlanSeqCommand> = Vec::new();
    let mut g: u16 = gap;
    while g > 0
        invariant
            r@ + gap_commands(g) == gap_commands(gap),
        decreases g,
    {
        let k = find_fit_from(g, 31);
        proof {
            lemma_largest_fit(g, 31);
        }
        let d = wait_lut_entry(k);
        let ghost r_before = r@;
        r.push(FlanSeqCommand::WaitTicks { index_into_lut: k });
        proof {
            assert(gap_commands(g) == seq![FlanSeqCommand::WaitTicks { index_into_lut: k }]
                + gap_commands((g - d) as u16));
            assert(r@ + gap_commands((g - d) as u16) =~= r_before + gap_commands(g));
        }
        g = g - d;
    }
    proof {
        assert(r@ + gap_commands(0) =~= r@);
    }
    r
}

} // verus!
