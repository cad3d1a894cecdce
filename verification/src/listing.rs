//! The instruction lister: renders a stream of per-instruction decode
//! outcomes into display rows, keeping a running byte offset that advances
//! by the encoded size of each decoded instruction and stands still over a
//! failed slot.

use vstd::prelude::*;
use crate::hexstr::{hex_bytes, hex_number, push_hex_bytes, push_hex_number};

verus! {

/// What the decoder reported for one instruction slot: either a decoded
/// instruction with its encoded bytes and assembly rendering, or a
/// localized failure with its message.
pub enum DecodeOutcome {
    Decoded { encoded: Vec<u8>, assembly: String },
    Failed { message: String },
}

/// The mathematical shape of one decode outcome: the same two cases over
/// plain sequences. Contracts speak of outcome streams in this form.
pub enum OutcomeModel {
    Decoded { encoded: Seq<u8>, assembly: Seq<char> },
    Failed { message: Seq<char> },
}

impl View for DecodeOutcome {
    type V = OutcomeModel;

    open spec fn view(&self) -> OutcomeModel {
        match self {
            DecodeOutcome::Decoded { encoded, assembly } => OutcomeModel::Decoded {
                encoded: encoded@,
                assembly: assembly@,
            },
            DecodeOutcome::Failed { message } => OutcomeModel::Failed { message: message@ },
        }
    }
}

/// The models of a whole outcome stream, slot by slot.
pub open spec fn seq_models(outs: Seq<DecodeOutcome>) -> Seq<OutcomeModel> {
    outs.map_values(|o: DecodeOutcome| o@)
}

/// One instruction row: the slot's byte offset as at least six uppercase
/// hex digits, the encoded bytes as space-separated uppercase hex pairs
/// (the literal text `ERROR` for a failed slot), and the assembly rendering
/// (the failure message for a failed slot).
pub struct InstructionLine {
    pub offset: String,
    pub hex: String,
    pub assembly: String,
}

/// How far one outcome advances the running byte offset: the encoded size
/// of a decoded instruction; a failed slot does not advance it.
pub open spec fn outcome_advance(o: OutcomeModel) -> nat {
    match o {
        OutcomeModel::Decoded { encoded, .. } => encoded.len(),
        OutcomeModel::Failed { .. } => 0,
    }
}

/// The running byte offset in front of slot `i`, starting from zero.
pub open spec fn offset_at(outs: Seq<OutcomeModel>, i: int) -> nat
    decreases i,
{
    if i <= 0 {
        0
    } else {
        offset_at(outs, i - 1) + outcome_advance(outs[i - 1])
    }
}

/// The running offset never decreases along the slots.
pub proof fn lemma_offset_at_monotone(outs: Seq<OutcomeModel>, i: int, j: int)
    requires
        0 <= i <= j,
    ensures
        offset_at(outs, i) <= offset_at(outs, j),
    decreases j - i,
{
    if i < j {
        lemma_offset_at_monotone(outs, i, j - 1);
    }
}

/// Appending a slot leaves all earlier running offsets unchanged.
pub proof fn lemma_offset_at_push(outs: Seq<OutcomeModel>, o: OutcomeModel, i: int)
    requires
        0 <= i <= outs.len(),
    ensures
        offset_at(outs.push(o), i) == offset_at(outs, i),
    decreases i,
{
    if i > 0 {
        lemma_offset_at_push(outs, o, i - 1);
    }
}

/// A decoded slot advances the running offset by exactly its encoded size,
/// and a failed slot leaves it unchanged, so one failed slot never corrupts
/// the offsets of the slots around it.
pub proof fn lemma_offset_advance(outs: Seq<OutcomeModel>, i: int)
    requires
        0 <= i < outs.len(),
    ensures
        outs[i] matches OutcomeModel::Decoded { encoded, .. } ==> offset_at(outs, i + 1)
            == offset_at(outs, i) + encoded.len(),
        outs[i] matches OutcomeModel::Failed { .. } ==> offset_at(outs, i + 1) == offset_at(
            outs,
            i,
        ),
{
}

/// The characters of the literal text `ERROR`.
pub open spec fn error_marker() -> Seq<char> {
    seq!['E', 'R', 'R', 'O', 'R']
}

/// What one rendered row must hold for outcome `o` at running offset `off`.
pub open spec fn line_matches_outcome(o: OutcomeModel, off: nat, line: InstructionLine) -> bool {
    match o {
        OutcomeModel::Decoded { encoded, assembly } => {
            &&& line.offset@ == hex_number(off, 6, true)
            &&& line.hex@ == hex_bytes(encoded, true)
            &&& line.assembly@ == assembly
        },
        OutcomeModel::Failed { message } => {
            &&& line.offset@ == hex_number(off, 6, true)
            &&& line.hex@ == error_marker()
            &&& line.assembly@ == message
        },
    }
}

/// What a whole rendered listing must hold for an outcome stream when its
/// running offset starts at `base`.
pub open spec fn lines_match_outcomes_at(
    outs: Seq<OutcomeModel>,
    base: nat,
    lines: Seq<InstructionLine>,
) -> bool {
    &&& lines.len() == outs.len()
    &&& forall|i: int|
        0 <= i < outs.len() ==> line_matches_outcome(
            outs[i],
            base + offset_at(outs, i),
            #[trigger] lines[i],
        )
}

/// What a whole rendered listing must hold for an outcome stream.
pub open spec fn lines_match_outcomes(
    outs: Seq<OutcomeModel>,
    lines: Seq<InstructionLine>,
) -> bool {
    &&& lines.len() == outs.len()
    &&& forall|i: int|
        0 <= i < outs.len() ==> line_matches_outcome(outs[i], offset_at(outs, i), #[trigger] lines[i])
}

/// Renders one row per decode outcome: offset, hex bytes (or the `ERROR`
/// marker), and assembly text (or the failure message). The running offset
/// starts at zero, grows by each decoded instruction's encoded size, and is
/// left unchanged by a failed slot, so one bad slot never corrupts the
/// offsets of its neighbours. A failure is absorbed into its own row and
/// never aborts the listing.
pub fn render_lines(outcomes: &Vec<DecodeOutcome>) -> (r: Vec<InstructionLine>)
    requires
        offset_at(seq_models(outcomes@), outcomes@.len() as int) <= usize::MAX,
    ensures
        lines_match_outcomes(seq_models(outcomes@), r@),
{
    let r = render_lines_at(outcomes, 0);
    proof {
        assert(lines_match_outcomes(seq_models(outcomes@), r@));
    }
    r
}

/// The lister with a configurable base: as `render_lines`, but the running
/// offset starts at `base` instead of zero, for callers that relocate the
/// listing to where the code was found inside the raw container.
pub fn render_lines_at(outcomes: &Vec<DecodeOutcome>, base: usize) -> (r: Vec<InstructionLine>)
    requires
        base + offset_at(seq_models(outcomes@), outcomes@.len() as int) <= usize::MAX,
    ensures
        lines_match_outcomes_at(seq_models(outcomes@), base as nat, r@),
{
    let ghost ms = seq_models(outcomes@);
    let n = outcomes.len();
    let mut r: Vec<InstructionLine> = Vec::new();
    let mut off: usize = base;
    let mut j: usize = 0;
    while j < n
        invariant
            ms == seq_models(outcomes@),
            n == outcomes@.len(),
            ms.len() == n,
            j <= n,
            base + offset_at(ms, n as int) <= usize::MAX,
            off == base + offset_at(ms, j as int),
            r@.len() == j,
            forall|i: int|
                0 <= i < j ==> line_matches_outcome(
                    ms[i],
                    (base + offset_at(ms, i)) as nat,
                    #[trigger] r@[i],
                ),
        decreases n - j,
    {
        let mut offset = String::new();
        push_hex_number(&mut offset, off, 6, true);
        proof {
            assert(ms[j as int] == outcomes@[j as int]@);
        }
        let line = match &outcomes[j] {
            DecodeOutcome::Decoded { encoded, assembly } => {
                let mut hex = String::new();
                push_hex_bytes(&mut hex, encoded, 0, encoded.len(), true);
                proof {
                    assert(encoded@.subrange(0, encoded@.len() as int) =~= encoded@);
                    lemma_offset_at_monotone(ms, j + 1, n as int);
                }
                let out = InstructionLine { offset, hex, assembly: assembly.clone() };
                off = off + encoded.len();
                out
            },
            DecodeOutcome::Failed { message } => {
                let mut hex = String::new();
                hex.push('E');
                hex.push('R');
                hex.push('R');
                hex.push('O');
                hex.push('R');
                proof {
                    assert(hex@ =~= error_marker());
                }
                InstructionLine { offset, hex, assembly: message.clone() }
            },
        };
        r.push(line);
        j = j + 1;
    }
    r
}

} // verus!
