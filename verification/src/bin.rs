//! One loaded binary, bundling the two views of a buffer: the hex/ASCII
//! chunk rows and the disassembled code rows.

use vstd::prelude::*;
use vstd::string::StringExecFns;
use crate::chunks::{chunk_line, format_byte_offset, num_chunks, parse_data};
use crate::decode::{blob_parses, decode_outcomes, outcomes_of};
use crate::hexstr::hex_number;
use crate::listing::{offset_at, seq_models, DecodeOutcome, OutcomeModel};

verus! {

/// The message that `load` returns when the container cannot be parsed.
pub type LoadError = String;

/// How many bytes one chunk row of a loaded binary shows.
pub const CHUNK_SIZE: usize = 16;

/// The two rendered views of one loaded buffer.
#[derive(Clone, Debug)]
pub struct Binary {
    pub memory: Vec<String>,
    pub code: Vec<CodeLine>,
}

/// One code row: the instruction's byte offset rendered as `0x` plus eight
/// hex digits, and its assembly text (or the failure message of its slot).
#[derive(Clone, Debug)]
pub struct CodeLine {
    pub offset: String,
    pub text: String,
}

impl Default for CodeLine {
    /// An empty code row.
    fn default() -> (r: CodeLine)
        ensures
            r.offset@ == Seq::<char>::empty(),
            r.text@ == Seq::<char>::empty(),
    {
        CodeLine { offset: String::new(), text: String::new() }
    }
}

impl Binary {
    /// Pairs the two views of one buffer.
    pub fn new(memory: Vec<String>, code: Vec<CodeLine>) -> (r: Self)
        ensures
            r.memory == memory,
            r.code == code,
    {
        Self { memory, code }
    }
}

/// What one code row must hold for outcome `o` at running offset `off`.
pub open spec fn code_line_matches(o: OutcomeModel, off: nat, line: CodeLine) -> bool {
    &&& line.offset@ == seq!['0', 'x'] + hex_number(off, 8, false)
    &&& match o {
        OutcomeModel::Decoded { assembly, .. } => line.text@ == assembly,
        OutcomeModel::Failed { message } => line.text@ == message,
    }
}

/// What a whole code listing must hold for an outcome stream.
pub open spec fn code_lines_match(outs: Seq<OutcomeModel>, lines: Seq<CodeLine>) -> bool {
    &&& lines.len() == outs.len()
    &&& forall|i: int|
        0 <= i < outs.len() ==> code_line_matches(outs[i], offset_at(outs, i), #[trigger] lines[i])
}

/// Renders one code row per decode outcome, with the same running-offset
/// policy as the instruction lister: a decoded slot advances the offset by
/// its encoded size, a failed slot leaves it unchanged.
pub fn render_code_lines(outcomes: &Vec<DecodeOutcome>) -> (r: Vec<CodeLine>)
    requires
        offset_at(seq_models(outcomes@), outcomes@.len() as int) <= usize::MAX,
    ensures
        code_lines_match(seq_models(outcomes@), r@),
{
    let ghost ms = seq_models(outcomes@);
    let n = outcomes.len();
    let mut r: Vec<CodeLine> = Vec::new();
    let mut off: usize = 0;
    let mut j: usize = 0;
    while j < n
        invariant
            ms == seq_models(outcomes@),
            n == outcomes@.len(),
            ms.len() == n,
            j <= n,
            offset_at(ms, n as int) <= usize::MAX,
            off == offset_at(ms, j as int),
            r@.len() == j,
            forall|i: int|
                0 <= i < j ==> code_line_matches(ms[i], offset_at(ms, i), #[trigger] r@[i]),
        decreases n - j,
    {
        proof {
            assert(ms[j as int] == outcomes@[j as int]@);
        }
        let offset = format_byte_offset(off);
        let line = match &outcomes[j] {
            DecodeOutcome::Decoded { encoded, assembly } => {
                proof {
                    crate::listing::lemma_offset_at_monotone(ms, j + 1, n as int);
                }
                let out = CodeLine { offset, text: assembly.clone() };
                off = off + encoded.len();
                out
            },
            DecodeOutcome::Failed { message } => CodeLine { offset, text: message.clone() },
        };
        r.push(line);
        j = j + 1;
    }
    r
}

/// Loads a buffer into a `Binary`: succeeds exactly when the container
/// parses. The chunk rows are then the sixteen-byte rows of the buffer,
/// and the code rows render the buffer's outcome stream, one row per slot;
/// a slot-level decode failure only yields its own code row. On a
/// container that does not parse, the fixed message and no partial result.
pub fn load(data: &Vec<u8>) -> (r: Result<Binary, LoadError>)
    ensures
        r is Ok <==> blob_parses(data@),
        r matches Ok(bin) ==> {
            &&& bin.memory@.len() == num_chunks(data@.len(), CHUNK_SIZE as nat)
            &&& forall|i: int|
                0 <= i < bin.memory@.len() ==> (#[trigger] bin.memory@[i])@ == chunk_line(
                    data@,
                    CHUNK_SIZE as nat,
                    i,
                )
            &&& code_lines_match(outcomes_of(data@), bin.code@)
        },
        r matches Err(e) ==> e@ == "Failed to parse blob"@,
{
    match decode_outcomes(data) {
        Ok(outs) => {
            let memory = parse_data(data, CHUNK_SIZE);
            let code = render_code_lines(&outs);
            Ok(Binary::new(memory, code))
        },
        Err(_) => Err(<String as StringExecFns>::from_str("Failed to parse blob")),
    }
}

} // verus!
