//! The boundary to the `polkavm-common` decoder: trusted declarations of
//! its types, thin wrappers around the calls the lister needs with their
//! results named, and the verified pipeline that turns a raw buffer into
//! decode outcomes and rendered instruction rows.

use vstd::prelude::*;
use polkavm_common::program::{Instruction, ParsedInstruction, ProgramBlob, ProgramParseError};
use crate::listing::{
    lines_match_outcomes, lines_match_outcomes_at, offset_at, render_lines, render_lines_at,
    seq_models, DecodeOutcome, InstructionLine, OutcomeModel, lemma_offset_at_push,
};
use crate::search::{find_pattern, first_match_at, lemma_first_match_unique};

verus! {

#[verifier::external_type_specification]
#[verifier::external_body]
pub struct ExProgramBlob(ProgramBlob);

#[verifier::external_type_specification]
#[verifier::external_body]
pub struct ExProgramParseError(ProgramParseError);

#[verifier::external_type_specification]
#[verifier::external_body]
pub struct ExInstruction(Instruction);

#[verifier::external_type_specification]
#[verifier::external_body]
pub struct ExParsedInstruction(ParsedInstruction);

/// What parsing a buffer as a program blob yields; it depends on the bytes
/// alone.
pub uninterp spec fn parse_result_of(data: Seq<u8>) -> Result<ProgramBlob, ProgramParseError>;

/// Whether the bytes form a well-formed program-blob container.
pub open spec fn blob_parses(data: Seq<u8>) -> bool {
    parse_result_of(data) is Ok
}

/// The parsed blob of a parsable buffer.
pub open spec fn blob_of(data: Seq<u8>) -> ProgramBlob {
    parse_result_of(data)->Ok_0
}

/// Relies on ProgramBlob::parse: Ok exactly when the bytes form a
/// well-formed container, Err with the structural parse error otherwise;
/// the whole result depends on the bytes alone, and the call never panics
/// on arbitrary input.
#[verifier::external_body]
fn parse_blob(data: &Vec<u8>) -> (r: Result<ProgramBlob, ProgramParseError>)
    ensures
        r == parse_result_of(data@),
{
    ProgramBlob::parse(polkavm_common::utils::ArcBytes::from(data.as_slice()))
}

/// The contents of a blob's code section; a function of the blob value.
pub uninterp spec fn code_of(blob: ProgramBlob) -> Seq<u8>;

/// Relies on ProgramBlob::code: returns the contents of the blob's code
/// section.
#[verifier::external_body]
fn blob_code(blob: &ProgramBlob) -> (r: Vec<u8>)
    ensures
        r@ == code_of(*blob),
{
    blob.code().to_vec()
}

/// The decoder's instruction stream for a blob, in stream order; a
/// function of the blob value.
pub uninterp spec fn stream_of(blob: ProgramBlob) -> Seq<ParsedInstruction>;

/// Relies on ProgramBlob::instructions and its stream's Iterator impl: the
/// decoder's finite instruction stream, materialized in stream order.
#[verifier::external_body]
fn collect_instructions(blob: &ProgramBlob) -> (r: Vec<ParsedInstruction>)
    ensures
        r@ == stream_of(*blob),
{
    blob.instructions().collect()
}

/// A parsed slot's instruction and the bounds of its byte range within the
/// code section; field reads of the slot value.
pub uninterp spec fn parts_of(pi: ParsedInstruction) -> (Instruction, u32, u32);

/// Relies on ParsedInstruction's public fields: the decoded instruction and
/// the bounds of its byte range within the code section.
#[verifier::external_body]
fn parsed_instruction_parts(pi: &ParsedInstruction) -> (r: (Instruction, u32, u32))
    ensures
        r == parts_of(*pi),
{
    (pi.kind, pi.offset.0, pi.next_offset.0)
}

/// The assembly rendering of a decoded instruction; it depends on the
/// instruction value alone.
pub uninterp spec fn instruction_text(ins: Instruction) -> Seq<char>;

/// Relies on Instruction's Display impl: one line of assembly text,
/// determined by the instruction value alone.
#[verifier::external_body]
fn instruction_assembly(ins: &Instruction) -> (r: String)
    ensures
        r@ == instruction_text(*ins),
{
    format!("{}", ins)
}

/// Whether the decoder reported this slot as undecodable; it depends on the
/// instruction value alone.
pub uninterp spec fn instruction_is_invalid(ins: Instruction) -> bool;

/// Relies on the Instruction enum: its `invalid` variant marks a slot whose
/// bytes the decoder could not decode as an instruction.
#[verifier::external_body]
fn is_invalid_instruction(ins: &Instruction) -> (r: bool)
    ensures
        r == instruction_is_invalid(*ins),
{
    matches!(ins, Instruction::invalid)
}

/// Why a listing could not be produced at all.
#[derive(PartialEq, Eq, Structural, Clone, Copy, Debug)]
pub enum DecodeError {
    /// The buffer is not a well-formed program-blob container.
    InvalidContainer,
    /// The base address of the code could not be located inside the raw
    /// buffer: the stream is empty, starts with a failed slot, the first
    /// instruction's bytes occur nowhere, or the relocated offsets would
    /// not fit in a machine word.
    NoBaseAddress,
}

/// The outcome models accumulated over the first `k` slots of a decoder
/// stream, together with the clamp cursor after them. Each undecodable
/// slot becomes a failure model; each decoded slot contributes the code
/// bytes of its range, clamped to the code section and to stream order.
pub open spec fn outcome_fold(
    code: Seq<u8>,
    stream: Seq<ParsedInstruction>,
    k: int,
) -> (Seq<OutcomeModel>, nat)
    decreases k,
{
    if k <= 0 {
        (Seq::empty(), 0nat)
    } else {
        let prev = outcome_fold(code, stream, k - 1);
        let acc = prev.0;
        let cursor = prev.1;
        let parts = parts_of(stream[k - 1]);
        let kind = parts.0;
        if instruction_is_invalid(kind) {
            (acc.push(OutcomeModel::Failed { message: instruction_text(kind) }), cursor)
        } else {
            let lo: nat = if (parts.1 as nat) < cursor {
                cursor
            } else if (parts.1 as nat) > code.len() {
                code.len()
            } else {
                parts.1 as nat
            };
            let hi: nat = if (parts.2 as nat) < lo {
                lo
            } else if (parts.2 as nat) > code.len() {
                code.len()
            } else {
                parts.2 as nat
            };
            (
                acc.push(
                    OutcomeModel::Decoded {
                        encoded: code.subrange(lo as int, hi as int),
                        assembly: instruction_text(kind),
                    },
                ),
                hi,
            )
        }
    }
}

/// The outcome stream that one pass of the decoder yields for a buffer:
/// the fold over the whole instruction stream of its parsed blob.
pub open spec fn outcomes_of(data: Seq<u8>) -> Seq<OutcomeModel> {
    outcome_fold(
        code_of(blob_of(data)),
        stream_of(blob_of(data)),
        stream_of(blob_of(data)).len() as int,
    ).0
}

/// Copies `data[lo..hi]` into a fresh vector.
fn bytes_between(data: &Vec<u8>, lo: usize, hi: usize) -> (r: Vec<u8>)
    requires
        lo <= hi <= data@.len(),
    ensures
        r@ == data@.subrange(lo as int, hi as int),
{
    let mut r: Vec<u8> = Vec::new();
    let mut i: usize = lo;
    while i < hi
        invariant
            lo <= i <= hi <= data@.len(),
            r@ == data@.subrange(lo as int, i as int),
        decreases hi - i,
    {
        r.push(data[i]);
        i = i + 1;
        proof {
            assert(r@ =~= data@.subrange(lo as int, i as int));
        }
    }
    r
}

/// Runs the decoder once over the buffer and materializes one outcome per
/// instruction slot: the encoded bytes and assembly text of each decoded
/// instruction, or the failure row for a slot the decoder marked invalid.
/// Succeeds exactly when the container parses, and then returns exactly
/// the outcome stream of the buffer; the clamped ranges keep the listing's
/// running offsets within a machine word.
pub fn decode_outcomes(data: &Vec<u8>) -> (r: Result<Vec<DecodeOutcome>, DecodeError>)
    ensures
        r is Ok <==> blob_parses(data@),
        r matches Ok(outs) ==> {
            &&& seq_models(outs@) == outcomes_of(data@)
            &&& offset_at(outcomes_of(data@), outcomes_of(data@).len() as int) <= usize::MAX
        },
        r matches Err(e) ==> e == DecodeError::InvalidContainer,
{
    let blob = match parse_blob(data) {
        Ok(blob) => blob,
        Err(_) => {
            return Err(DecodeError::InvalidContainer);
        },
    };
    proof {
        assert(blob == blob_of(data@));
    }
    let code = blob_code(&blob);
    let code_len = code.len();
    let stream = collect_instructions(&blob);
    let mut outs: Vec<DecodeOutcome> = Vec::new();
    let mut cursor: usize = 0;
    let mut j: usize = 0;
    while j < stream.len()
        invariant
            code@ == code_of(blob_of(data@)),
            stream@ == stream_of(blob_of(data@)),
            j <= stream@.len(),
            cursor <= code_len,
            code_len == code@.len(),
            seq_models(outs@) == outcome_fold(code@, stream@, j as int).0,
            cursor as nat == outcome_fold(code@, stream@, j as int).1,
            offset_at(seq_models(outs@), outs@.len() as int) <= cursor,
            outs@.len() == j,
        decreases stream@.len() - j,
    {
        let (kind, start, end) = parsed_instruction_parts(&stream[j]);
        let assembly = instruction_assembly(&kind);
        let ghost prev_models = seq_models(outs@);
        if is_invalid_instruction(&kind) {
            let outcome = DecodeOutcome::Failed { message: assembly };
            proof {
                lemma_offset_at_push(prev_models, outcome@, outs@.len() as int);
                assert(seq_models(outs@.push(outcome)) =~= prev_models.push(outcome@));
            }
            outs.push(outcome);
        } else {
            let lo = if (start as usize) < cursor {
                cursor
            } else if (start as usize) > code_len {
                code_len
            } else {
                start as usize
            };
            let hi = if (end as usize) < lo {
                lo
            } else if (end as usize) > code_len {
                code_len
            } else {
                end as usize
            };
            let encoded = bytes_between(&code, lo, hi);
            let outcome = DecodeOutcome::Decoded { encoded, assembly };
            proof {
                lemma_offset_at_push(prev_models, outcome@, outs@.len() as int);
                assert(seq_models(outs@.push(outcome)) =~= prev_models.push(outcome@));
            }
            cursor = hi;
            outs.push(outcome);
        }
        j = j + 1;
    }
    proof {
        assert(seq_models(outs@) == outcomes_of(data@));
    }
    Ok(outs)
}

/// Produces the instruction listing of a program blob: succeeds exactly
/// when the buffer parses as a container, and then renders one row per
/// slot of the buffer's outcome stream, in order, with running offsets as
/// the lister defines them. Returns `InvalidContainer`, and no rows at
/// all, exactly when the buffer cannot be parsed; a slot-level decode
/// failure is absorbed into its own `ERROR` row and never aborts the
/// listing.
pub fn disassemble(data: &Vec<u8>) -> (r: Result<Vec<InstructionLine>, DecodeError>)
    ensures
        r is Ok <==> blob_parses(data@),
        r matches Ok(lines) ==> lines_match_outcomes(outcomes_of(data@), lines@),
        r matches Err(e) ==> e == DecodeError::InvalidContainer,
{
    match decode_outcomes(data) {
        Ok(outs) => Ok(render_lines(&outs)),
        Err(e) => Err(e),
    }
}

/// The final running offset of an outcome stream, as the lister counts it.
fn total_advance(outcomes: &Vec<DecodeOutcome>) -> (t: usize)
    requires
        offset_at(seq_models(outcomes@), outcomes@.len() as int) <= usize::MAX,
    ensures
        t == offset_at(seq_models(outcomes@), outcomes@.len() as int),
{
    let ghost ms = seq_models(outcomes@);
    let n = outcomes.len();
    let mut t: usize = 0;
    let mut j: usize = 0;
    while j < n
        invariant
            ms == seq_models(outcomes@),
            n == outcomes@.len(),
            ms.len() == n,
            j <= n,
            offset_at(ms, n as int) <= usize::MAX,
            t == offset_at(ms, j as int),
        decreases n - j,
    {
        proof {
            assert(ms[j as int] == outcomes@[j as int]@);
        }
        if let DecodeOutcome::Decoded { encoded, .. } = &outcomes[j] {
            proof {
                crate::listing::lemma_offset_at_monotone(ms, j + 1, n as int);
            }
            t = t + encoded.len();
        }
        j = j + 1;
    }
    t
}

/// The encoded bytes of the first slot of a buffer's outcome stream; the
/// empty sequence when that slot is a failure.
pub open spec fn first_slot_encoded(data: Seq<u8>) -> Seq<u8> {
    match outcomes_of(data)[0] {
        OutcomeModel::Decoded { encoded, .. } => encoded,
        OutcomeModel::Failed { .. } => Seq::empty(),
    }
}

/// The position of the first occurrence of the first decoded slot's bytes
/// inside the raw buffer.
pub open spec fn base_address_of(data: Seq<u8>) -> int {
    choose|i: int| first_match_at(data, first_slot_encoded(data), i)
}

/// Whether a relocated listing exists for the buffer: the container
/// parses, its stream is non-empty and starts with a decoded slot, that
/// slot's bytes occur somewhere in the buffer, and the relocated running
/// offsets fit in a machine word.
pub open spec fn rebasable(data: Seq<u8>) -> bool {
    &&& blob_parses(data)
    &&& outcomes_of(data).len() > 0
    &&& outcomes_of(data)[0] is Decoded
    &&& exists|i: int| first_match_at(data, first_slot_encoded(data), i)
    &&& base_address_of(data) + offset_at(outcomes_of(data), outcomes_of(data).len() as int)
        <= usize::MAX
}

/// As `disassemble`, but relocates the listing to the code's true base
/// address: the running offset starts at the first position where the
/// first decoded instruction's bytes occur inside the raw buffer.
/// Succeeds exactly when such a base exists for a parsable buffer;
/// returns `InvalidContainer` exactly when the container cannot be
/// parsed, and `NoBaseAddress` for every other failure.
pub fn disassemble_rebased(data: &Vec<u8>) -> (r: Result<Vec<InstructionLine>, DecodeError>)
    ensures
        r is Ok <==> rebasable(data@),
        r matches Ok(lines) ==> lines_match_outcomes_at(
            outcomes_of(data@),
            base_address_of(data@) as nat,
            lines@,
        ),
        r matches Err(e) ==> (e == DecodeError::InvalidContainer <==> !blob_parses(data@)),
{
    let outs = match decode_outcomes(data) {
        Ok(outs) => outs,
        Err(_) => {
            return Err(DecodeError::InvalidContainer);
        },
    };
    if outs.len() == 0 {
        return Err(DecodeError::NoBaseAddress);
    }
    proof {
        assert(seq_models(outs@)[0] == outs@[0]@);
    }
    let base = match &outs[0] {
        DecodeOutcome::Decoded { encoded, .. } => {
            match find_pattern(data, encoded) {
                Some(base) => base,
                None => {
                    return Err(DecodeError::NoBaseAddress);
                },
            }
        },
        DecodeOutcome::Failed { .. } => {
            return Err(DecodeError::NoBaseAddress);
        },
    };
    proof {
        let chosen = base_address_of(data@);
        assert(first_match_at(data@, first_slot_encoded(data@), chosen));
        lemma_first_match_unique(data@, first_slot_encoded(data@), chosen, base as int);
    }
    let t = total_advance(&outs);
    if base > usize::MAX - t {
        return Err(DecodeError::NoBaseAddress);
    }
    let lines = render_lines_at(&outs, base);
    Ok(lines)
}

} // verus!

