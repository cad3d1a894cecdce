//! The chunk formatter: fixed-width hex/ASCII display lines, one per
//! fixed-size chunk of a byte buffer.

use vstd::prelude::*;
use vstd::string::StringExecFns;
use crate::hexstr::{
    hex_bytes, hex_number, pad_spaces, push_hex_bytes, push_hex_number, push_spaces,
    push_text_chars, spaces, text_chars, lemma_hex_bytes_len,
};

verus! {

/// One display row: the byte offset of its chunk, the chunk's hex pairs
/// padded to a fixed width, and its printable-ASCII form padded likewise.
pub struct DisplayLine {
    pub offset: usize,
    pub hex: String,
    pub text: String,
}

/// How many chunks of `cs` bytes cover `len` bytes: the rounded-up quotient.
pub open spec fn num_chunks(len: nat, cs: nat) -> nat
    recommends
        cs >= 1,
{
    (((len + cs - 1) as int) / (cs as int)) as nat
}

/// The bytes of chunk `i`: a full `cs` bytes, or whatever remains at the end.
pub open spec fn chunk_of(data: Seq<u8>, i: int, cs: nat) -> Seq<u8>
    recommends
        cs >= 1,
        0 <= i < num_chunks(data.len(), cs),
{
    if i * cs + cs <= data.len() {
        data.subrange(i * cs, i * cs + cs)
    } else {
        data.subrange(i * cs, data.len() as int)
    }
}

/// The hex column of chunk `i`: joined lowercase pairs, space-padded to
/// `3 * cs - 1` characters.
pub open spec fn chunk_hex(data: Seq<u8>, cs: nat, i: int) -> Seq<char> {
    pad_spaces(hex_bytes(chunk_of(data, i, cs), false), (3 * cs - 1) as nat)
}

/// The text column of chunk `i`: printable-ASCII forms, space-padded to
/// `cs` characters.
pub open spec fn chunk_text(data: Seq<u8>, cs: nat, i: int) -> Seq<char> {
    pad_spaces(text_chars(chunk_of(data, i, cs)), cs)
}

/// What one produced line must hold for chunk `i`.
pub open spec fn chunk_line_matches(data: Seq<u8>, cs: nat, i: int, line: DisplayLine) -> bool {
    &&& line.offset == i * cs
    &&& line.hex@ == chunk_hex(data, cs, i)
    &&& line.text@ == chunk_text(data, cs, i)
}

/// A chunk count is settled by bracketing the length between two multiples.
proof fn lemma_num_chunks_of_last(len: nat, cs: nat, i: nat)
    requires
        cs >= 1,
        i * cs < len <= i * cs + cs,
    ensures
        num_chunks(len, cs) == i + 1,
{
    assert((((len + cs - 1) as int) / (cs as int)) == i + 1) by (nonlinear_arith)
        requires
            cs >= 1,
            i * cs < len <= i * cs + cs,
    ;
}

/// An empty buffer needs no chunks.
proof fn lemma_num_chunks_zero(cs: nat)
    requires
        cs >= 1,
    ensures
        num_chunks(0, cs) == 0,
{
    assert((((cs - 1) as int) / (cs as int)) == 0) by (nonlinear_arith)
        requires
            cs >= 1,
    ;
}

/// Splits a byte buffer into consecutive chunks of `chunk_size` bytes (the
/// last possibly shorter) and renders one fixed-width display line for each:
/// the chunk's byte offset, its bytes as space-separated lowercase hex pairs
/// padded to `chunk_size * 3 - 1` characters, and its printable-ASCII text
/// padded to `chunk_size` characters. Any buffer, including the empty one,
/// yields exactly the rounded-up number of chunks, deterministically.
pub fn format_chunks(data: &Vec<u8>, chunk_size: usize) -> (r: Vec<DisplayLine>)
    requires
        1 <= chunk_size,
        3 * (chunk_size as int) <= usize::MAX,
    ensures
        r@.len() == num_chunks(data@.len(), chunk_size as nat),
        forall|i: int|
            0 <= i < r@.len() ==> chunk_line_matches(
                data@,
                chunk_size as nat,
                i,
                #[trigger] r@[i],
            ),
        forall|i: int| 0 <= i < r@.len() ==> (#[trigger] r@[i]).hex@.len() == 3 * chunk_size - 1,
        forall|i: int| 0 <= i < r@.len() ==> (#[trigger] r@[i]).text@.len() == chunk_size,
{
    let len = data.len();
    let mut r: Vec<DisplayLine> = Vec::new();
    let mut start: usize = 0;
    proof {
        if len == 0 {
            lemma_num_chunks_zero(chunk_size as nat);
        }
        assert((r@.len() as int) * (chunk_size as int) == 0) by (nonlinear_arith)
            requires
                r@.len() == 0,
        ;
    }
    while start < len
        invariant
            1 <= chunk_size,
            3 * (chunk_size as int) <= usize::MAX,
            len == data@.len(),
            start <= len,
            start < len ==> start as int == (r@.len() as int) * (chunk_size as int),
            start == len ==> r@.len() == num_chunks(len as nat, chunk_size as nat),
            forall|i: int|
                0 <= i < r@.len() ==> chunk_line_matches(
                    data@,
                    chunk_size as nat,
                    i,
                    #[trigger] r@[i],
                ),
            forall|i: int|
                0 <= i < r@.len() ==> (#[trigger] r@[i]).hex@.len() == 3 * chunk_size - 1,
            forall|i: int| 0 <= i < r@.len() ==> (#[trigger] r@[i]).text@.len() == chunk_size,
        decreases len - start,
    {
        let ghost i = r@.len() as int;
        proof {
            assert((i + 1) * (chunk_size as int) == i * (chunk_size as int) + chunk_size as int)
                by (nonlinear_arith);
        }
        let end = if len - start > chunk_size {
            start + chunk_size
        } else {
            len
        };
        let k = end - start;
        let mut hex = String::new();
        push_hex_bytes(&mut hex, data, start, end, false);
        push_spaces(&mut hex, 3 * (chunk_size - k));
        let mut text = String::new();
        push_text_chars(&mut text, data, start, end);
        push_spaces(&mut text, chunk_size - k);
        proof {
            let chunk = data@.subrange(start as int, end as int);
            assert(i * (chunk_size as nat) == start);
            assert(chunk_of(data@, i, chunk_size as nat) =~= chunk);
            lemma_hex_bytes_len(chunk, false);
            assert(hex@ =~= chunk_hex(data@, chunk_size as nat, i));
            assert(text@ =~= chunk_text(data@, chunk_size as nat, i));
        }
        r.push(DisplayLine { offset: start, hex, text });
        proof {
            if end == len {
                lemma_num_chunks_of_last(len as nat, chunk_size as nat, i as nat);
            }
        }
        start = end;
    }
    r
}

/// The chunk count grows by one when one full chunk is cut off the front.
proof fn lemma_num_chunks_step(len: nat, cs: nat)
    requires
        cs >= 1,
        len > cs,
    ensures
        num_chunks(len, cs) == 1 + num_chunks((len - cs) as nat, cs),
{
    assert((((len + cs - 1) as int) / (cs as int)) == 1 + ((((len - cs) + cs - 1) as int) / (
    cs as int))) by (nonlinear_arith)
        requires
            cs >= 1,
            len > cs,
    ;
}

/// Every chunk index points inside the buffer.
proof fn lemma_chunk_index_in_range(len: nat, cs: nat, i: int)
    requires
        cs >= 1,
        0 <= i < num_chunks(len, cs),
    ensures
        i * cs < len,
{
    assert(i * cs < len) by (nonlinear_arith)
        requires
            cs >= 1,
            0 <= i < (((len + cs - 1) as int) / (cs as int)),
    ;
}

/// Cutting one chunk off the front shifts the remaining chunks down by one.
proof fn lemma_chunk_of_skip(data: Seq<u8>, cs: nat, i: int)
    requires
        cs >= 1,
        cs < data.len(),
        0 <= i < num_chunks((data.len() - cs) as nat, cs),
    ensures
        chunk_of(data.skip(cs as int), i, cs) == chunk_of(data, i + 1, cs),
{
    lemma_chunk_index_in_range((data.len() - cs) as nat, cs, i);
    assert((i + 1) * cs == i * cs + cs) by (nonlinear_arith);
    assert(chunk_of(data.skip(cs as int), i, cs) =~= chunk_of(data, i + 1, cs));
}

/// The chunks of a buffer, concatenated in order, are the buffer itself.
pub proof fn lemma_chunks_cover(data: Seq<u8>, cs: nat)
    requires
        cs >= 1,
    ensures
        Seq::new(num_chunks(data.len(), cs), |i: int| chunk_of(data, i, cs)).flatten() == data,
    decreases data.len(),
{
    let n = num_chunks(data.len(), cs);
    let cseq = Seq::new(n, |i: int| chunk_of(data, i, cs));
    if data.len() == 0 {
        lemma_num_chunks_zero(cs);
        assert(cseq.flatten() =~= data);
    } else if data.len() <= cs {
        assert(0 * cs == 0) by (nonlinear_arith);
        lemma_num_chunks_of_last(data.len(), cs, 0);
        assert(cseq.flatten() == cseq.first() + cseq.drop_first().flatten());
        assert(cseq.drop_first() =~= Seq::<Seq<u8>>::empty());
        assert(cseq.first() =~= data);
        assert(cseq.flatten() =~= data);
    } else {
        let rest = data.skip(cs as int);
        lemma_chunks_cover(rest, cs);
        let m = num_chunks(rest.len(), cs);
        lemma_num_chunks_step(data.len(), cs);
        let rseq = Seq::new(m, |i: int| chunk_of(rest, i, cs));
        assert forall|i: int| 0 <= i < m implies rseq[i] == cseq[i + 1] by {
            lemma_chunk_of_skip(data, cs, i);
        }
        assert(0 * cs == 0) by (nonlinear_arith);
        assert(cseq.flatten() == cseq.first() + cseq.drop_first().flatten());
        assert(cseq.drop_first() =~= rseq);
        assert(cseq.first() =~= data.take(cs as int));
        assert(cseq.flatten() =~= data);
    }
}

/// Concatenating the bytes read back out of every line's hex column, in
/// order, reproduces the input buffer exactly: no byte is lost or invented
/// by the rendering, and the space padding never parses as data.
pub proof fn lemma_lines_reproduce_data(data: Seq<u8>, cs: nat)
    requires
        cs >= 1,
    ensures
        Seq::new(
            num_chunks(data.len(), cs),
            |i: int| crate::hexstr::parse_hex_pairs(chunk_hex(data, cs, i)),
        ).flatten() == data,
{
    let n = num_chunks(data.len(), cs);
    let parsed = Seq::new(n, |i: int| crate::hexstr::parse_hex_pairs(chunk_hex(data, cs, i)));
    let cseq = Seq::new(n, |i: int| chunk_of(data, i, cs));
    assert forall|i: int| 0 <= i < n implies parsed[i] == cseq[i] by {
        lemma_chunk_index_in_range(data.len(), cs, i);
        let chunk = chunk_of(data, i, cs);
        assert(chunk.len() >= 1 && chunk.len() <= cs);
        crate::hexstr::lemma_parse_hex_round_trip(chunk, (3 * cs - 1) as nat, false);
    }
    assert(parsed =~= cseq);
    lemma_chunks_cover(data, cs);
}

/// The chunk formatter is a pure function of its inputs: any two line
/// sequences that meet its contract for the same buffer and chunk size are
/// identical, field for field.
pub proof fn lemma_format_chunks_deterministic(
    data: Seq<u8>,
    cs: nat,
    a: Seq<DisplayLine>,
    b: Seq<DisplayLine>,
)
    requires
        a.len() == num_chunks(data.len(), cs),
        forall|i: int| 0 <= i < a.len() ==> chunk_line_matches(data, cs, i, #[trigger] a[i]),
        b.len() == num_chunks(data.len(), cs),
        forall|i: int| 0 <= i < b.len() ==> chunk_line_matches(data, cs, i, #[trigger] b[i]),
    ensures
        a.len() == b.len(),
        forall|i: int|
            0 <= i < a.len() ==> (#[trigger] a[i]).offset == b[i].offset && a[i].hex@ == b[i].hex@
                && a[i].text@ == b[i].text@,
{
}

/// Offsets of consecutive chunk lines start at zero and rise by exactly the
/// chunk size, so they are strictly increasing.
pub proof fn lemma_offsets_increase(data: Seq<u8>, cs: nat, lines: Seq<DisplayLine>)
    requires
        cs >= 1,
        forall|i: int| 0 <= i < lines.len() ==> chunk_line_matches(data, cs, i, #[trigger] lines[i]),
    ensures
        lines.len() > 0 ==> lines[0].offset == 0,
        forall|i: int|
            0 <= i && i + 1 < lines.len() ==> (#[trigger] lines[i + 1]).offset == lines[i].offset
                + cs && lines[i].offset < lines[i + 1].offset,
{
    if lines.len() > 0 {
        assert(0 * cs == 0) by (nonlinear_arith);
    }
    assert forall|i: int| 0 <= i && i + 1 < lines.len() implies (#[trigger] lines[i + 1]).offset
        == lines[i].offset + cs && lines[i].offset < lines[i + 1].offset by {
        assert((i + 1) * cs == i * cs + cs) by (nonlinear_arith);
    }
}

/// One unified text row: the chunk offset as at least six lowercase hex
/// digits, then the hex column, then the text column, space-separated.
pub open spec fn chunk_line(data: Seq<u8>, cs: nat, i: int) -> Seq<char> {
    hex_number((i * cs) as nat, 6, false) + seq![' '] + chunk_hex(data, cs, i) + seq![' ']
        + chunk_text(data, cs, i)
}

/// Renders the chunk lines of `format_chunks` as single strings, each
/// prefixed with the chunk's offset in six-digit lowercase hex.
pub fn parse_data(data: &Vec<u8>, chunk_size: usize) -> (r: Vec<String>)
    requires
        1 <= chunk_size,
        3 * (chunk_size as int) <= usize::MAX,
    ensures
        r@.len() == num_chunks(data@.len(), chunk_size as nat),
        forall|i: int|
            0 <= i < r@.len() ==> (#[trigger] r@[i])@ == chunk_line(data@, chunk_size as nat, i),
{
    let lines = format_chunks(data, chunk_size);
    let mut r: Vec<String> = Vec::new();
    let mut j: usize = 0;
    while j < lines.len()
        invariant
            j <= lines@.len(),
            lines@.len() == num_chunks(data@.len(), chunk_size as nat),
            forall|i: int|
                0 <= i < lines@.len() ==> chunk_line_matches(
                    data@,
                    chunk_size as nat,
                    i,
                    #[trigger] lines@[i],
                ),
            r@.len() == j,
            forall|i: int|
                0 <= i < j ==> (#[trigger] r@[i])@ == chunk_line(data@, chunk_size as nat, i),
        decreases lines@.len() - j,
    {
        let mut s = String::new();
        push_hex_number(&mut s, lines[j].offset, 6, false);
        s.push(' ');
        s.append(lines[j].hex.as_str());
        s.push(' ');
        s.append(lines[j].text.as_str());
        proof {
            assert(s@ =~= chunk_line(data@, chunk_size as nat, j as int));
        }
        r.push(s);
        j = j + 1;
    }
    r
}

/// Renders a byte offset as `0x` followed by at least eight lowercase hex
/// digits.
pub fn format_byte_offset(off: usize) -> (r: String)
    ensures
        r@ == seq!['0', 'x'] + hex_number(off as nat, 8, false),
{
    let mut s = String::new();
    s.push('0');
    s.push('x');
    push_hex_number(&mut s, off, 8, false);
    proof {
        assert(s@ =~= seq!['0', 'x'] + hex_number(off as nat, 8, false));
    }
    s
}

} // verus!

