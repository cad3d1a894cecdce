//! Hexadecimal text rendering: single digits, two-digit byte pairs, and
//! zero-padded multi-digit numbers, with matching spec-level definitions.

use vstd::prelude::*;

verus! {

/// Relies on String::push: appends the character to the end of the string.
pub assume_specification[ String::push ](s: &mut String, ch: char)
    ensures
        final(s)@ == old(s)@.push(ch),
;

/// The character for one hexadecimal digit value, lowercase or uppercase.
pub open spec fn hex_digit(n: u8, upper: bool) -> char {
    if n == 0 {
        '0'
    } else if n == 1 {
        '1'
    } else if n == 2 {
        '2'
    } else if n == 3 {
        '3'
    } else if n == 4 {
        '4'
    } else if n == 5 {
        '5'
    } else if n == 6 {
        '6'
    } else if n == 7 {
        '7'
    } else if n == 8 {
        '8'
    } else if n == 9 {
        '9'
    } else if n == 10 {
        if upper { 'A' } else { 'a' }
    } else if n == 11 {
        if upper { 'B' } else { 'b' }
    } else if n == 12 {
        if upper { 'C' } else { 'c' }
    } else if n == 13 {
        if upper { 'D' } else { 'd' }
    } else if n == 14 {
        if upper { 'E' } else { 'e' }
    } else {
        if upper { 'F' } else { 'f' }
    }
}

/// The two hexadecimal digits of one byte, high nibble first.
pub open spec fn hex_pair(b: u8, upper: bool) -> Seq<char> {
    seq![hex_digit(b / 16, upper), hex_digit(b % 16, upper)]
}

/// Appends the two hexadecimal digits of `b` to `s`.
pub fn push_hex_pair(s: &mut String, b: u8, upper: bool)
    ensures
        final(s)@ == old(s)@ + hex_pair(b, upper),
{
    s.push(hex_digit_char(b / 16, upper));
    s.push(hex_digit_char(b % 16, upper));
    proof {
        assert(s@ =~= old(s)@ + hex_pair(b, upper));
    }
}

/// A run of `n` space characters.
pub open spec fn spaces(n: nat) -> Seq<char> {
    Seq::new(n, |i: int| ' ')
}

/// `s` padded on the right with spaces to at least `width` characters.
pub open spec fn pad_spaces(s: Seq<char>, width: nat) -> Seq<char> {
    if s.len() >= width {
        s
    } else {
        s + spaces((width - s.len()) as nat)
    }
}

/// Appends `count` spaces to `s`.
pub fn push_spaces(s: &mut String, count: usize)
    ensures
        final(s)@ == old(s)@ + spaces(count as nat),
{
    let mut i: usize = 0;
    while i < count
        invariant
            i <= count,
            s@ == old(s)@ + spaces(i as nat),
        decreases count - i,
    {
        s.push(' ');
        i = i + 1;
        proof {
            assert(s@ =~= old(s)@ + spaces(i as nat));
        }
    }
}

/// The hexadecimal digits of `n`, zero-padded on the left to at least
/// `width` digits; never fewer than one digit.
pub open spec fn hex_number(n: nat, width: nat, upper: bool) -> Seq<char>
    decreases n, width,
{
    if n < 16 && width <= 1 {
        seq![hex_digit(n as u8, upper)]
    } else {
        hex_number(n / 16, if width <= 1 { 0nat } else { (width - 1) as nat }, upper).push(
            hex_digit((n % 16) as u8, upper),
        )
    }
}

/// Appends the hexadecimal rendering of `n`, zero-padded to at least
/// `width` digits, to `s`.
pub fn push_hex_number(s: &mut String, n: usize, width: usize, upper: bool)
    ensures
        final(s)@ == old(s)@ + hex_number(n as nat, width as nat, upper),
    decreases n, width,
{
    if n < 16 && width <= 1 {
        s.push(hex_digit_char((n % 16) as u8, upper));
    } else {
        push_hex_number(s, n / 16, if width <= 1 { 0 } else { width - 1 }, upper);
        s.push(hex_digit_char((n % 16) as u8, upper));
    }
}

/// The hex pairs of a byte sequence, joined by single spaces, with no
/// trailing separator.
pub open spec fn hex_bytes(chunk: Seq<u8>, upper: bool) -> Seq<char>
    decreases chunk.len(),
{
    if chunk.len() == 0 {
        Seq::empty()
    } else if chunk.len() == 1 {
        hex_pair(chunk[0], upper)
    } else {
        hex_pair(chunk[0], upper) + seq![' '] + hex_bytes(chunk.skip(1), upper)
    }
}

/// A non-empty byte sequence renders to three characters per byte, less the
/// missing trailing separator.
pub proof fn lemma_hex_bytes_len(chunk: Seq<u8>, upper: bool)
    ensures
        chunk.len() == 0 ==> hex_bytes(chunk, upper).len() == 0,
        chunk.len() > 0 ==> hex_bytes(chunk, upper).len() == 3 * chunk.len() - 1,
    decreases chunk.len(),
{
    if chunk.len() > 1 {
        lemma_hex_bytes_len(chunk.skip(1), upper);
    }
}

/// Appending a byte appends its separator and pair to the rendering.
pub proof fn lemma_hex_bytes_snoc(chunk: Seq<u8>, b: u8, upper: bool)
    ensures
        chunk.len() == 0 ==> hex_bytes(chunk.push(b), upper) == hex_pair(b, upper),
        chunk.len() > 0 ==> hex_bytes(chunk.push(b), upper) == hex_bytes(chunk, upper)
            + seq![' '] + hex_pair(b, upper),
    decreases chunk.len(),
{
    if chunk.len() == 0 {
        assert(chunk.push(b) =~= seq![b]);
        assert(hex_bytes(seq![b], upper) =~= hex_pair(b, upper));
    } else {
        lemma_hex_bytes_snoc(chunk.skip(1), b, upper);
        assert(chunk.push(b).skip(1) =~= chunk.skip(1).push(b));
        assert(hex_bytes(chunk.push(b), upper) =~= hex_bytes(chunk, upper) + seq![' ']
            + hex_pair(b, upper));
    }
}

/// Appends the joined hex pairs of `data[start..end]` to `s`.
pub fn push_hex_bytes(s: &mut String, data: &Vec<u8>, start: usize, end: usize, upper: bool)
    requires
        start <= end <= data@.len(),
    ensures
        final(s)@ == old(s)@ + hex_bytes(data@.subrange(start as int, end as int), upper),
{
    let mut i: usize = start;
    while i < end
        invariant
            start <= i <= end <= data@.len(),
            s@ == old(s)@ + hex_bytes(data@.subrange(start as int, i as int), upper),
        decreases end - i,
    {
        if i > start {
            s.push(' ');
        }
        push_hex_pair(s, data[i], upper);
        proof {
            let prev = data@.subrange(start as int, i as int);
            lemma_hex_bytes_snoc(prev, data@[i as int], upper);
            assert(data@.subrange(start as int, i + 1) =~= prev.push(data@[i as int]));
            assert(s@ =~= old(s)@ + hex_bytes(data@.subrange(start as int, i + 1), upper));
        }
        i = i + 1;
    }
    proof {
        assert(data@.subrange(start as int, end as int) == data@.subrange(
            start as int,
            i as int,
        ));
    }
}

/// The display form of one byte: itself for printable ASCII, a dot otherwise.
pub open spec fn display_char(b: u8) -> char {
    if 32 <= b && b <= 126 {
        b as char
    } else {
        '.'
    }
}

/// The display forms of a byte sequence.
pub open spec fn text_chars(chunk: Seq<u8>) -> Seq<char> {
    chunk.map_values(|b: u8| display_char(b))
}

/// Appends the display forms of `data[start..end]` to `s`.
pub fn push_text_chars(s: &mut String, data: &Vec<u8>, start: usize, end: usize)
    requires
        start <= end <= data@.len(),
    ensures
        final(s)@ == old(s)@ + text_chars(data@.subrange(start as int, end as int)),
{
    let mut i: usize = start;
    while i < end
        invariant
            start <= i <= end <= data@.len(),
            s@ == old(s)@ + text_chars(data@.subrange(start as int, i as int)),
        decreases end - i,
    {
        let b = data[i];
        if 32 <= b && b <= 126 {
            s.push(b as char);
        } else {
            s.push('.');
        }
        i = i + 1;
        proof {
            assert(s@ =~= old(s)@ + text_chars(data@.subrange(start as int, i as int)));
        }
    }
}

/// Whether `c` is a hexadecimal digit character, of either case.
pub open spec fn is_hex_char(c: char) -> bool {
    exists |n: u8| n < 16 && (c == hex_digit(n, false) || c == hex_digit(n, true))
}

/// The digit value of a hexadecimal digit character, of either case.
pub open spec fn hex_char_val(c: char) -> u8 {
    choose |n: u8| n < 16 && (c == hex_digit(n, false) || c == hex_digit(n, true))
}

/// Hex digit characters decode back to the value they were made from.
pub proof fn lemma_hex_digit_round_trip(n: u8, upper: bool)
    requires
        n < 16,
    ensures
        is_hex_char(hex_digit(n, upper)),
        hex_char_val(hex_digit(n, upper)) == n,
{
    assert(is_hex_char(hex_digit(n, upper)));
    let m = hex_char_val(hex_digit(n, upper));
    assert(m < 16 && (hex_digit(n, upper) == hex_digit(m, false) || hex_digit(n, upper)
        == hex_digit(m, true)));
}

/// The byte values read off a rendered hex field: pairs of digit characters
/// three columns apart, up to the first column that does not start a pair.
pub open spec fn parse_hex_pairs(s: Seq<char>) -> Seq<u8>
    decreases s.len(),
{
    if s.len() >= 2 && is_hex_char(s[0]) && is_hex_char(s[1]) {
        seq![(hex_char_val(s[0]) * 16 + hex_char_val(s[1])) as u8] + if s.len() >= 3 {
            parse_hex_pairs(s.skip(3))
        } else {
            Seq::empty()
        }
    } else {
        Seq::empty()
    }
}

/// A space is not a hexadecimal digit character.
pub proof fn lemma_space_not_hex()
    ensures
        !is_hex_char(' '),
{
    assert forall |n: u8| n < 16 implies ' ' != hex_digit(n, false) && ' ' != hex_digit(
        n,
        true,
    ) by {}
}

/// Reading the byte pairs back out of a space-padded hex field returns
/// exactly the bytes it was rendered from.
pub proof fn lemma_parse_hex_round_trip(chunk: Seq<u8>, width: nat, upper: bool)
    requires
        chunk.len() == 0 || 3 * chunk.len() - 1 <= width,
    ensures
        parse_hex_pairs(pad_spaces(hex_bytes(chunk, upper), width)) == chunk,
    decreases chunk.len(),
{
    lemma_space_not_hex();
    let field = pad_spaces(hex_bytes(chunk, upper), width);
    if chunk.len() == 0 {
        if field.len() >= 2 {
            assert(field[0] == ' ');
        }
        assert(parse_hex_pairs(field) =~= chunk);
    } else {
        let b = chunk[0];
        lemma_hex_digit_round_trip(b / 16, upper);
        lemma_hex_digit_round_trip(b % 16, upper);
        lemma_hex_bytes_len(chunk, upper);
        assert(field[0] == hex_digit(b / 16, upper));
        assert(field[1] == hex_digit(b % 16, upper));
        assert((hex_char_val(field[0]) * 16 + hex_char_val(field[1])) as u8 == b);
        if chunk.len() == 1 {
            assert(is_hex_char(field[0]));
            assert(is_hex_char(field[1]));
            if width <= 2 {
                assert(field.len() == 2);
                assert(parse_hex_pairs(field) =~= chunk);
            } else {
                let tail = field.skip(3);
                assert(tail =~= spaces((width - 3) as nat));
                if tail.len() >= 2 {
                    assert(tail[0] == ' ');
                    assert(!is_hex_char(tail[0]));
                }
                assert(parse_hex_pairs(tail) =~= Seq::<u8>::empty());
                assert(field.len() >= 3);
                assert(parse_hex_pairs(field) =~= seq![b] + parse_hex_pairs(tail));
                assert(parse_hex_pairs(field) =~= chunk);
            }
        } else {
            let rest = chunk.skip(1);
            lemma_hex_bytes_len(rest, upper);
            lemma_parse_hex_round_trip(rest, (width - 3) as nat, upper);
            assert(field.skip(3) =~= pad_spaces(hex_bytes(rest, upper), (width - 3) as nat));
            assert(parse_hex_pairs(field) =~= seq![b] + parse_hex_pairs(field.skip(3)));
            assert(parse_hex_pairs(field) =~= chunk);
        }
    }
}

/// The character for the digit value `n`, which must be below sixteen.
pub fn hex_digit_char(n: u8, upper: bool) -> (c: char)
    requires
        n < 16,
    ensures
        c == hex_digit(n, upper),
{
    if n == 0 {
        '0'
    } else if n == 1 {
        '1'
    } else if n == 2 {
        '2'
    } else if n == 3 {
        '3'
    } else if n == 4 {
        '4'
    } else if n == 5 {
        '5'
    } else if n == 6 {
        '6'
    } else if n == 7 {
        '7'
    } else if n == 8 {
        '8'
    } else if n == 9 {
        '9'
    } else if n == 10 {
        if upper { 'A' } else { 'a' }
    } else if n == 11 {
        if upper { 'B' } else { 'b' }
    } else if n == 12 {
        if upper { 'C' } else { 'c' }
    } else if n == 13 {
        if upper { 'D' } else { 'd' }
    } else if n == 14 {
        if upper { 'E' } else { 'e' }
    } else {
        if upper { 'F' } else { 'f' }
    }
}

} // verus!
