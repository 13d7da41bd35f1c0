use vstd::prelude::*;
use vstd::utf8::*;

verus! {

broadcast use vstd::utf8::group_utf8_lib;

/// Why a frame could not be decoded.
#[derive(Debug, Clone, Copy, PartialEq, Eq, Structural)]
pub enum DecodeError {
    /// A fixed-size field runs past the end of the frame.
    UnexpectedEnd,
    /// A string has no `0x00` terminator before the end of the frame.
    UnterminatedString,
    /// A string's bytes are not valid UTF-8.
    InvalidUtf8,
    /// A day byte is not one of 0 to 4.
    InvalidDay,
    /// A request tag byte is not one of 0 to 3.
    UnknownTag,
}

/// A string on the wire: its UTF-8 bytes followed by one `0x00`.
pub open spec fn string_encoding(s: Seq<char>) -> Seq<u8> {
    encode_utf8(s).push(0)
}

/// A string that can travel on the wire: none of its bytes is `0x00`.
pub open spec fn wire_string(s: Seq<char>) -> bool {
    forall|i: int| 0 <= i < encode_utf8(s).len() ==> #[trigger] encode_utf8(s)[i] != 0
}

/// The index of the first `0x00` byte of `b` at or after `i`.
pub open spec fn terminator_from(b: Seq<u8>, i: int) -> Option<int>
    decreases b.len() - i,
{
    if i < 0 || i >= b.len() {
        None
    } else if b[i] == 0 {
        Some(i)
    } else {
        terminator_from(b, i + 1)
    }
}

/// Decoding a string at `p`: the text and the position past its terminator.
pub open spec fn parse_string(b: Seq<u8>, p: int) -> Result<(Seq<char>, int), DecodeError> {
    match terminator_from(b, p) {
        None => Err(DecodeError::UnterminatedString),
        Some(j) => {
            let raw = b.subrange(p, j);
            if valid_utf8(raw) {
                Ok((decode_utf8(raw), j + 1))
            } else {
                Err(DecodeError::InvalidUtf8)
            }
        },
    }
}

/// Decoding one byte at `p`.
pub open spec fn parse_byte(b: Seq<u8>, p: int) -> Result<(u8, int), DecodeError> {
    if 0 <= p < b.len() {
        Ok((b[p], p + 1))
    } else {
        Err(DecodeError::UnexpectedEnd)
    }
}

/// Relies on String::from_utf8: it accepts exactly the valid UTF-8 sequences and keeps
/// the characters they encode.
#[verifier::external_body]
fn string_from_utf8(bytes: Vec<u8>) -> (r: Option<String>)
    ensures
        match r {
            Some(s) => valid_utf8(bytes@) && s@ == decode_utf8(bytes@),
            None => !valid_utf8(bytes@),
        },
{
    String::from_utf8(bytes).ok()
}

/// Appends the wire form of `s` to `out`.
pub fn write_string(s: &String, out: &mut Vec<u8>)
    ensures
        final(out)@ == old(out)@ + string_encoding(s@),
{
    let bytes = s.as_str().as_bytes();
    let ghost start = out@;
    let mut i: usize = 0;
    while i < bytes.len()
        invariant
            i <= bytes@.len(),
            bytes@ == encode_utf8(s@),
            out@ == start + bytes@.subrange(0, i as int),
        decreases bytes.len() - i,
    {
        out.push(bytes[i]);
        i = i + 1;
        assert(bytes@.subrange(0, i as int) =~= bytes@.subrange(0, i - 1) .push(bytes@[i - 1]));
    }
    out.push(0);
    assert(bytes@.subrange(0, i as int) =~= bytes@);
    assert(final(out)@ =~= old(out)@ + string_encoding(s@)) by {
        assert(out@ =~= start + encode_utf8(s@).push(0));
    }
}

/// Reads a `0x00`-terminated UTF-8 string starting at `*pos`; on success `*pos` moves
/// past the terminator, on failure it stays.
pub fn read_string(input_stream: &[u8], pos: &mut usize) -> (r: Result<String, DecodeError>)
    ensures
        match r {
            Ok(s) => parse_string(input_stream@, *old(pos) as int) == Ok::<(Seq<char>, int), DecodeError>((s@, *final(pos) as int))
                && *final(pos) <= input_stream@.len(),
            Err(e) => parse_string(input_stream@, *old(pos) as int) == Err::<(Seq<char>, int), DecodeError>(e)
                && *final(pos) == *old(pos),
        },
{
    let start = *pos;
    if start >= input_stream.len() {
        return Err(DecodeError::UnterminatedString);
    }
    let mut bytes: Vec<u8> = Vec::new();
    let mut i: usize = start;
    while i < input_stream.len() && input_stream[i] != 0
        invariant
            start <= i <= input_stream@.len(),
            bytes@ == input_stream@.subrange(start as int, i as int),
            terminator_from(input_stream@, start as int) == terminator_from(input_stream@, i as int),
        decreases input_stream.len() - i,
    {
        bytes.push(input_stream[i]);
        i = i + 1;
        assert(bytes@ =~= input_stream@.subrange(start as int, i as int));
    }
    if i == input_stream.len() {
        return Err(DecodeError::UnterminatedString);
    }
    match string_from_utf8(bytes) {
        Some(s) => {
            *pos = i + 1;
            Ok(s)
        },
        None => Err(DecodeError::InvalidUtf8),
    }
}

/// Reads one byte at `*pos`; on success `*pos` moves past it, on failure it stays.
pub fn read_byte(input_stream: &[u8], pos: &mut usize) -> (r: Result<u8, DecodeError>)
    ensures
        match r {
            Ok(x) => parse_byte(input_stream@, *old(pos) as int) == Ok::<(u8, int), DecodeError>((x, *final(pos) as int)),
            Err(e) => parse_byte(input_stream@, *old(pos) as int) == Err::<(u8, int), DecodeError>(e)
                && *final(pos) == *old(pos),
        },
{
    if *pos < input_stream.len() {
        let x = input_stream[*pos];
        *pos = *pos + 1;
        Ok(x)
    } else {
        Err(DecodeError::UnexpectedEnd)
    }
}

proof fn lemma_terminator_at(b: Seq<u8>, i: int, j: int)
    requires
        0 <= i <= j < b.len(),
        b[j] == 0,
        forall|k: int| i <= k < j ==> b[k] != 0,
    ensures
        terminator_from(b, i) == Some(j),
    decreases j - i,
{
    if i < j {
        lemma_terminator_at(b, i + 1, j);
    }
}

/// A buffer that holds the wire form of a string at `p` decodes to that string there.
pub proof fn lemma_string_decodes(b: Seq<u8>, p: int, s: Seq<char>)
    requires
        wire_string(s),
        0 <= p,
        p + string_encoding(s).len() <= b.len(),
        b.subrange(p, p + string_encoding(s).len()) == string_encoding(s),
    ensures
        parse_string(b, p) == Ok::<(Seq<char>, int), DecodeError>((s, p + string_encoding(s).len())),
{
    let e = encode_utf8(s);
    let j = p + e.len();
    assert forall|k: int| p <= k < j implies b[k] != 0 by {
        assert(b.subrange(p, p + string_encoding(s).len())[k - p] == e[k - p]);
    }
    assert(b.subrange(p, p + string_encoding(s).len())[e.len() as int] == 0);
    lemma_terminator_at(b, p, j);
    assert(b.subrange(p, j) =~= e);
}

} // verus!
