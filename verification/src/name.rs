use crate::error::DecodeError;
use vstd::prelude::*;

verus! {

/// How many compression-pointer redirections a single name decode may
/// follow before the chase is rejected as a loop.
pub const MAX_POINTER_DEPTH: u32 = 128;

/// Relies on `String::push` from std: it appends exactly the given
/// character to the end of the string.
pub assume_specification[ String::push ](s: &mut String, c: char)
    ensures
        final(s)@ == old(s)@.push(c),
;

/// The characters denoted by a sequence of single-byte codes.
pub open spec fn bytes_to_chars(bs: Seq<u8>) -> Seq<char> {
    bs.map_values(|b: u8| b as char)
}

/// The single-byte codes of a sequence of characters (exact only for
/// characters whose code point fits one byte).
pub open spec fn chars_to_bytes(cs: Seq<char>) -> Seq<u8> {
    cs.map_values(|c: char| c as u8)
}

/// The backward byte offset held in a 2-byte compression pointer: the
/// low 6 bits of the first octet, then all 8 bits of the second.
pub open spec fn pointer_target(b0: u8, b1: u8) -> int {
    ((((b0 & 0x3F) as u16) << 8) | (b1 as u16)) as int
}

/// How many bytes of `data` lie at or after `pos` (zero when `pos` is
/// outside the buffer); a termination measure for name parsing.
pub open spec fn remaining(data: Seq<u8>, pos: int) -> int {
    if 0 <= pos && pos <= data.len() {
        data.len() - pos
    } else {
        0
    }
}

/// The name read from `data` at `pos` with `depth` pointer redirections
/// still allowed, and the offset just past what the cursor consumed.
///
/// One length/pointer octet is read at a time. A zero octet ends the
/// name. An octet with both high bits set, together with the next octet,
/// is a pointer: the name continues at the target offset, and the cursor
/// advances exactly 2 bytes past the pointer, ending this name. Any
/// other octet is a label length; that many bytes form the next label.
/// Labels are joined with `'.'`. Reads outside the buffer fail with
/// `MalformedName`; a pointer chase longer than `depth` fails with
/// `CompressionLoop`.
pub open spec fn parse_name(data: Seq<u8>, pos: int, depth: int) -> Result<
    (Seq<char>, int),
    DecodeError,
>
    decreases depth, remaining(data, pos),
{
    if pos < 0 || pos >= data.len() {
        Err(DecodeError::MalformedName)
    } else if data[pos] == 0 {
        Ok((Seq::empty(), pos + 1))
    } else if data[pos] & 0xC0 == 0xC0 {
        if pos + 1 >= data.len() {
            Err(DecodeError::MalformedName)
        } else if depth <= 0 {
            Err(DecodeError::CompressionLoop)
        } else {
            match parse_name(data, pointer_target(data[pos], data[pos + 1]), depth - 1) {
                Ok(sub) => Ok((sub.0, pos + 2)),
                Err(e) => Err(e),
            }
        }
    } else {
        let len = data[pos] as int;
        if pos + 1 + len > data.len() {
            Err(DecodeError::MalformedName)
        } else {
            match parse_name(data, pos + 1 + len, depth) {
                Ok(rest) => {
                    let label = bytes_to_chars(data.subrange(pos + 1, pos + 1 + len));
                    if rest.0.len() == 0 {
                        Ok((label, rest.1))
                    } else {
                        Ok((label + seq!['.'] + rest.0, rest.1))
                    }
                },
                Err(e) => Err(e),
            }
        }
    }
}

/// The decoded string and next offset agree with what `parse_name` says.
pub open spec fn decode_matches(
    r: Result<(String, usize), DecodeError>,
    parsed: Result<(Seq<char>, int), DecodeError>,
) -> bool {
    match (r, parsed) {
        (Ok(d), Ok(p)) => d.0@ == p.0 && d.1 as int == p.1,
        (Err(e), Err(pe)) => e == pe,
        _ => false,
    }
}

fn decode_name_at(data: &[u8], pos: usize, depth: u32) -> (r: Result<
    (String, usize),
    DecodeError,
>)
    ensures
        decode_matches(r, parse_name(data@, pos as int, depth as int)),
    decreases depth, remaining(data@, pos as int),
{
    if pos >= data.len() {
        return Err(DecodeError::MalformedName);
    }
    let b = data[pos];
    if b == 0 {
        return Ok((String::new(), pos + 1));
    }
    if b & 0xC0 == 0xC0 {
        if pos + 1 >= data.len() {
            return Err(DecodeError::MalformedName);
        }
        if depth == 0 {
            return Err(DecodeError::CompressionLoop);
        }
        let target = (((b & 0x3F) as u16) << 8) | (data[pos + 1] as u16);
        match decode_name_at(data, target as usize, depth - 1) {
            Ok(sub) => Ok((sub.0, pos + 2)),
            Err(e) => Err(e),
        }
    } else {
        let len = b as usize;
        if len > data.len() - pos - 1 {
            return Err(DecodeError::MalformedName);
        }
        let mut label = String::new();
        let mut i: usize = 0;
        while i < len
            invariant
                i <= len,
                pos + 1 + len <= data@.len(),
                data@.len() <= usize::MAX,
                label@ == bytes_to_chars(data@.subrange(pos + 1, pos + 1 + i)),
            decreases len - i,
        {
            label.push(data[pos + 1 + i] as char);
            proof {
                assert(data@.subrange(pos + 1, pos + 1 + i + 1) =~= data@.subrange(
                    pos + 1,
                    pos + 1 + i,
                ).push(data@[pos + 1 + i]));
                assert(label@ =~= bytes_to_chars(data@.subrange(pos + 1, pos + 1 + i + 1)));
            }
            i = i + 1;
        }
        match decode_name_at(data, pos + 1 + len, depth) {
            Ok(rest) => {
                let (rest_name, next) = rest;
                if rest_name.as_str().is_empty() {
                    Ok((label, next))
                } else {
                    label.push('.');
                    label.append(rest_name.as_str());
                    proof {
                        let lbl = bytes_to_chars(
                            data@.subrange(pos + 1, pos + 1 + len),
                        );
                        assert(label@ =~= lbl + seq!['.'] + rest_name@);
                    }
                    Ok((label, next))
                }
            },
            Err(e) => Err(e),
        }
    }
}

/// Decode a (possibly pointer-compressed) domain name from `data`
/// starting at `start_pos`: the dot-joined labels and the offset just
/// past what the cursor consumed. Out-of-bounds reads fail with
/// `MalformedName`; cyclic or overlong pointer chains fail with
/// `CompressionLoop`.
pub fn labels_from_bytes(data: &[u8], start_pos: usize) -> (r: Result<
    (String, usize),
    DecodeError,
>)
    ensures
        decode_matches(r, parse_name(data@, start_pos as int, MAX_POINTER_DEPTH as int)),
{
    decode_name_at(data, start_pos, MAX_POINTER_DEPTH)
}

/// The index of the first `'.'` in `name`, or `name.len()` when there
/// is none: where the first dot-separated label ends.
pub open spec fn first_label_end(name: Seq<char>) -> int
    decreases name.len(),
{
    if name.len() == 0 {
        0
    } else if name[0] == '.' {
        0
    } else {
        1 + first_label_end(name.skip(1))
    }
}

/// `first_label_end` lies within the name, everything before it differs
/// from `'.'`, and the character at it (if any) is `'.'`.
pub proof fn lemma_first_label_end_bounds(name: Seq<char>)
    ensures
        0 <= first_label_end(name) <= name.len(),
        forall|i: int| 0 <= i < first_label_end(name) ==> name[i] != '.',
        first_label_end(name) < name.len() ==> name[first_label_end(name)] == '.',
    decreases name.len(),
{
    if name.len() == 0 {
    } else if name[0] == '.' {
    } else {
        lemma_first_label_end_bounds(name.skip(1));
        let l = first_label_end(name);
        assert forall|i: int| 0 <= i < l implies name[i] != '.' by {
            if i > 0 {
                assert(name.skip(1)[i - 1] != '.');
            }
        }
        if l < name.len() {
            assert(name.skip(1)[l - 1] == name[l]);
        }
    }
}

/// The three properties of `lemma_first_label_end_bounds` determine
/// `first_label_end` uniquely.
proof fn lemma_first_label_end_char(name: Seq<char>, l: int)
    requires
        0 <= l <= name.len(),
        forall|i: int| 0 <= i < l ==> name[i] != '.',
        l < name.len() ==> name[l] == '.',
    ensures
        first_label_end(name) == l,
    decreases name.len(),
{
    if name.len() == 0 {
    } else if name[0] == '.' {
        assert(l == 0);
    } else {
        assert(l >= 1);
        assert forall|i: int| 0 <= i < l - 1 implies name.skip(1)[i] != '.' by {
            assert(name[i + 1] != '.');
        }
        if l - 1 < name.len() - 1 {
            assert(name.skip(1)[l - 1] == name[l]);
        }
        lemma_first_label_end_char(name.skip(1), l - 1);
    }
}

/// A name the codec can put on the wire: either the empty name (zero
/// labels) or dot-separated labels of 1 to 63 characters each, every
/// character with a single-byte code point, and no trailing dot.
pub open spec fn valid_name(name: Seq<char>) -> bool
    decreases name.len(),
    via valid_name_decreases
{
    if name.len() == 0 {
        true
    } else {
        let l = first_label_end(name);
        &&& 1 <= l <= 63
        &&& (forall|i: int| 0 <= i < l ==> (#[trigger] name[i] as u32) < 256)
        &&& (l == name.len() || (l + 1 < name.len() && valid_name(
            name.subrange(l + 1, name.len() as int),
        )))
    }
}

#[via_fn]
proof fn valid_name_decreases(name: Seq<char>) {
    lemma_first_label_end_bounds(name);
}

/// The wire form of a name: each label emitted as a length octet
/// followed by its bytes, terminated by a zero octet. No compression
/// pointers are emitted.
pub open spec fn name_wire(name: Seq<char>) -> Seq<u8>
    decreases name.len(),
    via name_wire_decreases
{
    if name.len() == 0 {
        seq![0u8]
    } else {
        let l = first_label_end(name);
        if l == name.len() {
            seq![l as u8] + chars_to_bytes(name) + seq![0u8]
        } else {
            seq![l as u8] + chars_to_bytes(name.subrange(0, l)) + name_wire(
                name.subrange(l + 1, name.len() as int),
            )
        }
    }
}

#[via_fn]
proof fn name_wire_decreases(name: Seq<char>) {
    lemma_first_label_end_bounds(name);
}

/// A character with a single-byte code survives the round trip through
/// its byte form.
proof fn lemma_char_byte_round(c: char)
    requires
        (c as u32) < 256,
    ensures
        ((c as u8) as char) == c,
{
    vstd::utf8::char_u32_cast(c, c as u32);
}

/// Mapping characters to bytes and back is the identity on sequences of
/// single-byte characters.
proof fn lemma_chars_bytes_round(cs: Seq<char>)
    requires
        forall|i: int| 0 <= i < cs.len() ==> (#[trigger] cs[i] as u32) < 256,
    ensures
        bytes_to_chars(chars_to_bytes(cs)) == cs,
{
    assert forall|i: int| 0 <= i < cs.len() implies bytes_to_chars(chars_to_bytes(cs))[i]
        == cs[i] by {
        lemma_char_byte_round(cs[i]);
    }
    assert(bytes_to_chars(chars_to_bytes(cs)) =~= cs);
}

/// Encode a domain name as length-prefixed labels ending in a zero
/// octet, exactly as `name_wire` describes.
pub fn encode_name(name: &str) -> (r: Vec<u8>)
    requires
        valid_name(name@),
    ensures
        r@ == name_wire(name@),
    decreases name@.len(),
{
    let n = name.unicode_len();
    let mut out: Vec<u8> = Vec::new();
    if n == 0 {
        out.push(0u8);
        proof {
            assert(out@ =~= name_wire(name@));
        }
        return out;
    }
    let mut l: usize = 0;
    while l < n && name.get_char(l) != '.'
        invariant
            l <= n,
            n == name@.len(),
            forall|j: int| 0 <= j < l ==> name@[j] != '.',
        decreases n - l,
    {
        l = l + 1;
    }
    proof {
        lemma_first_label_end_char(name@, l as int);
    }
    out.push(l as u8);
    let mut j: usize = 0;
    while j < l
        invariant
            j <= l,
            l <= n,
            n == name@.len(),
            first_label_end(name@) == l,
            valid_name(name@),
            out@ == seq![l as u8] + chars_to_bytes(name@.subrange(0, j as int)),
        decreases l - j,
    {
        let c = name.get_char(j);
        out.push(c as u8);
        proof {
            assert(name@.subrange(0, j + 1) =~= name@.subrange(0, j as int).push(name@[j as int]));
            assert(out@ =~= seq![l as u8] + chars_to_bytes(name@.subrange(0, j + 1)));
        }
        j = j + 1;
    }
    if l == n {
        out.push(0u8);
        proof {
            assert(name@.subrange(0, l as int) =~= name@);
            assert(out@ =~= name_wire(name@));
        }
        out
    } else {
        let rest = name.substring_char(l + 1, n);
        let mut tail = encode_name(rest);
        out.append(&mut tail);
        proof {
            assert(out@ =~= name_wire(name@));
        }
        out
    }
}

/// Decide `valid_name`: whether the codec can put this name on the
/// wire as dot-separated labels.
pub fn is_valid_name(name: &str) -> (r: bool)
    ensures
        r == valid_name(name@),
    decreases name@.len(),
{
    let n = name.unicode_len();
    if n == 0 {
        return true;
    }
    let mut l: usize = 0;
    while l < n && name.get_char(l) != '.'
        invariant
            l <= n,
            n == name@.len(),
            forall|j: int| 0 <= j < l ==> name@[j] != '.',
        decreases n - l,
    {
        l = l + 1;
    }
    proof {
        lemma_first_label_end_char(name@, l as int);
    }
    if l < 1 || l > 63 {
        return false;
    }
    let mut j: usize = 0;
    while j < l
        invariant
            j <= l,
            1 <= l <= 63,
            l <= n,
            n == name@.len(),
            first_label_end(name@) == l,
            forall|k: int| 0 <= k < j ==> (#[trigger] name@[k] as u32) < 256,
        decreases l - j,
    {
        let c = name.get_char(j);
        if (c as u32) >= 256 {
            proof {
                assert(!((name@[j as int] as u32) < 256));
            }
            return false;
        }
        j = j + 1;
    }
    if l == n {
        return true;
    }
    if l + 1 == n {
        return false;
    }
    let rest = name.substring_char(l + 1, n);
    is_valid_name(rest)
}

/// Wherever the exact bytes of `name_wire(name)` lie in a buffer,
/// parsing at their start yields `name` back and stops exactly past
/// them, whatever else the buffer holds: an encoded name contains no
/// pointers, so the parse never leaves those bytes.
pub proof fn lemma_parse_embedded(data: Seq<u8>, pos: int, name: Seq<char>, depth: int)
    requires
        valid_name(name),
        0 <= pos,
        pos + name_wire(name).len() <= data.len(),
        data.subrange(pos, pos + name_wire(name).len() as int) == name_wire(name),
        depth >= 0,
    ensures
        parse_name(data, pos, depth) == Ok::<(Seq<char>, int), DecodeError>(
            (name, pos + name_wire(name).len()),
        ),
    decreases name.len(),
{
    let w = name_wire(name);
    assert forall|k: int| 0 <= k < w.len() implies data[pos + k] == w[k] by {
        assert(data.subrange(pos, pos + w.len() as int)[k] == data[pos + k]);
    }
    if name.len() == 0 {
        assert(w =~= seq![0u8]);
        assert(data[pos + 0] == w[0]);
        assert(data[pos] == 0);
        assert(name =~= Seq::<char>::empty());
    } else {
        lemma_first_label_end_bounds(name);
        let l = first_label_end(name);
        let label = name.subrange(0, l);
        if l == name.len() {
            assert(label =~= name);
        }
        let lbytes = chars_to_bytes(label);
        let tail = if l == name.len() {
            seq![0u8]
        } else {
            name_wire(name.subrange(l + 1, name.len() as int))
        };
        assert(w == seq![l as u8] + lbytes + tail);
        assert(w.len() == 1 + l + tail.len());
        assert(data[pos + 0] == w[0]);
        let b0 = data[pos];
        assert(b0 == (l as u8));
        assert(1 <= l <= 63);
        assert(b0 != 0 && b0 & 0xC0 != 0xC0) by (bit_vector)
            requires
                b0 >= 1,
                b0 <= 63,
        ;
        assert(b0 as int == l);
        assert forall|i: int| 0 <= i < l implies data.subrange(pos + 1, pos + 1 + l)[i]
            == lbytes[i] by {
            assert(data[pos + (1 + i)] == w[1 + i]);
            assert(w[1 + i] == lbytes[i]);
        }
        assert(data.subrange(pos + 1, pos + 1 + l) =~= lbytes);
        assert forall|i: int| 0 <= i < l implies (#[trigger] label[i] as u32) < 256 by {
            assert(label[i] == name[i]);
        }
        lemma_chars_bytes_round(label);
        assert(bytes_to_chars(data.subrange(pos + 1, pos + 1 + l)) == label);
        if l == name.len() {
            assert(data[pos + (1 + l)] == w[1 + l]);
            assert(w[1 + l] == 0);
            assert(parse_name(data, pos + 1 + l, depth) == Ok::<(Seq<char>, int), DecodeError>(
                (Seq::<char>::empty(), pos + 1 + l + 1),
            ));
            assert(parse_name(data, pos, depth) == Ok::<(Seq<char>, int), DecodeError>(
                (name, pos + w.len()),
            ));
        } else {
            let rest = name.subrange(l + 1, name.len() as int);
            let wr = name_wire(rest);
            assert forall|k: int| 0 <= k < wr.len() implies data.subrange(
                pos + 1 + l,
                pos + 1 + l + wr.len() as int,
            )[k] == wr[k] by {
                assert(data[pos + (1 + l + k)] == w[1 + l + k]);
                assert(w[1 + l + k] == wr[k]);
            }
            assert(data.subrange(pos + 1 + l, pos + 1 + l + wr.len() as int) =~= wr);
            lemma_parse_embedded(data, pos + 1 + l, rest, depth);
            assert(rest.len() > 0);
            assert(name =~= label + seq!['.'] + rest);
            assert(parse_name(data, pos, depth) == Ok::<(Seq<char>, int), DecodeError>(
                (name, pos + w.len()),
            ));
        }
    }
}

/// Round-trip law: a name made of labels of 1 to 63 single-byte
/// characters and at most 255 characters in all decodes from its own
/// encoding to itself, with the cursor exactly at the encoding's end.
pub proof fn lemma_name_round_trip(name: Seq<char>)
    requires
        valid_name(name),
        name.len() <= 255,
    ensures
        parse_name(name_wire(name), 0, MAX_POINTER_DEPTH as int) == Ok::<
            (Seq<char>, int),
            DecodeError,
        >((name, name_wire(name).len() as int)),
{
    let w = name_wire(name);
    assert(w.subrange(0, w.len() as int) =~= w);
    lemma_parse_embedded(w, 0, name, MAX_POINTER_DEPTH as int);
}

/// A buffer position holding a compression pointer whose target is the
/// pointer's own offset decodes with `CompressionLoop` at every depth
/// budget: the chase never terminates and is failed closed.
pub proof fn lemma_self_pointer_rejected(data: Seq<u8>, pos: int, depth: int)
    requires
        0 <= pos,
        pos + 1 < data.len(),
        data[pos] & 0xC0 == 0xC0,
        pointer_target(data[pos], data[pos + 1]) == pos,
        depth >= 0,
    ensures
        parse_name(data, pos, depth) == Err::<(Seq<char>, int), DecodeError>(
            DecodeError::CompressionLoop,
        ),
    decreases depth,
{
    let b = data[pos];
    assert(b != 0 && b & 0xC0 == 0xC0) by (bit_vector)
        requires
            b & 0xC0 == 0xC0,
    ;
    if depth > 0 {
        lemma_self_pointer_rejected(data, pos, depth - 1);
    }
}

} // verus!
