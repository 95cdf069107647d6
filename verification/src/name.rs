//! Domain names: length-prefixed labels, with compression pointers on decode.

use crate::error::DnsError;
use vstd::prelude::*;
use vstd::set_lib::{lemma_int_range, lemma_len_subset, set_int_range};
use vstd::slice::{slice_subrange, slice_to_vec};
use vstd::string::StringSliceAdditionalSpecFns;

verus! {

/// The longest label that can be encoded.
pub const MAX_LABEL_LEN: usize = 63;

/// The byte that separates labels in dotted text.
pub const DOT: u8 = 46;

/// The number of offsets that a compression pointer can refer to: its
/// target has 14 bits.
pub const POINTER_SPAN: usize = 0x4000;

/// A domain name: its labels in order, the empty sequence being the root.
/// Two names are equal when their labels are; how a name was compressed on
/// the wire plays no part.
#[derive(Debug, PartialEq, Eq)]
pub struct Name {
    pub labels: Vec<Vec<u8>>,
}

impl View for Name {
    type V = Seq<Seq<u8>>;

    open spec fn view(&self) -> Seq<Seq<u8>> {
        labels_view(self.labels@)
    }
}

/// One label on the wire: its length, then its bytes.
pub open spec fn label_wire(label: Seq<u8>) -> Seq<u8> {
    seq![label.len() as u8] + label
}

/// The labels of a name on the wire, one after the other, without the
/// terminating zero.
pub open spec fn labels_wire(labels: Seq<Seq<u8>>) -> Seq<u8>
    decreases labels.len(),
{
    if labels.len() == 0 {
        Seq::empty()
    } else {
        label_wire(labels[0]) + labels_wire(labels.drop_first())
    }
}

/// A name on the wire: each label with its length before it, then a zero
/// byte. No compression pointer is ever produced.
pub open spec fn name_wire(labels: Seq<Seq<u8>>) -> Seq<u8> {
    labels_wire(labels) + seq![0u8]
}

/// No label is longer than 63 bytes: the name can be encoded.
pub open spec fn name_encodable(labels: Seq<Seq<u8>>) -> bool {
    forall|i: int| 0 <= i < labels.len() ==> (#[trigger] labels[i]).len() <= 63
}

/// No label is empty: the name's encoded form decodes to the same labels.
pub open spec fn name_proper(labels: Seq<Seq<u8>>) -> bool {
    forall|i: int| 0 <= i < labels.len() ==> (#[trigger] labels[i]).len() >= 1
}

/// A length byte whose top two bits are set starts a compression pointer.
pub open spec fn is_pointer(length_byte: u8) -> bool {
    length_byte >= 0xC0
}

/// The offset that a compression pointer refers to: the low six bits of its
/// first byte, then its second byte, 14 bits in all.
pub open spec fn pointer_target(first: u8, second: u8) -> int {
    (first - 0xC0) * 256 + second
}

/// The arithmetic of pointers, said in bits: a length byte starts a pointer
/// exactly when its top two bits are set, and the target is made of the low
/// six bits of the first byte and the eight bits of the second.
pub proof fn theorem_pointer_bits(first: u8, second: u8)
    ensures
        is_pointer(first) <==> first >> 6 == 3,
        is_pointer(first) ==> pointer_target(first, second) == (((first & 0x3F) as u16) << 8) | (
        second as u16),
        is_pointer(first) ==> 0 <= pointer_target(first, second) < 0x4000,
{
    assert(first >= 0xC0 <==> first >> 6 == 3) by (bit_vector);
    assert(first >= 0xC0 ==> (first - 0xC0) * 256 + second == (((first & 0x3F) as u16) << 8) | (
    second as u16)) by (bit_vector);
}

/// The offsets below `len` that `visited` does not hold.
pub open spec fn unvisited(len: nat, visited: Set<int>) -> Set<int> {
    Set::new(|i: int| 0 <= i < len && !visited.contains(i))
}

/// Decoding of the name that starts at `pos`, where `visited` holds the
/// offsets at which decoding has already started on behalf of this name: the
/// offset of the name itself and the target of every pointer followed so far.
///
/// The result is the name's labels and the offset just behind the name's own
/// bytes (behind its terminating zero, or behind its compression pointer).
/// A length byte with its top two bits set starts a pointer, whose target is
/// decoded in turn and ends the name; a zero length byte ends the name; any
/// other length byte is followed by that many bytes of label.
pub open spec fn decode_name_from(buffer: Seq<u8>, pos: int, visited: Set<int>) -> Result<
    (Seq<Seq<u8>>, int),
    DnsError,
>
    decreases unvisited(buffer.len(), visited).len(), buffer.len() - pos,
{
    if pos < 0 || pos >= buffer.len() {
        Err(DnsError::TruncatedInput)
    } else if is_pointer(buffer[pos]) {
        if pos + 1 >= buffer.len() {
            Err(DnsError::TruncatedInput)
        } else {
            let target = pointer_target(buffer[pos], buffer[pos + 1]);
            if target >= buffer.len() {
                Err(DnsError::InvalidPointer)
            } else if visited.contains(target) {
                Err(DnsError::CompressionLoop)
            } else {
                proof {
                    lemma_unvisited_shrinks(buffer.len(), visited, target);
                }
                match decode_name_from(buffer, target, visited.insert(target)) {
                    Ok((labels, _)) => Ok((labels, pos + 2)),
                    Err(e) => Err(e),
                }
            }
        }
    } else if buffer[pos] == 0 {
        Ok((Seq::empty(), pos + 1))
    } else {
        let len = buffer[pos] as int;
        if pos + 1 + len > buffer.len() {
            Err(DnsError::TruncatedInput)
        } else {
            match decode_name_from(buffer, pos + 1 + len, visited) {
                Ok((labels, end)) => Ok((seq![buffer.subrange(pos + 1, pos + 1 + len)] + labels, end)),
                Err(e) => Err(e),
            }
        }
    }
}

/// Decoding of the name that starts at `pos`: its labels, and the offset
/// just behind the name's own bytes.
pub open spec fn decode_name(buffer: Seq<u8>, pos: int) -> Result<(Seq<Seq<u8>>, int), DnsError> {
    decode_name_from(buffer, pos, set![pos])
}

/// Visiting one more offset below `len` leaves fewer offsets unvisited.
pub proof fn lemma_unvisited_shrinks(len: nat, visited: Set<int>, target: int)
    requires
        0 <= target < len,
        !visited.contains(target),
    ensures
        unvisited(len, visited).finite(),
        unvisited(len, visited.insert(target)).len() < unvisited(len, visited).len(),
{
    let before = unvisited(len, visited);
    let after = unvisited(len, visited.insert(target));
    lemma_int_range(0, len as int);
    assert(before.subset_of(set_int_range(0, len as int)));
    lemma_len_subset(before, set_int_range(0, len as int));
    assert(before.contains(target));
    assert(after =~= before.remove(target));
}

/// What decoding gives once `done` has been read and the rest of the name
/// decodes to `rest`; `end` is the offset behind the name's own bytes where a
/// pointer has already fixed it.
spec fn resume_decoding(
    done: Seq<Seq<u8>>,
    end: Option<int>,
    rest: Result<(Seq<Seq<u8>>, int), DnsError>,
) -> Result<(Seq<Seq<u8>>, int), DnsError> {
    match rest {
        Ok((labels, rest_end)) => Ok(
            (
                done + labels,
                match end {
                    Some(fixed) => fixed,
                    None => rest_end,
                },
            ),
        ),
        Err(e) => Err(e),
    }
}

/// A further label is encoded behind the labels before it.
pub proof fn lemma_labels_wire_push(labels: Seq<Seq<u8>>, label: Seq<u8>)
    ensures
        labels_wire(labels.push(label)) == labels_wire(labels) + label_wire(label),
    decreases labels.len(),
{
    if labels.len() == 0 {
        let one = labels.push(label);
        assert(one.drop_first() =~= Seq::<Seq<u8>>::empty());
        assert(labels_wire(one.drop_first()) =~= Seq::<u8>::empty());
        assert(labels_wire(one) =~= label_wire(label));
    } else {
        let rest = labels.drop_first();
        lemma_labels_wire_push(rest, label);
        assert(labels.push(label).drop_first() =~= rest.push(label));
        assert(labels.push(label)[0] == labels[0]);
        assert(label_wire(labels[0]) + (labels_wire(rest) + label_wire(label)) =~= (label_wire(
            labels[0],
        ) + labels_wire(rest)) + label_wire(label));
    }
}

/// The pieces of `text` between its dots, in order. Text without a dot is one
/// piece; a dot at either end, or two dots in a row, leave an empty piece.
pub open spec fn split_at_dots(text: Seq<u8>) -> Seq<Seq<u8>>
    decreases text.len(),
{
    if text.len() == 0 {
        seq![Seq::empty()]
    } else {
        let before = split_at_dots(text.drop_last());
        if text.last() == DOT {
            before.push(Seq::empty())
        } else {
            before.update(before.len() - 1, before.last().push(text.last()))
        }
    }
}

/// The labels that dotted text names: none for empty text, which names the
/// root, and otherwise the pieces between the dots.
pub open spec fn text_labels(text: Seq<u8>) -> Seq<Seq<u8>> {
    if text.len() == 0 {
        Seq::empty()
    } else {
        split_at_dots(text)
    }
}

/// Labels written as dotted text: the labels in order, with a dot between
/// each two of them.
pub open spec fn dotted(labels: Seq<Seq<u8>>) -> Seq<u8>
    decreases labels.len(),
{
    if labels.len() == 0 {
        Seq::empty()
    } else if labels.len() == 1 {
        labels[0]
    } else {
        dotted(labels.drop_last()) + seq![DOT] + labels.last()
    }
}

/// Text is cut into at least one piece, and the pieces, written with dots
/// between them, are the text again.
pub proof fn lemma_split_then_join(text: Seq<u8>)
    ensures
        split_at_dots(text).len() >= 1,
        dotted(split_at_dots(text)) == text,
    decreases text.len(),
{
    if text.len() == 0 {
        assert(dotted(split_at_dots(text)) =~= text);
    } else {
        let before = split_at_dots(text.drop_last());
        lemma_split_then_join(text.drop_last());
        let pieces = split_at_dots(text);
        if text.last() == DOT {
            assert(pieces.drop_last() =~= before);
            assert(dotted(pieces) =~= text.drop_last() + seq![DOT]);
            assert(text.drop_last() + seq![DOT] =~= text);
        } else if before.len() == 1 {
            assert(dotted(pieces) =~= text.drop_last().push(text.last()));
            assert(text.drop_last().push(text.last()) =~= text);
        } else {
            assert(pieces.drop_last() =~= before.drop_last());
            assert(dotted(pieces) =~= dotted(before).push(text.last()));
            assert(text.drop_last().push(text.last()) =~= text);
        }
    }
}

/// The labels that dotted text names spell the same text when they are
/// written with dots between them.
pub proof fn theorem_text_of_labels(text: Seq<u8>)
    ensures
        dotted(text_labels(text)) == text,
{
    if text.len() == 0 {
        assert(dotted(text_labels(text)) =~= text);
    } else {
        lemma_split_then_join(text);
    }
}

/// The copy of `labels` that an executable copy of them views as.
pub open spec fn labels_view(labels: Seq<Vec<u8>>) -> Seq<Seq<u8>> {
    labels.map_values(|label: Vec<u8>| label@)
}

/// The encoded form of a name with labels of 1 to 63 bytes, wherever it
/// stands in a buffer, decodes to the same labels and ends where the encoded
/// form ends.
pub proof fn lemma_name_round_trip(
    buffer: Seq<u8>,
    pos: int,
    labels: Seq<Seq<u8>>,
    visited: Set<int>,
)
    requires
        name_encodable(labels),
        name_proper(labels),
        0 <= pos,
        pos + name_wire(labels).len() <= buffer.len(),
        buffer.subrange(pos, pos + name_wire(labels).len()) == name_wire(labels),
    ensures
        decode_name_from(buffer, pos, visited) == Ok::<(Seq<Seq<u8>>, int), DnsError>(
            (labels, pos + name_wire(labels).len()),
        ),
    decreases labels.len(),
{
    let wire = name_wire(labels);
    let window = buffer.subrange(pos, pos + wire.len());
    assert(window[0] == buffer[pos]);
    if labels.len() == 0 {
        assert(labels_wire(labels) =~= Seq::<u8>::empty());
        assert(wire =~= seq![0u8]);
        assert(labels =~= Seq::<Seq<u8>>::empty());
    } else {
        let first = labels[0];
        let rest = labels.drop_first();
        let rest_wire = name_wire(rest);
        assert(1 <= first.len() <= 63);
        assert(wire =~= seq![first.len() as u8] + first + rest_wire);
        assert(wire[0] == first.len() as u8);
        let next = pos + 1 + first.len();
        assert(buffer.subrange(pos + 1, next) =~= first) by {
            assert forall|i: int| 0 <= i < first.len() implies buffer[pos + 1 + i] == first[i] by {
                assert(window[1 + i] == buffer[pos + 1 + i]);
            }
        }
        assert(buffer.subrange(next, next + rest_wire.len()) =~= rest_wire) by {
            assert forall|i: int| 0 <= i < rest_wire.len() implies buffer[next + i]
                == rest_wire[i] by {
                assert(window[1 + first.len() + i] == buffer[next + i]);
            }
        }
        assert forall|i: int| 0 <= i < rest.len() implies 1 <= (#[trigger] rest[i]).len() <= 63 by {
            assert(rest[i] == labels[i + 1]);
        }
        lemma_name_round_trip(buffer, next, rest, visited);
        assert(seq![first] + rest =~= labels);
    }
}

/// A decoded name has no empty label, and its own bytes end behind their
/// start and within the buffer.
pub proof fn lemma_decoded_name(buffer: Seq<u8>, pos: int, visited: Set<int>)
    requires
        decode_name_from(buffer, pos, visited) is Ok,
    ensures
        name_proper(decode_name_from(buffer, pos, visited)->Ok_0.0),
        pos < decode_name_from(buffer, pos, visited)->Ok_0.1 <= buffer.len(),
    decreases unvisited(buffer.len(), visited).len(), buffer.len() - pos,
{
    if is_pointer(buffer[pos]) {
        let target = pointer_target(buffer[pos], buffer[pos + 1]);
        lemma_unvisited_shrinks(buffer.len(), visited, target);
        lemma_decoded_name(buffer, target, visited.insert(target));
    } else if buffer[pos] != 0 {
        let next = pos + 1 + buffer[pos] as int;
        lemma_decoded_name(buffer, next, visited);
        let label = buffer.subrange(pos + 1, next);
        let rest = decode_name_from(buffer, next, visited)->Ok_0.0;
        let labels = seq![label] + rest;
        assert forall|i: int| 0 <= i < labels.len() implies (#[trigger] labels[i]).len() >= 1 by {
            if i > 0 {
                assert(labels[i] == rest[i - 1]);
            }
        }
    }
}

/// A name with labels of 1 to 63 bytes decodes from its own encoded form.
pub proof fn theorem_name_round_trip(labels: Seq<Seq<u8>>)
    requires
        name_encodable(labels),
        name_proper(labels),
    ensures
        decode_name(name_wire(labels), 0) == Ok::<(Seq<Seq<u8>>, int), DnsError>(
            (labels, name_wire(labels).len() as int),
        ),
{
    let wire = name_wire(labels);
    assert(wire.subrange(0, wire.len() as int) =~= wire);
    lemma_name_round_trip(wire, 0, labels, set![0int]);
}

/// A compression pointer that refers to its own offset is reported as a
/// loop.
pub proof fn theorem_self_pointer_is_loop(buffer: Seq<u8>, pos: int)
    requires
        0 <= pos,
        pos + 1 < buffer.len(),
        is_pointer(buffer[pos]),
        pointer_target(buffer[pos], buffer[pos + 1]) == pos,
    ensures
        decode_name(buffer, pos) == Err::<(Seq<Seq<u8>>, int), DnsError>(DnsError::CompressionLoop),
{
}

/// Two compression pointers that refer to each other are reported as a loop,
/// from whichever of them decoding starts.
pub proof fn theorem_pointer_cycle_is_loop(buffer: Seq<u8>, first: int, second: int)
    requires
        0 <= first,
        first + 1 < buffer.len(),
        0 <= second,
        second + 1 < buffer.len(),
        is_pointer(buffer[first]),
        is_pointer(buffer[second]),
        pointer_target(buffer[first], buffer[first + 1]) == second,
        pointer_target(buffer[second], buffer[second + 1]) == first,
    ensures
        decode_name(buffer, first) == Err::<(Seq<Seq<u8>>, int), DnsError>(
            DnsError::CompressionLoop,
        ),
{
    if first != second {
        let seen = set![first].insert(second);
        assert(decode_name_from(buffer, second, seen) == Err::<(Seq<Seq<u8>>, int), DnsError>(
            DnsError::CompressionLoop,
        ));
    }
}

impl Name {
    /// The name that dotted text spells: the pieces between the dots are its
    /// labels, and empty text is the root.
    pub fn new(name: &str) -> (result: Name)
        ensures
            result@ == text_labels(name.spec_bytes()),
    {
        let bytes = name.as_bytes();
        let mut labels: Vec<Vec<u8>> = Vec::new();
        assert(labels_view(labels@) =~= Seq::<Seq<u8>>::empty());
        if bytes.len() == 0 {
            return Name { labels };
        }
        let mut current: Vec<u8> = Vec::new();
        let mut i: usize = 0;
        assert(bytes@.take(0) =~= Seq::<u8>::empty());
        assert(labels_view(labels@).push(current@) =~= seq![Seq::<u8>::empty()]);
        while i < bytes.len()
            invariant
                i <= bytes@.len(),
                split_at_dots(bytes@.take(i as int)) == labels_view(labels@).push(current@),
            decreases bytes@.len() - i,
        {
            let ghost before = labels_view(labels@).push(current@);
            let ghost text = bytes@.take(i + 1);
            assert(text.drop_last() =~= bytes@.take(i as int));
            assert(text.last() == bytes@[i as int]);
            if bytes[i] == DOT {
                proof {
                    assert(labels_view(labels@.push(current)) =~= before);
                }
                labels.push(current);
                current = Vec::new();
            } else {
                current.push(bytes[i]);
                assert(labels_view(labels@).push(current@) =~= before.update(
                    before.len() - 1,
                    before.last().push(bytes@[i as int]),
                ));
            }
            i += 1;
        }
        proof {
            assert(bytes@.take(bytes@.len() as int) =~= bytes@);
            assert(labels_view(labels@.push(current)) =~= labels_view(labels@).push(current@));
        }
        labels.push(current);
        Name { labels }
    }

    /// The name as dotted text: its labels with a dot between each two of
    /// them, and nothing for the root.
    pub fn to_text(&self) -> (text: Vec<u8>)
        ensures
            text@ == dotted(self@),
    {
        let mut text: Vec<u8> = Vec::new();
        let count = self.labels.len();
        let mut i: usize = 0;
        assert(self@.take(0) =~= Seq::<Seq<u8>>::empty());
        while i < count
            invariant
                count == self.labels.len(),
                i <= count,
                text@ == dotted(self@.take(i as int)),
            decreases count - i,
        {
            let label = &self.labels[i];
            let ghost run = self@.take(i + 1);
            assert(run.drop_last() =~= self@.take(i as int));
            assert(run.last() == label@);
            if i > 0 {
                text.push(DOT);
            }
            let ghost head = text@;
            let mut k: usize = 0;
            while k < label.len()
                invariant
                    k <= label.len(),
                    text@ == head + label@.take(k as int),
                decreases label.len() - k,
            {
                text.push(label[k]);
                assert(label@.take(k as int).push(label@[k as int]) =~= label@.take(k + 1));
                k += 1;
            }
            proof {
                assert(label@.take(label@.len() as int) =~= label@);
                if i == 0 {
                    assert(text@ =~= label@);
                } else {
                    assert(text@ =~= dotted(run.drop_last()) + seq![DOT] + run.last());
                }
            }
            i += 1;
        }
        proof {
            assert(self@.take(count as int) =~= self@);
        }
        text
    }

    /// Encodes the name: each label with its length before it, then a zero
    /// byte. A label of more than 63 bytes is an error.
    pub fn to_bytes(&self) -> (result: Result<Vec<u8>, DnsError>)
        ensures
            name_encodable(self@) ==> result is Ok && result->Ok_0@ == name_wire(self@),
            !name_encodable(self@) ==> result == Err::<Vec<u8>, DnsError>(DnsError::LabelTooLong),
    {
        let mut out: Vec<u8> = Vec::new();
        let count = self.labels.len();
        let mut i: usize = 0;
        while i < count
            invariant
                count == self.labels.len(),
                i <= count,
                name_encodable(self@.take(i as int)),
                out@ == labels_wire(self@.take(i as int)),
            decreases count - i,
        {
            let label = &self.labels[i];
            assert(self@[i as int] == label@);
            if label.len() > MAX_LABEL_LEN {
                return Err(DnsError::LabelTooLong);
            }
            out.push(label.len() as u8);
            let mut k: usize = 0;
            while k < label.len()
                invariant
                    k <= label.len(),
                    out@ == labels_wire(self@.take(i as int)) + seq![label@.len() as u8]
                        + label@.take(k as int),
                decreases label.len() - k,
            {
                out.push(label[k]);
                assert(label@.take(k as int).push(label@[k as int]) =~= label@.take(k + 1));
                k += 1;
            }
            proof {
                assert(label@.take(label@.len() as int) =~= label@);
                assert(self@.take(i + 1) =~= self@.take(i as int).push(label@));
                lemma_labels_wire_push(self@.take(i as int), label@);
                assert(out@ =~= labels_wire(self@.take(i as int)) + label_wire(label@));
            }
            i += 1;
        }
        proof {
            assert(self@.take(count as int) =~= self@);
        }
        out.push(0);
        Ok(out)
    }

    /// Decodes the name that starts at `offset`, following compression
    /// pointers, and returns it with the offset just behind the name's own
    /// bytes. Reading past the end of the buffer is `TruncatedInput`, a
    /// pointer to an offset outside the buffer is `InvalidPointer`, and a
    /// pointer to an offset at which decoding of this name already started is
    /// `CompressionLoop`. Decoding always ends.
    pub fn parse(buffer: &[u8], offset: usize) -> (result: Result<(Name, usize), DnsError>)
        ensures
            match result {
                Ok((name, end)) => end <= buffer@.len() && decode_name(buffer@, offset as int)
                    == Ok::<(Seq<Seq<u8>>, int), DnsError>((name@, end as int)),
                Err(e) => decode_name(buffer@, offset as int) == Err::<
                    (Seq<Seq<u8>>, int),
                    DnsError,
                >(e),
            },
    {
        let len = buffer.len();
        if offset >= len {
            return Err(DnsError::TruncatedInput);
        }
        let span: usize = if len < POINTER_SPAN {
            len
        } else {
            POINTER_SPAN
        };
        let mut marks: Vec<bool> = Vec::new();
        let ghost mut seen: Set<int> = set![offset as int];
        let mut labels: Vec<Vec<u8>> = Vec::new();
        let mut pos: usize = offset;
        let mut end: Option<usize> = None;
        let ghost whole = decode_name(buffer@, offset as int);
        assert(labels_view(labels@) =~= Seq::<Seq<u8>>::empty());
        loop
            invariant
                len == buffer@.len(),
                span <= len,
                span <= POINTER_SPAN,
                span == len || span == POINTER_SPAN,
                pos <= len,
                marks@.len() == 0 || marks@.len() == span,
                marks@.len() == 0 ==> seen == set![offset as int],
                marks@.len() > 0 ==> forall|i: int|
                    0 <= i < span ==> (marks@[i] <==> seen.contains(i)),
                end matches Some(fixed) ==> fixed <= len,
                whole == decode_name(buffer@, offset as int),
                whole == resume_decoding(
                    labels_view(labels@),
                    match end {
                        Some(fixed) => Some(fixed as int),
                        None => None,
                    },
                    decode_name_from(buffer@, pos as int, seen),
                ),
            decreases unvisited(len as nat, seen).len(), len - pos,
        {
            let ghost done = labels_view(labels@);
            if pos >= len {
                return Err(DnsError::TruncatedInput);
            }
            let first = buffer[pos];
            if first >= 0xC0 {
                if pos + 1 >= len {
                    return Err(DnsError::TruncatedInput);
                }
                let target: usize = (first - 0xC0) as usize * 256 + buffer[pos + 1] as usize;
                if target >= len {
                    return Err(DnsError::InvalidPointer);
                }
                if marks.len() == 0 {
                    marks = fresh_marks(span, offset);
                }
                if marks[target] {
                    return Err(DnsError::CompressionLoop);
                }
                proof {
                    lemma_unvisited_shrinks(len as nat, seen, target as int);
                    seen = seen.insert(target as int);
                }
                marks.set(target, true);
                if end.is_none() {
                    end = Some(pos + 2);
                }
                pos = target;
            } else if first == 0 {
                let name_end = match end {
                    Some(fixed) => fixed,
                    None => pos + 1,
                };
                assert(done + Seq::<Seq<u8>>::empty() =~= done);
                return Ok((Name { labels }, name_end));
            } else {
                let label_len = first as usize;
                if label_len > len - pos - 1 {
                    return Err(DnsError::TruncatedInput);
                }
                let label = slice_to_vec(slice_subrange(buffer, pos + 1, pos + 1 + label_len));
                proof {
                    let rest = decode_name_from(buffer@, pos + 1 + label_len, seen);
                    if let Ok((more, _)) = rest {
                        assert(done + (seq![label@] + more) =~= done.push(label@) + more);
                    }
                    assert(labels_view(labels@.push(label)) =~= done.push(label@));
                }
                labels.push(label);
                pos = pos + 1 + label_len;
            }
        }
    }
}

/// Marks for the offsets below `count`: all clear but the one at `offset`.
fn fresh_marks(count: usize, offset: usize) -> (marks: Vec<bool>)
    ensures
        marks@.len() == count,
        forall|i: int| 0 <= i < count ==> (marks@[i] <==> i == offset),
{
    let mut marks: Vec<bool> = Vec::new();
    let mut n: usize = 0;
    while n < count
        invariant
            n <= count,
            marks@.len() == n,
            forall|i: int| 0 <= i < n ==> (marks@[i] <==> i == offset),
        decreases count - n,
    {
        marks.push(n == offset);
        n += 1;
    }
    marks
}

impl Clone for Name {
    /// A copy with the same labels.
    fn clone(&self) -> (copy: Name)
        ensures
            copy@ == self@,
    {
        let mut labels: Vec<Vec<u8>> = Vec::new();
        let count = self.labels.len();
        let mut i: usize = 0;
        while i < count
            invariant
                count == self.labels.len(),
                i <= count,
                labels_view(labels@) == self@.take(i as int),
            decreases count - i,
        {
            let label = slice_to_vec(self.labels[i].as_slice());
            proof {
                assert(labels_view(labels@.push(label)) =~= self@.take(i as int).push(label@));
                assert(self@.take(i + 1) =~= self@.take(i as int).push(self@[i as int]));
            }
            labels.push(label);
            i += 1;
        }
        proof {
            assert(self@.take(count as int) =~= self@);
        }
        Name { labels }
    }
}

} // verus!
