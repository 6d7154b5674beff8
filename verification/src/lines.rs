//! Lines of text out of the messages of a port.
//!
//! A device that reports in lines sends them at its own pace, so a message
//! may hold part of a line, or several. The assembler collects the messages
//! and gives out the last line that is complete; a consumer that wants the
//! newest report needs no other. A line is cut into fields at each space.

use vstd::prelude::*;
use vstd::slice::{slice_subrange, slice_to_vec};
use vstd::utf8::valid_utf8;

verus! {

/// The byte that ends a line.
pub const LINE_END: u8 = 10;

/// The byte that separates the fields of a line.
pub const FIELD_SEPARATOR: u8 = 32;

/// Number of fields that stand before the values of a report.
pub const LEADING_FIELDS: usize = 3;

/// Number of values in a report.
pub const VALUE_FIELDS: usize = 3;

/// Position of the last line end in `bytes`; -1 if there is none.
pub open spec fn last_line_end(bytes: Seq<u8>) -> int
    decreases bytes.len(),
{
    if bytes.len() == 0 {
        -1
    } else if bytes.last() == LINE_END {
        bytes.len() - 1
    } else {
        last_line_end(bytes.drop_last())
    }
}

/// The last complete line in `bytes`, without its line end: what stands
/// between the last line end and the one before it, or the start.
pub open spec fn last_line(bytes: Seq<u8>) -> Option<Seq<u8>> {
    let end = last_line_end(bytes);
    if end < 0 {
        None
    } else {
        Some(bytes.subrange(last_line_end(bytes.take(end)) + 1, end))
    }
}

/// What follows the last complete line: the beginning of a line that is
/// still to be completed. All of `bytes` if no line is complete.
pub open spec fn after_last_line(bytes: Seq<u8>) -> Seq<u8> {
    bytes.skip(last_line_end(bytes) + 1)
}

/// The fields of a line: the runs of bytes between its separators. A line
/// with n separators has n + 1 fields, some of them empty where separators
/// stand side by side or at an end.
pub open spec fn fields(line: Seq<u8>) -> Seq<Seq<u8>>
    decreases line.len(),
{
    if line.len() == 0 {
        seq![Seq::empty()]
    } else {
        let before = fields(line.drop_last());
        if line.last() == FIELD_SEPARATOR {
            before.push(Seq::empty())
        } else {
            before.update(before.len() - 1, before.last().push(line.last()))
        }
    }
}

/// The values of a report: the three fields that follow the three leading
/// ones, if the line has these six fields and no more.
pub open spec fn report_values(line: Seq<u8>) -> Option<(Seq<u8>, Seq<u8>, Seq<u8>)> {
    let all = fields(line);
    if all.len() == LEADING_FIELDS + VALUE_FIELDS {
        Some((all[3], all[4], all[5]))
    } else {
        None
    }
}

/// The line that is made of the given fields, with a separator between each
/// two of them.
pub open spec fn joined(parts: Seq<Seq<u8>>) -> Seq<u8>
    decreases parts.len(),
{
    if parts.len() == 0 {
        Seq::empty()
    } else if parts.len() == 1 {
        parts[0]
    } else {
        joined(parts.drop_last()).push(FIELD_SEPARATOR) + parts.last()
    }
}

/// The fields of a line are what its separators cut it into: there is at
/// least one field, no field holds a separator, and the fields with a
/// separator put back between each two of them are the line.
pub proof fn lemma_fields_partition_line(line: Seq<u8>)
    ensures
        fields(line).len() >= 1,
        forall|k: int, i: int|
            0 <= k < fields(line).len() && 0 <= i < fields(line)[k].len() ==> (
            #[trigger] fields(line)[k][i]) != FIELD_SEPARATOR,
        joined(fields(line)) == line,
    decreases line.len(),
{
    let all = fields(line);
    if line.len() == 0 {
        assert(joined(all) =~= line);
    } else {
        let front = line.drop_last();
        let before = fields(front);
        lemma_fields_partition_line(front);
        assert(line =~= front.push(line.last()));
        if line.last() == FIELD_SEPARATOR {
            assert(all.drop_last() =~= before);
            assert(joined(all) =~= line);
        } else {
            let grown = before.last().push(line.last());
            assert forall|k: int, i: int|
                0 <= k < all.len() && 0 <= i < all[k].len() implies (#[trigger] all[k][i])
                != FIELD_SEPARATOR by {
                if k < all.len() - 1 {
                    assert(all[k] == before[k]);
                    assert(before[k][i] != FIELD_SEPARATOR);
                } else if i < before.last().len() {
                    assert(all[k][i] == before[k][i]);
                }
            }
            if before.len() == 1 {
                assert(joined(all) =~= line);
            } else {
                assert(all.drop_last() =~= before.drop_last());
                assert(joined(all) =~= joined(before.drop_last()).push(FIELD_SEPARATOR) + grown);
                assert(joined(before) =~= joined(before.drop_last()).push(FIELD_SEPARATOR)
                    + before.last());
                assert(joined(all) =~= line);
            }
        }
    }
}

/// The last line end of `bytes` lies within `bytes`, and no line end follows
/// it.
pub proof fn lemma_last_line_end(bytes: Seq<u8>)
    ensures
        -1 <= last_line_end(bytes) < bytes.len(),
        last_line_end(bytes) >= 0 ==> bytes[last_line_end(bytes)] == LINE_END,
        forall|i: int| last_line_end(bytes) < i < bytes.len() ==> bytes[i] != LINE_END,
    decreases bytes.len(),
{
    if bytes.len() > 0 && bytes.last() != LINE_END {
        let front = bytes.drop_last();
        lemma_last_line_end(front);
        assert forall|i: int| last_line_end(bytes) < i < bytes.len() implies bytes[i]
            != LINE_END by {
            if i < front.len() {
                assert(front[i] == bytes[i]);
            }
        }
    }
}

/// The last complete line is a line, and the last one: it holds no line end,
/// a line end follows it, and what follows that holds no line end either.
/// What stands before it, if anything, ends with a line end.
pub proof fn lemma_last_line_is_the_last(bytes: Seq<u8>)
    ensures
        forall|i: int|
            0 <= i < after_last_line(bytes).len() ==> (#[trigger] after_last_line(bytes)[i])
                != LINE_END,
        last_line(bytes) is None <==> !bytes.contains(LINE_END),
        last_line(bytes) matches Some(line) ==> {
            let start = last_line_end(bytes.take(last_line_end(bytes))) + 1;
            &&& forall|i: int| 0 <= i < line.len() ==> (#[trigger] line[i]) != LINE_END
            &&& bytes == bytes.take(start) + line.push(LINE_END) + after_last_line(bytes)
            &&& start > 0 ==> bytes[start - 1] == LINE_END
        },
{
    let end = last_line_end(bytes);
    lemma_last_line_end(bytes);
    let rest = after_last_line(bytes);
    assert forall|i: int| 0 <= i < rest.len() implies (#[trigger] rest[i]) != LINE_END by {
        assert(rest[i] == bytes[end + 1 + i]);
    }
    if end >= 0 {
        assert(bytes.contains(LINE_END));
        let front = bytes.take(end);
        lemma_last_line_end(front);
        let start = last_line_end(front) + 1;
        let line = bytes.subrange(start, end);
        assert forall|i: int| 0 <= i < line.len() implies (#[trigger] line[i]) != LINE_END by {
            assert(line[i] == front[start + i]);
        }
        assert(bytes =~= bytes.take(start) + line.push(LINE_END) + rest);
        if start > 0 {
            assert(front[start - 1] == bytes[start - 1]);
        }
    } else {
        assert forall|i: int| 0 <= i < bytes.len() implies bytes[i] != LINE_END by {}
    }
}

/// Whether `bytes` are well-formed UTF-8, as `core::str::from_utf8` finds:
/// it returns `Ok` for exactly the byte sequences that encode a sequence of
/// Unicode scalar values in UTF-8.
#[verifier::external_body]
fn is_utf8(bytes: &[u8]) -> (ok: bool)
    ensures
        ok == valid_utf8(bytes@),
{
    core::str::from_utf8(bytes).is_ok()
}

/// Searches `bytes` backwards from `before` for a line end.
fn find_line_end(bytes: &Vec<u8>, before: usize) -> (found: Option<usize>)
    requires
        before <= bytes@.len(),
    ensures
        last_line_end(bytes@.take(before as int)) == match found {
            Some(position) => position as int,
            None => -1,
        },
{
    let mut i = before;
    while i > 0
        invariant
            i <= before <= bytes@.len(),
            last_line_end(bytes@.take(before as int)) == last_line_end(bytes@.take(i as int)),
        decreases i,
    {
        let ghost front = bytes@.take(i as int);
        assert(front.last() == bytes@[i - 1]);
        assert(front.drop_last() =~= bytes@.take(i - 1));
        if bytes[i - 1] == LINE_END {
            return Some(i - 1);
        }
        i -= 1;
    }
    None
}

/// The text that a consumer has received and not yet read as lines.
#[derive(Debug, Clone, PartialEq, Eq)]
pub struct LineAssembler {
    buffer: Vec<u8>,
}

impl View for LineAssembler {
    type V = Seq<u8>;

    closed spec fn view(&self) -> Seq<u8> {
        self.buffer@
    }
}

impl LineAssembler {
    /// An assembler that holds no text.
    pub fn new() -> (assembler: LineAssembler)
        ensures
            assembler@ == Seq::<u8>::empty(),
    {
        LineAssembler { buffer: Vec::new() }
    }

    /// Number of bytes held.
    pub fn len(&self) -> (len: usize)
        ensures
            len == self@.len(),
    {
        self.buffer.len()
    }

    /// Takes in the bytes of one message if they are well-formed UTF-8, and
    /// says whether it did. A message that is not text is left out whole.
    pub fn accept(&mut self, message: &[u8]) -> (accepted: bool)
        ensures
            accepted == valid_utf8(message@),
            final(self)@ == if accepted {
                old(self)@ + message@
            } else {
                old(self)@
            },
    {
        if is_utf8(message) {
            let mut bytes = slice_to_vec(message);
            self.buffer.append(&mut bytes);
            true
        } else {
            false
        }
    }

    /// Takes out the last complete line, without its line end, and drops
    /// the lines before it. What follows the line stays, to be completed by
    /// later messages. Where no line is complete nothing changes.
    pub fn take_last_line(&mut self) -> (line: Option<Vec<u8>>)
        ensures
            last_line(old(self)@) == match line {
                Some(bytes) => Some(bytes@),
                None => None::<Seq<u8>>,
            },
            final(self)@ == after_last_line(old(self)@),
    {
        let len = self.buffer.len();
        assert(self.buffer@.take(len as int) =~= self.buffer@);
        match find_line_end(&self.buffer, len) {
            None => {
                assert(self.buffer@.skip(0) =~= self.buffer@);
                None
            },
            Some(end) => {
                proof {
                    lemma_last_line_end(self.buffer@);
                    lemma_last_line_end(self.buffer@.take(end as int));
                }
                let start = match find_line_end(&self.buffer, end) {
                    Some(position) => position + 1,
                    None => 0,
                };
                let line = slice_to_vec(slice_subrange(self.buffer.as_slice(), start, end));
                let rest = self.buffer.split_off(end + 1);
                self.buffer = rest;
                Some(line)
            },
        }
    }
}

/// What the fields of a line hold.
pub open spec fn field_views(parts: Seq<Vec<u8>>) -> Seq<Seq<u8>> {
    parts.map_values(|part: Vec<u8>| part@)
}

/// Cuts a line into its fields.
pub fn split_fields(line: &[u8]) -> (parts: Vec<Vec<u8>>)
    ensures
        field_views(parts@) == fields(line@),
{
    let mut parts: Vec<Vec<u8>> = Vec::new();
    let mut current: Vec<u8> = Vec::new();
    let mut i: usize = 0;
    assert(line@.take(0) =~= Seq::<u8>::empty());
    assert(field_views(parts@).push(current@) =~= seq![Seq::<u8>::empty()]);
    while i < line.len()
        invariant
            i <= line@.len(),
            field_views(parts@).push(current@) == fields(line@.take(i as int)),
        decreases line@.len() - i,
    {
        let byte = line[i];
        proof {
            let front = line@.take(i + 1);
            assert(front.last() == byte);
            assert(front.drop_last() =~= line@.take(i as int));
        }
        let ghost done = field_views(parts@);
        let ghost open = current@;
        if byte == FIELD_SEPARATOR {
            parts.push(current);
            current = Vec::new();
            assert(field_views(parts@) =~= done.push(open));
        } else {
            current.push(byte);
            assert(done.push(open).update(done.len() as int, open.push(byte)) =~= done.push(
                current@,
            ));
        }
        i += 1;
    }
    assert(line@.take(i as int) =~= line@);
    let ghost done = field_views(parts@);
    let ghost open = current@;
    parts.push(current);
    assert(field_views(parts@) =~= done.push(open));
    parts
}

/// Reads a report line: returns its three values, as they stand in the
/// line, if the line is made of three leading fields and three values.
pub fn read_report(line: &[u8]) -> (values: Option<(Vec<u8>, Vec<u8>, Vec<u8>)>)
    ensures
        report_values(line@) == match values {
            Some((x, y, z)) => Some((x@, y@, z@)),
            None => None::<(Seq<u8>, Seq<u8>, Seq<u8>)>,
        },
{
    let mut parts = split_fields(line);
    if parts.len() != LEADING_FIELDS + VALUE_FIELDS {
        return None;
    }
    let ghost all = field_views(parts@);
    let z = parts.pop();
    let y = parts.pop();
    let x = parts.pop();
    match (x, y, z) {
        (Some(x), Some(y), Some(z)) => {
            assert(x@ == all[3] && y@ == all[4] && z@ == all[5]);
            Some((x, y, z))
        },
        _ => None,
    }
}

} // verus!
