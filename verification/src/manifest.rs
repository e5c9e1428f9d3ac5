//! The text of the manifest file: one line for each verified file, made of
//! the 64 hexadecimal digits of its digest, one space, and the file's name.
//! Every line ends with a line feed; the last one may go without. In a name,
//! a backslash is written as two backslashes and a line feed as a backslash
//! and the letter `n`, so that every name can be written and read back.

use vstd::prelude::*;

use crate::digest::{from_hex_spec, is_hex_digest, lemma_hex_round_trip, to_hex_spec};
use crate::hash_list::{distinct, find, lemma_find, upsert};
use crate::text::chars_of;

verus! {

/// The line feed that ends a line.
pub open spec fn line_feed() -> char {
    '\n'
}

/// The space between a line's digest and its file name.
pub open spec fn separator() -> char {
    ' '
}

/// The backslash that starts an escape in a name.
pub open spec fn backslash() -> char {
    '\\'
}

/// How one character of a name is written: a backslash as two backslashes,
/// a line feed as a backslash and `n`, any other character as itself.
pub open spec fn escaped_char(c: char) -> Seq<char> {
    if c == backslash() {
        seq![backslash(), backslash()]
    } else if c == line_feed() {
        seq![backslash(), 'n']
    } else {
        seq![c]
    }
}

/// How a name is written: its characters in order, each as `escaped_char` has it.
pub open spec fn escape(name: Seq<char>) -> Seq<char>
    decreases name.len(),
{
    if name.len() == 0 {
        Seq::empty()
    } else {
        escaped_char(name[0]) + escape(name.skip(1))
    }
}

/// The name that `text` spells: `None` where a backslash is followed by
/// neither a backslash nor `n`.
pub open spec fn unescape(text: Seq<char>) -> Option<Seq<char>>
    decreases text.len(),
{
    if text.len() == 0 {
        Some(Seq::empty())
    } else if text[0] != backslash() {
        glue(seq![text[0]], unescape(text.skip(1)))
    } else if text.len() >= 2 && text[1] == backslash() {
        glue(seq![backslash()], unescape(text.skip(2)))
    } else if text.len() >= 2 && text[1] == 'n' {
        glue(seq![line_feed()], unescape(text.skip(2)))
    } else {
        None
    }
}

/// `done` followed by `more`, where there is a `more`.
pub open spec fn glue(done: Seq<char>, more: Option<Seq<char>>) -> Option<Seq<char>> {
    match more {
        Some(more) => Some(done + more),
        None => None,
    }
}

/// The line of one record, without the line feed.
pub open spec fn record_line(record: (Seq<char>, Seq<u8>)) -> Seq<char> {
    to_hex_spec(record.1).push(separator()) + escape(record.0)
}

/// The manifest of `records`: their lines in order, each ended by a line feed.
pub open spec fn manifest_text(records: Seq<(Seq<char>, Seq<u8>)>) -> Seq<char>
    decreases records.len(),
{
    if records.len() == 0 {
        Seq::empty()
    } else {
        record_line(records[0]).push(line_feed()) + manifest_text(records.skip(1))
    }
}

/// The record that a line spells: `None` unless the line starts with 64
/// hexadecimal digits and a space, and what follows the space spells a name.
pub open spec fn parse_line(line: Seq<char>) -> Option<(Seq<char>, Seq<u8>)> {
    if line.len() >= 65 && is_hex_digest(line.take(64)) && line[64] == separator() {
        match unescape(line.skip(65)) {
            Some(name) => Some((name, from_hex_spec(line.take(64)))),
            None => None,
        }
    } else {
        None
    }
}

/// The length of the first line of `text`: the number of characters before
/// the first line feed, or all of them where there is none.
pub open spec fn line_end(text: Seq<char>) -> nat
    decreases text.len(),
{
    if text.len() == 0 || text[0] == line_feed() {
        0
    } else {
        1 + line_end(text.skip(1))
    }
}

/// The records that the lines of `text` spell, in order: `None` if any line
/// is malformed. An empty text has no lines; an empty line is malformed.
pub open spec fn parse_manifest(text: Seq<char>) -> Option<Seq<(Seq<char>, Seq<u8>)>>
    decreases text.len(),
{
    if text.len() == 0 {
        Some(Seq::empty())
    } else {
        let end = line_end(text) as int;
        if end >= text.len() {
            match parse_line(text) {
                Some(record) => Some(seq![record]),
                None => None,
            }
        } else {
            match (parse_line(text.take(end)), parse_manifest(text.skip(end + 1))) {
                (Some(record), Some(more)) => Some(seq![record] + more),
                _ => None,
            }
        }
    }
}

/// The list that recording `records` one after the other gives, starting
/// from the empty list: a later record for a name replaces the earlier one.
pub open spec fn collect(records: Seq<(Seq<char>, Seq<u8>)>) -> Seq<(Seq<char>, Seq<u8>)>
    decreases records.len(),
{
    if records.len() == 0 {
        Seq::empty()
    } else {
        upsert(collect(records.drop_last()), records.last().0, records.last().1)
    }
}

/// `done` followed by `more`, where there is a `more`.
pub open spec fn prepend(
    done: Seq<(Seq<char>, Seq<u8>)>,
    more: Option<Seq<(Seq<char>, Seq<u8>)>>,
) -> Option<Seq<(Seq<char>, Seq<u8>)>> {
    match more {
        Some(more) => Some(done + more),
        None => None,
    }
}

/// Whether every record holds a digest: 32 bytes.
pub open spec fn writable(records: Seq<(Seq<char>, Seq<u8>)>) -> bool {
    forall|i: int| 0 <= i < records.len() ==> (#[trigger] records[i]).1.len() == 32
}

/// A name that was written is read back as it was.
pub proof fn lemma_unescape_of_escape(name: Seq<char>)
    ensures
        unescape(escape(name)) == Some(name),
    decreases name.len(),
{
    if name.len() > 0 {
        let first = escaped_char(name[0]);
        let rest = escape(name.skip(1));
        let text = escape(name);
        lemma_unescape_of_escape(name.skip(1));
        assert(text == first + rest);
        assert(text.skip(first.len() as int) =~= rest);
        assert(text[0] == first[0]);
        if first.len() == 2 {
            assert(text[1] == first[1]);
        }
        assert(seq![name[0]] + name.skip(1) =~= name);
    }
}

/// A name is written without a line feed.
pub proof fn lemma_escape_has_no_line_feed(name: Seq<char>)
    ensures
        forall|i: int| 0 <= i < escape(name).len() ==> escape(name)[i] != line_feed(),
    decreases name.len(),
{
    if name.len() > 0 {
        let first = escaped_char(name[0]);
        let rest = escape(name.skip(1));
        lemma_escape_has_no_line_feed(name.skip(1));
        assert forall|i: int| 0 <= i < escape(name).len() implies escape(name)[i]
            != line_feed() by {
            if i < first.len() {
                assert(escape(name)[i] == first[i]);
            } else {
                assert(escape(name)[i] == rest[i - first.len()]);
            }
        }
    }
}

/// A position is the end of the first line when no line feed stands before
/// it and one stands at it, or the text ends there.
pub proof fn lemma_line_end(text: Seq<char>, end: int)
    requires
        0 <= end <= text.len(),
        forall|i: int| 0 <= i < end ==> text[i] != line_feed(),
        end == text.len() || text[end] == line_feed(),
    ensures
        line_end(text) == end,
    decreases end,
{
    if end > 0 {
        let tail = text.skip(1);
        assert forall|i: int| 0 <= i < end - 1 implies tail[i] != line_feed() by {
            assert(tail[i] == text[i + 1]);
        }
        lemma_line_end(tail, end - 1);
    }
}

/// Reading a manifest that was written gives back the records that were
/// written, in their order.
pub proof fn lemma_parse_of_manifest_text(records: Seq<(Seq<char>, Seq<u8>)>)
    requires
        writable(records),
    ensures
        parse_manifest(manifest_text(records)) == Some(records),
    decreases records.len(),
{
    if records.len() > 0 {
        let record = records[0];
        let rest = records.skip(1);
        let line = record_line(record);
        let text = manifest_text(records);
        let end = line.len() as int;
        let hex = to_hex_spec(record.1);
        assert(text == line.push(line_feed()) + manifest_text(rest));
        let name = escape(record.0);
        lemma_hex_round_trip(record.1);
        lemma_escape_has_no_line_feed(record.0);
        lemma_unescape_of_escape(record.0);
        assert forall|i: int| 0 <= i < end implies text[i] != line_feed() by {
            if i < 64 {
                assert(text[i] == hex[i]);
            } else if i > 64 {
                assert(text[i] == name[i - 65]);
            }
        }
        assert(text[end] == line_feed());
        lemma_line_end(text, end);
        assert(text.take(end) =~= line);
        assert(line.take(64) =~= hex);
        assert(line.skip(65) =~= name);
        assert(text.skip(end + 1) =~= manifest_text(rest));
        assert forall|i: int| 0 <= i < rest.len() implies (#[trigger] rest[i]).1.len() == 32 by {
            assert(rest[i] == records[i + 1]);
        }
        lemma_parse_of_manifest_text(rest);
        assert(seq![record] + rest =~= records);
    }
}

/// Recording records with distinct names, one after the other, gives those records.
pub proof fn lemma_collect_distinct(records: Seq<(Seq<char>, Seq<u8>)>)
    requires
        distinct(records),
    ensures
        collect(records) == records,
    decreases records.len(),
{
    if records.len() > 0 {
        let front = records.drop_last();
        assert forall|i: int, j: int| 0 <= i < j < front.len() implies (#[trigger] front[i]).0 != (
        #[trigger] front[j]).0 by {
            assert(front[i] == records[i] && front[j] == records[j]);
        }
        lemma_collect_distinct(front);
        lemma_find(front, records.last().0);
        if let Some(i) = find(front, records.last().0) {
            assert(front[i] == records[i]);
            assert(records[i].0 != records[records.len() - 1].0);
        }
        assert(front.push(records.last()) =~= records);
    }
}

/// Writes a name at the end of `text`, as `escape` has it.
pub fn write_escaped(text: &mut String, name: &str)
    ensures
        final(text)@ == old(text)@ + escape(name@),
{
    let chars = chars_of(name);
    let ghost before = text@;
    let mut i: usize = 0;
    assert(chars@.skip(0) =~= chars@);
    assert(before + escape(chars@) =~= text@ + escape(chars@.skip(0)));
    while i < chars.len()
        invariant
            i <= chars@.len(),
            chars@ == name@,
            text@ + escape(chars@.skip(i as int)) == before + escape(chars@),
        decreases chars@.len() - i,
    {
        let ghost tail = chars@.skip(i as int);
        let ghost written = text@;
        let c = chars[i];
        if c == '\\' {
            text.push('\\');
            text.push('\\');
        } else if c == '\n' {
            text.push('\\');
            text.push('n');
        } else {
            text.push(c);
        }
        proof {
            assert(tail[0] == c);
            assert(tail.skip(1) =~= chars@.skip(i + 1));
            assert(text@ =~= written + escaped_char(c));
            assert(text@ + escape(chars@.skip(i + 1)) =~= written + escape(tail));
        }
        i += 1;
    }
    assert(escape(chars@.skip(i as int)) =~= Seq::<char>::empty());
    assert(text@ =~= text@ + Seq::<char>::empty());
}

/// Reads the name that the characters from `from` up to `to` spell, as
/// `unescape` has it.
pub(crate) fn read_escaped(chars: &Vec<char>, from: usize, to: usize) -> (name: Option<String>)
    requires
        from <= to <= chars@.len(),
    ensures
        match unescape(chars@.subrange(from as int, to as int)) {
            Some(spelled) => name matches Some(read) && read@ == spelled,
            None => name is None,
        },
{
    let ghost whole = chars@.subrange(from as int, to as int);
    let mut name = String::new();
    let mut i: usize = from;
    proof {
        if let Some(all) = unescape(whole) {
            assert(name@ + all =~= all);
        }
    }
    while i < to
        invariant
            from <= i <= to <= chars@.len(),
            whole == chars@.subrange(from as int, to as int),
            unescape(whole) == glue(name@, unescape(chars@.subrange(i as int, to as int))),
        decreases to - i,
    {
        let ghost part = chars@.subrange(i as int, to as int);
        let ghost read = name@;
        let c = chars[i];
        assert(part[0] == c);
        if c != '\\' {
            name.push(c);
            proof {
                assert(part.skip(1) =~= chars@.subrange(i + 1, to as int));
                if let Some(more) = unescape(part.skip(1)) {
                    assert(read + (seq![c] + more) =~= name@ + more);
                }
            }
            i += 1;
        } else {
            if i + 1 >= to {
                return None;
            }
            let d = chars[i + 1];
            assert(part[1] == d);
            if d == '\\' {
                name.push('\\');
            } else if d == 'n' {
                name.push('\n');
            } else {
                return None;
            }
            proof {
                assert(part.skip(2) =~= chars@.subrange(i + 2, to as int));
                if let Some(more) = unescape(part.skip(2)) {
                    assert(read + (seq![name@.last()] + more) =~= name@ + more);
                }
            }
            i += 2;
        }
    }
    proof {
        assert(chars@.subrange(i as int, to as int) =~= Seq::<char>::empty());
        assert(name@ + Seq::<char>::empty() =~= name@);
    }
    Some(name)
}

} // verus!
