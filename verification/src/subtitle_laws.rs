//! What holds between writing a subtitle database and reading it back.

use crate::subtitles::{
    block, breaks_line, compiled, is_marker, line_break_from, parse_chunk, parse_chunks, parsed,
    raw_chunks, Caption, CaptionText,
};
use crate::text::{is_blank, is_space, lemma_trimmed_padded, trimmed};
use vstd::prelude::*;

verus! {

/// Whether `c` ends a line.
pub open spec fn is_line_end(c: char) -> bool {
    c == '\r' || c == '\n'
}

/// Some colon of `s`, other than its first character, starts a line.
pub open spec fn has_line_colon(s: Seq<char>) -> bool {
    exists|j: int| 0 < j < s.len() && #[trigger] s[j] == ':' && is_line_end(s[j - 1])
}

/// `s` holds a line feed, and so a line break.
pub open spec fn has_line_feed(s: Seq<char>) -> bool {
    exists|j: int| 0 <= j < s.len() && #[trigger] s[j] == '\n'
}

/// The record can be written and read back: no colon in its key or its
/// caption starts a line, its caption does not start with a colon, its key
/// holds no line feed, and not both are white space.
pub open spec fn readable(record: Caption) -> bool {
    &&& !has_line_colon(record.key)
    &&& !has_line_colon(record.val)
    &&& (record.val.len() > 0 ==> record.val[0] != ':')
    &&& !has_line_feed(record.key)
    &&& !(is_blank(record.key) && is_blank(record.val))
}

/// The record as it is read back: key and caption without the white space
/// around them.
pub open spec fn tidy(record: Caption) -> Caption {
    Caption { key: trimmed(record.key), val: trimmed(record.val) }
}

/// The records as they are read back.
pub open spec fn tidied(records: Seq<Caption>) -> Seq<Caption> {
    Seq::new(records.len(), |i: int| tidy(records[i]))
}

/// What follows the marker in the block of a record.
pub open spec fn chunk_of(key: Seq<char>, body: Seq<char>) -> Seq<char> {
    seq![' '] + key + seq!['\r', '\n', '\r', '\n'] + body + seq!['\r', '\n', '\r', '\n', '\r', '\n']
}

/// A block is a marker and the chunk after it.
proof fn lemma_block_shape(key: Seq<char>, body: Seq<char>)
    ensures
        block(key, body) == seq![':'] + chunk_of(key, body),
        block(key, body).len() == key.len() + body.len() + 12,
        block(key, body).last() == '\n',
{
    reveal_strlit(": ");
    reveal_strlit("\r\n");
}

/// A text that is written is empty or ends in a line feed.
proof fn lemma_compiled_ends_line(
    records: Seq<Caption>,
    inserted: Map<Seq<char>, Option<Seq<char>>>,
    files: Seq<CaptionText>,
)
    ensures
        compiled(records, inserted, files).len() == 0 || compiled(records, inserted, files).last()
            == '\n',
{
    if records.len() > 0 {
        lemma_block_shape(
            records.last().key,
            crate::subtitles::body_of(records.last(), inserted, files),
        );
    }
}

/// A marker and a text without line colons, put behind a text that is
/// empty or ends a line, add one chunk: that text.
proof fn lemma_chunks_append(text: Seq<char>, rest: Seq<char>)
    requires
        text.len() == 0 || is_line_end(text.last()),
        !has_line_colon(rest),
    ensures
        raw_chunks(text + seq![':'] + rest) == raw_chunks(text).push(rest),
    decreases rest.len(),
{
    let whole = text + seq![':'] + rest;
    if rest.len() == 0 {
        assert(whole.drop_last() =~= text);
        assert(rest =~= Seq::empty());
    } else {
        let shorter = rest.drop_last();
        assert(!has_line_colon(shorter)) by {
            if has_line_colon(shorter) {
                let j = choose|j: int|
                    0 < j < shorter.len() && #[trigger] shorter[j] == ':' && is_line_end(
                        shorter[j - 1],
                    );
                assert(rest[j] == ':' && is_line_end(rest[j - 1]));
            }
        }
        lemma_chunks_append(text, shorter);
        assert(whole.drop_last() =~= text + seq![':'] + shorter);
        assert(shorter.push(rest.last()) =~= rest);
    }
}

/// The chunk of a readable record has no line colon.
proof fn lemma_chunk_has_no_line_colon(record: Caption)
    requires
        readable(record),
    ensures
        !has_line_colon(chunk_of(record.key, record.val)),
{
    let chunk = chunk_of(record.key, record.val);
    assert(chunk.len() == record.key.len() + record.val.len() + 11);
}

/// The first line break is where no line break comes before it.
proof fn lemma_line_break_at(chunk: Seq<char>, from: int, at: int)
    requires
        0 <= from <= at,
        breaks_line(chunk, at),
        forall|i: int| from <= i < at ==> !breaks_line(chunk, i),
    ensures
        line_break_from(chunk, from) == at,
    decreases at - from,
{
    if from < at {
        lemma_line_break_at(chunk, from + 1, at);
    }
}

/// The chunk of a readable record holds text, and reads back as the
/// record without the white space around its key and its caption.
proof fn lemma_chunk_reads_back(record: Caption)
    requires
        readable(record),
    ensures
        !is_blank(chunk_of(record.key, record.val)),
        parse_chunk(chunk_of(record.key, record.val)) == Some(tidy(record)),
{
    let key = record.key;
    let val = record.val;
    let chunk = chunk_of(key, val);
    let k = key.len() as int;
    let at = k + 1;
    assert(!is_blank(chunk)) by {
        if !is_blank(key) {
            let i = choose|i: int| 0 <= i < key.len() && !is_space(#[trigger] key[i]);
            assert(chunk[i + 1] == key[i]);
        } else {
            let i = choose|i: int| 0 <= i < val.len() && !is_space(#[trigger] val[i]);
            assert(chunk[k + 5 + i] == val[i]);
        }
    }
    assert forall|i: int| 0 <= i < at implies !breaks_line(chunk, i) by {
        if 0 < i {
            assert(chunk[i] == key[i - 1]);
            assert(key[i - 1] != '\n');
        }
    }
    assert(chunk[at] == '\r' && chunk[at + 1] == '\n');
    lemma_line_break_at(chunk, 0, at);
    let lead = seq![' '];
    let none = Seq::<char>::empty();
    assert(chunk.take(at) =~= lead + key + none);
    lemma_trimmed_padded(lead, key, none);
    let before = seq!['\r', '\n'];
    let behind = seq!['\r', '\n', '\r', '\n', '\r', '\n'];
    assert(chunk.skip(at + 2) =~= before + val + behind);
    lemma_trimmed_padded(before, val, behind);
}

/// The chunks of the records, behind the empty chunk that precedes the
/// first marker.
pub open spec fn chunks_of(records: Seq<Caption>) -> Seq<Seq<char>> {
    Seq::new(
        records.len() + 1,
        |i: int|
            if i == 0 {
                Seq::empty()
            } else {
                chunk_of(records[i - 1].key, records[i - 1].val)
            },
    )
}

/// A text written without insertions falls apart into the chunks of its
/// records.
proof fn lemma_chunks_of_compiled(records: Seq<Caption>, files: Seq<CaptionText>)
    requires
        forall|i: int| 0 <= i < records.len() ==> readable(#[trigger] records[i]),
    ensures
        raw_chunks(compiled(records, Map::empty(), files)) == chunks_of(records),
    decreases records.len(),
{
    let inserted = Map::<Seq<char>, Option<Seq<char>>>::empty();
    if records.len() > 0 {
        let shorter = records.drop_last();
        let last = records.last();
        lemma_chunks_of_compiled(shorter, files);
        let earlier = compiled(shorter, inserted, files);
        lemma_compiled_ends_line(shorter, inserted, files);
        lemma_chunk_has_no_line_colon(last);
        lemma_block_shape(last.key, last.val);
        let rest = chunk_of(last.key, last.val);
        lemma_chunks_append(earlier, rest);
        assert(compiled(records, inserted, files) =~= earlier + seq![':'] + rest);
    }
}

/// The chunks of readable records read back as the records, tidied.
proof fn lemma_chunks_read_back(records: Seq<Caption>)
    requires
        forall|i: int| 0 <= i < records.len() ==> readable(#[trigger] records[i]),
    ensures
        parse_chunks(chunks_of(records)) == Ok::<Seq<Caption>, Seq<char>>(tidied(records)),
    decreases records.len(),
{
    let chunks = chunks_of(records);
    if records.len() == 0 {
        assert(parse_chunks(chunks.drop_last()) == Ok::<Seq<Caption>, Seq<char>>(Seq::empty()));
        assert(tidied(records) =~= Seq::empty());
    } else {
        let shorter = records.drop_last();
        let last = records.last();
        lemma_chunks_read_back(shorter);
        assert(chunks.drop_last() =~= chunks_of(shorter));
        lemma_chunk_reads_back(last);
        assert(tidied(records) =~= tidied(shorter).push(tidy(last)));
    }
}

/// Writing records without insertions and reading the text back gives the
/// records again, in order, each with its key and its caption freed of the
/// white space around them. This holds of records that are
/// [`readable`].
pub proof fn lemma_parse_of_compiled(records: Seq<Caption>, files: Seq<CaptionText>)
    requires
        forall|i: int| 0 <= i < records.len() ==> readable(#[trigger] records[i]),
    ensures
        parsed(compiled(records, Map::empty(), files)) == Ok::<Seq<Caption>, Seq<char>>(
            tidied(records),
        ),
{
    lemma_chunks_of_compiled(records, files);
    lemma_chunks_read_back(records);
}

} // verus!
