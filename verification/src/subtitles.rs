//! The subtitle database: an ordered list of captions by key, kept in a
//! text file.

use crate::ops::{FileOp, Op};
use crate::paths::{joined, subtitles_name, subtitles_path};
use crate::plan::SubsInsertionMap;
use crate::text::{
    all_whitespace, chars_of, is_blank, same_text, substring, trim_bounds, trimmed,
};
use regex::Regex;
use vstd::prelude::*;

verus! {

/// One caption of the subtitle database.
#[derive(Debug, Clone, PartialEq, Eq)]
pub struct Subtitle {
    /// The caption's key.
    pub key: String,
    /// The caption's text. It may be empty and may span several lines.
    pub val: String,
}

/// The mathematical value of a [`Subtitle`].
pub struct Caption {
    pub key: Seq<char>,
    pub val: Seq<char>,
}

impl View for Subtitle {
    type V = Caption;

    open spec fn view(&self) -> Caption {
        Caption { key: self.key@, val: self.val@ }
    }
}

/// The values of a list of captions, in order.
pub open spec fn caption_views(subs: Seq<Subtitle>) -> Seq<Caption> {
    Seq::new(subs.len(), |i: int| subs[i]@)
}

/// The text of the last caption stored under `key`, if there is one.
pub open spec fn caption_of(subs: Seq<Caption>, key: Seq<char>) -> Option<Seq<char>>
    decreases subs.len(),
{
    if subs.len() == 0 {
        None
    } else if subs.last().key == key {
        Some(subs.last().val)
    } else {
        caption_of(subs.drop_last(), key)
    }
}

/// Looks up the text of the last caption stored under `key`.
pub fn find_caption<'a>(subs: &'a Vec<Subtitle>, key: &str) -> (r: Option<&'a String>)
    ensures
        match r {
            Some(text) => caption_of(caption_views(subs@), key@) == Some(text@),
            None => caption_of(caption_views(subs@), key@).is_none(),
        },
{
    let ghost all = caption_views(subs@);
    let mut i: usize = subs.len();
    assert(all.take(subs@.len() as int) =~= all);
    while i > 0
        invariant
            i <= subs@.len(),
            all == caption_views(subs@),
            caption_of(all, key@) == caption_of(all.take(i as int), key@),
        decreases i,
    {
        i -= 1;
        proof {
            assert(all.take(i + 1).drop_last() =~= all.take(i as int));
        }
        if same_text(subs[i].key.as_str(), key) {
            return Some(&subs[i].val);
        }
    }
    None
}

/// Why a subtitle database cannot be parsed.
#[derive(Debug, Clone, PartialEq, Eq)]
pub enum SubtitleError {
    /// A record has text but no line break after its key.
    MalformedChunk { chunk: String },
}

/// Whether position `i` of `text` holds a record marker: a colon at the
/// start of a line. A line starts at the start of the text and after every
/// carriage return or line feed.
pub open spec fn is_marker(text: Seq<char>, i: int) -> bool {
    &&& 0 <= i < text.len()
    &&& text[i] == ':'
    &&& (i == 0 || text[i - 1] == '\n' || text[i - 1] == '\r')
}

/// The pieces of `text` between its record markers, in order. A text with
/// `n` markers has `n + 1` pieces; the first is what precedes the first
/// marker.
pub open spec fn raw_chunks(text: Seq<char>) -> Seq<Seq<char>>
    decreases text.len(),
{
    if text.len() == 0 {
        seq![Seq::empty()]
    } else {
        let earlier = raw_chunks(text.drop_last());
        if is_marker(text, text.len() - 1) {
            earlier.push(Seq::empty())
        } else {
            earlier.drop_last().push(earlier.last().push(text.last()))
        }
    }
}

/// The regular expression that matches a record marker: a colon at the
/// start of a line, where lines end in a carriage return, a line feed or
/// both.
pub open spec fn marker_pattern() -> Seq<char> {
    "(?mR)^:"@
}

/// The views of a list of texts, in order.
pub open spec fn text_views(texts: Seq<String>) -> Seq<Seq<char>> {
    Seq::new(texts.len(), |i: int| texts[i]@)
}

/// Compiles `pattern` with `regex::Regex::new` and cuts `text` with
/// `Regex::split`, which yields the parts of the text that no match
/// covers.
///
/// Trusted: with the marker pattern, the multi-line and CRLF flags make
/// `^` match at the start of the text and after each carriage return or
/// line feed that is not the first half of a carriage return and line feed
/// pair; so the matches are the colons that [`is_marker`] describes, and
/// the parts are [`raw_chunks`].
#[verifier::external_body]
fn split_text(pattern: &str, text: &str) -> (chunks: Vec<String>)
    requires
        pattern@ == marker_pattern(),
    ensures
        text_views(chunks@) == raw_chunks(text@),
{
    let pattern = Regex::new(pattern).unwrap();
    pattern.split(text).map(|chunk| chunk.to_owned()).collect()
}

/// Whether a line break starts at position `i` of `chunk`: a line feed, or
/// a carriage return with a line feed directly behind it.
pub open spec fn breaks_line(chunk: Seq<char>, i: int) -> bool {
    &&& 0 <= i < chunk.len()
    &&& (chunk[i] == '\n' || (chunk[i] == '\r' && i + 1 < chunk.len() && chunk[i + 1] == '\n'))
}

/// How many characters the line break that starts at `at` takes: two for a
/// carriage return and a line feed, one for a line feed alone.
pub open spec fn break_len(chunk: Seq<char>, at: int) -> int {
    if chunk[at] == '\r' {
        2
    } else {
        1
    }
}

/// Where the first line break of `chunk` at or after `from` starts; the
/// length of `chunk` when there is none.
pub open spec fn line_break_from(chunk: Seq<char>, from: int) -> int
    decreases chunk.len() - from,
{
    if from < 0 || from >= chunk.len() {
        chunk.len() as int
    } else if breaks_line(chunk, from) {
        from
    } else {
        line_break_from(chunk, from + 1)
    }
}

/// The record that a chunk holds: its key is what precedes the first line
/// break, its text what follows that line break, both without the white
/// space around them. The line break is a carriage return and a line feed,
/// or a line feed alone, whichever comes first. A chunk without a line
/// break holds no record.
pub open spec fn parse_chunk(chunk: Seq<char>) -> Option<Caption> {
    let at = line_break_from(chunk, 0);
    if at < chunk.len() {
        Some(
            Caption {
                key: trimmed(chunk.take(at)),
                val: trimmed(chunk.skip(at + break_len(chunk, at))),
            },
        )
    } else {
        None
    }
}

/// The records of a list of chunks, in order. A chunk of white space is
/// passed over. The first chunk that is neither white space nor a record
/// is the error.
pub open spec fn parse_chunks(chunks: Seq<Seq<char>>) -> Result<Seq<Caption>, Seq<char>>
    decreases chunks.len(),
{
    if chunks.len() == 0 {
        Ok(Seq::empty())
    } else {
        match parse_chunks(chunks.drop_last()) {
            Err(bad) => Err(bad),
            Ok(records) => if is_blank(chunks.last()) {
                Ok(records)
            } else {
                match parse_chunk(chunks.last()) {
                    Some(record) => Ok(records.push(record)),
                    None => Err(chunks.last()),
                }
            },
        }
    }
}

/// The records of a subtitle database.
pub open spec fn parsed(text: Seq<char>) -> Result<Seq<Caption>, Seq<char>> {
    parse_chunks(raw_chunks(text))
}

/// Finds the first line break of `chunk`: where it starts, and where the
/// text behind it starts. Both are the length of `chunk` when there is
/// none.
fn find_line_break(chunk: &Vec<char>) -> (r: (usize, usize))
    ensures
        r.0 == line_break_from(chunk@, 0),
        r.0 <= r.1 <= chunk@.len(),
        r.0 < chunk@.len() ==> r.1 == r.0 + break_len(chunk@, r.0 as int),
        r.0 == chunk@.len() ==> r.1 == chunk@.len(),
{
    let n: usize = chunk.len();
    let mut i: usize = 0;
    while i < n
        invariant
            n == chunk@.len(),
            i <= n,
            line_break_from(chunk@, 0) == line_break_from(chunk@, i as int),
        decreases n - i,
    {
        if chunk[i] == '\n' {
            return (i, i + 1);
        }
        if chunk[i] == '\r' && n - i > 1 && chunk[i + 1] == '\n' {
            return (i, i + 2);
        }
        i += 1;
    }
    (n, n)
}

/// Reads one chunk: `None` for white space, else the record or the error.
pub fn read_chunk(chunk: &str) -> (r: Option<Result<Subtitle, SubtitleError>>)
    ensures
        match r {
            None => is_blank(chunk@),
            Some(Ok(record)) => !is_blank(chunk@) && parse_chunk(chunk@) == Some(record@),
            Some(Err(SubtitleError::MalformedChunk { chunk: bad })) => !is_blank(chunk@)
                && parse_chunk(chunk@).is_none() && bad@ == chunk@,
        },
{
    let chars = chars_of(chunk);
    if all_whitespace(&chars) {
        return None;
    }
    let n: usize = chars.len();
    let (at, after) = find_line_break(&chars);
    if at >= n {
        return Some(Err(SubtitleError::MalformedChunk { chunk: chunk.to_owned() }));
    }
    let (key_from, key_to) = trim_bounds(&chars, 0, at);
    let (val_from, val_to) = trim_bounds(&chars, after, n);
    Some(
        Ok(
            Subtitle {
                key: substring(&chars, key_from, key_to),
                val: substring(&chars, val_from, val_to),
            },
        ),
    )
}

/// Parses the text of a subtitle database into its records, in order.
///
/// A record starts at a colon that begins a line. What follows the colon
/// up to the first line break is the key; the rest, up to the next record,
/// is the caption. Lines may end in a carriage return and a line feed or
/// in a line feed alone. Key and caption lose the white space around them.
/// Text before the first record is passed over if it is white space.
///
/// Fails exactly when some chunk holds text but no line break, and hands
/// back the first such chunk.
pub fn load_subtitles(raw: &str) -> (r: Result<Vec<Subtitle>, SubtitleError>)
    ensures
        match r {
            Ok(records) => parsed(raw@) == Ok::<Seq<Caption>, Seq<char>>(caption_views(records@)),
            Err(SubtitleError::MalformedChunk { chunk }) => parsed(raw@) == Err::<
                Seq<Caption>,
                Seq<char>,
            >(chunk@),
        },
{
    let chunks = split_text("(?mR)^:", raw);
    let ghost all = raw_chunks(raw@);
    let mut records: Vec<Subtitle> = Vec::new();
    let mut i: usize = 0;
    assert(caption_views(records@) =~= Seq::empty());
    while i < chunks.len()
        invariant
            i <= chunks@.len(),
            all == raw_chunks(raw@),
            all == text_views(chunks@),
            parse_chunks(all.take(i as int)) == Ok::<Seq<Caption>, Seq<char>>(
                caption_views(records@),
            ),
        decreases chunks@.len() - i,
    {
        proof {
            assert(all.take(i + 1).drop_last() =~= all.take(i as int));
        }
        let ghost before = records@;
        match read_chunk(chunks[i].as_str()) {
            None => {},
            Some(Ok(record)) => {
                records.push(record);
                assert(caption_views(records@) =~= caption_views(before).push(record@));
            },
            Some(Err(e)) => {
                proof {
                    lemma_parse_failure_stays(all, i + 1);
                }
                return Err(e);
            },
        }
        i += 1;
    }
    assert(all.take(chunks@.len() as int) =~= all);
    Ok(records)
}

/// Once a chunk has failed, the chunks after it change nothing.
proof fn lemma_parse_failure_stays(chunks: Seq<Seq<char>>, n: int)
    requires
        0 <= n <= chunks.len(),
        parse_chunks(chunks.take(n)) is Err,
    ensures
        parse_chunks(chunks) == parse_chunks(chunks.take(n)),
    decreases chunks.len() - n,
{
    if n < chunks.len() {
        assert(chunks.take(n + 1).drop_last() =~= chunks.take(n));
        lemma_parse_failure_stays(chunks, n + 1);
    } else {
        assert(chunks.take(n) =~= chunks);
    }
}

/// A caption file that the host could read.
#[derive(Debug, Clone, PartialEq, Eq)]
pub struct CaptionFile {
    /// The file's path, as the insertion plan names it.
    pub path: String,
    /// What the file holds.
    pub text: String,
}

/// The mathematical value of a [`CaptionFile`].
pub struct CaptionText {
    pub path: Seq<char>,
    pub text: Seq<char>,
}

impl View for CaptionFile {
    type V = CaptionText;

    open spec fn view(&self) -> CaptionText {
        CaptionText { path: self.path@, text: self.text@ }
    }
}

/// The values of a list of caption files, in order.
pub open spec fn file_views(files: Seq<CaptionFile>) -> Seq<CaptionText> {
    Seq::new(files.len(), |i: int| files[i]@)
}

/// What the last file listed under `path` holds, if one is listed.
pub open spec fn text_at(files: Seq<CaptionText>, path: Seq<char>) -> Option<Seq<char>>
    decreases files.len(),
{
    if files.len() == 0 {
        None
    } else if files.last().path == path {
        Some(files.last().text)
    } else {
        text_at(files.drop_last(), path)
    }
}

/// The caption that a record is written with: its own, unless the
/// insertion mapping has an entry for its key. An entry with a path gives
/// what that file holds, or nothing when the file could not be read; an
/// entry without a path gives nothing.
pub open spec fn body_of(
    record: Caption,
    inserted: Map<Seq<char>, Option<Seq<char>>>,
    files: Seq<CaptionText>,
) -> Seq<char> {
    if inserted.dom().contains(record.key) {
        match inserted[record.key] {
            Some(path) => match text_at(files, path) {
                Some(text) => text,
                None => Seq::empty(),
            },
            None => Seq::empty(),
        }
    } else {
        record.val
    }
}

/// The block of one record: the marker and the key on a line, an empty
/// line, the caption, and two empty lines; every line ended by a carriage
/// return and a line feed.
pub open spec fn block(key: Seq<char>, body: Seq<char>) -> Seq<char> {
    ": "@ + key + "\r\n"@ + "\r\n"@ + body + "\r\n"@ + "\r\n"@ + "\r\n"@
}

/// The text of a subtitle database with the given records, in order, each
/// with the caption that the insertion mapping gives it.
pub open spec fn compiled(
    records: Seq<Caption>,
    inserted: Map<Seq<char>, Option<Seq<char>>>,
    files: Seq<CaptionText>,
) -> Seq<char>
    decreases records.len(),
{
    if records.len() == 0 {
        Seq::empty()
    } else {
        compiled(records.drop_last(), inserted, files) + block(
            records.last().key,
            body_of(records.last(), inserted, files),
        )
    }
}

/// Looks up what the last file listed under `path` holds.
pub fn find_text<'a>(files: &'a Vec<CaptionFile>, path: &str) -> (r: Option<&'a String>)
    ensures
        match r {
            Some(text) => text_at(file_views(files@), path@) == Some(text@),
            None => text_at(file_views(files@), path@).is_none(),
        },
{
    let ghost all = file_views(files@);
    let mut i: usize = files.len();
    assert(all.take(files@.len() as int) =~= all);
    while i > 0
        invariant
            i <= files@.len(),
            all == file_views(files@),
            text_at(all, path@) == text_at(all.take(i as int), path@),
        decreases i,
    {
        i -= 1;
        proof {
            assert(all.take(i + 1).drop_last() =~= all.take(i as int));
        }
        if same_text(files[i].path.as_str(), path) {
            return Some(&files[i].text);
        }
    }
    None
}

/// Writes the text of a subtitle database.
///
/// Every record of `subtitles` gets one block, in order. A record whose
/// key has no entry in `inserted` keeps its caption. A record whose key is
/// mapped to a caption file gets what that file holds; `files` lists the
/// caption files that could be read, and a file that is not listed counts
/// as empty. A record whose key is mapped to no file gets an empty
/// caption. Every line ends in a carriage return and a line feed.
pub fn compile_subtitles(
    subtitles: &Vec<Subtitle>,
    inserted: &SubsInsertionMap,
    files: &Vec<CaptionFile>,
) -> (out: String)
    ensures
        out@ == compiled(caption_views(subtitles@), inserted@, file_views(files@)),
{
    let ghost records = caption_views(subtitles@);
    let mut out = String::new();
    let mut i: usize = 0;
    while i < subtitles.len()
        invariant
            i <= subtitles@.len(),
            records == caption_views(subtitles@),
            out@ == compiled(records.take(i as int), inserted@, file_views(files@)),
        decreases subtitles@.len() - i,
    {
        let record = &subtitles[i];
        proof {
            assert(records.take(i + 1).drop_last() =~= records.take(i as int));
        }
        out.append(": ");
        out.append(record.key.as_str());
        out.append("\r\n");
        out.append("\r\n");
        match inserted.get(record.key.as_str()) {
            Some(Some(path)) => match find_text(files, path.as_str()) {
                Some(text) => {
                    out.append(text.as_str());
                },
                None => {},
            },
            Some(None) => {},
            None => {
                out.append(record.val.as_str());
            },
        }
        out.append("\r\n");
        out.append("\r\n");
        out.append("\r\n");
        i += 1;
    }
    assert(records.take(subtitles@.len() as int) =~= records);
    out
}

/// The command that rewrites the caption database of the installation:
/// the text that [`compile_subtitles`] gives, written over the live file.
pub fn insert_subtitles(
    witness_dir: &str,
    subtitles: &Vec<Subtitle>,
    inserted: &SubsInsertionMap,
    files: &Vec<CaptionFile>,
) -> (op: FileOp)
    ensures
        op@ == (Op::WriteText {
            path: joined(witness_dir@, subtitles_name()),
            text: compiled(caption_views(subtitles@), inserted@, file_views(files@)),
        }),
{
    FileOp::WriteText {
        path: subtitles_path(witness_dir),
        text: compile_subtitles(subtitles, inserted, files),
    }
}

} // verus!
