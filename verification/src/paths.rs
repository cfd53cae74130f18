//! Paths as texts, and the fixed places of an installation.
//!
//! A path is a text in which `/` and `\` separate components. Its file name
//! is what follows the last separator. A file name's extension is what
//! follows its last dot, unless that dot is the name's first character.
//!
//! These rules are the library's own, and they are the same on every
//! platform. They are not those of `std::path`:
//!
//! - `\` separates components everywhere, not only on Windows: a `\` inside
//!   a file name is taken for a separator.
//! - [`join`] always puts the child behind the base. An absolute child does
//!   not replace the base, and a drive prefix has no meaning.
//! - [`join`] puts a `/` between base and child, also on Windows.
//! - Nothing is normalised: a separator at the end of a path leaves an
//!   empty file name, and the names `.` and `..` are names like any other.
//!   So `dir/` has no stem here, and replacing the extension of `..a` gives
//!   `..sub`.
//!
//! On paths without `\` that end in a file name other than `.` and `..`,
//! stem and extension are what `std::path` gives on Unix.

use crate::text::chars_of;
use vstd::prelude::*;

verus! {

/// Whether `c` separates the components of a path.
pub open spec fn is_separator(c: char) -> bool {
    c == '/' || c == '\\'
}

/// `child` placed under the directory `base`: the two texts with one `/`
/// between them, unless `base` is empty or already ends in a separator.
pub open spec fn joined(base: Seq<char>, child: Seq<char>) -> Seq<char> {
    if base.len() == 0 || is_separator(base.last()) {
        base + child
    } else {
        base + seq!['/'] + child
    }
}

/// Where the file name of `path` starts: just after the last separator, or
/// at 0 when there is none.
pub open spec fn name_start(path: Seq<char>) -> int
    decreases path.len(),
{
    if path.len() == 0 {
        0
    } else if is_separator(path.last()) {
        path.len() as int
    } else {
        name_start(path.drop_last())
    }
}

/// Where the last dot of `name` is, or -1 when it has none.
pub open spec fn last_dot(name: Seq<char>) -> int
    decreases name.len(),
{
    if name.len() == 0 {
        -1
    } else if name.last() == '.' {
        name.len() - 1
    } else {
        last_dot(name.drop_last())
    }
}

/// The file name of `path`.
pub open spec fn file_name(path: Seq<char>) -> Seq<char> {
    path.skip(name_start(path))
}

/// How long the stem of the file name `name` is: up to its last dot, or
/// all of it when it has no dot after its first character.
pub open spec fn stem_len(name: Seq<char>) -> int {
    if last_dot(name) > 0 {
        last_dot(name)
    } else {
        name.len() as int
    }
}

/// The file name of `path` without its extension.
pub open spec fn file_stem(path: Seq<char>) -> Seq<char> {
    file_name(path).take(stem_len(file_name(path)))
}

/// The extension of `path`, if its file name has one.
pub open spec fn extension(path: Seq<char>) -> Option<Seq<char>> {
    let name = file_name(path);
    if last_dot(name) > 0 {
        Some(name.skip(last_dot(name) + 1))
    } else {
        None
    }
}

/// `path` with the extension of its file name replaced by `ext`, or with
/// `ext` added when it had none.
pub open spec fn with_extension(path: Seq<char>, ext: Seq<char>) -> Seq<char> {
    path.take(name_start(path) + stem_len(file_name(path))) + seq!['.'] + ext
}

/// Different names give different paths under one directory.
pub proof fn lemma_joined_injective(base: Seq<char>, a: Seq<char>, b: Seq<char>)
    requires
        a != b,
    ensures
        joined(base, a) != joined(base, b),
{
    let front = joined(base, Seq::<char>::empty());
    assert(joined(base, a) =~= front + a);
    assert(joined(base, b) =~= front + b);
    if front + a == front + b {
        assert((front + a).skip(front.len() as int) =~= a);
        assert((front + b).skip(front.len() as int) =~= b);
    }
}

/// A position that starts the file name: every later character is no
/// separator, and the one before it, if any, is one.
proof fn lemma_name_start_is(path: Seq<char>, start: int)
    requires
        0 <= start <= path.len(),
        start > 0 ==> is_separator(path[start - 1]),
        forall|i: int| start <= i < path.len() ==> !is_separator(#[trigger] path[i]),
    ensures
        name_start(path) == start,
    decreases path.len(),
{
    if path.len() > 0 && !is_separator(path.last()) {
        lemma_name_start_is(path.drop_last(), start);
    }
}

/// A position that is the last dot: it holds a dot and no dot follows; or
/// it is -1 and there is no dot at all.
proof fn lemma_last_dot_is(name: Seq<char>, dot: int)
    requires
        -1 <= dot < name.len(),
        dot >= 0 ==> name[dot] == '.',
        forall|i: int| dot < i < name.len() ==> #[trigger] name[i] != '.',
    ensures
        last_dot(name) == dot,
    decreases name.len(),
{
    if name.len() > 0 && name.last() != '.' {
        lemma_last_dot_is(name.drop_last(), dot);
    }
}

/// Whether `c` separates the components of a path.
pub fn separates(c: char) -> (r: bool)
    ensures
        r == is_separator(c),
{
    c == '/' || c == '\\'
}

/// Places `child` under the directory `base`.
pub fn join(base: &str, child: &str) -> (path: String)
    ensures
        path@ == joined(base@, child@),
{
    let chars = chars_of(base);
    let mut path: String = base.to_owned();
    if chars.len() > 0 && !separates(chars[chars.len() - 1]) {
        path.push('/');
    }
    path.append(child);
    path
}

/// Finds where the file name of `path` starts and how long its stem is.
fn measure(path: &Vec<char>) -> (r: (usize, usize))
    ensures
        r.0 == name_start(path@),
        r.1 == stem_len(file_name(path@)),
        r.0 + r.1 <= path@.len(),
        r.0 + r.1 < path@.len() ==> last_dot(file_name(path@)) == r.1,
        r.0 + r.1 == path@.len() ==> last_dot(file_name(path@)) <= 0,
{
    let n: usize = path.len();
    let mut start: usize = n;
    while start > 0 && !separates(path[start - 1])
        invariant
            start <= n,
            n == path@.len(),
            forall|i: int| start <= i < n ==> !is_separator(#[trigger] path@[i]),
        decreases start,
    {
        start -= 1;
    }
    proof {
        lemma_name_start_is(path@, start as int);
    }
    let ghost name = file_name(path@);
    let mut dot: usize = n;
    while dot > start && path[dot - 1] != '.'
        invariant
            start <= dot <= n,
            n == path@.len(),
            name == path@.skip(start as int),
            forall|i: int| dot - start <= i < name.len() ==> #[trigger] name[i] != '.',
        decreases dot,
    {
        dot -= 1;
    }
    if dot > start {
        proof {
            lemma_last_dot_is(name, dot - 1 - start);
        }
        if dot - 1 > start {
            (start, dot - 1 - start)
        } else {
            (start, n - start)
        }
    } else {
        proof {
            lemma_last_dot_is(name, -1);
        }
        (start, n - start)
    }
}

/// The file name of `path` without its extension.
pub fn stem_of(path: &str) -> (stem: String)
    ensures
        stem@ == file_stem(path@),
{
    let chars = chars_of(path);
    let n: usize = chars.len();
    let (start, len) = measure(&chars);
    let mut stem = String::new();
    let mut i: usize = 0;
    while i < len
        invariant
            i <= len,
            start + len <= chars@.len(),
            chars@.len() == n,
            stem@ == chars@.subrange(start as int, start + i),
        decreases len - i,
    {
        stem.push(chars[start + i]);
        i += 1;
    }
    stem
}

/// Whether the extension of `path` is `ext`.
pub fn has_extension(path: &str, ext: &str) -> (r: bool)
    ensures
        r == (extension(path@) == Some(ext@)),
{
    let chars = chars_of(path);
    let wanted = chars_of(ext);
    let (start, len) = measure(&chars);
    let n: usize = chars.len();
    if start + len >= n {
        return false;
    }
    let from: usize = start + len + 1;
    if n - from != wanted.len() {
        return false;
    }
    let mut i: usize = 0;
    while i < wanted.len()
        invariant
            i <= wanted@.len(),
            from <= n,
            n == chars@.len(),
            n - from == wanted@.len(),
            extension(path@) == Some(chars@.skip(from as int)),
            wanted@ == ext@,
            forall|j: int| 0 <= j < i ==> chars@[from + j] == #[trigger] wanted@[j],
        decreases wanted@.len() - i,
    {
        if chars[from + i] != wanted[i] {
            return false;
        }
        i += 1;
    }
    assert(chars@.skip(from as int) =~= wanted@);
    true
}

/// Replaces the extension of `path` by `ext`.
pub fn replace_extension(path: &str, ext: &str) -> (r: String)
    ensures
        r@ == with_extension(path@, ext@),
{
    let chars = chars_of(path);
    let n: usize = chars.len();
    let (start, len) = measure(&chars);
    let keep: usize = start + len;
    let mut r = String::new();
    let mut i: usize = 0;
    while i < keep
        invariant
            i <= keep <= chars@.len(),
            r@ == chars@.take(i as int),
        decreases keep - i,
    {
        r.push(chars[i]);
        i += 1;
    }
    r.push('.');
    r.append(ext);
    r
}

/// Name of the packed asset archive inside the installation.
pub open spec fn data_zip_name() -> Seq<char> {
    "data-pc.zip"@
}

/// Name of the backup of the packed asset archive.
pub open spec fn data_bak_name() -> Seq<char> {
    "data-pc.zip.bak"@
}

/// Name of the unpacked asset directory, the asset root.
pub open spec fn data_dir_name() -> Seq<char> {
    "data-pc"@
}

/// Name of the directory that holds packages while they are patched.
pub open spec fn tmp_dir_name() -> Seq<char> {
    "tmp"@
}

/// Name of the caption database.
pub open spec fn subtitles_name() -> Seq<char> {
    "data\\strings\\en.subtitles"@
}

/// Name of the backup of the caption database.
pub open spec fn subs_bak_name() -> Seq<char> {
    "data\\strings\\en.subtitles.bak"@
}

/// Name of the audio of the hidden film.
pub open spec fn secret_of_psalm_46_name() -> Seq<char> {
    "data/videos/psalm46.ogg"@
}

/// Where the audio of the hidden film lives.
pub fn secret_of_psalm_46_ogg_path(witness_dir: &str) -> (path: String)
    ensures
        path@ == joined(witness_dir@, secret_of_psalm_46_name()),
{
    join(witness_dir, "data/videos/psalm46.ogg")
}

/// Where the backup of the packed asset archive lives.
pub fn data_bak_path(witness_dir: &str) -> (path: String)
    ensures
        path@ == joined(witness_dir@, data_bak_name()),
{
    join(witness_dir, "data-pc.zip.bak")
}

/// Where the unpacked asset directory lives.
pub fn data_dir_path(witness_dir: &str) -> (path: String)
    ensures
        path@ == joined(witness_dir@, data_dir_name()),
{
    join(witness_dir, "data-pc")
}

/// Where the packed asset archive lives.
pub fn data_zip_path(witness_dir: &str) -> (path: String)
    ensures
        path@ == joined(witness_dir@, data_zip_name()),
{
    join(witness_dir, "data-pc.zip")
}

/// Where packages are unpacked while they are patched.
pub fn tmp_dir_path(witness_dir: &str) -> (path: String)
    ensures
        path@ == joined(witness_dir@, tmp_dir_name()),
{
    join(witness_dir, "tmp")
}

/// Where the caption database lives.
pub fn subtitles_path(witness_dir: &str) -> (path: String)
    ensures
        path@ == joined(witness_dir@, subtitles_name()),
{
    join(witness_dir, "data\\strings\\en.subtitles")
}

/// Where the backup of the caption database lives.
pub fn subs_bak_path(witness_dir: &str) -> (path: String)
    ensures
        path@ == joined(witness_dir@, subs_bak_name()),
{
    join(witness_dir, "data\\strings\\en.subtitles.bak")
}

} // verus!
