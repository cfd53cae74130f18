//! Texts as sequences of characters.

use vstd::prelude::*;

verus! {

/// `String::push` appends one character to the end of the string.
pub assume_specification[ String::push ](s: &mut String, c: char)
    ensures
        final(s)@ == old(s)@.push(c),
;

/// Comparing two string slices with `==` tells whether they hold the same
/// characters.
pub assume_specification[ <str as PartialEq>::eq ](a: &str, b: &str) -> (r: bool)
    ensures
        r == (a@ == b@),
;

/// Whether two texts hold the same characters.
pub fn same_text(a: &str, b: &str) -> (r: bool)
    ensures
        r == (a@ == b@),
{
    a.eq(b)
}

/// The view of an optional text.
pub open spec fn opt_text(t: Option<String>) -> Option<Seq<char>> {
    match t {
        Some(s) => Some(s@),
        None => None,
    }
}

/// A copy of an optional text.
pub fn clone_opt(t: &Option<String>) -> (r: Option<String>)
    ensures
        opt_text(r) == opt_text(*t),
{
    match t {
        Some(s) => Some(s.clone()),
        None => None,
    }
}

/// The characters of `s`, in order.
pub fn chars_of(s: &str) -> (v: Vec<char>)
    ensures
        v@ == s@,
{
    let mut v: Vec<char> = Vec::new();
    for c in it: s.chars()
        invariant
            v@ == it.seq().take(it.index() as int),
            it.seq() == s@,
    {
        v.push(c);
    }
    v
}

/// Whether `c` is white space: one of the characters with the Unicode
/// property `White_Space`.
pub open spec fn is_space(c: char) -> bool {
    let n = c as u32;
    ||| 0x09 <= n <= 0x0D
    ||| n == 0x20
    ||| n == 0x85
    ||| n == 0xA0
    ||| n == 0x1680
    ||| 0x2000 <= n <= 0x200A
    ||| n == 0x2028
    ||| n == 0x2029
    ||| n == 0x202F
    ||| n == 0x205F
    ||| n == 0x3000
}

/// Whether `c` is white space.
pub fn is_whitespace(c: char) -> (r: bool)
    ensures
        r == is_space(c),
{
    let n: u32 = c as u32;
    (0x09 <= n && n <= 0x0D) || n == 0x20 || n == 0x85 || n == 0xA0 || n == 0x1680 || (0x2000 <= n
        && n <= 0x200A) || n == 0x2028 || n == 0x2029 || n == 0x202F || n == 0x205F || n == 0x3000
}

/// Every character of `s` is white space.
pub open spec fn is_blank(s: Seq<char>) -> bool {
    forall|i: int| 0 <= i < s.len() ==> is_space(#[trigger] s[i])
}

/// `s` without the white space it starts with.
pub open spec fn trim_start(s: Seq<char>) -> Seq<char>
    decreases s.len(),
{
    if s.len() > 0 && is_space(s.first()) {
        trim_start(s.drop_first())
    } else {
        s
    }
}

/// `s` without the white space it ends with.
pub open spec fn trim_end(s: Seq<char>) -> Seq<char>
    decreases s.len(),
{
    if s.len() > 0 && is_space(s.last()) {
        trim_end(s.drop_last())
    } else {
        s
    }
}

/// `s` without the white space around it.
pub open spec fn trimmed(s: Seq<char>) -> Seq<char> {
    trim_end(trim_start(s))
}

/// Finds the part of `v` between `from` and `to` that is left when the
/// white space around it is taken away.
pub fn trim_bounds(v: &Vec<char>, from: usize, to: usize) -> (r: (usize, usize))
    requires
        from <= to <= v@.len(),
    ensures
        from <= r.0 <= r.1 <= to,
        v@.subrange(r.0 as int, r.1 as int) == trimmed(v@.subrange(from as int, to as int)),
{
    let mut a: usize = from;
    while a < to && is_whitespace(v[a])
        invariant
            from <= a <= to <= v@.len(),
            trim_start(v@.subrange(from as int, to as int)) == trim_start(
                v@.subrange(a as int, to as int),
            ),
        decreases to - a,
    {
        proof {
            let s = v@.subrange(a as int, to as int);
            assert(s.drop_first() =~= v@.subrange(a + 1, to as int));
        }
        a += 1;
    }
    let mut b: usize = to;
    while b > a && is_whitespace(v[b - 1])
        invariant
            a <= b <= to <= v@.len(),
            trim_end(v@.subrange(a as int, to as int)) == trim_end(v@.subrange(a as int, b as int)),
        decreases b,
    {
        proof {
            let s = v@.subrange(a as int, b as int);
            assert(s.drop_last() =~= v@.subrange(a as int, b - 1));
        }
        b -= 1;
    }
    (a, b)
}

/// Whether every character of `v` is white space.
pub fn all_whitespace(v: &Vec<char>) -> (r: bool)
    ensures
        r == is_blank(v@),
{
    let mut i: usize = 0;
    while i < v.len()
        invariant
            i <= v@.len(),
            forall|j: int| 0 <= j < i ==> is_space(#[trigger] v@[j]),
        decreases v@.len() - i,
    {
        if !is_whitespace(v[i]) {
            return false;
        }
        i += 1;
    }
    true
}

/// The string made of the characters of `v` from `from` up to `to`.
pub fn substring(v: &Vec<char>, from: usize, to: usize) -> (s: String)
    requires
        from <= to <= v@.len(),
    ensures
        s@ == v@.subrange(from as int, to as int),
{
    let mut s = String::new();
    let mut i: usize = from;
    while i < to
        invariant
            from <= i <= to <= v@.len(),
            s@ == v@.subrange(from as int, i as int),
        decreases to - i,
    {
        s.push(v[i]);
        i += 1;
    }
    s
}

/// White space alone trims to nothing.
pub proof fn lemma_trim_start_blank(w: Seq<char>)
    requires
        is_blank(w),
    ensures
        trim_start(w) == Seq::<char>::empty(),
    decreases w.len(),
{
    if w.len() > 0 {
        lemma_trim_start_blank(w.drop_first());
    }
}

/// White space in front leaves no trace.
pub proof fn lemma_trim_start_prepend(w: Seq<char>, v: Seq<char>)
    requires
        is_blank(w),
    ensures
        trim_start(w + v) == trim_start(v),
    decreases w.len(),
{
    if w.len() > 0 {
        assert((w + v).drop_first() =~= w.drop_first() + v);
        lemma_trim_start_prepend(w.drop_first(), v);
    }
}

/// White space behind a text stays behind what is left of the text, if
/// anything is left.
pub proof fn lemma_trim_start_append(v: Seq<char>, w: Seq<char>)
    requires
        is_blank(w),
    ensures
        trim_start(v + w) == if is_blank(v) {
            Seq::<char>::empty()
        } else {
            trim_start(v) + w
        },
    decreases v.len(),
{
    if v.len() == 0 {
        lemma_trim_start_blank(w);
    } else if is_space(v[0]) {
        assert((v + w).drop_first() =~= v.drop_first() + w);
        lemma_trim_start_append(v.drop_first(), w);
        if !is_blank(v) {
            let i = choose|i: int| 0 <= i < v.len() && !is_space(#[trigger] v[i]);
            assert(v.drop_first()[i - 1] == v[i]);
        }
    }
}

/// White space behind leaves no trace.
pub proof fn lemma_trim_end_append(u: Seq<char>, w: Seq<char>)
    requires
        is_blank(w),
    ensures
        trim_end(u + w) == trim_end(u),
    decreases w.len(),
{
    if w.len() > 0 {
        assert((u + w).drop_last() =~= u + w.drop_last());
        lemma_trim_end_append(u, w.drop_last());
    }
}

/// White space around a text leaves no trace when the text is trimmed.
pub proof fn lemma_trimmed_padded(a: Seq<char>, v: Seq<char>, b: Seq<char>)
    requires
        is_blank(a),
        is_blank(b),
    ensures
        trimmed(a + v + b) == trimmed(v),
{
    assert(a + v + b =~= a + (v + b));
    lemma_trim_start_prepend(a, v + b);
    lemma_trim_start_append(v, b);
    if is_blank(v) {
        lemma_trim_start_blank(v);
    } else {
        lemma_trim_end_append(trim_start(v), b);
    }
}

} // verus!
