//! Text operations on `&str`, each proved against its meaning in
//! [`crate::chars`].

use vstd::prelude::*;
use crate::chars;

verus! {

/// The characters of `text`, in order.
pub fn chars_of(text: &str) -> (out: Vec<char>)
    ensures
        out@ == text@,
{
    let mut out: Vec<char> = Vec::new();
    for c in it: text.chars()
        invariant
            out@ == it.seq().take(it.index()),
            it.seq() == text@,
    {
        out.push(c);
    }
    out
}

/// Whether `c` is a whitespace character.
pub fn is_whitespace(c: char) -> (r: bool)
    ensures
        r == chars::is_whitespace(c),
{
    let n: u32 = c as u32;
    (0x09 <= n && n <= 0x0D) || n == 0x20 || n == 0x85 || n == 0xA0 || n == 0x1680 || (0x2000 <= n
        && n <= 0x200A) || n == 0x2028 || n == 0x2029 || n == 0x202F || n == 0x205F || n == 0x3000
}

/// Whether `a` and `b` hold the same characters.
pub fn equals(a: &str, b: &str) -> (r: bool)
    ensures
        r == (a@ == b@),
{
    let left = chars_of(a);
    let right = chars_of(b);
    if left.len() != right.len() {
        return false;
    }
    let mut i: usize = 0;
    while i < left.len()
        invariant
            left@ == a@,
            right@ == b@,
            left@.len() == right@.len(),
            i <= left@.len(),
            forall|j: int| 0 <= j < i ==> left@[j] == right@[j],
        decreases left@.len() - i,
    {
        if left[i] != right[i] {
            return false;
        }
        i += 1;
    }
    assert(left@ =~= right@);
    true
}

/// The place of the first character at or after `from` that is not
/// whitespace.
fn skip_whitespace(s: &Vec<char>, from: usize) -> (at: usize)
    requires
        from <= s@.len(),
    ensures
        at == chars::skip_whitespace(s@, from as int),
        from <= at <= s@.len(),
{
    let mut at: usize = from;
    while at < s.len() && is_whitespace(s[at])
        invariant
            from <= at <= s@.len(),
            chars::skip_whitespace(s@, from as int) == chars::skip_whitespace(s@, at as int),
        decreases s@.len() - at,
    {
        at += 1;
    }
    at
}

/// The place of the first whitespace character at or after `from`.
fn skip_word(s: &Vec<char>, from: usize) -> (at: usize)
    requires
        from <= s@.len(),
    ensures
        at == chars::skip_word(s@, from as int),
        from <= at <= s@.len(),
{
    let mut at: usize = from;
    while at < s.len() && !is_whitespace(s[at])
        invariant
            from <= at <= s@.len(),
            chars::skip_word(s@, from as int) == chars::skip_word(s@, at as int),
        decreases s@.len() - at,
    {
        at += 1;
    }
    at
}

/// The place of the first `c` at or after `from`.
fn find_char(s: &Vec<char>, c: char, from: usize) -> (at: usize)
    requires
        from <= s@.len(),
    ensures
        at == chars::find_char(s@, c, from as int),
        from <= at <= s@.len(),
{
    let mut at: usize = from;
    while at < s.len() && s[at] != c
        invariant
            from <= at <= s@.len(),
            chars::find_char(s@, c, from as int) == chars::find_char(s@, c, at as int),
        decreases s@.len() - at,
    {
        at += 1;
    }
    at
}

/// Whether `s` holds nothing but whitespace.
pub fn is_blank(s: &str) -> (r: bool)
    ensures
        r == chars::is_blank(s@),
{
    let cs = chars_of(s);
    let at = skip_whitespace(&cs, 0);
    proof {
        chars::lemma_skip_whitespace_bounds(cs@, 0);
    }
    at == cs.len()
}

/// Whether `s` holds the character `c`.
pub fn contains_char(s: &str, c: char) -> (r: bool)
    ensures
        r == s@.contains(c),
{
    let cs = chars_of(s);
    let at = find_char(&cs, c, 0);
    proof {
        chars::lemma_find_char_bounds(cs@, c, 0);
    }
    at < cs.len()
}

/// `s` without the whitespace at its start.
pub fn trim_start(s: &str) -> (r: &str)
    ensures
        r@ == chars::trim_start(s@),
{
    let cs = chars_of(s);
    let start = skip_whitespace(&cs, 0);
    s.substring_char(start, cs.len())
}

/// `s` without the whitespace at its end.
pub fn trim_end(s: &str) -> (r: &str)
    ensures
        r@ == chars::trim_end(s@),
{
    let cs = chars_of(s);
    let mut end: usize = cs.len();
    while end > 0 && is_whitespace(cs[end - 1])
        invariant
            end <= cs@.len(),
            chars::skip_whitespace_back(cs@, cs@.len() as int) == chars::skip_whitespace_back(
                cs@,
                end as int,
            ),
        decreases end,
    {
        end -= 1;
    }
    s.substring_char(0, end)
}

/// `s` without the whitespace at its start and at its end.
pub fn trim(s: &str) -> (r: &str)
    ensures
        r@ == chars::trim(s@),
{
    trim_end(trim_start(s))
}

/// `s` without one `c` at its end.
pub fn strip_last(s: &str, c: char) -> (r: &str)
    ensures
        r@ == chars::strip_last(s@, c),
{
    let cs = chars_of(s);
    if cs.len() > 0 && cs[cs.len() - 1] == c {
        s.substring_char(0, cs.len() - 1)
    } else {
        s
    }
}

/// Whether `s` ends in the character `c`.
pub fn ends_with_char(s: &str, c: char) -> (r: bool)
    ensures
        r == (s@.len() > 0 && s@.last() == c),
{
    let cs = chars_of(s);
    cs.len() > 0 && cs[cs.len() - 1] == c
}

/// What stands in `s` before its first `c`.
pub fn before_first(s: &str, c: char) -> (r: &str)
    ensures
        r@ == chars::before_first(s@, c),
{
    let cs = chars_of(s);
    let at = find_char(&cs, c, 0);
    s.substring_char(0, at)
}

/// Whether `needle` stands in `hay` at place `at`.
fn occurs_at(hay: &Vec<char>, needle: &Vec<char>, at: usize) -> (r: bool)
    requires
        at + needle@.len() <= hay@.len(),
    ensures
        r == chars::occurs_at(hay@, needle@, at as int),
{
    let size: usize = hay.len();
    let mut i: usize = 0;
    while i < needle.len()
        invariant
            at + needle@.len() <= hay@.len() == size,
            i <= needle@.len(),
            forall|j: int| 0 <= j < i ==> hay@[at + j] == needle@[j],
        decreases needle@.len() - i,
    {
        if hay[at + i] != needle[i] {
            assert(hay@.subrange(at as int, at + needle@.len())[i as int] != needle@[i as int]);
            return false;
        }
        i += 1;
    }
    assert(hay@.subrange(at as int, at + needle@.len()) =~= needle@);
    true
}

/// Whether `needle` stands somewhere in `hay`.
pub fn contains(hay: &str, needle: &str) -> (r: bool)
    ensures
        r == chars::contains(hay@, needle@),
{
    let h = chars_of(hay);
    let n = chars_of(needle);
    if n.len() == 0 {
        assert(chars::occurs_at(h@, n@, 0)) by {
            assert(h@.subrange(0, 0) =~= n@);
        }
        return true;
    }
    if n.len() > h.len() {
        return false;
    }
    let last: usize = h.len() - n.len();
    let mut at: usize = 0;
    while at <= last
        invariant
            h@ == hay@,
            n@ == needle@,
            last + n@.len() == h@.len(),
            last < usize::MAX,
            at <= last + 1,
            forall|k: int| 0 <= k < at ==> !chars::occurs_at(h@, n@, k),
        decreases last + 1 - at,
    {
        if occurs_at(&h, &n, at) {
            return true;
        }
        at += 1;
    }
    false
}

/// `s` without `prefix` at its start.
pub fn strip_prefix<'a>(s: &'a str, prefix: &str) -> (r: &'a str)
    ensures
        r@ == chars::strip_prefix(s@, prefix@),
{
    let cs = chars_of(s);
    let p = chars_of(prefix);
    if p.len() <= cs.len() && occurs_at(&cs, &p, 0) {
        s.substring_char(p.len(), cs.len())
    } else {
        s
    }
}

/// The lines of `text`, in order.
pub fn lines(text: &str) -> (out: Vec<&str>)
    ensures
        out.deep_view() == chars::lines(text@),
{
    let cs = chars_of(text);
    let mut out: Vec<&str> = Vec::new();
    let mut from: usize = 0;
    assert(out.deep_view() =~= Seq::<Seq<char>>::empty());
    while from < cs.len()
        invariant
            cs@ == text@,
            from <= cs@.len(),
            chars::lines(text@) == out.deep_view() + chars::lines_from(text@, from as int),
        decreases cs@.len() - from,
    {
        let ghost before = out.deep_view();
        let end = find_char(&cs, '\n', from);
        if end >= cs.len() {
            let line = text.substring_char(from, cs.len());
            out.push(line);
            assert(text@.subrange(from as int, cs@.len() as int) =~= text@.skip(from as int));
            assert(out.deep_view() =~= before + seq![line@]);
            from = cs.len();
        } else {
            let stop: usize = if end > from && cs[end - 1] == '\r' {
                end - 1
            } else {
                end
            };
            let line = text.substring_char(from, stop);
            out.push(line);
            assert(line@ =~= chars::strip_last(text@.subrange(from as int, end as int), '\r'));
            assert(out.deep_view() =~= before + seq![line@]);
            from = end + 1;
        }
    }
    out
}

/// The words of `s`, in order.
pub fn split_whitespace(s: &str) -> (out: Vec<&str>)
    ensures
        out.deep_view() == chars::split_whitespace(s@),
{
    let cs = chars_of(s);
    let mut out: Vec<&str> = Vec::new();
    let mut from: usize = 0;
    assert(out.deep_view() =~= Seq::<Seq<char>>::empty());
    loop
        invariant
            cs@ == s@,
            from <= cs@.len(),
            chars::split_whitespace(s@) == out.deep_view() + chars::words_from(s@, from as int),
        ensures
            out.deep_view() == chars::split_whitespace(s@),
        decreases cs@.len() - from,
    {
        let ghost before = out.deep_view();
        let start = skip_whitespace(&cs, from);
        if start >= cs.len() {
            break;
        }
        let end = skip_word(&cs, start);
        proof {
            chars::lemma_skip_word_bounds(cs@, start as int);
        }
        let word = s.substring_char(start, end);
        out.push(word);
        assert(out.deep_view() =~= before + seq![word@]);
        from = end;
    }
    out
}

/// The characters that `str::to_lowercase` gives for the characters `s`.
pub uninterp spec fn lowercase(s: Seq<char>) -> Seq<char>;

/// The lowercase form of `s`, as `str::to_lowercase` of the standard library
/// computes it from the Unicode tables. Nothing is proved of it: the
/// contract only gives its result the name [`lowercase`].
#[verifier::external_body]
pub(crate) fn to_lowercase(s: &str) -> (r: String)
    ensures
        r@ == lowercase(s@),
{
    s.to_lowercase()
}

} // verus!
