//! Texts as sequences of characters: building, searching, replacing and
//! trimming.

use vstd::prelude::*;

verus! {

/// Appends one character to a string.
///
/// Wraps `String::push`, which std documents as appending the given `char`
/// to the end of the string.
#[verifier::external_body]
pub(crate) fn push_char(s: &mut String, c: char)
    ensures
        final(s)@ == old(s)@.push(c),
{
    s.push(c);
}

/// Appends the characters of `t` to `s`.
pub fn push_text(s: &mut String, t: &str)
    ensures
        final(s)@ == old(s)@ + t@,
{
    for c in it: t.chars()
        invariant
            it.seq() == t@,
            s@ == old(s)@ + it.seq().take(it.index() as int),
    {
        push_char(s, c);
    }
    assert(t@.take(t@.len() as int) =~= t@);
}

/// The characters of `s`, in order.
pub fn chars_of(s: &str) -> (v: Vec<char>)
    ensures
        v@ == s@,
{
    let mut v: Vec<char> = Vec::new();
    for c in it: s.chars()
        invariant
            v@ == it.seq().take(it.index() as int),
            it.seq() == s@,
    {
        v.push(c);
    }
    v
}

/// The string made of the characters of `v`, in order.
pub fn string_of(v: &Vec<char>) -> (s: String)
    ensures
        s@ == v@,
{
    let mut s = String::new();
    let mut i: usize = 0;
    while i < v.len()
        invariant
            i <= v.len(),
            s@ == v@.take(i as int),
        decreases v.len() - i,
    {
        push_char(&mut s, v[i]);
        i += 1;
    }
    s
}

/// Whether `ch` occurs in `s`.
pub fn contains_char(s: &str, ch: char) -> (b: bool)
    ensures
        b == s@.contains(ch),
{
    for c in it: s.chars()
        invariant
            it.seq() == s@,
            forall|j: int| 0 <= j < it.index() ==> s@[j] != ch,
    {
        if c == ch {
            return true;
        }
    }
    false
}

/// Whether `s` begins with `ch`.
pub fn starts_with_char(s: &str, ch: char) -> (b: bool)
    ensures
        b == (s@.len() > 0 && s@[0] == ch),
{
    for c in it: s.chars()
        invariant
            it.seq() == s@,
            it.index() == 0,
    {
        return c == ch;
    }
    false
}

/// A character that the translation-list grammar treats as blank.
pub open spec fn is_fluent_ws(c: char) -> bool {
    c == ' ' || c == '\r' || c == '\n'
}

/// Whether every character of `line` is blank.
pub open spec fn is_blank(line: Seq<char>) -> bool {
    forall|i: int| 0 <= i < line.len() ==> is_fluent_ws(#[trigger] line[i])
}

/// Whether every character of `s` is blank.
pub fn all_fluent_ws(s: &str) -> (b: bool)
    ensures
        b == is_blank(s@),
{
    for c in it: s.chars()
        invariant
            it.seq() == s@,
            forall|j: int| 0 <= j < it.index() ==> is_fluent_ws(#[trigger] s@[j]),
    {
        if !(c == ' ' || c == '\r' || c == '\n') {
            return false;
        }
    }
    true
}

/// Whether `pat` stands at the start of `s`.
pub open spec fn starts_with(s: Seq<char>, pat: Seq<char>) -> bool {
    pat.len() <= s.len() && s.subrange(0, pat.len() as int) == pat
}

/// `s` with every occurrence of `from` replaced by `to`, found from left to
/// right without overlap. An empty `from` occurs nowhere.
pub open spec fn replace_all(s: Seq<char>, from: Seq<char>, to: Seq<char>) -> Seq<char>
    decreases s.len(),
{
    if s.len() == 0 || from.len() == 0 {
        s
    } else if starts_with(s, from) {
        to + replace_all(s.skip(from.len() as int), from, to)
    } else {
        seq![s[0]] + replace_all(s.skip(1), from, to)
    }
}

/// Whether `pat` stands somewhere in `s`.
pub open spec fn occurs(s: Seq<char>, pat: Seq<char>) -> bool {
    exists|i: int| 0 <= i <= s.len() && starts_with(#[trigger] s.skip(i), pat)
}

/// Replacing what does not occur changes nothing.
pub proof fn lemma_replace_all_absent(s: Seq<char>, from: Seq<char>, to: Seq<char>)
    requires
        !occurs(s, from),
    ensures
        replace_all(s, from, to) == s,
    decreases s.len(),
{
    if s.len() > 0 && from.len() > 0 {
        assert(s.skip(0) =~= s);
        assert forall|i: int| 0 <= i <= s.skip(1).len() implies !starts_with(
            #[trigger] s.skip(1).skip(i),
            from,
        ) by {
            assert(s.skip(1).skip(i) =~= s.skip(i + 1));
        }
        lemma_replace_all_absent(s.skip(1), from, to);
        assert(seq![s[0]] + s.skip(1) =~= s);
    }
}

fn matches_at(text: &Vec<char>, at: usize, pat: &Vec<char>) -> (b: bool)
    requires
        at <= text.len(),
    ensures
        b == starts_with(text@.skip(at as int), pat@),
{
    if pat.len() > text.len() - at {
        return false;
    }
    let mut k: usize = 0;
    while k < pat.len()
        invariant
            at + pat.len() <= text.len(),
            k <= pat.len(),
            forall|j: int| 0 <= j < k ==> text@[at + j] == pat@[j],
        decreases pat.len() - k,
    {
        if text[at + k] != pat[k] {
            assert(text@.skip(at as int).subrange(0, pat.len() as int)[k as int] != pat@[k as int]);
            return false;
        }
        k += 1;
    }
    assert(text@.skip(at as int).subrange(0, pat.len() as int) =~= pat@);
    true
}

/// `text` with every occurrence of `from` replaced by `to`.
pub fn replace_chars(text: &Vec<char>, from: &Vec<char>, to: &Vec<char>) -> (out: Vec<char>)
    ensures
        out@ == replace_all(text@, from@, to@),
{
    let mut out: Vec<char> = Vec::new();
    let mut i: usize = 0;
    assert(text@.skip(0) =~= text@);
    assert(out@ + replace_all(text@, from@, to@) =~= replace_all(text@, from@, to@));
    while i < text.len()
        invariant
            i <= text.len(),
            out@ + replace_all(text@.skip(i as int), from@, to@) == replace_all(text@, from@, to@),
        decreases text.len() - i,
    {
        let ghost rest = text@.skip(i as int);
        if from.len() > 0 && matches_at(text, i, from) {
            let mut k: usize = 0;
            let ghost before = out@;
            while k < to.len()
                invariant
                    k <= to.len(),
                    out@ == before + to@.take(k as int),
                decreases to.len() - k,
            {
                out.push(to[k]);
                k += 1;
            }
            assert(to@.take(to@.len() as int) =~= to@);
            assert(rest.skip(from.len() as int) =~= text@.skip(i + from.len()));
            assert(out@ + replace_all(text@.skip(i + from.len()), from@, to@) =~= before + replace_all(
                rest,
                from@,
                to@,
            ));
            i += from.len();
        } else {
            let ghost before = out@;
            out.push(text[i]);
            assert(rest.skip(1) =~= text@.skip(i + 1));
            assert(out@ + replace_all(text@.skip(i + 1), from@, to@) =~= before + replace_all(
                rest,
                from@,
                to@,
            ));
            i += 1;
        }
    }
    assert(out@ + replace_all(text@.skip(i as int), from@, to@) =~= out@);
    out
}

/// The first position from `from` on at which `pat` stands in `s`; the
/// length of `s` where it stands nowhere.
pub open spec fn first_match(s: Seq<char>, pat: Seq<char>, from: int) -> int
    decreases s.len() - from,
{
    if from < 0 || from >= s.len() {
        s.len() as int
    } else if starts_with(s.skip(from), pat) {
        from
    } else {
        first_match(s, pat, from + 1)
    }
}

/// The first match is where `pat` stands and stood nowhere before; it is the
/// end where `pat` stands nowhere.
pub proof fn lemma_first_match_at(s: Seq<char>, pat: Seq<char>, from: int, at: int)
    requires
        0 <= from <= at <= s.len(),
        forall|i: int| from <= i < at ==> !starts_with(#[trigger] s.skip(i), pat),
        at == s.len() || starts_with(s.skip(at), pat),
    ensures
        first_match(s, pat, from) == at,
    decreases at - from,
{
    if from < at {
        lemma_first_match_at(s, pat, from + 1, at);
    }
}

/// Finds the first position from `from` on at which `pat` stands in `text`.
pub fn find_chars(text: &Vec<char>, pat: &Vec<char>, from: usize) -> (at: usize)
    ensures
        at == first_match(text@, pat@, from as int),
        from <= text@.len() ==> from <= at <= text@.len(),
        at < text@.len() ==> starts_with(text@.skip(at as int), pat@),
{
    let mut i: usize = from;
    while i < text.len()
        invariant
            from <= i,
            first_match(text@, pat@, i as int) == first_match(text@, pat@, from as int),
        decreases text.len() - i,
    {
        if matches_at(text, i, pat) {
            return i;
        }
        i += 1;
    }
    text.len()
}

/// The characters of `text` from `from` up to `to`.
pub fn slice_chars(text: &Vec<char>, from: usize, to: usize) -> (out: String)
    requires
        from <= to <= text@.len(),
    ensures
        out@ == text@.subrange(from as int, to as int),
{
    let mut out = String::new();
    let mut i: usize = from;
    while i < to
        invariant
            from <= i <= to <= text@.len(),
            out@ == text@.subrange(from as int, i as int),
        decreases to - i,
    {
        push_char(&mut out, text[i]);
        i += 1;
    }
    out
}

/// A character with the Unicode property `White_Space`.
pub open spec fn is_space(c: char) -> bool {
    ||| '\u{9}' <= c <= '\u{D}'
    ||| c == ' '
    ||| c == '\u{85}'
    ||| c == '\u{A0}'
    ||| c == '\u{1680}'
    ||| '\u{2000}' <= c <= '\u{200A}'
    ||| c == '\u{2028}'
    ||| c == '\u{2029}'
    ||| c == '\u{202F}'
    ||| c == '\u{205F}'
    ||| c == '\u{3000}'
}

/// Whether `c` has the Unicode property `White_Space`.
pub fn char_is_space(c: char) -> (b: bool)
    ensures
        b == is_space(c),
{
    let n = c as u32;
    (0x9 <= n && n <= 0xD) || n == 0x20 || n == 0x85 || n == 0xA0 || n == 0x1680 || (0x2000 <= n
        && n <= 0x200A) || n == 0x2028 || n == 0x2029 || n == 0x202F || n == 0x205F || n == 0x3000
}

/// `s` without the white space at its start.
pub open spec fn trim_start(s: Seq<char>) -> Seq<char>
    decreases s.len(),
{
    if s.len() > 0 && is_space(s[0]) {
        trim_start(s.skip(1))
    } else {
        s
    }
}

/// `s` without the white space at its end.
pub open spec fn trim_end(s: Seq<char>) -> Seq<char>
    decreases s.len(),
{
    if s.len() > 0 && is_space(s.last()) {
        trim_end(s.drop_last())
    } else {
        s
    }
}

/// `s` without the white space at its start and at its end.
pub open spec fn trim(s: Seq<char>) -> Seq<char> {
    trim_end(trim_start(s))
}

/// `text` without the white space at its start and at its end.
pub fn trim_chars(text: &Vec<char>) -> (out: Vec<char>)
    ensures
        out@ == trim(text@),
{
    let mut a: usize = 0;
    assert(text@.skip(0) =~= text@);
    while a < text.len() && char_is_space(text[a])
        invariant
            a <= text.len(),
            trim_start(text@.skip(a as int)) == trim_start(text@),
        decreases text.len() - a,
    {
        assert(text@.skip(a as int).skip(1) =~= text@.skip(a + 1));
        a += 1;
    }
    assert(text@.subrange(a as int, text@.len() as int) =~= text@.skip(a as int));
    let mut b: usize = text.len();
    while b > a && char_is_space(text[b - 1])
        invariant
            a <= b <= text.len(),
            trim_end(text@.subrange(a as int, b as int)) == trim_end(text@.skip(a as int)),
        decreases b,
    {
        assert(text@.subrange(a as int, b as int).drop_last() =~= text@.subrange(a as int, b - 1));
        b -= 1;
    }
    let mut out: Vec<char> = Vec::new();
    let mut i: usize = a;
    while i < b
        invariant
            a <= i <= b <= text.len(),
            out@ == text@.subrange(a as int, i as int),
        decreases b - i,
    {
        out.push(text[i]);
        i += 1;
    }
    out
}

} // verus!
