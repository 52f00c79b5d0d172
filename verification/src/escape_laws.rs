//! The law of escaping: what `escape` makes inert can be read back, and
//! the escaped text holds no backslash.

use vstd::prelude::*;
use crate::flt::escape_text;
use crate::text::{replace_all, starts_with};

verus! {

/// A character that a backslash makes a reserved sequence of.
pub open spec fn is_bracket(c: char) -> bool {
    c == '(' || c == ')' || c == '{' || c == '}'
}

/// The placeable that holds `c` as a string literal.
pub open spec fn placeable_of(c: char) -> Seq<char> {
    seq!['{', '"', c, '"', '}']
}

/// Whether `e` begins with the placeable that stands for a reserved
/// sequence.
pub open spec fn begins_escaped(e: Seq<char>) -> bool {
    e.len() >= 5 && e[0] == '{' && e[1] == '"' && (e[2] == '*' || is_bracket(e[2])) && e[3] == '"' && e[4]
        == '}'
}

/// `e` with each placeable that stands for a reserved sequence replaced by
/// that sequence: `*` for the one that holds `*`, and a backslash and the
/// bracket for one that holds a bracket. The text is read once, from left
/// to right.
pub open spec fn unescape_text(e: Seq<char>) -> Seq<char>
    decreases e.len(),
{
    if e.len() == 0 {
        e
    } else if begins_escaped(e) {
        (if e[2] == '*' {
            seq!['*']
        } else {
            seq!['\\', e[2]]
        }) + unescape_text(e.skip(5))
    } else {
        seq![e[0]] + unescape_text(e.skip(1))
    }
}

/// Whether every backslash of `s` begins one of the sequences `\(`, `\)`,
/// `\{` and `\}`, and `s` holds no brace but in those.
pub open spec fn is_escapable(s: Seq<char>) -> bool {
    &&& forall|i: int| 0 <= i < s.len() && #[trigger] s[i] == '\\' ==> i + 1 < s.len() && is_bracket(s[i + 1])
    &&& forall|i: int|
        0 <= i < s.len() && (#[trigger] s[i] == '{' || s[i] == '}') ==> i > 0 && s[i - 1] == '\\'
}

/// The character that the `k`-th replacement of escaping is about.
pub open spec fn reserved(k: int) -> char {
    if k == 1 {
        '*'
    } else if k == 2 {
        '('
    } else if k == 3 {
        ')'
    } else if k == 4 {
        '{'
    } else {
        '}'
    }
}

/// What the `k`-th replacement of escaping looks for.
pub open spec fn sought(k: int) -> Seq<char> {
    if k == 1 {
        seq!['*']
    } else {
        seq!['\\', reserved(k)]
    }
}

/// `s` after the first `k` replacements of escaping.
pub open spec fn escaped_through(s: Seq<char>, k: int) -> Seq<char>
    decreases k,
{
    if k <= 0 {
        s
    } else {
        replace_all(escaped_through(s, k - 1), sought(k), placeable_of(reserved(k)))
    }
}

/// Escaping is its five replacements, one after the other.
pub proof fn lemma_escape_is_five_steps(s: Seq<char>)
    ensures
        escape_text(s) == escaped_through(s, 5),
{
    reveal_strlit("*");
    reveal_strlit("{\"*\"}");
    reveal_strlit("\\(");
    reveal_strlit("{\"(\"}");
    reveal_strlit("\\)");
    reveal_strlit("{\")\"}");
    reveal_strlit("\\{");
    reveal_strlit("{\"{\"}");
    reveal_strlit("\\}");
    reveal_strlit("{\"}\"}");
    assert("*"@ =~= sought(1));
    assert("{\"*\"}"@ =~= placeable_of(reserved(1)));
    assert("\\("@ =~= sought(2));
    assert("{\"(\"}"@ =~= placeable_of(reserved(2)));
    assert("\\)"@ =~= sought(3));
    assert("{\")\"}"@ =~= placeable_of(reserved(3)));
    assert("\\{"@ =~= sought(4));
    assert("{\"{\"}"@ =~= placeable_of(reserved(4)));
    assert("\\}"@ =~= sought(5));
    assert("{\"}\"}"@ =~= placeable_of(reserved(5)));
    assert(escaped_through(s, 0) == s);
    assert(escaped_through(s, 1) == replace_all(escaped_through(s, 0), sought(1), placeable_of(reserved(1))));
    assert(escaped_through(s, 2) == replace_all(escaped_through(s, 1), sought(2), placeable_of(reserved(2))));
    assert(escaped_through(s, 3) == replace_all(escaped_through(s, 2), sought(3), placeable_of(reserved(3))));
    assert(escaped_through(s, 4) == replace_all(escaped_through(s, 3), sought(4), placeable_of(reserved(4))));
    assert(escaped_through(s, 5) == replace_all(escaped_through(s, 4), sought(5), placeable_of(reserved(5))));
}

/// A replacement passes over a stretch that does not hold the first
/// character of what it looks for.
pub proof fn lemma_replace_passes(a: Seq<char>, b: Seq<char>, from: Seq<char>, to: Seq<char>)
    requires
        from.len() > 0,
        !a.contains(from[0]),
    ensures
        replace_all(a + b, from, to) == a + replace_all(b, from, to),
    decreases a.len(),
{
    if a.len() == 0 {
        assert(a + b =~= b);
        assert(a + replace_all(b, from, to) =~= replace_all(b, from, to));
    } else {
        let s = a + b;
        assert(a.contains(a[0]));
        assert(!starts_with(s, from)) by {
            if starts_with(s, from) {
                assert(s.subrange(0, from.len() as int)[0] == from[0]);
            }
        }
        assert(s.skip(1) =~= a.skip(1) + b);
        assert(!a.skip(1).contains(from[0])) by {
            if a.skip(1).contains(from[0]) {
                let j = choose|j: int| 0 <= j < a.skip(1).len() && a.skip(1)[j] == from[0];
                assert(a[j + 1] == from[0]);
            }
        }
        lemma_replace_passes(a.skip(1), b, from, to);
        assert(seq![s[0]] + (a.skip(1) + replace_all(b, from, to)) =~= a + replace_all(b, from, to));
    }
}

/// A replacement takes what it looks for where the text begins with it.
pub proof fn lemma_replace_takes(b: Seq<char>, from: Seq<char>, to: Seq<char>)
    requires
        from.len() > 0,
    ensures
        replace_all(from + b, from, to) == to + replace_all(b, from, to),
{
    let s = from + b;
    assert(s.subrange(0, from.len() as int) =~= from);
    assert(s.skip(from.len() as int) =~= b);
}

/// A replacement that looks for a backslash and `x` passes over a
/// backslash and another character.
pub proof fn lemma_replace_passes_other(x: char, y: char, b: Seq<char>, to: Seq<char>)
    requires
        x != y,
        y != '\\',
    ensures
        replace_all(seq!['\\', y] + b, seq!['\\', x], to) == seq!['\\', y] + replace_all(b, seq!['\\', x], to),
{
    let from = seq!['\\', x];
    let s = seq!['\\', y] + b;
    assert(!starts_with(s, from)) by {
        if starts_with(s, from) {
            assert(s.subrange(0, from.len() as int)[1] == from[1]);
        }
    }
    assert(s.skip(1) =~= seq![y] + b);
    assert(!seq![y].contains('\\'));
    lemma_replace_passes(seq![y], b, from, to);
    assert(seq![s[0]] + (seq![y] + replace_all(b, from, to)) =~= seq!['\\', y] + replace_all(b, from, to));
}

/// What the first `k` replacements make of a reserved sequence, or of a
/// plain character, that stands before a text: the `h`-th reserved
/// sequence becomes its placeable at the `h`-th replacement and stays; a
/// plain character, for which `h` is zero, stays as it is.
pub open spec fn token_through(token: Seq<char>, h: int, k: int) -> Seq<char> {
    if 1 <= h <= k {
        placeable_of(reserved(h))
    } else {
        token
    }
}

/// The replacements of escaping work on a text token by token: what
/// stands first is escaped by itself, and the rest by itself.
pub proof fn lemma_token_escapes(token: Seq<char>, h: int, rest: Seq<char>, k: int)
    requires
        0 <= k <= 5,
        0 <= h <= 5,
        h >= 1 ==> token == sought(h),
        h == 0 ==> token.len() == 1 && token[0] != '*' && token[0] != '\\',
    ensures
        escaped_through(token + rest, k) == token_through(token, h, k) + escaped_through(rest, k),
    decreases k,
{
    if k > 0 {
        lemma_token_escapes(token, h, rest, k - 1);
        let before = token_through(token, h, k - 1);
        let tail = escaped_through(rest, k - 1);
        let from = sought(k);
        let to = placeable_of(reserved(k));
        assert(escaped_through(token + rest, k) == replace_all(before + tail, from, to));
        assert(escaped_through(rest, k) == replace_all(tail, from, to));
        if h == k {
            lemma_replace_takes(tail, from, to);
        } else if h < k || k == 1 {
            assert forall|j: int| 0 <= j < before.len() implies before[j] != from[0] by {}
            lemma_replace_passes(before, tail, from, to);
        } else {
            assert(before =~= seq!['\\', reserved(h)]);
            assert(from =~= seq!['\\', reserved(k)]);
            lemma_replace_passes_other(reserved(k), reserved(h), tail, to);
        }
    }
}

/// The law of escaping. Where every backslash of a text begins one of the
/// reserved sequences and the text holds no brace but in those, reading
/// the escaped text back gives the text, and the escaped text holds no
/// backslash: none of the reserved sequences is left in it.
pub proof fn lemma_escape_inverse(s: Seq<char>)
    requires
        is_escapable(s),
    ensures
        unescape_text(escape_text(s)) == s,
        !escape_text(s).contains('\\'),
    decreases s.len(),
{
    lemma_escape_is_five_steps(s);
    if s.len() == 0 {
        assert(escaped_through(s, 0) == s);
        assert(escaped_through(s, 1) == s);
        assert(escaped_through(s, 2) == s);
        assert(escaped_through(s, 3) == s);
        assert(escaped_through(s, 4) == s);
        assert(escaped_through(s, 5) == s);
    } else {
        let c = s[0];
        let h: int = if c == '*' {
            1
        } else if c != '\\' {
            0
        } else if s[1] == '(' {
            2
        } else if s[1] == ')' {
            3
        } else if s[1] == '{' {
            4
        } else {
            5
        };
        let token = if c == '\\' { seq!['\\', s[1]] } else { seq![c] };
        let rest = s.skip(token.len() as int);
        assert(s =~= token + rest);
        assert(is_escapable(rest)) by {
            assert forall|i: int| 0 <= i < rest.len() && #[trigger] rest[i] == '\\' implies i + 1 < rest.len()
                && is_bracket(rest[i + 1]) by {
                assert(s[i + token.len()] == '\\');
            }
            assert forall|i: int| 0 <= i < rest.len() && (#[trigger] rest[i] == '{' || rest[i] == '}') implies i
                > 0 && rest[i - 1] == '\\' by {
                assert(s[i + token.len()] == rest[i]);
            }
        }
        lemma_escape_inverse(rest);
        lemma_escape_is_five_steps(rest);
        lemma_token_escapes(token, h, rest, 5);
        let image = token_through(token, h, 5);
        let tail = escape_text(rest);
        let e = image + tail;
        assert(escape_text(s) == e);
        if h >= 1 {
            assert(begins_escaped(e));
            assert(e.skip(5) =~= tail);
            assert(e[2] == reserved(h));
            assert(unescape_text(e) =~= token + unescape_text(tail));
        } else {
            assert(!begins_escaped(e));
            assert(e.skip(1) =~= tail);
            assert(unescape_text(e) =~= token + unescape_text(tail));
        }
        assert(!e.contains('\\')) by {
            if e.contains('\\') {
                let j = choose|j: int| 0 <= j < e.len() && e[j] == '\\';
                if j >= image.len() {
                    assert(tail[j - image.len()] == '\\');
                }
            }
        }
    }
}

} // verus!
