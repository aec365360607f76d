//! Characters that are escaped by entities, and entities that are replaced one
//! kind after the other.
use crate::text;
use vstd::prelude::*;

verus! {

/// The entity that is replaced as the `k`-th, for the characters that are
/// escaped.
pub open spec fn entity(k: int) -> Seq<char> {
    if k == 0 {
        "&amp;"@
    } else if k == 1 {
        "&lt;"@
    } else if k == 2 {
        "&gt;"@
    } else if k == 3 {
        "&quot;"@
    } else {
        "&apos;"@
    }
}

/// What the `k`-th entity stands for.
pub open spec fn stands_for(k: int) -> Seq<char> {
    if k == 0 {
        "&"@
    } else if k == 1 {
        "<"@
    } else if k == 2 {
        ">"@
    } else if k == 3 {
        "\""@
    } else {
        "'"@
    }
}

/// The place of a character in the order of replacement.
pub open spec fn rank(c: char) -> int {
    if c == '&' {
        0
    } else if c == '<' {
        1
    } else if c == '>' {
        2
    } else if c == '"' {
        3
    } else if c == '\'' {
        4
    } else {
        -1
    }
}

/// A character once the first `k` entities were replaced, of those that the
/// characters up to `top` were escaped by.
pub open spec fn staged_char(c: char, k: int, top: int) -> Seq<char> {
    if k <= rank(c) <= top {
        entity(rank(c))
    } else {
        seq![c]
    }
}

/// A text once the first `k` entities were replaced, of those that the
/// characters up to `top` were escaped by.
pub open spec fn staged(s: Seq<char>, k: int, top: int) -> Seq<char>
    decreases s.len(),
{
    if s.len() == 0 {
        Seq::empty()
    } else {
        staged_char(s[0], k, top) + staged(s.skip(1), k, top)
    }
}

/// The characters of the entities, and what they stand for.
pub proof fn lemma_entities()
    ensures
        "&amp;"@ == seq!['&', 'a', 'm', 'p', ';'],
        "&lt;"@ == seq!['&', 'l', 't', ';'],
        "&gt;"@ == seq!['&', 'g', 't', ';'],
        "&quot;"@ == seq!['&', 'q', 'u', 'o', 't', ';'],
        "&apos;"@ == seq!['&', 'a', 'p', 'o', 's', ';'],
        "&"@ == seq!['&'],
        "<"@ == seq!['<'],
        ">"@ == seq!['>'],
        "\""@ == seq!['"'],
        "'"@ == seq!['\''],
{
    reveal_strlit("&amp;");
    reveal_strlit("&lt;");
    reveal_strlit("&gt;");
    reveal_strlit("&quot;");
    reveal_strlit("&apos;");
    reveal_strlit("&");
    reveal_strlit("<");
    reveal_strlit(">");
    reveal_strlit("\"");
    reveal_strlit("'");
    assert("&amp;"@ =~= seq!['&', 'a', 'm', 'p', ';']);
    assert("&lt;"@ =~= seq!['&', 'l', 't', ';']);
    assert("&gt;"@ =~= seq!['&', 'g', 't', ';']);
    assert("&quot;"@ =~= seq!['&', 'q', 'u', 'o', 't', ';']);
    assert("&apos;"@ =~= seq!['&', 'a', 'p', 'o', 's', ';']);
    assert("&"@ =~= seq!['&']);
    assert("<"@ =~= seq!['<']);
    assert(">"@ =~= seq!['>']);
    assert("\""@ =~= seq!['"']);
    assert("'"@ =~= seq!['\'']);
}

/// Once all entities were replaced, the text is there.
pub proof fn lemma_staged_end(s: Seq<char>, top: int)
    ensures
        staged(s, top + 1, top) == s,
    decreases s.len(),
{
    if s.len() > 0 {
        lemma_staged_end(s.skip(1), top);
        assert(seq![s[0]] + s.skip(1) =~= s);
    }
}

/// What is replaced from a position on depends on what stands there alone.
pub proof fn lemma_replace_shift(s: Seq<char>, pat: Seq<char>, with: Seq<char>, i: int)
    requires
        0 <= i <= s.len(),
        pat.len() > 0,
    ensures
        text::replace_from(s, pat, with, i) == text::replace_from(s.skip(i), pat, with, 0),
    decreases s.len() - i,
{
    let t = s.skip(i);
    if i < s.len() {
        if i + pat.len() <= s.len() {
            assert(t.subrange(0, pat.len() as int) =~= s.subrange(i, i + pat.len()));
        }
        assert(text::matches_at(s, pat, i) == text::matches_at(t, pat, 0));
        if text::matches_at(s, pat, i) {
            let n = pat.len() as int;
            lemma_replace_shift(s, pat, with, i + n);
            lemma_replace_shift(t, pat, with, n);
            assert(t.skip(n) =~= s.skip(i + n));
        } else {
            lemma_replace_shift(s, pat, with, i + 1);
            lemma_replace_shift(t, pat, with, 1);
            assert(t.skip(1) =~= s.skip(i + 1));
        }
    }
}

/// What no pattern begins in is kept.
pub proof fn lemma_replace_kept(s: Seq<char>, pat: Seq<char>, with: Seq<char>, i: int, n: int)
    requires
        0 <= i <= n <= s.len(),
        pat.len() > 0,
        forall|q: int| i <= q < n ==> !#[trigger] text::matches_at(s, pat, q),
    ensures
        text::replace_from(s, pat, with, i) == s.subrange(i, n) + text::replace_from(
            s,
            pat,
            with,
            n,
        ),
    decreases n - i,
{
    if i < n {
        assert(!text::matches_at(s, pat, i));
        lemma_replace_kept(s, pat, with, i + 1, n);
        let rest = text::replace_from(s, pat, with, n);
        assert(seq![s[i]] + (s.subrange(i + 1, n) + rest) =~= s.subrange(i, n) + rest);
    } else {
        assert(s.subrange(i, n) + text::replace_from(s, pat, with, n) =~= text::replace_from(
            s,
            pat,
            with,
            n,
        ));
    }
}

proof fn lemma_raw_match(s: Seq<char>, k: int, top: int, pat: Seq<char>, j: int)
    requires
        1 <= k <= top <= 4,
        pat == entity(k),
        s.len() > 0,
        s[0] == '&',
        text::matches_at(staged(s, k, top), pat, 0),
        1 <= j <= pat.len(),
    ensures
        j <= s.len(),
        staged(s, k, top).skip(j) == staged(s.skip(j), k, top),
        forall|m: int| 0 <= m < j ==> s[m] == pat[m],
    decreases j,
{
    lemma_entities();
    let t = staged(s, k, top);
    assert(t.subrange(0, pat.len() as int) == pat);
    if j == 1 {
        assert(staged_char(s[0], k, top) == seq!['&']);
        assert(t.skip(1) =~= staged(s.skip(1), k, top));
    } else {
        lemma_raw_match(s, k, top, pat, j - 1);
        let r = s.skip(j - 1);
        let u = staged(r, k, top);
        assert(t[j - 1] == t.subrange(0, pat.len() as int)[j - 1]);
        assert(t[j - 1] == pat[j - 1]);
        assert(t[j - 1] != '&');
        assert(u == t.skip(j - 1));
        assert(u.len() > 0);
        assert(u[0] == t[j - 1]);
        assert(r.len() > 0);
        if k <= rank(r[0]) <= top {
            assert(entity(rank(r[0]))[0] == '&');
            assert(u[0] == '&');
        }
        assert(staged_char(r[0], k, top) == seq![r[0]]);
        assert(u[0] == r[0]);
        assert(r.skip(1) =~= s.skip(j));
        assert(u.skip(1) =~= staged(r.skip(1), k, top));
        assert(t.skip(j) =~= u.skip(1));
        assert(s[j - 1] == r[0]);
    }
}

/// No entity that is replaced next begins in the first character, unless it is
/// that of the character.
proof fn lemma_head_kept(s: Seq<char>, k: int, top: int, q: int)
    requires
        0 <= k <= top <= 4,
        k > 0 ==> !text::contains(s, entity(k)),
        s.len() > 0,
        rank(s[0]) != k,
        0 <= q < staged_char(s[0], k, top).len(),
    ensures
        !text::matches_at(staged(s, k, top), entity(k), q),
{
    lemma_entities();
    let pat = entity(k);
    let t = staged(s, k, top);
    let c = s[0];
    let head = staged_char(c, k, top);
    if text::matches_at(t, pat, q) {
        let window = t.subrange(q, q + pat.len());
        assert(window == pat);
        assert(t[q] == window[0]);
        assert(t[q] == '&');
        assert(t[q] == head[q]);
        if k <= rank(c) <= top {
            assert(head == entity(rank(c)));
            assert(q == 0);
            assert(t[1] == head[1] && t[2] == head[2]);
            assert(t[1] == window[1] && t[2] == window[2]);
        } else {
            assert(c == '&' && q == 0);
            lemma_raw_match(s, k, top, pat, pat.len() as int);
            assert(s.subrange(0, pat.len() as int) =~= pat);
            assert(text::matches_at(s, pat, 0));
        }
    }
}

/// Replacing the `k`-th entity gives back its character, unless the text
/// itself holds the entity.
pub proof fn lemma_stage(s: Seq<char>, k: int, top: int)
    requires
        0 <= k <= top <= 4,
        k > 0 ==> !text::contains(s, entity(k)),
    ensures
        text::replace(staged(s, k, top), entity(k), stands_for(k)) == staged(s, k + 1, top),
    decreases s.len(),
{
    let pat = entity(k);
    let with = stands_for(k);
    let t = staged(s, k, top);
    if s.len() > 0 {
        let c = s[0];
        let rest = s.skip(1);
        let head = staged_char(c, k, top);
        let n = head.len() as int;
        if k > 0 && text::contains(rest, pat) {
            let i = choose|i: int| text::matches_at(rest, pat, i);
            assert(s.subrange(i + 1, i + 1 + pat.len()) =~= rest.subrange(i, i + pat.len()));
            assert(text::matches_at(s, pat, i + 1));
        }
        assert(pat.len() > 0) by {
            lemma_entities();
        }
        lemma_stage(rest, k, top);
        assert(t.skip(n) =~= staged(rest, k, top));
        lemma_replace_shift(t, pat, with, n);
        assert(t.subrange(0, n) =~= head);
        if rank(c) == k {
            assert(head == pat);
            assert(staged_char(c, k + 1, top) == with) by {
                lemma_entities();
                assert(staged_char(c, k + 1, top) =~= with);
            }
            assert(text::matches_at(t, pat, 0));
            assert(text::replace(t, pat, with) == with + text::replace_from(t, pat, with, n));
        } else {
            assert forall|q: int| 0 <= q < n implies !#[trigger] text::matches_at(t, pat, q) by {
                lemma_head_kept(s, k, top, q);
            }
            lemma_replace_kept(t, pat, with, 0, n);
            assert(staged_char(c, k + 1, top) == head);
        }
    }
}

/// A pattern that does not occur is not replaced.
pub proof fn lemma_nothing_replaced(s: Seq<char>, pat: Seq<char>, with: Seq<char>)
    requires
        pat.len() > 0,
        !text::contains(s, pat),
    ensures
        text::replace(s, pat, with) == s,
{
    assert forall|q: int| 0 <= q < s.len() implies !#[trigger] text::matches_at(s, pat, q) by {}
    lemma_replace_kept(s, pat, with, 0, s.len() as int);
    assert(s.subrange(0, s.len() as int) =~= s);
    assert(s + Seq::<char>::empty() =~= s);
}

/// A text without an ampersand holds no entity.
pub proof fn lemma_no_ampersand(s: Seq<char>, pat: Seq<char>)
    requires
        !s.contains('&'),
        pat.len() > 0,
        pat[0] == '&',
    ensures
        !text::contains(s, pat),
{
    if text::contains(s, pat) {
        let i = choose|i: int| text::matches_at(s, pat, i);
        assert(s.subrange(i, i + pat.len())[0] == s[i]);
        assert(s.contains(s[i]));
    }
}

/// An entity between two texts without one is replaced, and the texts are kept.
pub proof fn lemma_entity_replaced(a: Seq<char>, pat: Seq<char>, b: Seq<char>, with: Seq<char>)
    requires
        !a.contains('&'),
        !b.contains('&'),
        pat.len() > 0,
        pat[0] == '&',
        !pat.skip(1).contains('&'),
    ensures
        text::replace(a + pat + b, pat, with) == a + with + b,
{
    let s = a + pat + b;
    let n = a.len() as int;
    let m = pat.len() as int;
    assert forall|q: int| 0 <= q < n implies !#[trigger] text::matches_at(s, pat, q) by {
        if text::matches_at(s, pat, q) {
            assert(s.subrange(q, q + m)[0] == s[q]);
            assert(a.contains(a[q]));
        }
    }
    lemma_replace_kept(s, pat, with, 0, n);
    assert(s.subrange(n, n + m) =~= pat);
    lemma_replace_shift(s, pat, with, n + m);
    assert(s.skip(n + m) =~= b);
    lemma_no_ampersand(b, pat);
    lemma_nothing_replaced(b, pat, with);
    assert(s.subrange(0, n) =~= a);
    assert(a + (with + b) =~= a + with + b);
}

/// What is left of the ampersand of an entity holds no other entity.
pub proof fn lemma_ampersand_alone(a: Seq<char>, b: Seq<char>, pat: Seq<char>)
    requires
        !a.contains('&'),
        !b.contains(';'),
        pat.len() > 1,
        pat[0] == '&',
        pat.last() == ';',
    ensures
        !text::contains(a + "&"@ + b, pat),
{
    reveal_strlit("&");
    let s = a + "&"@ + b;
    if text::contains(s, pat) {
        let i = choose|i: int| text::matches_at(s, pat, i);
        let window = s.subrange(i, i + pat.len());
        let n = a.len() as int;
        assert(window[0] == s[i]);
        assert(window[pat.len() - 1] == s[i + pat.len() - 1]);
        if i < n {
            assert(a.contains(a[i]));
        }
        let end = i + pat.len() - 1;
        assert(s[end] == b[end - n - 1]);
        assert(b.contains(b[end - n - 1]));
    }
}

/// Another entity is replaced neither before nor after.
pub proof fn lemma_kept_entity(
    a: Seq<char>,
    pat: Seq<char>,
    b: Seq<char>,
    with: Seq<char>,
    other: Seq<char>,
    stands_for: Seq<char>,
)
    requires
        !a.contains('&'),
        !b.contains('&'),
        !b.contains(';'),
        pat.len() > 2,
        pat[0] == '&',
        !pat.skip(1).contains('&'),
        with == "&"@ || !with.contains('&'),
        other.len() > 2,
        other[0] == '&',
        other.last() == ';',
        pat == other || pat[1] != other[1] || pat[2] != other[2],
    ensures
        pat != other ==> text::replace(a + pat + b, other, stands_for) == a + pat + b,
        text::replace(a + with + b, other, stands_for) == a + with + b,
{
    let s = a + pat + b;
    let t = a + with + b;
    let n = a.len() as int;
    if pat != other {
        if text::contains(s, other) {
            let i = choose|i: int| text::matches_at(s, other, i);
            let window = s.subrange(i, i + other.len());
            assert(window[0] == s[i] && window[1] == s[i + 1] && window[2] == s[i + 2]);
            if i < n {
                assert(a.contains(a[i]));
            } else if i == n {
                assert(s[n + 1] == pat[1] && s[n + 2] == pat[2]);
            } else if i < n + pat.len() {
                assert(pat.skip(1)[i - n - 1] == s[i]);
                assert(pat.skip(1).contains(pat.skip(1)[i - n - 1]));
            } else {
                assert(b.contains(b[i - n - pat.len()]));
            }
        }
        lemma_nothing_replaced(s, other, stands_for);
    }
    if with == "&"@ {
        lemma_ampersand_alone(a, b, other);
    } else {
        assert(!t.contains('&')) by {
            if t.contains('&') {
                let i = t.index_of('&');
                if i < n {
                    assert(a.contains(a[i]));
                } else if i < n + with.len() {
                    assert(with.contains(with[i - n]));
                } else {
                    assert(b.contains(b[i - n - with.len()]));
                }
            }
        }
        lemma_no_ampersand(t, other);
    }
    lemma_nothing_replaced(t, other, stands_for);
}

} // verus!
