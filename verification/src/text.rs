//! Text primitives over sequences of characters.
//!
//! A string is modelled by its characters (`s@`). Positions are character
//! positions, so that a slice never cuts a character.
use vstd::prelude::*;

verus! {

/// `String::push`: appends one character to the end of the string.
pub assume_specification[ String::push ](s: &mut String, c: char)
    ensures
        final(s)@ == old(s)@.push(c),
;

/// A character with the Unicode property `White_Space`.
pub open spec fn whitespace(c: char) -> bool {
    let code = c as int;
    ||| 0x09 <= code <= 0x0D
    ||| code == 0x20
    ||| code == 0x85
    ||| code == 0xA0
    ||| code == 0x1680
    ||| 0x2000 <= code <= 0x200A
    ||| code == 0x2028
    ||| code == 0x2029
    ||| code == 0x202F
    ||| code == 0x205F
    ||| code == 0x3000
}

/// Calls `char::is_whitespace`: whether a character has the Unicode property
/// `White_Space`.
#[verifier::external_body]
pub(crate) fn is_whitespace(c: char) -> (r: bool)
    ensures
        r == whitespace(c),
{
    c.is_whitespace()
}

/// What `str::to_lowercase` makes of a text.
pub uninterp spec fn lowercase(s: Seq<char>) -> Seq<char>;

/// A text of ASCII characters alone.
pub open spec fn is_ascii(s: Seq<char>) -> bool {
    forall|i: int| 0 <= i < s.len() ==> (#[trigger] s[i] as int) < 128
}

/// A text with its ASCII letters in lower case.
pub open spec fn ascii_lowered(s: Seq<char>) -> Seq<char> {
    s.map_values(
        |c: char|
            if 'A' <= c && c <= 'Z' {
                (c as int + 32) as char
            } else {
                c
            },
    )
}

/// A text with its ASCII letters in upper case.
pub open spec fn ascii_raised(s: Seq<char>) -> Seq<char> {
    s.map_values(
        |c: char|
            if 'a' <= c && c <= 'z' {
                (c as int - 32) as char
            } else {
                c
            },
    )
}

/// The ASCII characters at the end of `s` stand at the end of `r`, their
/// letters in lower case.
pub open spec fn lowers_ascii_end(s: Seq<char>, r: Seq<char>) -> bool {
    forall|k: int|
        0 <= k <= s.len() && is_ascii(#[trigger] s.skip(k)) ==> ends_with(
            r,
            ascii_lowered(s.skip(k)),
        )
}

/// Calls `str::to_lowercase`: the Unicode lower case of a text, which depends
/// on the text alone. An ASCII character becomes its own lower case, one for
/// one, wherever it stands.
#[verifier::external_body]
pub(crate) fn to_lowercase(s: &str) -> (r: String)
    ensures
        r@ == lowercase(s@),
        lowers_ascii_end(s@, r@),
{
    s.to_lowercase()
}

// ---- characters -----------------------------------------------------------

/// An ASCII decimal digit.
pub open spec fn is_digit(c: char) -> bool {
    '0' <= c && c <= '9'
}

/// The digit character of a value below ten.
pub open spec fn digit_char(d: int) -> char {
    (d + 48) as char
}

// ---- matching -------------------------------------------------------------

/// `pat` stands in `s` at position `i`.
pub open spec fn matches_at(s: Seq<char>, pat: Seq<char>, i: int) -> bool {
    &&& 0 <= i
    &&& i + pat.len() <= s.len()
    &&& s.subrange(i, i + pat.len()) == pat
}

/// The first position at or after `i` at which `pat` stands in `s`.
pub open spec fn find_from(s: Seq<char>, pat: Seq<char>, i: int) -> Option<int>
    decreases s.len() + 1 - i,
{
    if i < 0 || i + pat.len() > s.len() {
        None
    } else if matches_at(s, pat, i) {
        Some(i)
    } else {
        find_from(s, pat, i + 1)
    }
}

/// `pat` occurs in `s`.
pub open spec fn contains(s: Seq<char>, pat: Seq<char>) -> bool {
    exists|i: int| matches_at(s, pat, i)
}

/// `s` begins with `pat`.
pub open spec fn starts_with(s: Seq<char>, pat: Seq<char>) -> bool {
    matches_at(s, pat, 0)
}

/// `s` ends with `pat`.
pub open spec fn ends_with(s: Seq<char>, pat: Seq<char>) -> bool {
    matches_at(s, pat, s.len() - pat.len())
}

/// What follows the prefix `pat`, if `s` begins with it.
pub open spec fn strip_prefix(s: Seq<char>, pat: Seq<char>) -> Option<Seq<char>> {
    if starts_with(s, pat) {
        Some(s.skip(pat.len() as int))
    } else {
        None
    }
}

/// `s` from position `i` on with every occurrence of `pat`, taken from left
/// to right without overlap, replaced by `with`.
pub open spec fn replace_from(s: Seq<char>, pat: Seq<char>, with: Seq<char>, i: int) -> Seq<char>
    decreases s.len() - i,
{
    if i < 0 || i >= s.len() {
        Seq::empty()
    } else if pat.len() > 0 && matches_at(s, pat, i) {
        with + replace_from(s, pat, with, i + pat.len())
    } else {
        seq![s[i]] + replace_from(s, pat, with, i + 1)
    }
}

/// `s` with every occurrence of `pat` replaced by `with`.
pub open spec fn replace(s: Seq<char>, pat: Seq<char>, with: Seq<char>) -> Seq<char> {
    replace_from(s, pat, with, 0)
}

/// The pieces of `s` from position `i` on that `sep` separates.
pub open spec fn split_from(s: Seq<char>, sep: Seq<char>, i: int) -> Seq<Seq<char>>
    decreases s.len() - i,
{
    match find_from(s, sep, i) {
        Some(j) if sep.len() > 0 && i <= j && j + sep.len() <= s.len() => seq![s.subrange(i, j)]
            + split_from(s, sep, j + sep.len()),
        _ => seq![s.skip(i)],
    }
}

/// The lines of `s` from position `i` on; a line feed ends a line, and takes
/// a carriage return before it along.
pub open spec fn lines_from(s: Seq<char>, i: int) -> Seq<Seq<char>>
    decreases s.len() - i,
{
    if i < 0 || i >= s.len() {
        Seq::empty()
    } else {
        match find_from(s, seq!['\n'], i) {
            Some(j) if i <= j < s.len() => seq![without_cr(s.subrange(i, j))] + lines_from(s, j + 1),
            _ => seq![s.skip(i)],
        }
    }
}

/// A line without a carriage return at its end.
pub open spec fn without_cr(line: Seq<char>) -> Seq<char> {
    if line.len() > 0 && line.last() == '\r' {
        line.drop_last()
    } else {
        line
    }
}

/// `s` without the white space at its beginning.
pub open spec fn trim_start(s: Seq<char>) -> Seq<char>
    decreases s.len(),
{
    if s.len() > 0 && whitespace(s[0]) {
        trim_start(s.drop_first())
    } else {
        s
    }
}

/// `s` without the white space at its end.
pub open spec fn trim_end(s: Seq<char>) -> Seq<char>
    decreases s.len(),
{
    if s.len() > 0 && whitespace(s.last()) {
        trim_end(s.drop_last())
    } else {
        s
    }
}

/// `s` without the white space at both ends.
pub open spec fn trim(s: Seq<char>) -> Seq<char> {
    trim_end(trim_start(s))
}

/// The parts with `sep` between neighbours.
pub open spec fn join(parts: Seq<Seq<char>>, sep: Seq<char>) -> Seq<char>
    decreases parts.len(),
{
    if parts.len() == 0 {
        Seq::empty()
    } else if parts.len() == 1 {
        parts[0]
    } else {
        join(parts.drop_last(), sep) + sep + parts.last()
    }
}

/// The views of a list of strings.
pub open spec fn views(v: Seq<String>) -> Seq<Seq<char>> {
    v.map_values(|s: String| s@)
}

/// An optional string by its characters.
pub open spec fn opt_view(s: Option<String>) -> Option<Seq<char>> {
    match s {
        Some(t) => Some(t@),
        None => None,
    }
}

/// The decimal digits of a number.
pub open spec fn decimal(n: nat) -> Seq<char>
    decreases n,
{
    if n < 10 {
        seq![digit_char(n as int)]
    } else {
        decimal(n / 10).push(digit_char((n % 10) as int))
    }
}

/// The decimal digits of an integer, after a minus sign where it is negative.
pub open spec fn decimal_int(i: int) -> Seq<char> {
    if i < 0 {
        seq!['-'] + decimal((-i) as nat)
    } else {
        decimal(i as nat)
    }
}

/// The number that a sequence of digits stands for.
pub open spec fn digits_value(s: Seq<char>) -> nat
    decreases s.len(),
{
    if s.len() == 0 {
        0
    } else {
        digits_value(s.drop_last()) * 10 + (s.last() as nat - 48) as nat
    }
}

/// A text of one or more ASCII digits.
pub open spec fn all_digits(s: Seq<char>) -> bool {
    s.len() > 0 && forall|i: int| 0 <= i < s.len() ==> is_digit(#[trigger] s[i])
}

// ---- conversions ----------------------------------------------------------

/// The characters of `s`, in order.
pub fn chars_of(s: &str) -> (out: Vec<char>)
    ensures
        out@ == s@,
{
    let mut out: Vec<char> = Vec::new();
    for c in it: s.chars()
        invariant
            out@ == s@.take(it.index() as int),
            it.seq() == s@,
    {
        out.push(c);
        assert(s@.take(it.index() + 1) =~= s@.take(it.index() as int).push(s@[it.index() as int]));
    }
    assert(s@.take(s@.len() as int) =~= s@);
    out
}

/// The characters of `cs` from `from` up to `to`, as a string.
pub fn string_of_range(cs: &[char], from: usize, to: usize) -> (out: String)
    requires
        from <= to <= cs@.len(),
    ensures
        out@ == cs@.subrange(from as int, to as int),
{
    let mut out = String::new();
    let mut i: usize = from;
    while i < to
        invariant
            from <= i <= to <= cs@.len(),
            out@ == cs@.subrange(from as int, i as int),
        decreases to - i,
    {
        out.push(cs[i]);
        assert(cs@.subrange(from as int, i + 1) =~= cs@.subrange(from as int, i as int).push(
            cs@[i as int],
        ));
        i = i + 1;
    }
    out
}

/// The characters of `cs` as a string.
pub fn string_of(cs: &[char]) -> (out: String)
    ensures
        out@ == cs@,
{
    let out = string_of_range(cs, 0, cs.len());
    assert(cs@.subrange(0, cs@.len() as int) =~= cs@);
    out
}

/// A copy of `s`.
pub fn copy_str(s: &str) -> (out: String)
    ensures
        out@ == s@,
{
    s.to_string()
}

/// Whether the two texts are equal.
pub fn str_eq(a: &str, b: &str) -> (r: bool)
    ensures
        r == (a@ == b@),
{
    let x: Vec<char> = chars_of(a);
    let y: Vec<char> = chars_of(b);
    if x.len() != y.len() {
        return false;
    }
    let r = is_match_at(&x, &y, 0);
    assert(x@.subrange(0, x@.len() as int) =~= x@);
    r
}

// ---- searching ------------------------------------------------------------

/// Whether `pat` stands in `s` at position `i`.
pub fn is_match_at(s: &[char], pat: &[char], i: usize) -> (r: bool)
    ensures
        r == matches_at(s@, pat@, i as int),
{
    if pat.len() > s.len() || i > s.len() - pat.len() {
        return false;
    }
    let mut k: usize = 0;
    while k < pat.len()
        invariant
            k <= pat@.len(),
            i + pat@.len() <= s.len(),
            forall|q: int| 0 <= q < k ==> s@[i + q] == #[trigger] pat@[q],
        decreases pat@.len() - k,
    {
        if s[i + k] != pat[k] {
            assert(s@.subrange(i as int, i + pat@.len())[k as int] != pat@[k as int]);
            return false;
        }
        k = k + 1;
    }
    assert(s@.subrange(i as int, i + pat@.len()) =~= pat@);
    true
}

/// The first position at or after `i` at which `pat` stands in `s`.
pub fn find(s: &[char], pat: &[char], i: usize) -> (r: Option<usize>)
    ensures
        r matches Some(j) ==> find_from(s@, pat@, i as int) == Some(j as int),
        r is None ==> find_from(s@, pat@, i as int) is None,
{
    if pat.len() > s.len() {
        return None;
    }
    let last = s.len() - pat.len();
    let mut k: usize = i;
    while k <= last
        invariant
            i <= k,
            last == s@.len() - pat@.len(),
            find_from(s@, pat@, i as int) == find_from(s@, pat@, k as int),
        decreases s@.len() + 1 - k,
    {
        if is_match_at(s, pat, k) {
            return Some(k);
        }
        if k == usize::MAX {
            assert(find_from(s@, pat@, k + 1) is None);
            return None;
        }
        k = k + 1;
    }
    None
}

/// Where a pattern is found, it stands, and it does not stand before.
pub proof fn lemma_find(s: Seq<char>, pat: Seq<char>, i: int)
    requires
        0 <= i,
    ensures
        find_from(s, pat, i) matches Some(j) ==> i <= j && matches_at(s, pat, j) && forall|k: int|
            i <= k < j ==> !#[trigger] matches_at(s, pat, k),
        find_from(s, pat, i) is None ==> forall|k: int| i <= k ==> !#[trigger] matches_at(s, pat, k),
    decreases s.len() + 1 - i,
{
    if i + pat.len() > s.len() {
    } else if matches_at(s, pat, i) {
    } else {
        lemma_find(s, pat, i + 1);
    }
}

/// Whether `pat` occurs in `s`.
pub fn str_contains(s: &str, pat: &str) -> (r: bool)
    ensures
        r == contains(s@, pat@),
{
    let x: Vec<char> = chars_of(s);
    let y: Vec<char> = chars_of(pat);
    let found = find(&x, &y, 0);
    proof {
        lemma_find(s@, pat@, 0);
        if contains(s@, pat@) {
            let k = choose|k: int| matches_at(s@, pat@, k);
            assert(0 <= k);
        }
    }
    found.is_some()
}

/// What follows the prefix `pat`, if `s` begins with it.
pub fn str_strip_prefix(s: &str, pat: &str) -> (r: Option<String>)
    ensures
        r matches Some(t) ==> strip_prefix(s@, pat@) == Some(t@),
        r is None ==> strip_prefix(s@, pat@) is None,
{
    let x: Vec<char> = chars_of(s);
    let y: Vec<char> = chars_of(pat);
    if is_match_at(&x, &y, 0) {
        let rest = string_of_range(&x, y.len(), x.len());
        assert(s@.subrange(pat@.len() as int, s@.len() as int) =~= s@.skip(pat@.len() as int));
        Some(rest)
    } else {
        None
    }
}

// ---- replacing ------------------------------------------------------------

/// Appends `part` to `out`.
pub fn push_all(out: &mut Vec<char>, part: &[char])
    ensures
        final(out)@ == old(out)@ + part@,
{
    let mut i: usize = 0;
    while i < part.len()
        invariant
            i <= part@.len(),
            out@ == old(out)@ + part@.take(i as int),
        decreases part@.len() - i,
    {
        out.push(part[i]);
        assert(part@.take(i + 1) =~= part@.take(i as int).push(part@[i as int]));
        i = i + 1;
    }
    assert(part@.take(part@.len() as int) =~= part@);
}

/// `s` with every occurrence of `pat` replaced by `with`.
pub fn replace_chars(s: &[char], pat: &[char], with: &[char]) -> (out: Vec<char>)
    requires
        pat@.len() > 0,
    ensures
        out@ == replace(s@, pat@, with@),
{
    let mut out: Vec<char> = Vec::new();
    let mut i: usize = 0;
    while i < s.len()
        invariant
            i <= s@.len(),
            pat@.len() > 0,
            out@ + replace_from(s@, pat@, with@, i as int) == replace(s@, pat@, with@),
        decreases s@.len() - i,
    {
        let ghost before = out@;
        if is_match_at(s, pat, i) {
            push_all(&mut out, with);
            proof {
                let rest = replace_from(s@, pat@, with@, i + pat@.len());
                assert(before + (with@ + rest) =~= (before + with@) + rest);
            }
            i = i + pat.len();
        } else {
            out.push(s[i]);
            proof {
                let rest = replace_from(s@, pat@, with@, i + 1);
                assert(before + (seq![s@[i as int]] + rest) =~= before.push(s@[i as int]) + rest);
            }
            i = i + 1;
        }
    }
    assert(out@ + Seq::<char>::empty() =~= out@);
    out
}

/// `s` with every occurrence of `pat` replaced by `with`.
pub fn str_replace(s: &str, pat: &str, with: &str) -> (out: String)
    requires
        pat@.len() > 0,
    ensures
        out@ == replace(s@, pat@, with@),
{
    let x: Vec<char> = chars_of(s);
    let y: Vec<char> = chars_of(pat);
    let z: Vec<char> = chars_of(with);
    let r: Vec<char> = replace_chars(&x, &y, &z);
    string_of(&r)
}

// ---- trimming and joining ---------------------------------------------------

/// Where `s` without the white space at both ends begins and ends.
pub fn trim_chars(s: &[char]) -> (r: (usize, usize))
    ensures
        r.0 <= r.1 <= s@.len(),
        s@.subrange(r.0 as int, r.1 as int) == trim(s@),
{
    let mut a: usize = 0;
    assert(s@.skip(0) =~= s@);
    while a < s.len() && is_whitespace(s[a])
        invariant
            a <= s@.len(),
            trim_start(s@) == trim_start(s@.skip(a as int)),
        decreases s@.len() - a,
    {
        assert(s@.skip(a as int).drop_first() =~= s@.skip(a + 1));
        a = a + 1;
    }
    let mut b: usize = s.len();
    assert(s@.subrange(a as int, b as int) =~= s@.skip(a as int));
    assert(trim_start(s@) == s@.skip(a as int));
    while a < b && is_whitespace(s[b - 1])
        invariant
            a <= b <= s@.len(),
            trim(s@) == trim_end(s@.subrange(a as int, b as int)),
        decreases b,
    {
        assert(s@.subrange(a as int, b as int).drop_last() =~= s@.subrange(a as int, b - 1));
        b = b - 1;
    }
    (a, b)
}

/// `s` without the white space at both ends.
pub fn str_trim(s: &str) -> (out: String)
    ensures
        out@ == trim(s@),
{
    let x: Vec<char> = chars_of(s);
    let (a, b) = trim_chars(&x);
    string_of_range(&x, a, b)
}

/// The parts with `sep` between neighbours.
pub fn join_strings(parts: &Vec<String>, sep: &str) -> (out: String)
    ensures
        out@ == join(views(parts@), sep@),
{
    let mut out = String::new();
    let mut i: usize = 0;
    while i < parts.len()
        invariant
            i <= parts@.len(),
            out@ == join(views(parts@).take(i as int), sep@),
        decreases parts@.len() - i,
    {
        let ghost prev = views(parts@).take(i as int);
        if i > 0 {
            out.append(sep);
        }
        out.append(parts[i].as_str());
        proof {
            let next = views(parts@).take(i + 1);
            assert(next.drop_last() =~= prev);
            assert(next.last() == parts@[i as int]@);
            if i == 0 {
                assert(out@ =~= parts@[0]@);
            } else {
                assert(out@ =~= join(prev, sep@) + sep@ + parts@[i as int]@);
            }
        }
        i = i + 1;
    }
    assert(views(parts@).take(parts@.len() as int) =~= views(parts@));
    out
}

/// The lines of `s`.
pub fn lines_of(s: &str) -> (out: Vec<String>)
    ensures
        views(out@) == lines_from(s@, 0),
{
    let cs: Vec<char> = chars_of(s);
    let feed: Vec<char> = chars_of("\n");
    proof {
        reveal_strlit("\n");
        assert(feed@ =~= seq!['\n']);
    }
    let mut out: Vec<String> = Vec::new();
    let mut i: usize = 0;
    assert(views(out@) =~= Seq::<Seq<char>>::empty());
    assert(views(out@) + lines_from(s@, 0) =~= lines_from(s@, 0));
    while i < cs.len()
        invariant
            i <= cs@.len(),
            cs@ == s@,
            feed@ == seq!['\n'],
            views(out@) + lines_from(s@, i as int) == lines_from(s@, 0),
        decreases cs@.len() - i,
    {
        let ghost before = views(out@);
        proof {
            lemma_find(s@, seq!['\n'], i as int);
        }
        match find(&cs, &feed, i) {
            Some(j) => {
                let end: usize = if j > i && cs[j - 1] == '\r' {
                    j - 1
                } else {
                    j
                };
                let line = string_of_range(&cs, i, end);
                proof {
                    let raw = s@.subrange(i as int, j as int);
                    assert(line@ =~= without_cr(raw));
                }
                out.push(line);
                proof {
                    let rest = lines_from(s@, j + 1);
                    assert(views(out@) =~= before.push(line@));
                    assert(before + (seq![line@] + rest) =~= before.push(line@) + rest);
                }
                i = j + 1;
            },
            None => {
                let line = string_of_range(&cs, i, cs.len());
                assert(line@ =~= s@.skip(i as int));
                out.push(line);
                i = cs.len();
                proof {
                    assert(views(out@) =~= before.push(line@));
                    assert(views(out@) + Seq::<Seq<char>>::empty() =~= before + seq![line@]);
                }
            },
        }
    }
    assert(views(out@) + Seq::<Seq<char>>::empty() =~= views(out@));
    out
}

/// The pieces of `s` that `sep` separates.
pub fn split_str(s: &str, sep: &str) -> (out: Vec<String>)
    requires
        sep@.len() > 0,
    ensures
        views(out@) == split_from(s@, sep@, 0),
{
    let cs: Vec<char> = chars_of(s);
    let pat: Vec<char> = chars_of(sep);
    let count: usize = cs.len();
    let mut out: Vec<String> = Vec::new();
    let mut i: usize = 0;
    let mut more = true;
    assert(views(out@) + split_from(s@, sep@, 0) =~= split_from(s@, sep@, 0));
    while more
        invariant
            i <= count,
            count == cs@.len(),
            cs@ == s@,
            pat@ == sep@,
            sep@.len() > 0,
            more ==> views(out@) + split_from(s@, sep@, i as int) == split_from(s@, sep@, 0),
            !more ==> views(out@) == split_from(s@, sep@, 0),
        decreases count - i, (if more {
            1int
        } else {
            0int
        }),
    {
        let ghost before = views(out@);
        proof {
            lemma_find(s@, sep@, i as int);
        }
        match find(&cs, &pat, i) {
            Some(j) => {
                let piece = string_of_range(&cs, i, j);
                out.push(piece);
                i = j + pat.len();
                proof {
                    let rest = split_from(s@, sep@, i as int);
                    assert(views(out@) =~= before.push(piece@));
                    assert(before + (seq![piece@] + rest) =~= before.push(piece@) + rest);
                }
            },
            None => {
                let piece = string_of_range(&cs, i, count);
                assert(piece@ =~= s@.skip(i as int));
                out.push(piece);
                more = false;
                assert(views(out@) =~= before + seq![piece@]);
            },
        }
    }
    out
}

// ---- numbers ----------------------------------------------------------------

/// The digit character of a value below ten.
pub fn digit(d: u8) -> (c: char)
    requires
        d < 10,
    ensures
        c == digit_char(d as int),
{
    (d + 48) as char
}

/// The decimal digits of `n`.
pub fn decimal_of_u128(n: u128) -> (out: String)
    ensures
        out@ == decimal(n as nat),
    decreases n,
{
    if n < 10 {
        let mut out = String::new();
        out.push(digit(n as u8));
        assert(out@ =~= seq![digit_char(n as int)]);
        out
    } else {
        let mut out = decimal_of_u128(n / 10);
        out.push(digit((n % 10) as u8));
        out
    }
}

/// The decimal digits of `n`.
pub fn decimal_of(n: u64) -> (out: String)
    ensures
        out@ == decimal(n as nat),
{
    decimal_of_u128(n as u128)
}

/// The decimal digits of `n`.
pub fn decimal_of_usize(n: usize) -> (out: String)
    ensures
        out@ == decimal(n as nat),
{
    decimal_of(n as u64)
}

/// The decimal digits of `i`, after a minus sign where it is negative.
pub fn decimal_of_i64(i: i64) -> (out: String)
    ensures
        out@ == decimal_int(i as int),
{
    if i >= 0 {
        decimal_of(i as u64)
    } else {
        let mut out = String::new();
        out.push('-');
        let m: u64 = (-(i + 1)) as u64 + 1;
        let d = decimal_of(m);
        out.append(d.as_str());
        assert(out@ =~= seq!['-'] + decimal((-(i as int)) as nat));
        out
    }
}

/// The digits of a number are digits, and they stand for it.
pub proof fn lemma_decimal(n: nat)
    ensures
        all_digits(decimal(n)),
        digits_value(decimal(n)) == n,
    decreases n,
{
    if n >= 10 {
        lemma_decimal(n / 10);
        let d = decimal(n);
        assert(d.drop_last() =~= decimal(n / 10));
        assert(d.last() == digit_char((n % 10) as int));
        assert(d.last() as int == n % 10 + 48);
        assert forall|i: int| 0 <= i < d.len() implies is_digit(#[trigger] d[i]) by {
            if i < d.len() - 1 {
                assert(d[i] == decimal(n / 10)[i]);
            }
        }
    } else {
        let d = decimal(n);
        assert(d.drop_last() =~= Seq::<char>::empty());
        assert(d.last() == digit_char(n as int));
        assert(digits_value(Seq::<char>::empty()) == 0);
    }
}

// ---- order ------------------------------------------------------------------

/// `a` comes before `b` in the order of their characters, or they are equal.
pub open spec fn text_le(a: Seq<char>, b: Seq<char>) -> bool
    decreases a.len(),
{
    if a.len() == 0 {
        true
    } else if b.len() == 0 {
        false
    } else if a[0] != b[0] {
        (a[0] as int) < (b[0] as int)
    } else {
        text_le(a.skip(1), b.skip(1))
    }
}

fn char_lt(c: char, d: char) -> (r: bool)
    ensures
        r == ((c as int) < (d as int)),
{
    (c as u32) < (d as u32)
}

/// Whether `a` comes before `b` or equals it.
pub fn str_le(a: &str, b: &str) -> (r: bool)
    ensures
        r == text_le(a@, b@),
{
    let x: Vec<char> = chars_of(a);
    let y: Vec<char> = chars_of(b);
    let mut i: usize = 0;
    assert(a@.skip(0) =~= a@ && b@.skip(0) =~= b@);
    while i < x.len() && i < y.len()
        invariant
            i <= x@.len(),
            i <= y@.len(),
            x@ == a@,
            y@ == b@,
            text_le(a@, b@) == text_le(a@.skip(i as int), b@.skip(i as int)),
        decreases x@.len() - i,
    {
        let c = x[i];
        let d = y[i];
        proof {
            assert(a@.skip(i as int)[0] == c && b@.skip(i as int)[0] == d);
            assert(a@.skip(i as int).skip(1) =~= a@.skip(i + 1));
            assert(b@.skip(i as int).skip(1) =~= b@.skip(i + 1));
        }
        if c != d {
            return char_lt(c, d);
        }
        i = i + 1;
    }
    i == x.len()
}

/// The order of texts is total.
pub proof fn lemma_le_total(a: Seq<char>, b: Seq<char>)
    ensures
        text_le(a, b) || text_le(b, a),
    decreases a.len(),
{
    if a.len() > 0 && b.len() > 0 {
        if a[0] == b[0] {
            lemma_le_total(a.skip(1), b.skip(1));
        }
    }
}

/// The order of texts is transitive.
pub proof fn lemma_le_transitive(a: Seq<char>, b: Seq<char>, c: Seq<char>)
    requires
        text_le(a, b),
        text_le(b, c),
    ensures
        text_le(a, c),
    decreases a.len(),
{
    if a.len() > 0 && b.len() > 0 && c.len() > 0 && a[0] == b[0] && b[0] == c[0] {
        lemma_le_transitive(a.skip(1), b.skip(1), c.skip(1));
    }
}

// ---- laws -------------------------------------------------------------------

/// The digits of a number are those of its tens, followed by its ones; below
/// ten they are one digit.
pub proof fn law_decimal_counts_tens(n: nat, d: nat)
    requires
        d < 10,
    ensures
        decimal(d) == seq![(d + '0' as nat) as char],
        n > 0 ==> decimal(n * 10 + d) == decimal(n).push((d + '0' as nat) as char),
        digits_value(Seq::empty()) == 0,
        digits_value(decimal(n).push((d + '0' as nat) as char)) == n * 10 + d,
{
    lemma_decimal(n);
    let c = (d + '0' as nat) as char;
    let s = decimal(n).push(c);
    assert(s.drop_last() =~= decimal(n));
    assert(s.last() as nat == d + 48);
    if n > 0 {
        assert((n * 10 + d) / 10 == n);
        assert((n * 10 + d) % 10 == d);
    }
}

/// The number that a text stands for: digits, after a minus sign where it is
/// negative.
pub open spec fn number_read(t: Seq<char>) -> int {
    if t.len() > 0 && t[0] == '-' {
        -(digits_value(t.skip(1)) as int)
    } else {
        digits_value(t) as int
    }
}

/// The text of an integer reads back as that integer. It begins with a minus
/// sign exactly where the integer is negative; the rest is digits, without
/// zeros before them.
pub proof fn law_integer_reads_back(i: int)
    ensures
        number_read(decimal_int(i)) == i,
        decimal_int(i).len() > 0,
        decimal_int(i)[0] == '-' <==> i < 0,
        all_digits(
            if i < 0 {
                decimal_int(i).skip(1)
            } else {
                decimal_int(i)
            },
        ),
        i != 0 ==> decimal_int(i)[if i < 0 {
            1
        } else {
            0int
        }] != '0',
        i == 0 ==> decimal_int(i).len() == 1,
{
    let m = if i < 0 {
        (-i) as nat
    } else {
        i as nat
    };
    lemma_decimal(m);
    lemma_no_zero_before(m);
    let t = decimal_int(i);
    assert(is_digit(decimal(m)[0]));
    if i < 0 {
        assert(t.skip(1) =~= decimal(m));
        assert(t[1] == decimal(m)[0]);
    }
}

proof fn lemma_no_zero_before(n: nat)
    ensures
        decimal(n).len() > 0,
        n > 0 ==> decimal(n)[0] != '0',
    decreases n,
{
    if n >= 10 {
        lemma_no_zero_before(n / 10);
        assert(decimal(n)[0] == decimal(n / 10)[0]);
    }
}

/// The texts `parts` stand in `t` one behind the other, part `k` at position
/// `at[k]`.
pub open spec fn in_order(t: Seq<char>, parts: Seq<Seq<char>>, at: Seq<int>) -> bool {
    &&& at.len() == parts.len()
    &&& forall|k: int| 0 <= k < parts.len() ==> matches_at(t, #[trigger] parts[k], at[k])
    &&& forall|k: int, j: int|
        0 <= k && j == k + 1 && j < parts.len() ==> (#[trigger] at[k]) + parts[k].len()
            <= #[trigger] at[j]
}

/// Where parts stand in order, and another one stands behind the last, all
/// stand in order.
pub proof fn lemma_in_order_push(
    t: Seq<char>,
    parts: Seq<Seq<char>>,
    at: Seq<int>,
    more: Seq<char>,
    place: int,
)
    requires
        in_order(t, parts, at),
        matches_at(t, more, place),
        parts.len() > 0 ==> at.last() + parts.last().len() <= place,
    ensures
        in_order(t, parts.push(more), at.push(place)),
{
    let ps = parts.push(more);
    let qs = at.push(place);
    assert forall|k: int| 0 <= k < ps.len() implies matches_at(t, #[trigger] ps[k], qs[k]) by {
        if k < parts.len() {
            assert(ps[k] == parts[k]);
        }
    }
}

/// What stands in order in a text stands in order behind another text, and
/// with another text behind it.
pub proof fn lemma_in_order_within(
    a: Seq<char>,
    t: Seq<char>,
    b: Seq<char>,
    parts: Seq<Seq<char>>,
    at: Seq<int>,
)
    requires
        in_order(t, parts, at),
    ensures
        in_order(a + t + b, parts, at.map_values(|p: int| p + a.len())),
{
    let u = a + t + b;
    let moved = at.map_values(|p: int| p + a.len());
    assert forall|k: int| 0 <= k < parts.len() implies matches_at(u, #[trigger] parts[k], moved[k]) by {
        let n = parts[k].len() as int;
        assert(u.subrange(moved[k], moved[k] + n) =~= t.subrange(at[k], at[k] + n));
    }
    assert forall|k: int, j: int|
        0 <= k && j == k + 1 && j < parts.len() implies (#[trigger] moved[k]) + parts[k].len()
        <= #[trigger] moved[j] by {
        assert(at[k] + parts[k].len() <= at[j]);
    }
}

/// Where a pattern first stands is where it is found.
pub proof fn lemma_find_is(s: Seq<char>, pat: Seq<char>, i: int, k: int)
    requires
        0 <= i <= k,
        matches_at(s, pat, k),
        forall|j: int| i <= j < k ==> !#[trigger] matches_at(s, pat, j),
    ensures
        find_from(s, pat, i) == Some(k),
    decreases k - i,
{
    if i < k {
        assert(!matches_at(s, pat, i));
        lemma_find_is(s, pat, i + 1, k);
    }
}

/// A pattern that stands nowhere is not found.
pub proof fn lemma_find_none(s: Seq<char>, pat: Seq<char>, i: int)
    requires
        0 <= i,
        forall|j: int| i <= j ==> !#[trigger] matches_at(s, pat, j),
    ensures
        find_from(s, pat, i) is None,
{
    lemma_find(s, pat, i);
}

/// Trimming cuts white space from both ends and nothing else: what is left is
/// a part of the text that neither begins nor ends with white space.
pub proof fn law_trim_cuts_white_space(s: Seq<char>) -> (cut: (int, int))
    ensures
        0 <= cut.0 <= cut.1 <= s.len(),
        trim(s) == s.subrange(cut.0, cut.1),
        forall|i: int| 0 <= i < cut.0 || cut.1 <= i < s.len() ==> whitespace(#[trigger] s[i]),
        trim(s).len() > 0 ==> !whitespace(trim(s)[0]) && !whitespace(trim(s).last()),
{
    let a = lemma_trim_start_cut(s);
    let rest = trim_start(s);
    let b = lemma_trim_end_cut(rest);
    let end = a + b;
    assert(trim(s) =~= s.subrange(a, end));
    assert forall|i: int| 0 <= i < a || end <= i < s.len() implies whitespace(#[trigger] s[i]) by {
        if end <= i {
            assert(rest[i - a] == s[i]);
        }
    }
    if trim(s).len() > 0 {
        assert(trim(s)[0] == rest[0]);
    }
    (a, end)
}

proof fn lemma_trim_start_cut(s: Seq<char>) -> (a: int)
    ensures
        0 <= a <= s.len(),
        trim_start(s) == s.skip(a),
        forall|i: int| 0 <= i < a ==> whitespace(#[trigger] s[i]),
        trim_start(s).len() > 0 ==> !whitespace(trim_start(s)[0]),
    decreases s.len(),
{
    if s.len() > 0 && whitespace(s[0]) {
        let rest = s.drop_first();
        let b = lemma_trim_start_cut(rest);
        assert(rest.skip(b) =~= s.skip(b + 1));
        assert forall|i: int| 0 <= i < b + 1 implies whitespace(#[trigger] s[i]) by {
            if i > 0 {
                assert(rest[i - 1] == s[i]);
            }
        }
        b + 1
    } else {
        assert(s.skip(0) =~= s);
        0
    }
}

proof fn lemma_trim_end_cut(s: Seq<char>) -> (b: int)
    ensures
        0 <= b <= s.len(),
        trim_end(s) == s.take(b),
        forall|i: int| b <= i < s.len() ==> whitespace(#[trigger] s[i]),
        trim_end(s).len() > 0 ==> !whitespace(trim_end(s).last()),
    decreases s.len(),
{
    if s.len() > 0 && whitespace(s.last()) {
        let rest = s.drop_last();
        let b = lemma_trim_end_cut(rest);
        assert(rest.take(b) =~= s.take(b));
        assert forall|i: int| b <= i < s.len() implies whitespace(#[trigger] s[i]) by {
            if i < s.len() - 1 {
                assert(rest[i] == s[i]);
            }
        }
        b
    } else {
        assert(s.take(s.len() as int) =~= s);
        s.len() as int
    }
}

/// Texts stand in the order of the first characters in which they differ, and
/// a text comes before every longer one that begins with it.
pub proof fn law_texts_are_ordered(common: Seq<char>, a: Seq<char>, b: Seq<char>)
    ensures
        text_le(common, common + a),
        a.len() > 0 ==> !text_le(common + a, common),
        a.len() > 0 && b.len() > 0 && (a[0] as int) < (b[0] as int) ==> {
            &&& text_le(common + a, common + b)
            &&& !text_le(common + b, common + a)
        },
    decreases common.len(),
{
    if common.len() > 0 {
        let rest = common.skip(1);
        law_texts_are_ordered(rest, a, b);
        assert((common + a).skip(1) =~= rest + a);
        assert((common + b).skip(1) =~= rest + b);
    } else {
        assert(common + a =~= a);
        assert(common + b =~= b);
    }
}

/// Parts are joined in order and whole, with the separator between each and
/// the next and nowhere else.
pub proof fn law_parts_are_joined(parts: Seq<Seq<char>>, last: Seq<char>, sep: Seq<char>)
    ensures
        join(Seq::empty(), sep).len() == 0,
        join(seq![last], sep) == last,
        parts.len() > 0 ==> join(parts.push(last), sep) == join(parts, sep) + sep + last,
{
    assert(parts.push(last).drop_last() =~= parts);
}

proof fn lemma_join_front(first: Seq<char>, rest: Seq<Seq<char>>, sep: Seq<char>)
    requires
        rest.len() > 0,
    ensures
        join(seq![first] + rest, sep) == first + sep + join(rest, sep),
    decreases rest.len(),
{
    let all = seq![first] + rest;
    if rest.len() == 1 {
        assert(all.drop_last() =~= seq![first]);
        assert(all.last() == rest[0]);
        assert(join(all, sep) == join(all.drop_last(), sep) + sep + all.last());
        assert(join(all.drop_last(), sep) == first);
    } else {
        let front = rest.drop_last();
        lemma_join_front(first, front, sep);
        assert(all.drop_last() =~= seq![first] + front);
        assert(first + sep + join(front, sep) + sep + rest.last() =~= first + sep + (join(front, sep)
            + sep + rest.last()));
    }
}

proof fn lemma_split(s: Seq<char>, sep: Seq<char>, i: int)
    requires
        sep.len() > 0,
        0 <= i <= s.len(),
    ensures
        split_from(s, sep, i).len() > 0,
        join(split_from(s, sep, i), sep) == s.skip(i),
        forall|k: int|
            0 <= k < split_from(s, sep, i).len() ==> !contains(
                #[trigger] split_from(s, sep, i)[k],
                sep,
            ),
    decreases s.len() - i,
{
    let pieces = split_from(s, sep, i);
    lemma_find(s, sep, i);
    match find_from(s, sep, i) {
        Some(j) => {
            let first = s.subrange(i, j);
            let rest = split_from(s, sep, j + sep.len());
            lemma_split(s, sep, j + sep.len());
            lemma_join_front(first, rest, sep);
            assert(s.subrange(j, j + sep.len()) == sep);
            assert(s.skip(i) =~= first + s.subrange(j, j + sep.len()) + s.skip(j + sep.len()));
            lemma_piece_holds_none(s, sep, i, j);
            assert forall|k: int| 0 <= k < pieces.len() implies !contains(
                #[trigger] pieces[k],
                sep,
            ) by {
                if k > 0 {
                    assert(pieces[k] == rest[k - 1]);
                }
            }
        },
        None => {
            let n = s.len() as int;
            assert(s.skip(i) =~= s.subrange(i, n));
            lemma_piece_holds_none(s, sep, i, n);
        },
    }
}

proof fn lemma_piece_holds_none(s: Seq<char>, sep: Seq<char>, i: int, j: int)
    requires
        0 <= i <= j <= s.len(),
        forall|k: int| i <= k < j ==> !#[trigger] matches_at(s, sep, k),
        sep.len() > 0,
    ensures
        !contains(s.subrange(i, j), sep),
{
    let piece = s.subrange(i, j);
    if contains(piece, sep) {
        let k = choose|k: int| matches_at(piece, sep, k);
        assert(s.subrange(i + k, i + k + sep.len()) =~= piece.subrange(k, k + sep.len()));
        assert(matches_at(s, sep, i + k));
    }
}

/// The pieces of a text that was split hold no separator, and joined by it they
/// are the text again.
pub proof fn law_split_parts_join_to_the_text(s: Seq<char>, sep: Seq<char>)
    requires
        sep.len() > 0,
    ensures
        join(split_from(s, sep, 0), sep) == s,
        forall|k: int|
            0 <= k < split_from(s, sep, 0).len() ==> !contains(
                #[trigger] split_from(s, sep, 0)[k],
                sep,
            ),
{
    lemma_split(s, sep, 0);
    assert(s.skip(0) =~= s);
}

proof fn lemma_lines_shift(s: Seq<char>, i: int, j: int)
    requires
        0 <= i <= s.len(),
        0 <= j,
    ensures
        lines_from(s, i + j) == lines_from(s.skip(i), j),
    decreases s.len() - i - j,
{
    let t = s.skip(i);
    if i + j < s.len() {
        lemma_found_further(s, seq!['\n'], i, j);
        lemma_find(t, seq!['\n'], j);
        match find_from(t, seq!['\n'], j) {
            Some(k) => {
                lemma_lines_shift(s, i, k + 1);
                assert(t.subrange(j, k) =~= s.subrange(i + j, i + k));
            },
            None => {
                assert(t.skip(j) =~= s.skip(i + j));
            },
        }
    }
}

/// What is found from a position on depends on what stands there alone.
pub proof fn lemma_found_further(s: Seq<char>, pat: Seq<char>, i: int, j: int)
    requires
        0 <= i <= s.len(),
        0 <= j,
    ensures
        find_from(s, pat, i + j) == (match find_from(s.skip(i), pat, j) {
            Some(k) => Some(k + i),
            None => None,
        }),
    decreases s.len() + 1 - i - j,
{
    let t = s.skip(i);
    if i + j + pat.len() <= s.len() {
        assert(t.subrange(j, j + pat.len()) =~= s.subrange(i + j, i + j + pat.len()));
        assert(matches_at(t, pat, j) == matches_at(s, pat, i + j));
        if !matches_at(t, pat, j) {
            lemma_found_further(s, pat, i, j + 1);
        }
    }
}

/// A line is what stands before a line feed, whole but for a carriage return
/// right before it, and the lines behind it follow. The last line needs no line
/// feed, and an empty text has no line.
pub proof fn law_lines_are_parted(line: Seq<char>, rest: Seq<char>)
    requires
        !line.contains('\n'),
    ensures
        line.len() == 0 || line.last() != '\r' ==> lines_from(line.push('\n') + rest, 0)
            == seq![line] + lines_from(rest, 0),
        lines_from(line.push('\r').push('\n') + rest, 0) == seq![line] + lines_from(rest, 0),
        line.len() > 0 ==> lines_from(line, 0) == seq![line],
        lines_from(Seq::empty(), 0) == Seq::<Seq<char>>::empty(),
{
    lemma_first_line(line, rest);
    let ended = line.push('\r');
    assert(!ended.contains('\n')) by {
        if ended.contains('\n') {
            let i = ended.index_of('\n');
            assert(line[i] == '\n');
        }
    }
    lemma_first_line(ended, rest);
    assert(ended.drop_last() =~= line);
    if line.len() > 0 {
        assert forall|j: int| 0 <= j implies !#[trigger] matches_at(line, seq!['\n'], j) by {
            if matches_at(line, seq!['\n'], j) {
                assert(line.subrange(j, j + 1)[0] == line[j]);
            }
        }
        lemma_find_none(line, seq!['\n'], 0);
        assert(line.skip(0) =~= line);
    }
}

proof fn lemma_first_line(line: Seq<char>, rest: Seq<char>)
    requires
        !line.contains('\n'),
    ensures
        lines_from(line.push('\n') + rest, 0) == seq![without_cr(line)] + lines_from(rest, 0),
{
    let s = line.push('\n') + rest;
    let n = line.len() as int;
    assert(s.subrange(n, n + 1) =~= seq!['\n']);
    assert forall|j: int| 0 <= j < n implies !#[trigger] matches_at(s, seq!['\n'], j) by {
        if matches_at(s, seq!['\n'], j) {
            assert(s.subrange(j, j + 1)[0] == s[j]);
            assert(s[j] == line[j]);
        }
    }
    lemma_find_is(s, seq!['\n'], 0, n);
    assert(s.subrange(0, n) =~= line);
    lemma_lines_shift(s, n + 1, 0);
    assert(s.skip(n + 1) =~= rest);
}

/// A prefix is taken off exactly where the text begins with it, and the rest is
/// kept whole.
pub proof fn law_prefix_is_taken_off(prefix: Seq<char>, rest: Seq<char>, s: Seq<char>)
    ensures
        strip_prefix(prefix + rest, prefix) == Some(rest),
        strip_prefix(s, prefix) matches Some(r) ==> s == prefix + r,
{
    let n = prefix.len() as int;
    assert((prefix + rest).subrange(0, n) =~= prefix);
    assert((prefix + rest).skip(n) =~= rest);
    if starts_with(s, prefix) {
        assert(s =~= s.subrange(0, n) + s.skip(n));
    }
}

// ---- what callers see -----------------------------------------------------------------------

/// Trimming, joining, splitting and replacing give what they are said to give,
/// and splitting undoes joining.
pub proof fn law_texts_are_worked_on(
    s: &str,
    sep: &str,
    with: &str,
    pieces: Vec<String>,
    joined: String,
    trimmed: String,
    replaced: String,
)
    requires
        sep@.len() > 0,
        call_ensures(split_str, (s, sep), pieces),
        call_ensures(join_strings, (&pieces, sep), joined),
        call_ensures(str_trim, (s,), trimmed),
        call_ensures(str_replace, (s, sep, with), replaced),
    ensures
        joined@ == s@,
        trimmed@ == trim(s@),
        replaced@ == replace(s@, sep@, with@),
        !contains(s@, sep@) ==> pieces@.len() == 1 && pieces@[0]@ == s@,
{
    law_split_parts_join_to_the_text(s@, sep@);
    assert(views(pieces@) == split_from(s@, sep@, 0));
    if !contains(s@, sep@) {
        assert forall|j: int| 0 <= j implies !#[trigger] matches_at(s@, sep@, j) by {}
        lemma_find_none(s@, sep@, 0);
        assert(s@.skip(0) =~= s@);
        assert(views(pieces@).len() == pieces@.len());
        assert(views(pieces@)[0] == pieces@[0]@);
    }
}

/// Numbers are written so that they read back, the negative ones too.
pub proof fn law_written_numbers_read_back(
    n: u64,
    i: i64,
    count: usize,
    a: String,
    b: String,
    c: String,
)
    requires
        call_ensures(decimal_of, (n,), a),
        call_ensures(decimal_of_i64, (i,), b),
        call_ensures(decimal_of_usize, (count,), c),
    ensures
        number_read(a@) == n,
        number_read(b@) == i,
        number_read(c@) == count,
{
    law_integer_reads_back(n as int);
    law_integer_reads_back(i as int);
    law_integer_reads_back(count as int);
}

} // verus!
