//! Addresses of cells: letters for the column, digits for the row.
use crate::text;
use crate::text::{chars_of, decimal_of_usize, find};
use vstd::prelude::*;

verus! {

/// A letter of the Latin alphabet.
pub open spec fn is_letter(c: char) -> bool {
    ('A' <= c && c <= 'Z') || ('a' <= c && c <= 'z')
}

/// The place of a letter in the alphabet, counted from one.
pub open spec fn letter_value(c: char) -> nat {
    if 'a' <= c {
        (c as int - 96) as nat
    } else {
        (c as int - 64) as nat
    }
}

/// Letters as a number: bijective base 26.
pub open spec fn letters_value(s: Seq<char>) -> nat
    decreases s.len(),
{
    if s.len() == 0 {
        0
    } else {
        letters_value(s.drop_last()) * 26 + letter_value(s.last())
    }
}

/// A text of one or more letters.
pub open spec fn all_letters(s: Seq<char>) -> bool {
    s.len() > 0 && forall|i: int| 0 <= i < s.len() ==> is_letter(#[trigger] s[i])
}

/// The column that letters stand for, counted from zero.
pub open spec fn column_of(s: Seq<char>) -> Option<nat> {
    if all_letters(s) {
        Some((letters_value(s) - 1) as nat)
    } else {
        None
    }
}

/// The letters that `s` begins with, from position `i` on, are letters up to
/// this position.
pub open spec fn letters_end(s: Seq<char>, i: int) -> int
    decreases s.len() - i,
{
    if 0 <= i < s.len() && is_letter(s[i]) {
        letters_end(s, i + 1)
    } else {
        i
    }
}

/// The letters that `s` begins with make a number that a machine word holds.
pub open spec fn letters_fit(s: Seq<char>) -> bool {
    letters_value(s.take(letters_end(s, 0))) <= usize::MAX
}

fn letter_number(c: char) -> (r: Option<usize>)
    ensures
        r is Some <==> is_letter(c),
        r matches Some(n) ==> n == letter_value(c) && 1 <= n <= 26,
{
    let code: u32 = c as u32;
    if 65 <= code && code <= 90 {
        Some((code - 64) as usize)
    } else if 97 <= code && code <= 122 {
        Some((code - 96) as usize)
    } else {
        None
    }
}

proof fn lemma_letters_end(s: Seq<char>, i: int)
    requires
        0 <= i <= s.len(),
    ensures
        i <= letters_end(s, i) <= s.len(),
        forall|k: int| i <= k < letters_end(s, i) ==> is_letter(#[trigger] s[k]),
        letters_end(s, i) < s.len() ==> !is_letter(s[letters_end(s, i)]),
    decreases s.len() - i,
{
    if i < s.len() && is_letter(s[i]) {
        lemma_letters_end(s, i + 1);
    }
}

proof fn lemma_letters_grow(s: Seq<char>, i: int, j: int)
    requires
        0 <= i <= j <= s.len(),
    ensures
        letters_value(s.take(i)) <= letters_value(s.take(j)),
    decreases j - i,
{
    if i < j {
        lemma_letters_grow(s, i, j - 1);
        assert(s.take(j).drop_last() =~= s.take(j - 1));
    }
}

/// Whether the letters that `letters` begins with make a number that a machine
/// word holds.
pub fn column_fits(letters: &str) -> (r: bool)
    ensures
        r == letters_fit(letters@),
{
    let cs: Vec<char> = chars_of(letters);
    let ghost end = letters_end(letters@, 0);
    proof {
        lemma_letters_end(letters@, 0);
        assert(letters@.take(0) =~= Seq::empty());
    }
    let mut index: usize = 0;
    let mut i: usize = 0;
    while i < cs.len()
        invariant
            i <= end <= cs@.len(),
            cs@ == letters@,
            end == letters_end(letters@, 0),
            end < letters@.len() ==> !is_letter(letters@[end]),
            forall|k: int| 0 <= k < end ==> is_letter(#[trigger] letters@[k]),
            index == letters_value(letters@.take(i as int)),
        decreases cs@.len() - i,
    {
        let c = cs[i];
        match letter_number(c) {
            None => {
                assert(i == end);
                return true;
            },
            Some(n) => {
                proof {
                    assert(i < end);
                    assert(letters@.take(i + 1).drop_last() =~= letters@.take(i as int));
                    lemma_letters_grow(letters@, i + 1, end);
                }
                if index > (usize::MAX - n) / 26 {
                    proof {
                        assert(index * 26 + n > usize::MAX);
                    }
                    return false;
                }
                index = index * 26 + n;
                i = i + 1;
            },
        }
    }
    true
}

/// The column that letters stand for, counted from zero.
pub fn col_letters_to_index(letters: &str) -> (r: Option<usize>)
    requires
        letters_fit(letters@),
    ensures
        match r {
            Some(n) => column_of(letters@) == Some(n as nat),
            None => column_of(letters@) is None,
        },
{
    let cs: Vec<char> = chars_of(letters);
    if cs.len() == 0 {
        return None;
    }
    let ghost end = letters_end(letters@, 0);
    proof {
        lemma_letters_end(letters@, 0);
        assert(letters@.take(0) =~= Seq::empty());
    }
    let mut index: usize = 0;
    let mut i: usize = 0;
    while i < cs.len()
        invariant
            i <= end <= cs@.len(),
            cs@ == letters@,
            cs@.len() > 0,
            end < letters@.len() ==> !is_letter(letters@[end]),
            forall|k: int| 0 <= k < end ==> is_letter(#[trigger] letters@[k]),
            letters_value(letters@.take(end)) <= usize::MAX,
            index == letters_value(letters@.take(i as int)),
            i > 0 ==> index > 0,
        decreases cs@.len() - i,
    {
        let c = cs[i];
        match letter_number(c) {
            None => {
                assert(!is_letter(letters@[i as int]));
                return None;
            },
            Some(n) => {
                proof {
                    assert(i < end);
                    assert(letters@.take(i + 1).drop_last() =~= letters@.take(i as int));
                    lemma_letters_grow(letters@, i + 1, end);
                }
                index = index * 26 + n;
                i = i + 1;
            },
        }
    }
    assert(letters@.take(letters@.len() as int) =~= letters@);
    Some(index - 1)
}

// ---- cells --------------------------------------------------------------------------------

/// The first digit of `s` at or after position `i`.
pub open spec fn digit_from(s: Seq<char>, i: int) -> Option<int>
    decreases s.len() - i,
{
    if i < 0 || i >= s.len() {
        None
    } else if text::is_digit(s[i]) {
        Some(i)
    } else {
        digit_from(s, i + 1)
    }
}

/// The row and the column of an address, both counted from zero.
pub open spec fn address_of(addr: Seq<char>) -> Option<(int, int)> {
    match digit_from(addr, 0) {
        None => None,
        Some(k) => match column_of(addr.take(k)) {
            None => None,
            Some(col) => {
                let digits = addr.skip(k);
                if text::all_digits(digits) && text::digits_value(digits) <= usize::MAX {
                    Some((text::digits_value(digits) - 1, col as int))
                } else {
                    None
                }
            },
        },
    }
}

/// The letters of an address make a number that a machine word holds, and its
/// row is not zero.
pub open spec fn address_fits(addr: Seq<char>) -> bool {
    match digit_from(addr, 0) {
        None => true,
        Some(k) => letters_fit(addr.take(k)) && (address_of(addr) matches Some((row, _)) ==> row
            >= 0),
    }
}

/// The place of the first digit.
fn first_digit(cs: &Vec<char>) -> (r: Option<usize>)
    ensures
        match r {
            Some(k) => digit_from(cs@, 0) == Some(k as int) && k < cs@.len(),
            None => digit_from(cs@, 0) is None,
        },
{
    let mut i: usize = 0;
    while i < cs.len()
        invariant
            i <= cs@.len(),
            digit_from(cs@, 0) == digit_from(cs@, i as int),
        decreases cs@.len() - i,
    {
        if is_digit_char(cs[i]) {
            return Some(i);
        }
        i = i + 1;
    }
    None
}

fn is_digit_char(c: char) -> (r: bool)
    ensures
        r == text::is_digit(c),
{
    let code: u32 = c as u32;
    48 <= code && code <= 57
}

proof fn lemma_digits_grow(s: Seq<char>, j: int)
    requires
        0 <= j <= s.len(),
        forall|i: int| 0 <= i < s.len() ==> text::is_digit(#[trigger] s[i]),
    ensures
        text::digits_value(s.take(j)) <= text::digits_value(s),
    decreases s.len() - j,
{
    if j < s.len() {
        lemma_digits_grow(s, j + 1);
        assert(s.take(j + 1).drop_last() =~= s.take(j));
        assert(text::is_digit(s[j]));
        assert(s.take(j + 1).last() == s[j]);
    } else {
        assert(s.take(j) =~= s);
    }
}

/// The number that the characters from `from` on stand for; nothing where they
/// are not all digits, or where a machine word does not hold it.
fn parse_digits(cs: &Vec<char>, from: usize) -> (r: Option<usize>)
    requires
        from < cs@.len(),
    ensures
        r is Some <==> text::all_digits(cs@.skip(from as int)) && text::digits_value(
            cs@.skip(from as int),
        ) <= usize::MAX,
        r matches Some(n) ==> n == text::digits_value(cs@.skip(from as int)),
{
    let ghost s = cs@.skip(from as int);
    let mut i: usize = from;
    while i < cs.len()
        invariant
            from <= i <= cs@.len(),
            s == cs@.skip(from as int),
            forall|k: int| 0 <= k < i - from ==> text::is_digit(#[trigger] s[k]),
        decreases cs@.len() - i,
    {
        if !is_digit_char(cs[i]) {
            assert(!text::is_digit(s[i - from]));
            return None;
        }
        assert(s[i - from] == cs@[i as int]);
        i = i + 1;
    }
    let mut value: usize = 0;
    let mut k: usize = from;
    assert(s.take(0) =~= Seq::empty());
    while k < cs.len()
        invariant
            from <= k <= cs@.len(),
            from < cs@.len(),
            s == cs@.skip(from as int),
            forall|j: int| 0 <= j < s.len() ==> text::is_digit(#[trigger] s[j]),
            value == text::digits_value(s.take(k - from)),
        decreases cs@.len() - k,
    {
        let c = cs[k];
        assert(s[k - from] == c);
        let d: usize = digit_number(c);
        proof {
            assert(s.take(k - from + 1).drop_last() =~= s.take(k - from));
            lemma_digits_grow(s, k - from + 1);
        }
        if value > (usize::MAX - d) / 10 {
            assert(value * 10 + d > usize::MAX);
            return None;
        }
        value = value * 10 + d;
        k = k + 1;
    }
    assert(s.take(s.len() as int) =~= s);
    Some(value)
}

fn digit_number(c: char) -> (d: usize)
    requires
        text::is_digit(c),
    ensures
        d == c as int - 48,
        d < 10,
{
    (c as u32 - 48) as usize
}

/// Whether the letters of an address make a number that a machine word holds,
/// and its row is not zero.
pub fn cell_address_fits(addr: &str) -> (r: bool)
    ensures
        r == address_fits(addr@),
{
    let cs: Vec<char> = chars_of(addr);
    match first_digit(&cs) {
        None => true,
        Some(k) => {
            let letters = text::string_of_range(&cs, 0, k);
            assert(letters@ =~= addr@.take(k as int));
            if !column_fits(letters.as_str()) {
                return false;
            }
            match col_letters_to_index(letters.as_str()) {
                None => true,
                Some(_) => match parse_digits(&cs, k) {
                    Some(n) => n != 0,
                    None => true,
                },
            }
        },
    }
}

/// The row and the column of an address, both counted from zero: "B7" is row
/// 6 and column 1.
pub fn parse_cell_address(addr: &str) -> (r: Option<(usize, usize)>)
    requires
        address_fits(addr@),
    ensures
        match r {
            Some((row, col)) => address_of(addr@) == Some((row as int, col as int)),
            None => address_of(addr@) is None,
        },
{
    let cs: Vec<char> = chars_of(addr);
    match first_digit(&cs) {
        None => None,
        Some(k) => {
            let letters = text::string_of_range(&cs, 0, k);
            assert(letters@ =~= addr@.take(k as int));
            match col_letters_to_index(letters.as_str()) {
                None => None,
                Some(col) => match parse_digits(&cs, k) {
                    Some(n) => Some((n - 1, col)),
                    None => None,
                },
            }
        },
    }
}

/// A pair comes before another, or equals it: rows count first.
pub open spec fn pair_le(a: (int, int), b: (int, int)) -> bool {
    a.0 < b.0 || (a.0 == b.0 && a.1 <= b.1)
}

/// The parts of a range before and behind its first colon.
pub open spec fn range_parts(range: Seq<char>) -> Option<(Seq<char>, Seq<char>)> {
    match text::find_from(range, seq![':'], 0) {
        Some(i) => Some((range.take(i), range.skip(i + 1))),
        None => None,
    }
}

/// The two ends of a range, the one that comes first in front.
pub open spec fn range_of(range: Seq<char>) -> Option<((int, int), (int, int))> {
    match range_parts(range) {
        None => None,
        Some((a, b)) => match (address_of(a), address_of(b)) {
            (Some(s), Some(e)) => if pair_le(s, e) {
                Some((s, e))
            } else {
                Some((e, s))
            },
            _ => None,
        },
    }
}

/// Both ends of a range fit, as far as they are looked at: the second only
/// where the first is an address.
pub open spec fn range_fits(range: Seq<char>) -> bool {
    range_parts(range) matches Some((a, b)) ==> address_fits(a) && (address_of(a) is Some
        ==> address_fits(b))
}

fn split_range(range: &str) -> (r: Option<(String, String)>)
    ensures
        match r {
            Some((a, b)) => range_parts(range@) == Some((a@, b@)),
            None => range_parts(range@) is None,
        },
{
    let cs: Vec<char> = chars_of(range);
    let colon: Vec<char> = chars_of(":");
    proof {
        reveal_strlit(":");
        assert(colon@ =~= seq![':']);
        text::lemma_find(range@, seq![':'], 0);
    }
    let count: usize = cs.len();
    match find(&cs, &colon, 0) {
        Some(i) => {
            let a = text::string_of_range(&cs, 0, i);
            let b = text::string_of_range(&cs, i + 1, count);
            assert(a@ =~= range@.take(i as int));
            assert(b@ =~= range@.skip(i + 1));
            Some((a, b))
        },
        None => None,
    }
}

/// Whether the ends of a range fit.
pub fn cell_range_fits(range: &str) -> (r: bool)
    ensures
        r == range_fits(range@),
{
    match split_range(range) {
        None => true,
        Some((a, b)) => {
            if !cell_address_fits(a.as_str()) {
                return false;
            }
            match parse_cell_address(a.as_str()) {
                None => true,
                Some(_) => cell_address_fits(b.as_str()),
            }
        },
    }
}

/// The two ends of a range, the one that comes first in front.
pub fn parse_cell_range(range: &str) -> (r: Option<((usize, usize), (usize, usize))>)
    requires
        range_fits(range@),
    ensures
        match r {
            Some((s, e)) => range_of(range@) == Some(
                ((s.0 as int, s.1 as int), (e.0 as int, e.1 as int)),
            ),
            None => range_of(range@) is None,
        },
{
    match split_range(range) {
        None => None,
        Some((a, b)) => match parse_cell_address(a.as_str()) {
            None => None,
            Some(s) => match parse_cell_address(b.as_str()) {
                None => None,
                Some(e) => {
                    if s.0 < e.0 || (s.0 == e.0 && s.1 <= e.1) {
                        Some((s, e))
                    } else {
                        Some((e, s))
                    }
                },
            },
        },
    }
}

// ---- from numbers to addresses --------------------------------------------------------------

/// The letters of a column, counted from zero.
pub open spec fn column_letters(index: nat) -> Seq<char>
    decreases index,
{
    if index < 26 {
        seq![((65 + index) as char)]
    } else {
        column_letters((index / 26 - 1) as nat).push((65 + index % 26) as char)
    }
}

/// The address of a cell, whose row and column are counted from zero.
pub open spec fn cell_address(row: nat, col: nat) -> Seq<char> {
    column_letters(col) + text::decimal(row + 1)
}

fn letter(i: u8) -> (c: char)
    requires
        i < 26,
    ensures
        c == (65 + i) as char,
        is_letter(c),
        c <= 'Z',
        letter_value(c) == i + 1,
{
    (65 + i) as char
}

/// The letters of a column, counted from zero.
pub fn index_to_col_letters(index: usize) -> (out: String)
    ensures
        out@ == column_letters(index as nat),
    decreases index,
{
    let mut out = if index < 26 {
        String::new()
    } else {
        index_to_col_letters(index / 26 - 1)
    };
    out.push(letter((index % 26) as u8));
    assert(out@ =~= column_letters(index as nat));
    out
}

/// The address of a cell, whose row and column are counted from zero.
pub fn coord_to_address(row: usize, col: usize) -> (out: String)
    requires
        row < usize::MAX,
    ensures
        out@ == cell_address(row as nat, col as nat),
{
    let mut out = index_to_col_letters(col);
    let digits = decimal_of_usize(row + 1);
    out.append(digits.as_str());
    out
}

// ---- laws -----------------------------------------------------------------------------------

/// The letters of a column are capital letters and stand for that column.
pub proof fn law_column_reads_back(index: nat)
    ensures
        column_of(column_letters(index)) == Some(index),
        forall|i: int|
            0 <= i < column_letters(index).len() ==> 'A' <= #[trigger] column_letters(index)[i]
                && column_letters(index)[i] <= 'Z',
    decreases index,
{
    let s = column_letters(index);
    if index < 26 {
        assert(s.drop_last() =~= Seq::empty());
        assert(letters_value(s.drop_last()) == 0);
        assert(s.last() as int == 65 + index);
        assert(is_letter(s[0]));
    } else {
        let prev = (index / 26 - 1) as nat;
        law_column_reads_back(prev);
        let p = column_letters(prev);
        assert(s.drop_last() =~= p);
        assert(s.last() as int == 65 + index % 26);
        assert(is_letter(s.last()));
        assert(letters_value(s) == (prev + 1) * 26 + index % 26 + 1);
        assert forall|i: int| 0 <= i < s.len() implies 'A' <= #[trigger] s[i] && s[i] <= 'Z' by {
            if i < p.len() {
                assert(s[i] == p[i]);
            }
        }
        assert forall|i: int| 0 <= i < s.len() implies is_letter(#[trigger] s[i]) by {}
    }
}

/// The first digit is the one that no digit stands before.
pub proof fn lemma_digit_behind(s: Seq<char>, k: int, i: int)
    requires
        0 <= i <= k < s.len(),
        text::is_digit(s[k]),
        forall|j: int| i <= j < k ==> !text::is_digit(#[trigger] s[j]),
    ensures
        digit_from(s, i) == Some(k),
    decreases k - i,
{
    if i < k {
        lemma_digit_behind(s, k, i + 1);
    }
}

/// The address of a cell is read back as that cell.
pub proof fn law_address_reads_back(row: nat, col: nat)
    requires
        row < usize::MAX,
        col < usize::MAX,
    ensures
        address_of(cell_address(row, col)) == Some((row as int, col as int)),
        address_fits(cell_address(row, col)),
{
    let letters = column_letters(col);
    let digits = text::decimal(row + 1);
    let addr = cell_address(row, col);
    let k = letters.len() as int;
    law_column_reads_back(col);
    text::lemma_decimal(row + 1);
    assert(text::is_digit(digits[0]));
    assert(addr[k] == digits[0]);
    assert forall|j: int| 0 <= j < k implies !text::is_digit(#[trigger] addr[j]) by {
        assert(addr[j] == letters[j]);
    }
    lemma_digit_behind(addr, k, 0);
    assert(addr.take(k) =~= letters);
    assert(addr.skip(k) =~= digits);
    lemma_letters_end(letters, 0);
    assert(letters_end(letters, 0) == letters.len()) by {
        if letters_end(letters, 0) < letters.len() {
            assert(is_letter(letters[letters_end(letters, 0)]));
        }
    }
    assert(letters.take(letters.len() as int) =~= letters);
    assert(letters_value(letters) == col + 1);
}

/// The ends of a range are the same whichever of them is written first.
pub proof fn law_range_order_is_free(a: Seq<char>, b: Seq<char>)
    requires
        !a.contains(':'),
        !b.contains(':'),
    ensures
        range_of(a + seq![':'] + b) == range_of(b + seq![':'] + a),
{
    lemma_parts(a, b);
    lemma_parts(b, a);
}

proof fn lemma_parts(a: Seq<char>, b: Seq<char>)
    requires
        !a.contains(':'),
    ensures
        range_parts(a + seq![':'] + b) == Some((a, b)),
{
    let r = a + seq![':'] + b;
    let n = a.len() as int;
    text::lemma_find(r, seq![':'], 0);
    assert(r.subrange(n, n + 1) =~= seq![':']);
    assert(text::matches_at(r, seq![':'], n));
    let i = text::find_from(r, seq![':'], 0)->0;
    if i < n {
        assert(r.subrange(i, i + 1)[0] == ':');
        assert(a[i] == ':');
    }
    assert(r.take(n) =~= a);
    assert(r.skip(n + 1) =~= b);
}

/// The letter with the given place in the alphabet, counted from zero, in
/// capitals or not.
pub open spec fn nth_letter(n: int, small: bool) -> char {
    if small {
        (n + 'a' as int) as char
    } else {
        (n + 'A' as int) as char
    }
}

/// Columns are named in the order of the alphabet: by one letter, then by two,
/// then by three. Small letters name the same columns as capitals.
pub proof fn law_columns_are_named_in_order(a: int, b: int, c: int, small: bool)
    requires
        0 <= a < 26,
        0 <= b < 26,
        0 <= c < 26,
    ensures
        column_of(seq![nth_letter(a, small)]) == Some(a as nat),
        column_of(seq![nth_letter(a, small), nth_letter(b, small)]) == Some(
            (26 + a * 26 + b) as nat,
        ),
        column_of(
            seq![nth_letter(a, small), nth_letter(b, small), nth_letter(c, small)],
        ) == Some((702 + a * 676 + b * 26 + c) as nat),
        column_letters(a as nat) == seq![nth_letter(a, false)],
        column_letters((26 + a * 26 + b) as nat) == seq![
            nth_letter(a, false),
            nth_letter(b, false),
        ],
        column_letters((702 + a * 676 + b * 26 + c) as nat) == seq![
            nth_letter(a, false),
            nth_letter(b, false),
            nth_letter(c, false),
        ],
{
    let x = nth_letter(a, small);
    let y = nth_letter(b, small);
    let z = nth_letter(c, small);
    let one = seq![x];
    let two = seq![x, y];
    let three = seq![x, y, z];
    assert(one.drop_last() =~= Seq::empty());
    assert(two.drop_last() =~= one);
    assert(three.drop_last() =~= two);
    assert(letters_value(Seq::<char>::empty()) == 0);
    assert(letter_value(x) == a + 1 && letter_value(y) == b + 1 && letter_value(z) == c + 1);
    assert(letters_value(one) == a + 1);
    assert(letters_value(two) == (a + 1) * 26 + b + 1);
    assert(letters_value(three) == ((a + 1) * 26 + b + 1) * 26 + c + 1);
    assert(is_letter(x) && is_letter(y) && is_letter(z));
    assert(all_letters(one) && all_letters(two) && all_letters(three));
    let m = (26 + a * 26 + b) as nat;
    assert(m / 26 == a + 1 && m % 26 == b);
    assert(column_letters(a as nat) =~= seq![nth_letter(a, false)]);
    assert(column_letters(m) =~= seq![nth_letter(a, false), nth_letter(b, false)]);
    let n = (702 + a * 676 + b * 26 + c) as nat;
    assert(n / 26 == m + 1 && n % 26 == c) by {
        assert(n == 26 * (m + 1) + c);
    }
    assert(column_letters(n) =~= seq![
        nth_letter(a, false),
        nth_letter(b, false),
        nth_letter(c, false),
    ]);
}

/// An address is the letters of a column followed by the digits of a row, the
/// first of which is row one; nothing else is an address.
pub proof fn law_address_is_column_and_row(letters: Seq<char>, digits: Seq<char>)
    requires
        text::all_digits(digits),
        forall|i: int| 0 <= i < letters.len() ==> !text::is_digit(#[trigger] letters[i]),
    ensures
        address_of(letters + digits) is Some <==> all_letters(letters) && text::digits_value(digits)
            <= usize::MAX,
        address_of(letters + digits) matches Some((row, col)) ==> row + 1 == text::digits_value(
            digits,
        ) && column_of(letters) == Some(col as nat) && col >= 0,
        address_of(letters) is None,
{
    let addr = letters + digits;
    let k = letters.len() as int;
    assert(text::is_digit(digits[0]));
    assert(addr[k] == digits[0]);
    assert forall|j: int| 0 <= j < k implies !text::is_digit(#[trigger] addr[j]) by {
        assert(addr[j] == letters[j]);
    }
    lemma_digit_behind(addr, k, 0);
    assert(addr.take(k) =~= letters);
    assert(addr.skip(k) =~= digits);
    lemma_no_digit(letters, 0);
}

proof fn lemma_no_digit(s: Seq<char>, i: int)
    requires
        0 <= i,
        forall|j: int| 0 <= j < s.len() ==> !text::is_digit(#[trigger] s[j]),
    ensures
        digit_from(s, i) is None,
    decreases s.len() - i,
{
    if i < s.len() {
        lemma_no_digit(s, i + 1);
    }
}

/// A range between the addresses of two cells spans the rows and the columns
/// of both, whichever is written first.
pub proof fn law_range_spans_its_cells(r1: nat, c1: nat, r2: nat, c2: nat)
    requires
        r1 < usize::MAX,
        c1 < usize::MAX,
        r2 < usize::MAX,
        c2 < usize::MAX,
    ensures
        ({
            let range = cell_address(r1, c1) + seq![':'] + cell_address(r2, c2);
            &&& range_fits(range)
            &&& range_of(range) matches Some((s, e)) && {
                &&& s.0 == if r1 <= r2 { r1 } else { r2 }
                &&& e.0 == if r1 <= r2 { r2 } else { r1 }
                &&& (s.1 == c1 && e.1 == c2) || (s.1 == c2 && e.1 == c1)
            }
        }),
{
    let a = cell_address(r1, c1);
    let b = cell_address(r2, c2);
    law_address_reads_back(r1, c1);
    law_address_reads_back(r2, c2);
    lemma_no_colon(r1, c1);
    lemma_parts(a, b);
}

proof fn lemma_no_colon(row: nat, col: nat)
    ensures
        !cell_address(row, col).contains(':'),
{
    let letters = column_letters(col);
    let digits = text::decimal(row + 1);
    let addr = cell_address(row, col);
    law_column_reads_back(col);
    text::lemma_decimal(row + 1);
    if addr.contains(':') {
        let i = addr.index_of(':');
        assert(addr[i] == ':');
        if i < letters.len() {
            assert(addr[i] == letters[i]);
        } else {
            assert(addr[i] == digits[i - letters.len()]);
            assert(text::is_digit(digits[i - letters.len()]));
        }
    }
}

/// Only letters followed by digits are read as an address, with nothing before,
/// between or behind them.
pub proof fn law_only_addresses_are_read(addr: Seq<char>)
    ensures
        address_of(addr) is Some ==> exists|k: int|
            0 < k < addr.len() && all_letters(#[trigger] addr.take(k)) && text::all_digits(
                addr.skip(k),
            ),
{
    lemma_first_digit(addr, 0);
    if let Some(k) = digit_from(addr, 0) {
        if address_of(addr) is Some {
            assert(all_letters(addr.take(k)));
            assert(text::all_digits(addr.skip(k)));
        }
    }
}

proof fn lemma_first_digit(s: Seq<char>, i: int)
    requires
        0 <= i,
    ensures
        digit_from(s, i) matches Some(k) ==> i <= k < s.len(),
    decreases s.len() - i,
{
    if i < s.len() && !text::is_digit(s[i]) {
        lemma_first_digit(s, i + 1);
    }
}

/// A range is two addresses with a colon between them: a text without one is
/// none, and neither is one either of whose ends is not an address.
pub proof fn law_range_is_two_addresses(a: Seq<char>, b: Seq<char>)
    requires
        !a.contains(':'),
    ensures
        range_of(a) is None,
        range_of(a.push(':') + b) is Some <==> address_of(a) is Some && address_of(b) is Some,
        range_of(a.push(':') + b) matches Some((s, e)) ==> {
            ||| s == address_of(a)->0 && e == address_of(b)->0
            ||| s == address_of(b)->0 && e == address_of(a)->0
        },
{
    let colon = seq![':'];
    assert forall|j: int| 0 <= j implies !#[trigger] text::matches_at(a, colon, j) by {
        if text::matches_at(a, colon, j) {
            assert(a.subrange(j, j + 1)[0] == a[j]);
        }
    }
    text::lemma_find_none(a, colon, 0);
    let s = a.push(':') + b;
    let n = a.len() as int;
    assert(s.subrange(n, n + 1) =~= colon);
    assert forall|j: int| 0 <= j < n implies !#[trigger] text::matches_at(s, colon, j) by {
        if text::matches_at(s, colon, j) {
            assert(s.subrange(j, j + 1)[0] == s[j]);
            assert(s[j] == a[j]);
        }
    }
    text::lemma_find_is(s, colon, 0, n);
    assert(s.take(n) =~= a);
    assert(s.skip(n + 1) =~= b);
}

// ---- what callers see -----------------------------------------------------------------------

/// The address that a cell is given is read as that cell.
pub proof fn law_given_address_is_read(
    row: usize,
    col: usize,
    addr: String,
    read: &str,
    r: Option<(usize, usize)>,
)
    requires
        call_ensures(coord_to_address, (row, col), addr),
        read@ == addr@,
        call_ensures(parse_cell_address, (read,), r),
        row < usize::MAX,
        col < usize::MAX,
    ensures
        r == Some((row, col)),
{
    law_address_reads_back(row as nat, col as nat);
}

} // verus!
