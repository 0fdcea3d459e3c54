//! Character-level helpers shared by the extractors and the differ.
//!
//! Text is handled as a sequence of `char`s: every contract in this crate
//! speaks about `Seq<char>`, the view of `str` and `String`.

use vstd::prelude::*;
use vstd::slice::slice_subrange;

verus! {

/// The characters of `s`, in order.
pub fn chars_of(s: &str) -> (out: Vec<char>)
    ensures
        out@ == s@,
{
    let mut out: Vec<char> = Vec::new();
    for c in it: s.chars()
        invariant
            out@ == it.seq().take(it.index() as int),
    {
        out.push(c);
    }
    out
}

/// Collects characters into a `String` with `String::from_iter`: the result
/// holds exactly the given characters, in order.
#[verifier::external_body]
fn collect_text(chars: &[char]) -> (out: String)
    ensures
        out@ == chars@,
{
    chars.iter().collect()
}

/// The text made of `chars[from..to]`.
pub fn text_of(chars: &Vec<char>, from: usize, to: usize) -> (out: String)
    requires
        from <= to <= chars.len(),
    ensures
        out@ == chars@.subrange(from as int, to as int),
{
    collect_text(slice_subrange(chars.as_slice(), from, to))
}

/// `c` with the letters `A` to `Z` mapped to `a` to `z`.
pub open spec fn lower_char(c: char) -> char {
    if 'A' <= c && c <= 'Z' {
        ((c as u8) + 32) as char
    } else {
        c
    }
}

/// `s` with every ASCII capital letter replaced by its small letter.
pub open spec fn lower(s: Seq<char>) -> Seq<char> {
    Seq::new(s.len(), |i: int| lower_char(s[i]))
}

fn to_lower_char(c: char) -> (out: char)
    ensures
        out == lower_char(c),
{
    if 'A' <= c && c <= 'Z' {
        ((c as u8) + 32) as char
    } else {
        c
    }
}

/// ASCII lower-casing of a text.
pub fn to_lower(chars: &Vec<char>) -> (out: Vec<char>)
    ensures
        out@ == lower(chars@),
{
    let mut out: Vec<char> = Vec::new();
    let mut i: usize = 0;
    while i < chars.len()
        invariant
            i <= chars.len(),
            out@ == lower(chars@.take(i as int)),
        decreases chars.len() - i,
    {
        out.push(to_lower_char(chars[i]));
        i += 1;
        assert(out@ =~= lower(chars@.take(i as int)));
    }
    assert(chars@.take(i as int) =~= chars@);
    out
}

/// Whether two texts hold the same characters.
pub fn same_chars(a: &Vec<char>, b: &Vec<char>) -> (out: bool)
    ensures
        out == (a@ == b@),
{
    if a.len() != b.len() {
        return false;
    }
    let mut i: usize = 0;
    while i < a.len()
        invariant
            i <= a.len(),
            a.len() == b.len(),
            a@.take(i as int) == b@.take(i as int),
        decreases a.len() - i,
    {
        if a[i] != b[i] {
            return false;
        }
        i += 1;
        assert(a@.take(i as int) =~= a@.take(i as int - 1).push(a@[i as int - 1]));
        assert(b@.take(i as int) =~= b@.take(i as int - 1).push(b@[i as int - 1]));
    }
    assert(a@.take(i as int) =~= a@);
    assert(b@.take(i as int) =~= b@);
    true
}

/// Whether two texts are equal.
pub fn same_text(a: &str, b: &str) -> (out: bool)
    ensures
        out == (a@ == b@),
{
    same_chars(&chars_of(a), &chars_of(b))
}

/// Whether `chars` spells exactly `word`.
pub fn spells(chars: &Vec<char>, word: &str) -> (out: bool)
    ensures
        out == (chars@ == word@),
{
    let w = chars_of(word);
    same_chars(chars, &w)
}

/// The character of a decimal digit.
pub open spec fn digit_char(d: int) -> char {
    if d == 0 {
        '0'
    } else if d == 1 {
        '1'
    } else if d == 2 {
        '2'
    } else if d == 3 {
        '3'
    } else if d == 4 {
        '4'
    } else if d == 5 {
        '5'
    } else if d == 6 {
        '6'
    } else if d == 7 {
        '7'
    } else if d == 8 {
        '8'
    } else {
        '9'
    }
}

/// The decimal numeral of `n`, without leading zeros.
pub open spec fn decimal(n: nat) -> Seq<char>
    decreases n,
{
    if n < 10 {
        seq![digit_char(n as int)]
    } else {
        decimal(n / 10).push(digit_char((n % 10) as int))
    }
}

/// The number that a decimal digit stands for.
pub open spec fn digit_value(c: char) -> int {
    if c == '0' {
        0
    } else if c == '1' {
        1
    } else if c == '2' {
        2
    } else if c == '3' {
        3
    } else if c == '4' {
        4
    } else if c == '5' {
        5
    } else if c == '6' {
        6
    } else if c == '7' {
        7
    } else if c == '8' {
        8
    } else {
        9
    }
}

/// The number that a decimal numeral stands for.
pub open spec fn numeral_value(s: Seq<char>) -> int
    decreases s.len(),
{
    if s.len() == 0 {
        0
    } else {
        numeral_value(s.drop_last()) * 10 + digit_value(s.last())
    }
}

/// Whether `c` is a decimal digit.
pub open spec fn is_digit(c: char) -> bool {
    '0' <= c && c <= '9'
}

/// A decimal numeral is not empty, holds digits only, and stands for the
/// number it was made from.
pub proof fn lemma_decimal(n: nat)
    ensures
        decimal(n).len() > 0,
        forall|i: int| 0 <= i < decimal(n).len() ==> is_digit(#[trigger] decimal(n)[i]),
        numeral_value(decimal(n)) == n,
    decreases n,
{
    if n < 10 {
        assert(decimal(n).drop_last() =~= Seq::<char>::empty());
        assert(numeral_value(decimal(n).drop_last()) == 0);
    } else {
        lemma_decimal(n / 10);
        let shorter = decimal(n / 10);
        let full = decimal(n);
        assert(full.drop_last() =~= shorter);
        assert forall|i: int| 0 <= i < full.len() implies is_digit(#[trigger] full[i]) by {
            if i < shorter.len() {
                assert(full[i] == shorter[i]);
            }
        }
    }
}

/// Different numbers have different decimal numerals.
pub proof fn lemma_decimal_injective(n: nat, m: nat)
    requires
        decimal(n) == decimal(m),
    ensures
        n == m,
{
    lemma_decimal(n);
    lemma_decimal(m);
}

fn digit_of(d: usize) -> (out: char)
    requires
        d < 10,
    ensures
        out == digit_char(d as int),
{
    if d == 0 {
        '0'
    } else if d == 1 {
        '1'
    } else if d == 2 {
        '2'
    } else if d == 3 {
        '3'
    } else if d == 4 {
        '4'
    } else if d == 5 {
        '5'
    } else if d == 6 {
        '6'
    } else if d == 7 {
        '7'
    } else if d == 8 {
        '8'
    } else {
        '9'
    }
}

/// The decimal digits of `n`, most significant first.
pub fn decimal_chars(n: usize) -> (out: Vec<char>)
    ensures
        out@ == decimal(n as nat),
    decreases n,
{
    if n < 10 {
        let mut out: Vec<char> = Vec::new();
        out.push(digit_of(n));
        assert(out@ =~= seq![digit_char(n as int)]);
        out
    } else {
        let mut out = decimal_chars(n / 10);
        out.push(digit_of(n % 10));
        out
    }
}

/// Appends `tail` to `out`.
pub fn append_chars(out: &mut Vec<char>, tail: &Vec<char>)
    ensures
        final(out)@ == old(out)@ + tail@,
{
    let mut i: usize = 0;
    while i < tail.len()
        invariant
            i <= tail.len(),
            out@ == old(out)@ + tail@.take(i as int),
        decreases tail.len() - i,
    {
        out.push(tail[i]);
        i += 1;
        assert(out@ =~= old(out)@ + tail@.take(i as int));
    }
    assert(tail@.take(i as int) =~= tail@);
}

/// The characters `chars[from..to]`.
pub fn chars_between(chars: &Vec<char>, from: usize, to: usize) -> (out: Vec<char>)
    requires
        from <= to <= chars.len(),
    ensures
        out@ == chars@.subrange(from as int, to as int),
{
    let mut out: Vec<char> = Vec::new();
    let mut i: usize = from;
    while i < to
        invariant
            from <= i <= to <= chars.len(),
            out@ == chars@.subrange(from as int, i as int),
        decreases to - i,
    {
        out.push(chars[i]);
        i += 1;
        assert(out@ =~= chars@.subrange(from as int, i as int));
    }
    out
}

/// The text made of all of `chars`.
pub fn text_of_all(chars: &Vec<char>) -> (out: String)
    ensures
        out@ == chars@,
{
    let n = chars.len();
    assert(chars@.subrange(0, n as int) =~= chars@);
    text_of(chars, 0, n)
}

/// The values of a list of character rows.
pub open spec fn rows(s: Seq<Vec<char>>) -> Seq<Seq<char>> {
    Seq::new(s.len(), |i: int| s[i]@)
}

/// The length of the first line token of `s`, its terminator included. A
/// token ends after a line feed; where `cr_ends` is set it also ends after a
/// carriage return, which takes a directly following line feed along.
pub open spec fn token_len(s: Seq<char>, cr_ends: bool) -> int
    decreases s.len(),
{
    if s.len() == 0 {
        0
    } else if s[0] == '\n' {
        1
    } else if cr_ends && s[0] == '\r' {
        if s.len() > 1 && s[1] == '\n' {
            2
        } else {
            1
        }
    } else {
        1 + token_len(s.drop_first(), cr_ends)
    }
}

/// `s` cut into line tokens, terminators kept. A last line without a
/// terminator is a token too; the empty text has no token.
pub open spec fn tokens(s: Seq<char>, cr_ends: bool) -> Seq<Seq<char>>
    decreases s.len(),
{
    let n = token_len(s, cr_ends);
    if 0 < n <= s.len() {
        seq![s.take(n)] + tokens(s.skip(n), cr_ends)
    } else {
        Seq::empty()
    }
}

/// The first line token of a text that is not empty is not empty and lies
/// within the text.
pub proof fn lemma_token_len_bounds(s: Seq<char>, cr_ends: bool)
    requires
        s.len() > 0,
    ensures
        0 < token_len(s, cr_ends) <= s.len(),
    decreases s.len(),
{
    if s[0] != '\n' && !(cr_ends && s[0] == '\r') {
        if s.len() > 1 {
            lemma_token_len_bounds(s.drop_first(), cr_ends);
        } else {
            assert(token_len(s.drop_first(), cr_ends) == 0);
        }
    }
}

/// The line tokens of a text, one after the other, are the text itself:
/// cutting loses nothing.
pub proof fn lemma_tokens_rebuild_text(s: Seq<char>, cr_ends: bool)
    ensures
        tokens(s, cr_ends).flatten() == s,
    decreases s.len(),
{
    if s.len() == 0 {
        assert(tokens(s, cr_ends).flatten() =~= s);
    } else {
        lemma_token_len_bounds(s, cr_ends);
        let n = token_len(s, cr_ends);
        let all = tokens(s, cr_ends);
        lemma_tokens_rebuild_text(s.skip(n), cr_ends);
        assert(all.first() == s.take(n));
        assert(all.drop_first() =~= tokens(s.skip(n), cr_ends));
        assert(s.take(n) + s.skip(n) =~= s);
    }
}

/// Cuts a text into line tokens.
pub fn split_tokens(chars: &Vec<char>, cr_ends: bool) -> (out: Vec<Vec<char>>)
    ensures
        rows(out@) == tokens(chars@, cr_ends),
{
    let mut out: Vec<Vec<char>> = Vec::new();
    let mut pos: usize = 0;
    let len = chars.len();
    assert(chars@.skip(0) =~= chars@);
    assert(rows(out@) + tokens(chars@.skip(0), cr_ends) =~= tokens(chars@, cr_ends));
    while pos < len
        invariant
            len == chars.len(),
            pos <= len,
            tokens(chars@, cr_ends) == rows(out@) + tokens(chars@.skip(pos as int), cr_ends),
        decreases len - pos,
    {
        let mut end: usize = pos;
        let mut done = false;
        while end < len && !done
            invariant
                len == chars.len(),
                pos <= end <= len,
                pos < len,
                !done ==> token_len(chars@.skip(pos as int), cr_ends) == (end - pos) + token_len(
                    chars@.skip(end as int),
                    cr_ends,
                ),
                done ==> end > pos && token_len(chars@.skip(pos as int), cr_ends) == end - pos,
            decreases len - end, if done { 0int } else { 1int },
        {
            let ghost rest = chars@.skip(end as int);
            assert(rest.len() == len - end);
            assert(rest[0] == chars@[end as int]);
            assert(rest.drop_first() =~= chars@.skip(end as int + 1));
            let c = chars[end];
            if c == '\n' {
                end += 1;
                done = true;
            } else if cr_ends && c == '\r' {
                if end + 1 < len && chars[end + 1] == '\n' {
                    assert(rest[1] == chars@[end as int + 1]);
                    end += 2;
                } else {
                    if end + 1 < len {
                        assert(rest[1] == chars@[end as int + 1]);
                    }
                    end += 1;
                }
                done = true;
            } else {
                end += 1;
            }
        }
        proof {
            if !done {
                assert(chars@.skip(end as int).len() == 0);
            }
            let here = chars@.skip(pos as int);
            let n = end - pos;
            assert(token_len(here, cr_ends) == n);
            assert(here.take(n) =~= chars@.subrange(pos as int, end as int));
            assert(here.skip(n) =~= chars@.skip(end as int));
        }
        let ghost before = rows(out@);
        let token = chars_between(chars, pos, end);
        out.push(token);
        assert(rows(out@) =~= before + seq![token@]);
        pos = end;
    }
    assert(chars@.skip(pos as int).len() == 0);
    out
}

/// A line token without its line ending: a final line feed is dropped, and
/// with it a carriage return standing directly before it.
pub open spec fn without_line_ending(token: Seq<char>) -> Seq<char> {
    if token.len() > 0 && token.last() == '\n' {
        let body = token.drop_last();
        if body.len() > 0 && body.last() == '\r' {
            body.drop_last()
        } else {
            body
        }
    } else {
        token
    }
}

/// The lines of a text: it is cut after every line feed, and the line endings
/// (`\n` or `\r\n`) are left out. A carriage return alone ends no line, and
/// the last line needs no ending.
pub open spec fn lines(s: Seq<char>) -> Seq<Seq<char>> {
    tokens(s, false).map_values(|t: Seq<char>| without_line_ending(t))
}

/// The lines of a text.
pub fn split_lines(chars: &Vec<char>) -> (out: Vec<Vec<char>>)
    ensures
        rows(out@) == lines(chars@),
{
    let cut = split_tokens(chars, false);
    let mut out: Vec<Vec<char>> = Vec::new();
    let mut i: usize = 0;
    while i < cut.len()
        invariant
            i <= cut.len(),
            out.len() == i,
            forall|k: int| 0 <= k < i ==> out[k]@ == without_line_ending(#[trigger] cut[k]@),
        decreases cut.len() - i,
    {
        let token = &cut[i];
        let n = token.len();
        let line = if n > 0 && token[n - 1] == '\n' {
            if n > 1 && token[n - 2] == '\r' {
                assert(token@.drop_last().drop_last() =~= token@.subrange(0, n - 2));
                chars_between(token, 0, n - 2)
            } else {
                assert(token@.drop_last() =~= token@.subrange(0, n - 1));
                chars_between(token, 0, n - 1)
            }
        } else {
            assert(token@ =~= token@.subrange(0, n as int));
            chars_between(token, 0, n)
        };
        out.push(line);
        i += 1;
    }
    assert(rows(out@) =~= lines(chars@));
    out
}

/// Whether `c` is white space: a character with the Unicode property
/// `White_Space`.
pub open spec fn is_space(c: char) -> bool {
    let n = c as u32;
    (0x09 <= n && n <= 0x0D) || n == 0x20 || n == 0x85 || n == 0xA0 || n == 0x1680 || (0x2000 <= n
        && n <= 0x200A) || n == 0x2028 || n == 0x2029 || n == 0x202F || n == 0x205F || n == 0x3000
}

/// `s` without its leading white space.
pub open spec fn trimmed_start(s: Seq<char>) -> Seq<char>
    decreases s.len(),
{
    if s.len() > 0 && is_space(s[0]) {
        trimmed_start(s.drop_first())
    } else {
        s
    }
}

/// `s` without its trailing white space.
pub open spec fn trimmed_end(s: Seq<char>) -> Seq<char>
    decreases s.len(),
{
    if s.len() > 0 && is_space(s.last()) {
        trimmed_end(s.drop_last())
    } else {
        s
    }
}

/// `s` without white space at either end.
pub open spec fn trimmed(s: Seq<char>) -> Seq<char> {
    trimmed_end(trimmed_start(s))
}

/// Whether `c` is white space.
pub fn is_space_char(c: char) -> (out: bool)
    ensures
        out == is_space(c),
{
    let n = c as u32;
    (0x09 <= n && n <= 0x0D) || n == 0x20 || n == 0x85 || n == 0xA0 || n == 0x1680 || (0x2000 <= n
        && n <= 0x200A) || n == 0x2028 || n == 0x2029 || n == 0x202F || n == 0x205F || n == 0x3000
}

/// `chars` without white space at either end.
pub fn trim(chars: &Vec<char>) -> (out: Vec<char>)
    ensures
        out@ == trimmed(chars@),
{
    let len = chars.len();
    let mut from: usize = 0;
    assert(chars@.skip(0) =~= chars@);
    while from < len && is_space_char(chars[from])
        invariant
            len == chars.len(),
            from <= len,
            trimmed_start(chars@) == trimmed_start(chars@.skip(from as int)),
        decreases len - from,
    {
        assert(chars@.skip(from as int).drop_first() =~= chars@.skip(from as int + 1));
        from += 1;
    }
    assert(trimmed_start(chars@) == chars@.skip(from as int));
    let mut to: usize = len;
    assert(chars@.subrange(from as int, len as int) =~= chars@.skip(from as int));
    while to > from && is_space_char(chars[to - 1])
        invariant
            len == chars.len(),
            from <= to <= len,
            trimmed(chars@) == trimmed_end(chars@.subrange(from as int, to as int)),
        decreases to,
    {
        assert(chars@.subrange(from as int, to as int).drop_last() =~= chars@.subrange(
            from as int,
            to as int - 1,
        ));
        to -= 1;
    }
    chars_between(chars, from, to)
}

/// The index of the last `c` in `s`, or -1 where `s` holds none.
pub open spec fn last_index_of(s: Seq<char>, c: char) -> int
    decreases s.len(),
{
    if s.len() == 0 {
        -1
    } else if s.last() == c {
        s.len() - 1
    } else {
        last_index_of(s.drop_last(), c)
    }
}

/// The last component of a path: what follows its last slash.
pub open spec fn file_name(path: Seq<char>) -> Seq<char> {
    path.skip(last_index_of(path, '/') + 1)
}

/// The extension of a path: what follows the last dot of its file name. A
/// file name without a dot has none, and neither has one whose only dot is
/// its first character.
pub open spec fn extension(path: Seq<char>) -> Option<Seq<char>> {
    let name = file_name(path);
    let dot = last_index_of(name, '.');
    if dot <= 0 {
        None
    } else {
        Some(name.skip(dot + 1))
    }
}

/// The index of the last `c` in `chars`.
pub fn last_index(chars: &Vec<char>, c: char) -> (out: Option<usize>)
    ensures
        match out {
            Some(i) => i < chars.len() && last_index_of(chars@, c) == i,
            None => last_index_of(chars@, c) == -1,
        },
{
    let mut i: usize = chars.len();
    assert(chars@.take(i as int) =~= chars@);
    while i > 0
        invariant
            i <= chars.len(),
            last_index_of(chars@, c) == last_index_of(chars@.take(i as int), c),
        decreases i,
    {
        assert(chars@.take(i as int).drop_last() =~= chars@.take(i as int - 1));
        i -= 1;
        if chars[i] == c {
            return Some(i);
        }
    }
    None
}

/// The extension of a path.
pub fn extension_of(path: &str) -> (out: Option<Vec<char>>)
    ensures
        match out {
            Some(e) => extension(path@) == Some(e@),
            None => extension(path@) is None,
        },
{
    let chars = chars_of(path);
    let start = match last_index(&chars, '/') {
        Some(i) => i + 1,
        None => 0,
    };
    let name = chars_between(&chars, start, chars.len());
    assert(name@ =~= file_name(path@));
    match last_index(&name, '.') {
        Some(dot) => {
            if dot == 0 {
                None
            } else {
                let e = chars_between(&name, dot + 1, name.len());
                assert(e@ =~= name@.skip(dot as int + 1));
                Some(e)
            }
        },
        None => None,
    }
}

/// Whether `needle` stands in `haystack` at the index `at`.
pub open spec fn occurs_at(haystack: Seq<char>, needle: Seq<char>, at: int) -> bool {
    0 <= at && at + needle.len() <= haystack.len() && haystack.subrange(at, at + needle.len())
        == needle
}

/// Whether `needle` stands somewhere in `haystack`.
pub open spec fn contains_text(haystack: Seq<char>, needle: Seq<char>) -> bool {
    exists|at: int| occurs_at(haystack, needle, at)
}

/// Whether `needle` stands in `haystack` at the index `at`.
pub fn stands_at(haystack: &Vec<char>, needle: &Vec<char>, at: usize) -> (out: bool)
    requires
        at + needle.len() <= haystack.len(),
    ensures
        out == occurs_at(haystack@, needle@, at as int),
{
    let mut k: usize = 0;
    while k < needle.len()
        invariant
            k <= needle.len(),
            at + needle.len() <= haystack.len(),
            forall|j: int| 0 <= j < k ==> haystack[at + j] == needle[j],
        decreases needle.len() - k,
    {
        if haystack[at + k] != needle[k] {
            assert(haystack@.subrange(at as int, at + needle.len())[k as int] != needle@[k as int]);
            return false;
        }
        k += 1;
    }
    assert(haystack@.subrange(at as int, at + needle.len()) =~= needle@);
    true
}

/// Whether `needle` stands somewhere in `haystack`.
pub fn includes(haystack: &Vec<char>, needle: &Vec<char>) -> (out: bool)
    ensures
        out == contains_text(haystack@, needle@),
{
    if needle.len() > haystack.len() {
        return false;
    }
    let last = haystack.len() - needle.len();
    let mut at: usize = 0;
    while at < last
        invariant
            at <= last,
            last == haystack.len() - needle.len(),
            forall|j: int| 0 <= j < at ==> !occurs_at(haystack@, needle@, j),
        decreases last - at,
    {
        if stands_at(haystack, needle, at) {
            return true;
        }
        at += 1;
    }
    stands_at(haystack, needle, last)
}

} // verus!
