//! Text primitives: every string the dashboard reads or writes is handled as
//! its sequence of characters.

use vstd::prelude::*;
use vstd::utf8::{decode_utf8, valid_utf8};

verus! {

broadcast use vstd::string::group_string_axioms;

/// Appends one character to a string.
///
/// `String::push`: the characters that were there stay, and `c` follows them.
pub assume_specification[ String::push ](s: &mut String, c: char)
    ensures
        final(s)@ == old(s)@.push(c),
;

/// The text that a byte string stands for, with a replacement character for
/// what is not UTF-8.
pub uninterp spec fn lossy_text(bytes: Seq<u8>) -> Seq<char>;

/// `String::from_utf8_lossy`: a function of the bytes alone. Bytes that are
/// UTF-8 come out as the characters they encode, and what is not UTF-8 is
/// replaced rather than dropped, so that some bytes never come out as nothing.
#[verifier::external_body]
pub(crate) fn from_utf8_lossy(bytes: &[u8]) -> (r: String)
    ensures
        r@ == lossy_text(bytes@),
        valid_utf8(bytes@) ==> r@ == decode_utf8(bytes@),
        bytes@.len() > 0 ==> r@.len() > 0,
{
    String::from_utf8_lossy(bytes).into_owned()
}

/// The characters Unicode classes as white space.
pub open spec fn is_space(c: char) -> bool {
    ||| '\t' <= c <= '\r'
    ||| c == ' '
    ||| c == '\u{85}'
    ||| c == '\u{a0}'
    ||| c == '\u{1680}'
    ||| '\u{2000}' <= c <= '\u{200a}'
    ||| c == '\u{2028}'
    ||| c == '\u{2029}'
    ||| c == '\u{202f}'
    ||| c == '\u{205f}'
    ||| c == '\u{3000}'
}

/// Whether a character is white space.
pub fn space(c: char) -> (r: bool)
    ensures
        r == is_space(c),
{
    ('\t' <= c && c <= '\r') || c == ' ' || c == '\u{85}' || c == '\u{a0}' || c == '\u{1680}' || (
    '\u{2000}' <= c && c <= '\u{200a}') || c == '\u{2028}' || c == '\u{2029}' || c == '\u{202f}'
        || c == '\u{205f}' || c == '\u{3000}'
}

/// What a list of strings holds.
pub open spec fn texts(v: Seq<String>) -> Seq<Seq<char>> {
    Seq::new(v.len(), |i: int| v[i]@)
}

/// Whether two strings hold the same characters.
pub fn same(a: &str, b: &str) -> (r: bool)
    ensures
        r == (a@ == b@),
{
    let x = a.to_owned();
    let y = b.to_owned();
    x == y
}

/// The characters of a string, in order.
pub fn chars_of(s: &str) -> (r: Vec<char>)
    ensures
        r@ == s@,
{
    let mut out: Vec<char> = Vec::new();
    for c in it: s.chars()
        invariant
            it.seq() == s@,
            out@ == s@.take(it.index()),
    {
        out.push(c);
    }
    assert(out@ == s@);
    out
}

/// A string made of the characters `v[from..to]`.
pub fn string_of(v: &Vec<char>, from: usize, to: usize) -> (r: String)
    requires
        from <= to <= v@.len(),
    ensures
        r@ == v@.subrange(from as int, to as int),
{
    let mut out = String::new();
    let mut i: usize = from;
    while i < to
        invariant
            from <= i <= to <= v@.len(),
            out@ == v@.subrange(from as int, i as int),
        decreases to - i,
    {
        out.push(v[i]);
        i = i + 1;
        assert(v@.subrange(from as int, i as int) == v@.subrange(from as int, i - 1).push(v@[i - 1]));
    }
    out
}

/// `c` repeated `n` times.
pub open spec fn repeated(c: char, n: nat) -> Seq<char> {
    Seq::new(n, |i: int| c)
}

/// A string of `n` copies of `c`.
pub fn repeat(c: char, n: usize) -> (r: String)
    ensures
        r@ == repeated(c, n as nat),
{
    let mut out = String::new();
    let mut i: usize = 0;
    while i < n
        invariant
            i <= n,
            out@ == repeated(c, i as nat),
        decreases n - i,
    {
        out.push(c);
        i = i + 1;
        assert(repeated(c, i as nat) == repeated(c, (i - 1) as nat).push(c));
    }
    out
}

/// `s` followed by blanks, up to `width` columns; unchanged if it is longer.
pub open spec fn padded_right(s: Seq<char>, width: nat) -> Seq<char> {
    if s.len() >= width {
        s
    } else {
        s + repeated(' ', (width - s.len()) as nat)
    }
}

/// `s` behind blanks, up to `width` columns; unchanged if it is longer.
pub open spec fn padded_left(s: Seq<char>, width: nat) -> Seq<char> {
    if s.len() >= width {
        s
    } else {
        repeated(' ', (width - s.len()) as nat) + s
    }
}

/// The number of characters in `s`.
pub fn count(s: &str) -> (r: usize)
    ensures
        r == s@.len(),
{
    s.unicode_len()
}

pub fn pad_right(s: &str, width: usize) -> (r: String)
    ensures
        r@ == padded_right(s@, width as nat),
{
    let n: usize = count(s);
    if n >= width {
        s.to_owned()
    } else {
        let gap = repeat(' ', width - n);
        let mut out = s.to_owned();
        out.append(gap.as_str());
        out
    }
}

pub fn pad_left(s: &str, width: usize) -> (r: String)
    ensures
        r@ == padded_left(s@, width as nat),
{
    let n: usize = count(s);
    if n >= width {
        s.to_owned()
    } else {
        let mut out = repeat(' ', width - n);
        out.append(s);
        out
    }
}

/// The decimal digit for `d`, which is below ten.
pub open spec fn digit(d: int) -> char {
    if d == 0 {
        '0'
    } else if d == 1 {
        '1'
    } else if d == 2 {
        '2'
    } else if d == 3 {
        '3'
    } else if d == 4 {
        '4'
    } else if d == 5 {
        '5'
    } else if d == 6 {
        '6'
    } else if d == 7 {
        '7'
    } else if d == 8 {
        '8'
    } else {
        '9'
    }
}

pub fn digit_char(d: u64) -> (r: char)
    requires
        d < 10,
    ensures
        r == digit(d as int),
{
    match d {
        0 => '0',
        1 => '1',
        2 => '2',
        3 => '3',
        4 => '4',
        5 => '5',
        6 => '6',
        7 => '7',
        8 => '8',
        _ => '9',
    }
}

/// A number in decimal, without leading zeros.
pub open spec fn dec(n: nat) -> Seq<char>
    decreases n,
{
    if n < 10 {
        seq![digit(n as int)]
    } else {
        dec(n / 10).push(digit((n % 10) as int))
    }
}

pub fn decimal(n: u64) -> (r: String)
    ensures
        r@ == dec(n as nat),
    decreases n,
{
    if n < 10 {
        let mut out = String::new();
        out.push(digit_char(n));
        assert(out@ == dec(n as nat));
        out
    } else {
        let mut out = decimal(n / 10);
        out.push(digit_char(n % 10));
        out
    }
}

/// A signed number in decimal.
pub open spec fn signed_dec(n: int) -> Seq<char> {
    if n < 0 {
        seq!['-'] + dec((-n) as nat)
    } else {
        dec(n as nat)
    }
}

pub fn signed_decimal(n: i64) -> (r: String)
    ensures
        r@ == signed_dec(n as int),
{
    if n < 0 {
        let mut out = String::new();
        out.push('-');
        let magnitude: u64 = (-(n as i128)) as u64;
        out.append(decimal(magnitude).as_str());
        assert(out@ == signed_dec(n as int));
        out
    } else {
        decimal(n as u64)
    }
}

/// `s` without the white space it begins with.
pub open spec fn trimmed_start(s: Seq<char>) -> Seq<char>
    decreases s.len(),
{
    if s.len() > 0 && is_space(s[0]) {
        trimmed_start(s.drop_first())
    } else {
        s
    }
}

/// `s` without the white space it ends with.
pub open spec fn trimmed_end(s: Seq<char>) -> Seq<char>
    decreases s.len(),
{
    if s.len() > 0 && is_space(s.last()) {
        trimmed_end(s.drop_last())
    } else {
        s
    }
}

/// `s` without white space at either end.
pub open spec fn trimmed(s: Seq<char>) -> Seq<char> {
    trimmed_end(trimmed_start(s))
}

proof fn lemma_trimmed_start(s: Seq<char>, from: int)
    requires
        0 <= from <= s.len(),
        forall|i: int| 0 <= i < from ==> is_space(#[trigger] s[i]),
        from < s.len() ==> !is_space(s[from]),
    ensures
        trimmed_start(s) == s.skip(from),
    decreases s.len(),
{
    if from == 0 {
        assert(s.skip(0) == s);
    } else {
        assert(is_space(s[0]));
        let t = s.drop_first();
        assert forall|i: int| 0 <= i < from - 1 implies is_space(#[trigger] t[i]) by {
            assert(is_space(s[i + 1]));
        }
        lemma_trimmed_start(t, from - 1);
        assert(t.skip(from - 1) == s.skip(from));
    }
}

proof fn lemma_trimmed_end(s: Seq<char>, to: int)
    requires
        0 <= to <= s.len(),
        forall|i: int| to <= i < s.len() ==> is_space(#[trigger] s[i]),
        to > 0 ==> !is_space(s[to - 1]),
    ensures
        trimmed_end(s) == s.take(to),
    decreases s.len(),
{
    if to == s.len() {
        assert(s.take(to) == s);
    } else {
        assert(is_space(s[s.len() - 1]));
        lemma_trimmed_end(s.drop_last(), to);
        assert(s.drop_last().take(to) == s.take(to));
    }
}

pub fn trim(s: &str) -> (r: String)
    ensures
        r@ == trimmed(s@),
{
    let v = chars_of(s);
    let n: usize = v.len();
    let mut from: usize = 0;
    while from < n && space(v[from])
        invariant
            from <= n == v@.len(),
            forall|i: int| 0 <= i < from ==> is_space(#[trigger] v@[i]),
        decreases n - from,
    {
        from = from + 1;
    }
    proof {
        lemma_trimmed_start(v@, from as int);
    }
    let ghost t = v@.skip(from as int);
    let mut to: usize = n;
    while to > from && space(v[to - 1])
        invariant
            from <= to <= n == v@.len(),
            t == v@.skip(from as int),
            forall|i: int| to - from <= i < t.len() ==> is_space(#[trigger] t[i]),
        decreases to,
    {
        to = to - 1;
    }
    proof {
        lemma_trimmed_end(t, to - from);
        assert(t.take(to - from) == v@.subrange(from as int, to as int));
    }
    string_of(&v, from, to)
}

/// A text without the white space at its end.
pub fn trim_end(s: &str) -> (r: String)
    ensures
        r@ == trimmed_end(s@),
{
    let v = chars_of(s);
    let mut to: usize = v.len();
    while to > 0 && space(v[to - 1])
        invariant
            to <= v@.len(),
            forall|i: int| to <= i < v@.len() ==> is_space(#[trigger] v@[i]),
        decreases to,
    {
        to = to - 1;
    }
    proof {
        lemma_trimmed_end(v@, to as int);
        assert(v@.take(to as int) == v@.subrange(0, to as int));
    }
    string_of(&v, 0, to)
}

/// The pieces of `s` between the characters that `at` picks out: always one
/// more than there are such characters.
pub open spec fn pieces(s: Seq<char>, at: spec_fn(char) -> bool) -> Seq<Seq<char>>
    decreases s.len(),
{
    if s.len() == 0 {
        seq![Seq::empty()]
    } else {
        let before = pieces(s.drop_last(), at);
        if at(s.last()) {
            before.push(Seq::empty())
        } else {
            before.drop_last().push(before.last().push(s.last()))
        }
    }
}

pub proof fn lemma_pieces_nonempty(s: Seq<char>, at: spec_fn(char) -> bool)
    ensures
        pieces(s, at).len() > 0,
    decreases s.len(),
{
    if s.len() > 0 {
        lemma_pieces_nonempty(s.drop_last(), at);
    }
}

/// Picks out the character `sep` and no other.
pub open spec fn only(sep: char) -> spec_fn(char) -> bool {
    |c: char| c == sep
}

/// The pieces between occurrences of `sep`.
pub open spec fn split_at_char(s: Seq<char>, sep: char) -> Seq<Seq<char>> {
    pieces(s, only(sep))
}

/// The pieces of `s` between occurrences of `sep`.
pub fn split_char(s: &str, sep: char) -> (r: Vec<String>)
    ensures
        texts(r@) == split_at_char(s@, sep),
        r@.len() > 0,
{
    let v = chars_of(s);
    let ghost at = only(sep);
    let mut out: Vec<String> = Vec::new();
    let mut current = String::new();
    let mut i: usize = 0;
    assert(v@.take(0) == Seq::<char>::empty());
    assert(texts(out@).push(current@) == pieces(v@.take(0), at));
    while i < v.len()
        invariant
            i <= v@.len(),
            at == only(sep),
            texts(out@).push(current@) == pieces(v@.take(i as int), at),
        decreases v@.len() - i,
    {
        let c = v[i];
        let ghost before = v@.take(i as int);
        i = i + 1;
        proof {
            assert(v@.take(i as int).drop_last() == before);
            assert(v@.take(i as int).last() == c);
            assert(texts(out@).push(current@).drop_last() == texts(out@));
        }
        if c == sep {
            let ghost kept = texts(out@);
            let ghost piece = current@;
            out.push(current);
            current = String::new();
            assert(texts(out@) == kept.push(piece));
        } else {
            current.push(c);
        }
    }
    let ghost kept = texts(out@);
    let ghost piece = current@;
    out.push(current);
    assert(texts(out@) == kept.push(piece));
    assert(v@.take(i as int) == s@);
    out
}

/// The non-empty members of a list, in order.
pub open spec fn nonempty(v: Seq<Seq<char>>) -> Seq<Seq<char>> {
    v.filter(has_text())
}

/// Picks out the strings that are not empty.
pub open spec fn has_text() -> spec_fn(Seq<char>) -> bool {
    |t: Seq<char>| t.len() > 0
}

/// Picks out white space.
pub open spec fn blank() -> spec_fn(char) -> bool {
    |c: char| is_space(c)
}

/// The words of `s`: what stands between runs of white space.
pub open spec fn words_of(s: Seq<char>) -> Seq<Seq<char>> {
    nonempty(pieces(s, blank()))
}

pub proof fn lemma_nonempty_push(v: Seq<Seq<char>>, t: Seq<char>)
    ensures
        nonempty(v.push(t)) == if t.len() > 0 {
            nonempty(v).push(t)
        } else {
            nonempty(v)
        },
{
    reveal(Seq::filter);
    assert(v.push(t).drop_last() == v);
}

/// No word is empty.
pub proof fn lemma_words_nonempty(s: Seq<char>)
    ensures
        forall|i: int| 0 <= i < words_of(s).len() ==> (#[trigger] words_of(s)[i]).len() > 0,
{
    let all = pieces(s, blank());
    assert forall|i: int| 0 <= i < words_of(s).len() implies (#[trigger] words_of(s)[i]).len()
        > 0 by {
        all.lemma_filter_pred(has_text(), i);
    }
}

/// The words of `s`, in order.
pub fn words(s: &str) -> (r: Vec<String>)
    ensures
        texts(r@) == words_of(s@),
{
    let v = chars_of(s);
    let ghost at = blank();
    let mut out: Vec<String> = Vec::new();
    let mut current = String::new();
    let mut i: usize = 0;
    assert(v@.take(0) == Seq::<char>::empty());
    assert(pieces(v@.take(0), at) == seq![Seq::<char>::empty()]);
    proof {
        reveal(Seq::filter);
        assert(pieces(v@.take(0), at).drop_last() == Seq::<Seq<char>>::empty());
        assert(texts(out@) == nonempty(pieces(v@.take(0), at).drop_last()));
    }
    while i < v.len()
        invariant
            i <= v@.len(),
            at == blank(),
            pieces(v@.take(i as int), at).len() > 0,
            current@ == pieces(v@.take(i as int), at).last(),
            texts(out@) == nonempty(pieces(v@.take(i as int), at).drop_last()),
        decreases v@.len() - i,
    {
        let c = v[i];
        let ghost before = pieces(v@.take(i as int), at);
        i = i + 1;
        let ghost after = pieces(v@.take(i as int), at);
        proof {
            assert(v@.take(i as int).drop_last() == v@.take(i - 1));
            assert(v@.take(i as int).last() == c);
        }
        if space(c) {
            let ghost kept = texts(out@);
            let ghost piece = current@;
            proof {
                assert(after.drop_last() == before);
                assert(before == before.drop_last().push(piece));
                lemma_nonempty_push(before.drop_last(), piece);
            }
            if current.as_str().is_empty() {
            } else {
                out.push(current);
                assert(texts(out@) == kept.push(piece));
            }
            current = String::new();
        } else {
            current.push(c);
            assert(after.drop_last() == before.drop_last());
        }
    }
    assert(v@.take(i as int) == s@);
    let ghost all = pieces(s@, at);
    let ghost kept = texts(out@);
    let ghost piece = current@;
    proof {
        assert(all == all.drop_last().push(piece));
        lemma_nonempty_push(all.drop_last(), piece);
    }
    if current.as_str().is_empty() {
    } else {
        out.push(current);
        assert(texts(out@) == kept.push(piece));
    }
    out
}

/// `s` without one carriage return at its end.
pub open spec fn without_return(s: Seq<char>) -> Seq<char> {
    if s.len() > 0 && s.last() == '\r' {
        s.drop_last()
    } else {
        s
    }
}

/// The lines of `s`. A line feed ends a line, and so does the pair carriage
/// return and line feed; the text after the last line feed is a line only if
/// there is any.
pub open spec fn lines_of(s: Seq<char>) -> Seq<Seq<char>> {
    let all = split_at_char(s, '\n');
    let ended = Seq::new((all.len() - 1) as nat, |i: int| without_return(all[i]));
    if all.last().len() == 0 {
        ended
    } else {
        ended.push(all.last())
    }
}

/// The lines of `s`, in order.
pub fn lines(s: &str) -> (r: Vec<String>)
    ensures
        texts(r@) == lines_of(s@),
{
    let all = split_char(s, '\n');
    let ghost parts = split_at_char(s@, '\n');
    let last: usize = all.len() - 1;
    let mut out: Vec<String> = Vec::new();
    let mut i: usize = 0;
    while i < last
        invariant
            i <= last,
            last == all@.len() - 1,
            texts(all@) == parts,
            texts(out@) == Seq::new(i as nat, |j: int| without_return(parts[j])),
        decreases last - i,
    {
        let v = chars_of(all[i].as_str());
        let n: usize = v.len();
        let ghost kept = texts(out@);
        assert(parts[i as int] == v@);
        if n > 0 && v[n - 1] == '\r' {
            let line = string_of(&v, 0, n - 1);
            assert(line@ == without_return(parts[i as int]));
            out.push(line);
        } else {
            let line = string_of(&v, 0, n);
            assert(line@ == without_return(parts[i as int]));
            out.push(line);
        }
        assert(texts(out@) == kept.push(without_return(parts[i as int])));
        i = i + 1;
        assert(texts(out@) =~= Seq::new(i as nat, |j: int| without_return(parts[j])));
    }
    assert(parts.last() == all@[last as int]@);
    if all[last].as_str().is_empty() {
        out
    } else {
        let ghost kept = texts(out@);
        out.push(all[last].clone());
        assert(texts(out@) == kept.push(parts.last()));
        out
    }
}

/// Whether `s` begins with `prefix`.
pub open spec fn has_prefix(s: Seq<char>, prefix: Seq<char>) -> bool {
    prefix.len() <= s.len() && s.take(prefix.len() as int) == prefix
}

/// Whether `s` ends with `suffix`.
pub open spec fn has_suffix(s: Seq<char>, suffix: Seq<char>) -> bool {
    suffix.len() <= s.len() && s.skip(s.len() - suffix.len()) == suffix
}

/// Whether `part` stands at position `at` of `s`.
pub open spec fn occurs_at(s: Seq<char>, part: Seq<char>, at: int) -> bool {
    &&& 0 <= at
    &&& at + part.len() <= s.len()
    &&& s.subrange(at, at + part.len()) == part
}

/// Whether `part` stands anywhere in `s`.
pub open spec fn occurs_in(s: Seq<char>, part: Seq<char>) -> bool {
    exists|at: int| occurs_at(s, part, at)
}

/// Whether the characters `v[at..]` begin with `part`.
pub fn stands_at(v: &Vec<char>, part: &Vec<char>, at: usize) -> (r: bool)
    ensures
        r == occurs_at(v@, part@, at as int),
{
    if at > v.len() || v.len() - at < part.len() {
        return false;
    }
    let n: usize = v.len();
    let mut i: usize = 0;
    while i < part.len()
        invariant
            at + part@.len() <= v@.len(),
            v@.len() == n,
            i <= part@.len(),
            forall|j: int| 0 <= j < i ==> v@[at + j] == #[trigger] part@[j],
        decreases part@.len() - i,
    {
        if v[at + i] != part[i] {
            assert(v@.subrange(at as int, at + part@.len())[i as int] != part@[i as int]);
            return false;
        }
        i = i + 1;
    }
    assert(v@.subrange(at as int, at + part@.len()) == part@);
    true
}

/// The first position from `at` on at which `part` stands in `s`.
pub open spec fn found_from(s: Seq<char>, part: Seq<char>, at: int) -> Option<int>
    decreases s.len() + 1 - at,
{
    if at < 0 || at + part.len() > s.len() {
        None
    } else if occurs_at(s, part, at) {
        Some(at)
    } else {
        found_from(s, part, at + 1)
    }
}

/// The first position at which `part` stands in `s`.
pub open spec fn found_at(s: Seq<char>, part: Seq<char>) -> Option<int> {
    found_from(s, part, 0)
}

/// The first position at which `part` stands in `s`.
pub fn find(s: &str, part: &str) -> (r: Option<usize>)
    ensures
        match r {
            Some(at) => found_at(s@, part@) == Some(at as int) && occurs_at(s@, part@, at as int),
            None => found_at(s@, part@) is None && !occurs_in(s@, part@),
        },
{
    let v = chars_of(s);
    let p = chars_of(part);
    let n: usize = v.len();
    let mut at: usize = 0;
    while at < n
        invariant
            at <= n,
            v@ == s@,
            p@ == part@,
            n == v@.len(),
            found_at(v@, p@) == found_from(v@, p@, at as int) || found_at(v@, p@) is None
                && at + p@.len() > n,
            forall|i: int| 0 <= i < at ==> !occurs_at(v@, p@, i),
        decreases n - at,
    {
        if stands_at(&v, &p, at) {
            return Some(at);
        }
        at = at + 1;
    }
    if stands_at(&v, &p, at) {
        return Some(at);
    }
    assert(found_from(v@, p@, n + 1) is None);
    assert forall|i: int| !occurs_at(v@, p@, i) by {
        if occurs_at(v@, p@, i) {
            assert(i <= n);
        }
    }
    None
}

pub fn contains(s: &str, part: &str) -> (r: bool)
    ensures
        r == occurs_in(s@, part@),
{
    match find(s, part) {
        Some(_) => true,
        None => false,
    }
}

pub fn starts_with(s: &str, prefix: &str) -> (r: bool)
    ensures
        r == has_prefix(s@, prefix@),
{
    let v = chars_of(s);
    let p = chars_of(prefix);
    let r = stands_at(&v, &p, 0);
    proof {
        if p@.len() <= v@.len() {
            assert(v@.subrange(0, p@.len() as int) == v@.take(p@.len() as int));
        }
    }
    r
}

pub fn ends_with(s: &str, suffix: &str) -> (r: bool)
    ensures
        r == has_suffix(s@, suffix@),
{
    let v = chars_of(s);
    let p = chars_of(suffix);
    if p.len() > v.len() {
        return false;
    }
    let at: usize = v.len() - p.len();
    let r = stands_at(&v, &p, at);
    assert(v@.subrange(at as int, at + p@.len()) == v@.skip(at as int));
    r
}

/// The characters of `s` from position `from` on.
pub fn skip(s: &str, from: usize) -> (r: String)
    requires
        from <= s@.len(),
    ensures
        r@ == s@.skip(from as int),
{
    let v = chars_of(s);
    let n: usize = v.len();
    assert(s@.skip(from as int) == v@.subrange(from as int, n as int));
    string_of(&v, from, n)
}

/// The first `to` characters of `s`.
pub fn take(s: &str, to: usize) -> (r: String)
    requires
        to <= s@.len(),
    ensures
        r@ == s@.take(to as int),
{
    let v = chars_of(s);
    assert(s@.take(to as int) == v@.subrange(0, to as int));
    string_of(&v, 0, to)
}

/// An ASCII capital letter as the small one; any other character as it is.
pub open spec fn lower(c: char) -> char {
    if 'A' <= c <= 'Z' {
        (c as u32 + 32) as char
    } else {
        c
    }
}

/// `s` with its ASCII capital letters made small.
pub open spec fn lowered(s: Seq<char>) -> Seq<char> {
    Seq::new(s.len(), |i: int| lower(s[i]))
}

pub fn lower_char(c: char) -> (r: char)
    ensures
        r == lower(c),
{
    if 'A' <= c && c <= 'Z' {
        let b: u8 = c as u8;
        (b + 32) as char
    } else {
        c
    }
}

pub fn lowercase(s: &str) -> (r: String)
    ensures
        r@ == lowered(s@),
{
    let v = chars_of(s);
    let mut out = String::new();
    let mut i: usize = 0;
    while i < v.len()
        invariant
            i <= v@.len(),
            out@ == lowered(v@.take(i as int)),
        decreases v@.len() - i,
    {
        out.push(lower_char(v[i]));
        i = i + 1;
        assert(lowered(v@.take(i as int)) == lowered(v@.take(i - 1)).push(lower(v@[i - 1])));
    }
    assert(v@.take(i as int) == s@);
    out
}

/// The value of a digit in base ten or sixteen, if `c` is one.
pub open spec fn digit_value(c: char, radix: int) -> Option<int> {
    if '0' <= c <= '9' {
        Some(c as int - '0' as int)
    } else if radix == 16 && 'a' <= c <= 'f' {
        Some(c as int - 'a' as int + 10)
    } else if radix == 16 && 'A' <= c <= 'F' {
        Some(c as int - 'A' as int + 10)
    } else {
        None
    }
}

/// The number that a run of digits denotes.
pub open spec fn digits_value(s: Seq<char>, radix: int) -> Option<int>
    decreases s.len(),
{
    if s.len() == 0 {
        Some(0)
    } else {
        match (digits_value(s.drop_last(), radix), digit_value(s.last(), radix)) {
            (Some(high), Some(low)) => Some(high * radix + low),
            _ => None,
        }
    }
}

/// The number that `s` denotes: one or more digits, behind at most one plus
/// sign, of a value no larger than `max`.
pub open spec fn number(s: Seq<char>, radix: int, max: int) -> Option<int> {
    let digits = if s.len() > 0 && s[0] == '+' {
        s.drop_first()
    } else {
        s
    };
    match digits_value(digits, radix) {
        Some(n) if digits.len() > 0 && n <= max => Some(n),
        _ => None,
    }
}

proof fn lemma_digits_value_grows(s: Seq<char>, i: int, radix: int)
    requires
        0 <= i <= s.len(),
        radix == 10 || radix == 16,
    ensures
        digits_value(s, radix) is Some ==> digits_value(s.take(i), radix) is Some && 0
            <= digits_value(s.take(i), radix)->0 <= digits_value(s, radix)->0,
    decreases s.len(),
{
    if i == s.len() {
        assert(s.take(i) == s);
        if s.len() > 0 {
            lemma_digits_value_grows(s.drop_last(), s.len() - 1, radix);
            assert(s.drop_last().take(s.len() - 1) == s.drop_last());
        }
    } else {
        lemma_digits_value_grows(s.drop_last(), i, radix);
        assert(s.drop_last().take(i) == s.take(i));
    }
}

pub fn digit_of(c: char, radix: u64) -> (r: Option<u64>)
    ensures
        match r {
            Some(d) => digit_value(c, radix as int) == Some(d as int) && d < 16,
            None => digit_value(c, radix as int) is None,
        },
{
    if '0' <= c && c <= '9' {
        Some((c as u32 - '0' as u32) as u64)
    } else if radix == 16 && 'a' <= c && c <= 'f' {
        Some((c as u32 - 'a' as u32 + 10) as u64)
    } else if radix == 16 && 'A' <= c && c <= 'F' {
        Some((c as u32 - 'A' as u32 + 10) as u64)
    } else {
        None
    }
}

/// Reads a number in base ten or sixteen that is at most `max`.
pub fn parse_number(s: &str, radix: u64, max: u64) -> (r: Option<u64>)
    requires
        radix == 10 || radix == 16,
    ensures
        match r {
            Some(n) => number(s@, radix as int, max as int) == Some(n as int),
            None => number(s@, radix as int, max as int) is None,
        },
{
    let v = chars_of(s);
    let from: usize = if v.len() > 0 && v[0] == '+' {
        1
    } else {
        0
    };
    let ghost digits = v@.skip(from as int);
    assert(from == 1 ==> digits == v@.drop_first());
    assert(from == 0 ==> digits == v@);
    if from == v.len() {
        return None;
    }
    let mut value: u64 = 0;
    let mut i: usize = from;
    assert(digits.take(0) == Seq::<char>::empty());
    while i < v.len()
        invariant
            from <= i <= v@.len(),
            radix == 10 || radix == 16,
            digits == v@.skip(from as int),
            digits_value(digits.take(i - from), radix as int) == Some(value as int),
            value <= max,
            digits_value(digits, radix as int) == number(s@, radix as int, max as int) || number(
                s@,
                radix as int,
                max as int,
            ) is None,
            digits_value(digits, radix as int) is Some && digits_value(digits, radix as int)->0
                > max ==> number(s@, radix as int, max as int) is None,
        decreases v@.len() - i,
    {
        let ghost here = digits.take(i - from + 1);
        proof {
            assert(here.drop_last() == digits.take(i - from));
            assert(here.last() == v@[i as int]);
            lemma_digits_value_grows(digits, i - from + 1, radix as int);
        }
        match digit_of(v[i], radix) {
            None => {
                return None;
            },
            Some(d) => {
                let next: u128 = value as u128 * radix as u128 + d as u128;
                assert(digits_value(here, radix as int) == Some(next as int));
                if next > max as u128 {
                    return None;
                }
                value = next as u64;
            },
        }
        i = i + 1;
    }
    assert(digits.take(i - from) == digits);
    Some(value)
}

pub fn parse_u64(s: &str) -> (r: Option<u64>)
    ensures
        match r {
            Some(n) => number(s@, 10, u64::MAX as int) == Some(n as int),
            None => number(s@, 10, u64::MAX as int) is None,
        },
{
    parse_number(s, 10, u64::MAX)
}

/// The members of a list with `sep` between them.
pub open spec fn joined(v: Seq<Seq<char>>, sep: Seq<char>) -> Seq<char>
    decreases v.len(),
{
    if v.len() == 0 {
        Seq::empty()
    } else if v.len() == 1 {
        v[0]
    } else {
        joined(v.drop_last(), sep) + sep + v.last()
    }
}

/// Members that are not empty do not make an empty string.
pub proof fn lemma_joined_shows(v: Seq<Seq<char>>, sep: Seq<char>)
    requires
        v.len() > 0,
        forall|i: int| 0 <= i < v.len() ==> (#[trigger] v[i]).len() > 0,
    ensures
        joined(v, sep).len() > 0,
{
    assert(v[v.len() - 1].len() > 0);
}

/// One string of the members of a list, with `sep` between them.
pub fn join(v: &Vec<String>, sep: &str) -> (r: String)
    ensures
        r@ == joined(texts(v@), sep@),
{
    let mut out = String::new();
    let mut i: usize = 0;
    assert(texts(v@).take(0) == Seq::<Seq<char>>::empty());
    while i < v.len()
        invariant
            i <= v@.len(),
            out@ == joined(texts(v@).take(i as int), sep@),
        decreases v@.len() - i,
    {
        let ghost before = texts(v@).take(i as int);
        let ghost after = texts(v@).take(i + 1);
        assert(after.drop_last() == before);
        assert(after.last() == v@[i as int]@);
        if i > 0 {
            out.append(sep);
        }
        out.append(v[i].as_str());
        assert(out@ == joined(after, sep@));
        i = i + 1;
    }
    assert(texts(v@).take(i as int) == texts(v@));
    out
}

/// The number that `s` denotes with an optional sign, if it is within an
/// `i64`.
pub open spec fn signed_number(s: Seq<char>) -> Option<int> {
    if s.len() > 0 && s[0] == '-' {
        if s.len() > 1 && s[1] == '+' {
            None
        } else {
            match number(s.drop_first(), 10, -(i64::MIN as int)) {
                Some(n) => Some(-n),
                None => None,
            }
        }
    } else {
        number(s, 10, i64::MAX as int)
    }
}

pub fn parse_i64(s: &str) -> (r: Option<i64>)
    ensures
        match r {
            Some(n) => signed_number(s@) == Some(n as int),
            None => signed_number(s@) is None,
        },
{
    let v = chars_of(s);
    let n: usize = v.len();
    if n > 0 && v[0] == '-' {
        if n > 1 && v[1] == '+' {
            return None;
        }
        let digits = string_of(&v, 1, n);
        assert(digits@ == s@.drop_first());
        match parse_number(digits.as_str(), 10, 0x8000_0000_0000_0000) {
            Some(m) => {
                let negated: i128 = -(m as i128);
                Some(negated as i64)
            },
            None => None,
        }
    } else {
        match parse_number(s, 10, 0x7fff_ffff_ffff_ffff) {
            Some(m) => Some(m as i64),
            None => None,
        }
    }
}

/// Whether every character of `s` is a decimal digit.
pub open spec fn all_digits(s: Seq<char>) -> bool {
    forall|i: int| 0 <= i < s.len() ==> '0' <= #[trigger] s[i] <= '9'
}

pub fn only_digits(s: &str) -> (r: bool)
    ensures
        r == all_digits(s@),
{
    let v = chars_of(s);
    let mut i: usize = 0;
    while i < v.len()
        invariant
            i <= v@.len(),
            v@ == s@,
            forall|j: int| 0 <= j < i ==> '0' <= #[trigger] v@[j] <= '9',
        decreases v@.len() - i,
    {
        if !('0' <= v[i] && v[i] <= '9') {
            return false;
        }
        i = i + 1;
    }
    true
}

/// Whether `s` holds the character `c`.
pub fn contains_char(s: &str, c: char) -> (r: bool)
    ensures
        r == s@.contains(c),
{
    match find_char(s, c) {
        Some(_) => true,
        None => false,
    }
}

/// The first position of `c` in `s`.
pub open spec fn first_of(s: Seq<char>, c: char) -> Option<int>
    decreases s.len(),
{
    if s.len() == 0 {
        None
    } else if s[0] == c {
        Some(0)
    } else {
        match first_of(s.drop_first(), c) {
            Some(i) => Some(i + 1),
            None => None,
        }
    }
}

/// The last position of `c` in `s`.
pub open spec fn last_of(s: Seq<char>, c: char) -> Option<int>
    decreases s.len(),
{
    if s.len() == 0 {
        None
    } else if s.last() == c {
        Some(s.len() - 1)
    } else {
        last_of(s.drop_last(), c)
    }
}

pub proof fn lemma_first_of(s: Seq<char>, c: char, at: int)
    requires
        0 <= at <= s.len(),
        forall|i: int| 0 <= i < at ==> #[trigger] s[i] != c,
        at < s.len() ==> s[at] == c,
    ensures
        first_of(s, c) == if at < s.len() {
            Some(at)
        } else {
            None
        },
    decreases s.len(),
{
    if s.len() > 0 && at > 0 {
        assert(s[0] != c);
        let t = s.drop_first();
        assert forall|i: int| 0 <= i < at - 1 implies #[trigger] t[i] != c by {
            assert(s[i + 1] != c);
        }
        lemma_first_of(t, c, at - 1);
    }
}

pub proof fn lemma_last_of(s: Seq<char>, c: char, at: int)
    requires
        -1 <= at < s.len(),
        forall|i: int| at < i < s.len() ==> #[trigger] s[i] != c,
        at >= 0 ==> s[at] == c,
    ensures
        last_of(s, c) == if at >= 0 {
            Some(at)
        } else {
            None
        },
    decreases s.len(),
{
    if s.len() > 0 && at < s.len() - 1 {
        assert(s[s.len() - 1] != c);
        lemma_last_of(s.drop_last(), c, at);
    }
}

pub fn find_char(s: &str, c: char) -> (r: Option<usize>)
    ensures
        match r {
            Some(i) => first_of(s@, c) == Some(i as int) && i < s@.len() && s@[i as int] == c,
            None => first_of(s@, c) is None && !s@.contains(c),
        },
{
    let v = chars_of(s);
    let mut i: usize = 0;
    while i < v.len()
        invariant
            i <= v@.len(),
            v@ == s@,
            forall|j: int| 0 <= j < i ==> #[trigger] v@[j] != c,
        decreases v@.len() - i,
    {
        if v[i] == c {
            proof {
                lemma_first_of(v@, c, i as int);
            }
            return Some(i);
        }
        i = i + 1;
    }
    proof {
        lemma_first_of(v@, c, i as int);
    }
    None
}

pub fn find_last_char(s: &str, c: char) -> (r: Option<usize>)
    ensures
        match r {
            Some(i) => last_of(s@, c) == Some(i as int) && i < s@.len() && s@[i as int] == c,
            None => last_of(s@, c) is None && !s@.contains(c),
        },
{
    let v = chars_of(s);
    let mut i: usize = v.len();
    while i > 0
        invariant
            i <= v@.len(),
            v@ == s@,
            forall|j: int| i <= j < v@.len() ==> #[trigger] v@[j] != c,
        decreases i,
    {
        if v[i - 1] == c {
            proof {
                lemma_last_of(v@, c, i - 1);
            }
            return Some(i - 1);
        }
        i = i - 1;
    }
    proof {
        lemma_last_of(v@, c, -1);
    }
    None
}

/// `s` without the character `c` as often as it ends with it.
pub open spec fn stripped_end(s: Seq<char>, c: char) -> Seq<char>
    decreases s.len(),
{
    if s.len() > 0 && s.last() == c {
        stripped_end(s.drop_last(), c)
    } else {
        s
    }
}

pub fn strip_end(s: &str, c: char) -> (r: String)
    ensures
        r@ == stripped_end(s@, c),
{
    let v = chars_of(s);
    let mut to: usize = v.len();
    assert(v@.take(to as int) == s@);
    while to > 0 && v[to - 1] == c
        invariant
            to <= v@.len(),
            stripped_end(s@, c) == stripped_end(v@.take(to as int), c),
        decreases to,
    {
        assert(v@.take(to as int).drop_last() == v@.take(to - 1));
        to = to - 1;
    }
    assert(v@.take(to as int) == v@.subrange(0, to as int));
    string_of(&v, 0, to)
}

/// `s` without `prefix` as often as it begins with it.
pub open spec fn stripped_start(s: Seq<char>, prefix: Seq<char>) -> Seq<char>
    decreases s.len(),
{
    if prefix.len() > 0 && has_prefix(s, prefix) {
        stripped_start(s.skip(prefix.len() as int), prefix)
    } else {
        s
    }
}

pub fn strip_start(s: &str, prefix: &str) -> (r: String)
    ensures
        r@ == stripped_start(s@, prefix@),
{
    let n: usize = count(prefix);
    let mut rest = s.to_owned();
    while n > 0 && starts_with(rest.as_str(), prefix)
        invariant
            n == prefix@.len(),
            stripped_start(rest@, prefix@) == stripped_start(s@, prefix@),
        decreases rest@.len(),
    {
        rest = skip(rest.as_str(), n);
    }
    rest
}

/// What an optional string holds.
pub open spec fn opt_view(s: Option<String>) -> Option<Seq<char>> {
    match s {
        Some(t) => Some(t@),
        None => None,
    }
}

/// An empty list of strings.
pub fn no_texts() -> (r: Vec<String>)
    ensures
        texts(r@) == Seq::<Seq<char>>::empty(),
        r@.len() == 0,
{
    let r: Vec<String> = Vec::new();
    assert(texts(r@) == Seq::<Seq<char>>::empty());
    r
}

/// Appends a string to a list.
pub fn add_text(v: &mut Vec<String>, s: &str)
    ensures
        texts(final(v)@) == texts(old(v)@).push(s@),
        final(v)@.len() == old(v)@.len() + 1,
{
    push_text(v, s.to_owned());
}

/// Moves a string to the end of a list.
pub fn push_text(v: &mut Vec<String>, s: String)
    ensures
        texts(final(v)@) == texts(old(v)@).push(s@),
        final(v)@ == old(v)@.push(s),
{
    let ghost before = v@;
    v.push(s);
    assert(texts(v@) == texts(before).push(s@));
}

/// The decimal digits before and after the point of a plain number: digits,
/// with or without a point, and at least one of them.
pub open spec fn decimal_parts(s: Seq<char>) -> Option<(Seq<char>, Seq<char>)> {
    let (whole, part) = match first_of(s, '.') {
        Some(at) => (s.take(at), s.skip(at + 1)),
        None => (s, Seq::empty()),
    };
    if whole.len() + part.len() > 0 && all_digits(whole) && all_digits(part) {
        Some((whole, part))
    } else {
        None
    }
}

/// Splits a plain number at its point.
pub fn split_decimal(s: &str) -> (r: Option<(String, String)>)
    ensures
        match r {
            Some((whole, part)) => decimal_parts(s@) == Some((whole@, part@)),
            None => decimal_parts(s@) is None,
        },
{
    let _: usize = count(s);
    let (whole, part) = match find_char(s, '.') {
        Some(at) => (take(s, at), skip(s, at + 1)),
        None => (s.to_owned(), String::new()),
    };
    let some = !whole.as_str().is_empty() || !part.as_str().is_empty();
    if some && only_digits(whole.as_str()) && only_digits(part.as_str()) {
        Some((whole, part))
    } else {
        None
    }
}

/// A text without a sign before it, and whether the sign was a minus.
pub open spec fn unsigned(s: Seq<char>) -> (bool, Seq<char>) {
    if s.len() > 0 && s[0] == '-' {
        (true, s.drop_first())
    } else if s.len() > 0 && s[0] == '+' {
        (false, s.drop_first())
    } else {
        (false, s)
    }
}

fn split_sign(s: &str) -> (r: (bool, String))
    ensures
        (r.0, r.1@) == unsigned(s@),
{
    let n: usize = s.unicode_len();
    if n > 0 && (s.get_char(0) == '-' || s.get_char(0) == '+') {
        (s.get_char(0) == '-', skip(s, 1))
    } else {
        (false, s.to_owned())
    }
}

/// The exponent that stands behind the `e` of a number: digits, with or without
/// a sign.
pub open spec fn exponent_in(s: Seq<char>) -> Option<int> {
    let (negative, digits) = unsigned(s);
    match digits_value(digits, 10) {
        Some(n) if digits.len() > 0 => Some(
            if negative {
                -n
            } else {
                n
            },
        ),
        _ => None,
    }
}

/// A number as it is written: its sign, its digits without the point, and how
/// far to the right of their end the point belongs.
pub struct Written {
    pub negative: bool,
    pub digits: Seq<char>,
    pub shift: int,
}

/// A decimal number: a sign, digits with or without a point, and an exponent,
/// of which only some digit has to be there.
pub open spec fn written(s: Seq<char>) -> Option<Written> {
    let (negative, t) = unsigned(lowered(s));
    let (mantissa, exponent) = match first_of(t, 'e') {
        Some(at) => (t.take(at), exponent_in(t.skip(at + 1))),
        None => (t, Some(0)),
    };
    match (decimal_parts(mantissa), exponent) {
        (Some((whole, part)), Some(e)) => Some(
            Written { negative, digits: whole + part, shift: e - part.len() },
        ),
        _ => None,
    }
}

/// Digits up to a point that stands so far to the right of their end, or to the
/// left of it.
pub open spec fn point_moved(digits: Seq<char>, shift: int) -> Seq<char> {
    if shift >= 0 {
        digits + repeated('0', shift as nat)
    } else if -shift >= digits.len() {
        Seq::empty()
    } else {
        digits.take(digits.len() + shift)
    }
}

/// The value of digits up to a moved point, where it fits.
pub open spec fn moved_value(digits: Seq<char>, shift: int) -> Option<int> {
    match digits_value(point_moved(digits, shift), 10) {
        Some(n) if n <= u64::MAX => Some(n),
        _ => None,
    }
}

/// No exponent that matters is as large as this.
const FAR: i128 = 1_000_000_000_000_000_000_000_000_000_000;

/// A number within `FAR` on both sides of zero.
spec fn within_far(n: int) -> int {
    if n > FAR {
        FAR as int
    } else if n < -FAR {
        -FAR
    } else {
        n
    }
}

proof fn lemma_digits_count(s: Seq<char>)
    requires
        all_digits(s),
    ensures
        digits_value(s, 10) is Some,
        digits_value(s, 10)->0 >= 0,
    decreases s.len(),
{
    if s.len() > 0 {
        assert('0' <= s.last() <= '9');
        assert(all_digits(s.drop_last()));
        lemma_digits_count(s.drop_last());
    }
}

spec fn tens(k: nat) -> int
    decreases k,
{
    if k == 0 {
        1
    } else {
        10 * tens((k - 1) as nat)
    }
}

proof fn lemma_tens_far(k: nat)
    requires
        k >= 20,
    ensures
        tens(k) > u64::MAX,
    decreases k,
{
    if k == 20 {
        reveal_with_fuel(tens, 21);
    } else {
        lemma_tens_far((k - 1) as nat);
    }
}

proof fn lemma_zeros_behind(s: Seq<char>, k: nat)
    requires
        all_digits(s),
    ensures
        digits_value(s + repeated('0', k), 10) == Some(digits_value(s, 10)->0 * tens(k)),
    decreases k,
{
    lemma_digits_count(s);
    let n = digits_value(s, 10)->0;
    let all = s + repeated('0', k);
    if k == 0 {
        assert(all == s);
        assert(n * tens(0) == n);
    } else {
        let t = tens((k - 1) as nat);
        lemma_zeros_behind(s, (k - 1) as nat);
        assert(all.drop_last() == s + repeated('0', (k - 1) as nat));
        assert(all.last() == '0');
        assert((n * t) * 10 == n * (10 * t)) by (nonlinear_arith);
    }
}

/// Twenty places to the right is as good as any more.
proof fn lemma_far_right(digits: Seq<char>, shift: int)
    requires
        all_digits(digits),
        shift >= 20,
    ensures
        moved_value(digits, shift) == if digits_value(digits, 10) == Some(0int) {
            Some(0int)
        } else {
            None
        },
{
    let n = digits_value(digits, 10)->0;
    let t = tens(shift as nat);
    lemma_digits_count(digits);
    lemma_zeros_behind(digits, shift as nat);
    lemma_tens_far(shift as nat);
    assert(n == 0 ==> n * t == 0) by (nonlinear_arith);
    assert(n >= 1 ==> n * t >= t) by (nonlinear_arith)
        requires
            t > 0,
    ;
}

/// Reads digits up to a moved point.
fn read_moved(digits: &str, shift: i128) -> (r: Option<u64>)
    requires
        all_digits(digits@),
    ensures
        match r {
            Some(n) => moved_value(digits@, shift as int) == Some(n as int),
            None => moved_value(digits@, shift as int) is None,
        },
{
    let n: usize = digits.unicode_len();
    let shown = if shift >= 0 {
        let zeros: usize = if shift < 20 {
            shift as usize
        } else {
            20
        };
        proof {
            if shift >= 20 {
                lemma_far_right(digits@, shift as int);
                lemma_far_right(digits@, 20);
            }
        }
        let mut text = digits.to_owned();
        text.append(repeat('0', zeros).as_str());
        assert(text@ == point_moved(digits@, zeros as int));
        assert(moved_value(digits@, shift as int) == moved_value(digits@, zeros as int));
        text
    } else if -(n as i128) >= shift {
        String::new()
    } else {
        take(digits, (n as i128 + shift) as usize)
    };
    if shown.as_str().is_empty() {
        assert(shown@ == Seq::<char>::empty());
        return Some(0);
    }
    assert('0' <= shown@[0] <= '9');
    parse_u64(shown.as_str())
}

/// Reads the exponent of a number. One beyond `FAR` comes out as `FAR`.
fn read_exponent(s: &str) -> (r: Option<i128>)
    ensures
        match r {
            Some(n) => exponent_in(s@) is Some && n == within_far(exponent_in(s@)->0),
            None => exponent_in(s@) is None,
        },
{
    let (negative, digits) = split_sign(s);
    let v = chars_of(digits.as_str());
    if v.len() == 0 {
        return None;
    }
    let mut value: i128 = 0;
    let mut i: usize = 0;
    assert(v@.take(0) == Seq::<char>::empty());
    while i < v.len()
        invariant
            i <= v@.len(),
            v@ == digits@,
            (negative, digits@) == unsigned(s@),
            v@.len() > 0,
            digits_value(v@.take(i as int), 10) is Some,
            0 <= value <= FAR,
            value == within_far(digits_value(v@.take(i as int), 10)->0),
            digits_value(v@.take(i as int), 10)->0 >= 0,
        decreases v@.len() - i,
    {
        let ghost here = v@.take(i + 1);
        proof {
            assert(here.drop_last() == v@.take(i as int));
            assert(here.last() == v@[i as int]);
            lemma_digits_value_grows(v@, i + 1, 10);
        }
        match digit_of(v[i], 10) {
            None => {
                return None;
            },
            Some(d) => {
                let next: i128 = value * 10 + d as i128;
                value = if next > FAR {
                    FAR
                } else {
                    next
                };
            },
        }
        i = i + 1;
    }
    assert(v@.take(i as int) == v@);
    Some(
        if negative {
            -value
        } else {
            value
        },
    )
}

/// Reads a decimal number as it is written. A point that is further away than
/// any digit comes out as one that is far away.
fn read_written(s: &str) -> (r: Option<(bool, String, i128)>)
    ensures
        match r {
            Some((negative, digits, shift)) => {
                &&& written(s@) matches Some(w)
                &&& w.negative == negative
                &&& w.digits == digits@
                &&& all_digits(digits@)
                &&& digits@.len() <= 2 * usize::MAX
                &&& -2 * FAR < shift < 2 * FAR
                &&& shift == w.shift || (shift > FAR / 2 && w.shift >= shift) || (shift < -FAR / 2
                    && w.shift <= shift)
            },
            None => written(s@) is None,
        },
{
    let (negative, t) = split_sign(lowercase(s).as_str());
    let _: usize = count(t.as_str());
    let (mantissa, exponent): (String, Option<i128>) = match find_char(t.as_str(), 'e') {
        Some(at) => (take(t.as_str(), at), read_exponent(skip(t.as_str(), at + 1).as_str())),
        None => (t, Some(0)),
    };
    match (split_decimal(mantissa.as_str()), exponent) {
        (Some((whole, part)), Some(e)) => {
            let places: usize = count(part.as_str());
            let _: usize = count(whole.as_str());
            let mut digits = whole;
            digits.append(part.as_str());
            Some((negative, digits, e - places as i128))
        },
        _ => None,
    }
}

/// The value of digits up to a point that was read, and of the same digits up to
/// the point that was written.
proof fn lemma_far_is_far(digits: Seq<char>, read: int, wrote: int, places: int)
    requires
        all_digits(digits),
        digits.len() <= 2 * usize::MAX,
        0 <= places <= 6,
        read == wrote || (read > FAR / 2 && wrote >= read) || (read < -FAR / 2 && wrote <= read),
    ensures
        moved_value(digits, read + places) == moved_value(digits, wrote + places),
{
    if read > FAR / 2 {
        lemma_far_right(digits, read + places);
        lemma_far_right(digits, wrote + places);
    } else if read < -FAR / 2 {
        assert(point_moved(digits, read + places) == point_moved(digits, wrote + places));
    }
}

/// A decimal number in millionths; further digits are dropped. `None` for
/// anything that is not one, or that is too large.
pub open spec fn micros_in(s: Seq<char>) -> Option<int> {
    match written(s) {
        Some(w) => match moved_value(w.digits, w.shift + 6) {
            Some(n) if n <= i64::MAX => Some(
                if w.negative {
                    -n
                } else {
                    n
                },
            ),
            _ => None,
        },
        None => None,
    }
}

/// Reads a decimal number in millionths.
pub fn parse_micros(s: &str) -> (r: Option<i64>)
    ensures
        match r {
            Some(n) => micros_in(s@) == Some(n as int),
            None => micros_in(s@) is None,
        },
{
    match read_written(s) {
        None => None,
        Some((negative, digits, shift)) => {
            proof {
                let w = written(s@)->0;
                lemma_far_is_far(digits@, shift as int, w.shift, 6);
            }
            match read_moved(digits.as_str(), shift + 6) {
                Some(n) => if n > i64::MAX as u64 {
                    None
                } else if negative {
                    Some(-(n as i64))
                } else {
                    Some(n as i64)
                },
                None => None,
            }
        },
    }
}

/// The whole part of a number: nothing below zero, and the largest that fits
/// for any larger. `inf`, `infinity` and `nan` are numbers too, and the
/// last of them counts for nothing.
pub open spec fn whole_in(s: Seq<char>) -> Option<int> {
    let (negative, word) = unsigned(lowered(s));
    let most = if negative {
        0
    } else {
        u64::MAX as int
    };
    match written(s) {
        Some(w) => match moved_value(w.digits, w.shift) {
            Some(n) if !negative => Some(n),
            _ => Some(most),
        },
        None => if word == "inf"@ || word == "infinity"@ {
            Some(most)
        } else if word == "nan"@ {
            Some(0)
        } else {
            None
        },
    }
}

/// Reads the whole part of a number.
pub fn parse_whole(s: &str) -> (r: Option<u64>)
    ensures
        match r {
            Some(n) => whole_in(s@) == Some(n as int),
            None => whole_in(s@) is None,
        },
{
    let (negative, word) = split_sign(lowercase(s).as_str());
    let most: u64 = if negative {
        0
    } else {
        u64::MAX
    };
    match read_written(s) {
        Some((_, digits, shift)) => {
            proof {
                let w = written(s@)->0;
                lemma_far_is_far(digits@, shift as int, w.shift, 0);
            }
            if negative {
                return Some(0);
            }
            match read_moved(digits.as_str(), shift) {
                Some(n) => Some(n),
                None => Some(most),
            }
        },
        None => if same(word.as_str(), "inf") || same(word.as_str(), "infinity") {
            Some(most)
        } else if same(word.as_str(), "nan") {
            Some(0)
        } else {
            None
        },
    }
}

proof fn lemma_trimmed_start_keeps(s: Seq<char>)
    ensures
        trimmed_start(s).len() > 0 ==> !is_space(trimmed_start(s)[0]),
        trimmed_start(s).len() > 0 ==> s.len() > 0 && trimmed_start(s).last() == s.last(),
        trimmed_start(s).len() <= s.len(),
    decreases s.len(),
{
    if s.len() > 0 && is_space(s[0]) {
        lemma_trimmed_start_keeps(s.drop_first());
    }
}

proof fn lemma_trimmed_end_keeps(s: Seq<char>)
    ensures
        trimmed_end(s).len() > 0 ==> !is_space(trimmed_end(s).last()),
        trimmed_end(s).len() > 0 ==> s.len() > 0 && trimmed_end(s)[0] == s[0],
        trimmed_end(s).len() <= s.len(),
    decreases s.len(),
{
    if s.len() > 0 && is_space(s.last()) {
        lemma_trimmed_end_keeps(s.drop_last());
    }
}

/// White space around a text that neither begins nor ends with any is what is
/// trimmed off.
pub proof fn lemma_trimmed_around(lead: Seq<char>, text: Seq<char>, trail: Seq<char>)
    requires
        forall|i: int| 0 <= i < lead.len() ==> is_space(#[trigger] lead[i]),
        forall|i: int| 0 <= i < trail.len() ==> is_space(#[trigger] trail[i]),
        text.len() > 0,
        !is_space(text[0]),
        !is_space(text.last()),
    ensures
        trimmed(lead + text + trail) == text,
{
    let all = lead + text + trail;
    assert forall|i: int| 0 <= i < lead.len() implies is_space(#[trigger] all[i]) by {
        assert(all[i] == lead[i]);
    }
    assert(all[lead.len() as int] == text[0]);
    lemma_trimmed_start(all, lead.len() as int);
    let rest = text + trail;
    assert(all.skip(lead.len() as int) == rest);
    assert forall|i: int| text.len() <= i < rest.len() implies is_space(#[trigger] rest[i]) by {
        assert(rest[i] == trail[i - text.len()]);
    }
    lemma_trimmed_end(rest, text.len() as int);
    assert(rest.take(text.len() as int) == text);
}

/// The last piece of a text is what stands behind the last separator.
pub proof fn lemma_last_piece(head: Seq<char>, tail: Seq<char>, sep: char)
    requires
        forall|i: int| 0 <= i < tail.len() ==> #[trigger] tail[i] != sep,
        head.len() == 0 || head.last() == sep,
    ensures
        split_at_char(head + tail, sep).last() == tail,
    decreases tail.len(),
{
    lemma_pieces_nonempty(head + tail, only(sep));
    if tail.len() == 0 {
        assert(head + tail == head);
        assert(split_at_char(head, sep).last() == Seq::<char>::empty());
    } else {
        let shorter = tail.drop_last();
        lemma_last_piece(head, shorter, sep);
        assert((head + tail).drop_last() == head + shorter);
        assert(tail[tail.len() - 1] != sep);
        assert((head + tail).last() == tail.last());
        assert(shorter.push(tail.last()) == tail);
    }
}

/// A number written in decimal reads back as itself, and is made of digits.
pub proof fn lemma_dec_reads_back(n: nat)
    ensures
        digits_value(dec(n), 10) == Some(n as int),
        dec(n).len() > 0,
        all_digits(dec(n)),
    decreases n,
{
    if n < 10 {
        assert(dec(n).drop_last() == Seq::<char>::empty());
        reveal_with_fuel(digits_value, 2);
    } else {
        lemma_dec_reads_back(n / 10);
        assert(dec(n).drop_last() == dec(n / 10));
    }
}

/// A number written in hexadecimal reads back as itself, and is made of digits.
pub proof fn lemma_hex_reads_back(n: nat)
    ensures
        digits_value(hex(n), 16) == Some(n as int),
        hex(n).len() > 0,
        forall|i: int|
            0 <= i < hex(n).len() ==> digit_value(#[trigger] hex(n)[i], 16) is Some,
    decreases n,
{
    if n < 16 {
        assert(hex(n).drop_last() == Seq::<char>::empty());
        reveal_with_fuel(digits_value, 2);
    } else {
        lemma_hex_reads_back(n / 16);
        assert(hex(n).drop_last() == hex(n / 16));
        assert forall|i: int| 0 <= i < hex(n).len() implies digit_value(
            #[trigger] hex(n)[i],
            16,
        ) is Some by {
            if i < hex(n).len() - 1 {
                assert(hex(n)[i] == hex(n / 16)[i]);
            }
        }
    }
}

/// Trimming what is trimmed changes nothing.
pub proof fn lemma_trimmed_twice(s: Seq<char>)
    ensures
        trimmed(trimmed(s)) == trimmed(s),
{
    lemma_trimmed_start_keeps(s);
    lemma_trimmed_end_keeps(trimmed_start(s));
}

/// Whether `a` stands before `b` in the order of their characters.
pub open spec fn text_before(a: Seq<char>, b: Seq<char>) -> bool
    decreases a.len(),
{
    if b.len() == 0 {
        false
    } else if a.len() == 0 {
        true
    } else if a[0] != b[0] {
        a[0] < b[0]
    } else {
        text_before(a.drop_first(), b.drop_first())
    }
}

pub fn comes_before(a: &Vec<char>, b: &Vec<char>) -> (r: bool)
    ensures
        r == text_before(a@, b@),
{
    let mut i: usize = 0;
    assert(a@.skip(0) == a@);
    assert(b@.skip(0) == b@);
    while i < a.len() && i < b.len()
        invariant
            i <= a@.len(),
            i <= b@.len(),
            text_before(a@, b@) == text_before(a@.skip(i as int), b@.skip(i as int)),
        decreases a@.len() - i,
    {
        assert(a@.skip(i as int)[0] == a@[i as int]);
        assert(b@.skip(i as int)[0] == b@[i as int]);
        assert(a@.skip(i as int).drop_first() == a@.skip(i + 1));
        assert(b@.skip(i as int).drop_first() == b@.skip(i + 1));
        if a[i] != b[i] {
            return a[i] < b[i];
        }
        i = i + 1;
    }
    i < b.len()
}

/// The hexadecimal digit for `d`, which is below sixteen.
pub open spec fn hex_digit(d: int) -> char {
    if d < 10 {
        digit(d)
    } else if d == 10 {
        'a'
    } else if d == 11 {
        'b'
    } else if d == 12 {
        'c'
    } else if d == 13 {
        'd'
    } else if d == 14 {
        'e'
    } else {
        'f'
    }
}

/// A number in hexadecimal, without leading zeros.
pub open spec fn hex(n: nat) -> Seq<char>
    decreases n,
{
    if n < 16 {
        seq![hex_digit(n as int)]
    } else {
        hex(n / 16).push(hex_digit((n % 16) as int))
    }
}

fn hex_char(d: u64) -> (r: char)
    requires
        d < 16,
    ensures
        r == hex_digit(d as int),
{
    match d {
        10 => 'a',
        11 => 'b',
        12 => 'c',
        13 => 'd',
        14 => 'e',
        15 => 'f',
        _ => digit_char(d),
    }
}

pub fn hexadecimal(n: u64) -> (r: String)
    ensures
        r@ == hex(n as nat),
    decreases n,
{
    if n < 16 {
        let mut out = String::new();
        out.push(hex_char(n));
        assert(out@ == hex(n as nat));
        out
    } else {
        let mut out = hexadecimal(n / 16);
        out.push(hex_char(n % 16));
        out
    }
}

/// The text of an option, or a default.
pub open spec fn text_or(s: Option<Seq<char>>, default: Seq<char>) -> Seq<char> {
    match s {
        Some(t) => t,
        None => default,
    }
}

pub fn text_or_default<'a>(s: &'a Option<String>, default: &'a str) -> (r: &'a str)
    ensures
        r@ == text_or(opt_view(*s), default@),
{
    match s {
        Some(t) => t.as_str(),
        None => default,
    }
}

/// A text that is there and not empty.
pub open spec fn given(s: Option<Seq<char>>) -> Option<Seq<char>> {
    match s {
        Some(t) if t.len() > 0 => Some(t),
        _ => None,
    }
}

/// What stands between two texts is in their sum.
pub proof fn lemma_part_of_sum(before: Seq<char>, part: Seq<char>, after: Seq<char>)
    ensures
        occurs_in(before + part + after, part),
        occurs_in(before + (part + after), part),
{
    let all = before + part + after;
    assert(all.subrange(before.len() as int, (before.len() + part.len()) as int) == part);
    assert(occurs_at(all, part, before.len() as int));
    assert(before + (part + after) == all);
}

/// What stands in a part stands in the whole.
pub proof fn lemma_part_of_part(whole: Seq<char>, part: Seq<char>, inner: Seq<char>)
    requires
        occurs_in(whole, part),
        occurs_in(part, inner),
    ensures
        occurs_in(whole, inner),
{
    let p = choose|at: int| occurs_at(whole, part, at);
    let q = choose|at: int| occurs_at(part, inner, at);
    assert(whole.subrange(p + q, p + q + inner.len()) == part.subrange(q, q + inner.len()));
    assert(occurs_at(whole, inner, p + q));
}

/// The items of a joined list stand in it in their order, and none overlaps
/// another.
pub proof fn lemma_joined_in_order(v: Seq<Seq<char>>, sep: Seq<char>, i: int, j: int)
    requires
        0 <= i < j < v.len(),
    ensures
        exists|p: int, q: int| #[trigger]
            occurs_at(joined(v, sep), v[i], p) && #[trigger] occurs_at(joined(v, sep), v[j], q) && p
                + v[i].len() <= q,
    decreases v.len(),
{
    let all = joined(v, sep);
    let head = joined(v.drop_last(), sep);
    if j == v.len() - 1 {
        lemma_joined_has(v.drop_last(), sep, i);
        let p = choose|at: int| occurs_at(head, v[i], at);
        let q = (head + sep).len() as int;
        assert(all.subrange(p, p + v[i].len()) == head.subrange(p, p + v[i].len()));
        assert(all.subrange(q, all.len() as int) == v[j]);
        assert(occurs_at(all, v[i], p) && occurs_at(all, v[j], q));
    } else {
        lemma_joined_in_order(v.drop_last(), sep, i, j);
        let (p, q) = choose|p: int, q: int| #[trigger]
            occurs_at(head, v[i], p) && #[trigger] occurs_at(head, v[j], q) && p + v[i].len() <= q;
        assert(all.subrange(p, p + v[i].len()) == head.subrange(p, p + v[i].len()));
        assert(all.subrange(q, q + v[j].len()) == head.subrange(q, q + v[j].len()));
        assert(occurs_at(all, v[i], p) && occurs_at(all, v[j], q));
    }
}

/// Every item of a joined list stands in it.
pub proof fn lemma_joined_has(v: Seq<Seq<char>>, sep: Seq<char>, at: int)
    requires
        0 <= at < v.len(),
    ensures
        occurs_in(joined(v, sep), v[at]),
    decreases v.len(),
{
    let all = joined(v, sep);
    if v.len() == 1 {
        assert(all.subrange(0, all.len() as int) == v[at]);
        assert(occurs_at(all, v[at], 0));
    } else {
        let head = joined(v.drop_last(), sep);
        if at == v.len() - 1 {
            let from = (head + sep).len() as int;
            assert(all.subrange(from, all.len() as int) == v[at]);
            assert(occurs_at(all, v[at], from));
        } else {
            lemma_joined_has(v.drop_last(), sep, at);
            assert(v.drop_last()[at] == v[at]);
            let from = choose|from: int| occurs_at(head, v[at], from);
            assert(all.subrange(from, from + v[at].len()) == head.subrange(
                from,
                from + v[at].len(),
            ));
            assert(occurs_at(all, v[at], from));
        }
    }
}

/// A number that is written out reads back, where it is in range.
pub proof fn lemma_number_reads_back(n: nat, max: int)
    ensures
        n <= max ==> number(dec(n), 10, max) == Some(n as int),
        n > max ==> number(dec(n), 10, max) is None,
{
    lemma_dec_reads_back(n);
    assert(dec(n)[0] != '+') by {
        assert('0' <= dec(n)[0] <= '9');
    }
}

/// A number that is written out holds no white space.
pub proof fn lemma_dec_is_no_space(n: nat)
    ensures
        dec(n).len() > 0,
        forall|i: int| 0 <= i < dec(n).len() ==> !is_space(#[trigger] dec(n)[i]),
{
    lemma_dec_reads_back(n);
    assert forall|i: int| 0 <= i < dec(n).len() implies !is_space(#[trigger] dec(n)[i]) by {
        assert('0' <= dec(n)[i] <= '9');
    }
}

/// A text put between two others adds no occurrence of a word with which it
/// shares no character.
pub proof fn lemma_adds_no_word(
    head: Seq<char>,
    line: Seq<char>,
    tail: Seq<char>,
    word: Seq<char>,
)
    requires
        word.len() > 0,
        forall|i: int, j: int|
            0 <= i < line.len() && 0 <= j < word.len() ==> #[trigger] line[i] != #[trigger] word[j],
        occurs_in(head + line + tail, word),
    ensures
        occurs_in(head + tail, word),
{
    let all = head + line + tail;
    let rest = head + tail;
    let n = word.len() as int;
    let p = choose|p: int| occurs_at(all, word, p);
    let from = head.len() as int;
    let to = from + line.len();
    assert forall|i: int| 0 <= i < n implies all[p + i] == #[trigger] word[i] by {
        assert(all.subrange(p, p + n)[i] == word[i]);
    }
    if p + n <= from {
        assert forall|i: int| 0 <= i < n implies rest.subrange(p, p + n)[i] == word[i] by {
            assert(all[p + i] == word[i]);
        }
        assert(rest.subrange(p, p + n) == word);
        assert(occurs_at(rest, word, p));
    } else if p >= to || line.len() == 0 {
        let q = p - line.len();
        assert forall|i: int| 0 <= i < n implies rest.subrange(q, q + n)[i] == word[i] by {
            assert(all[p + i] == word[i]);
            assert(all[p + i] == rest[q + i]);
        }
        assert(rest.subrange(q, q + n) == word);
        assert(occurs_at(rest, word, q));
    } else {
        let k = if p >= from {
            p
        } else {
            from
        };
        assert(all[k] == line[k - from]);
        assert(all[p + (k - p)] == word[k - p]);
        assert(false);
    }
}

/// A line put between two texts, the first of which ends a line, adds no
/// occurrence of another line.
pub proof fn lemma_adds_no_line(head: Seq<char>, line: Seq<char>, tail: Seq<char>, other: Seq<char>)
    requires
        head.len() > 0,
        head.last() == '\n',
        line.len() > 0,
        line.last() == '\n',
        forall|i: int| 0 <= i < line.len() - 1 ==> #[trigger] line[i] != '\n',
        other.len() > 0,
        other.last() == '\n',
        forall|i: int| 0 <= i < other.len() - 1 ==> #[trigger] other[i] != '\n',
        other != line,
        occurs_in(head + line + tail, seq!['\n'] + other),
    ensures
        occurs_in(head + tail, seq!['\n'] + other),
{
    let all = head + line + tail;
    let rest = head + tail;
    let word = seq!['\n'] + other;
    let n = word.len() as int;
    let p = choose|p: int| occurs_at(all, word, p);
    let from = head.len() as int;
    let to = from + line.len();
    assert forall|i: int| 0 <= i < n implies all[p + i] == #[trigger] word[i] by {
        assert(all.subrange(p, p + n)[i] == word[i]);
    }
    assert(word[0] == '\n');
    assert(all[p + 0] == '\n');
    assert(forall|i: int| 1 <= i < n ==> #[trigger] word[i] == other[i - 1]);
    assert(all[from - 1] == head.last());
    assert(all[to - 1] == line.last());
    if p + n <= from {
        assert forall|i: int| 0 <= i < n implies rest.subrange(p, p + n)[i] == word[i] by {
            assert(all[p + i] == word[i]);
        }
        assert(rest.subrange(p, p + n) == word);
        assert(occurs_at(rest, word, p));
    } else if p < from - 1 {
        let k = from - 1 - p;
        assert(all[p + k] == word[k]);
        assert(word[k] == other[k - 1]);
        assert(false);
    } else if p == from - 1 {
        let m = if line.len() <= other.len() {
            line.len()
        } else {
            other.len()
        };
        assert forall|i: int| 0 <= i < m implies line[i] == other[i] by {
            assert(all[p + (i + 1)] == word[i + 1]);
            assert(all[from + i] == line[i]);
        }
        assert(line[m - 1] == other[m - 1]);
        assert(line.len() == other.len());
        assert(line == other);
        assert(false);
    } else if p < to - 1 {
        assert(all[p] == line[p - from]);
        assert(false);
    } else {
        let q = p - line.len();
        assert forall|i: int| 0 <= i < n implies rest.subrange(q, q + n)[i] == word[i] by {
            assert(all[p + i] == word[i]);
            if p + i >= to {
                assert(all[p + i] == tail[p + i - to]);
                assert(rest[q + i] == tail[p + i - to]);
            } else {
                assert(i == 0 && p == to - 1);
                assert(rest[q] == head.last());
            }
        }
        assert(rest.subrange(q, q + n) == word);
        assert(occurs_at(rest, word, q));
    }
}

/// Digits never make a negative number.
pub proof fn lemma_digits_are_not_negative(s: Seq<char>)
    ensures
        digits_value(s, 10) matches Some(n) ==> n >= 0,
        digits_value(s, 16) matches Some(n) ==> n >= 0,
    decreases s.len(),
{
    if s.len() > 0 {
        lemma_digits_are_not_negative(s.drop_last());
    }
}

/// A number that is read is in range.
pub proof fn lemma_number_is_not_negative(s: Seq<char>, radix: int, max: int)
    requires
        radix == 10 || radix == 16,
    ensures
        number(s, radix, max) matches Some(n) ==> 0 <= n <= max,
{
    lemma_digits_are_not_negative(s);
    lemma_digits_are_not_negative(s.drop_first());
}

/// Texts are ordered one way: none stands before itself, and of two that differ
/// exactly one stands before the other.
pub proof fn lemma_text_order_is_strict(a: Seq<char>, b: Seq<char>)
    ensures
        !text_before(a, a),
        text_before(a, b) ==> !text_before(b, a) && a != b,
        a != b ==> text_before(a, b) || text_before(b, a),
    decreases a.len(),
{
    if a.len() > 0 && b.len() > 0 {
        lemma_text_order_is_strict(a.drop_first(), b.drop_first());
        if a[0] == b[0] && a.drop_first() == b.drop_first() {
            assert(a == seq![a[0]] + a.drop_first());
            assert(b == seq![b[0]] + b.drop_first());
        }
    } else if a.len() > 0 {
        lemma_text_order_is_strict(a.drop_first(), a.drop_first());
    } else if a.len() == 0 && b.len() == 0 {
        assert(a == b);
    }
}

/// What stands before something stands before all that comes behind it.
pub proof fn lemma_text_order_carries(a: Seq<char>, b: Seq<char>, c: Seq<char>)
    requires
        text_before(a, b),
        text_before(b, c),
    ensures
        text_before(a, c),
    decreases a.len(),
{
    if a.len() > 0 && b.len() > 0 && c.len() > 0 && a[0] == b[0] && b[0] == c[0] {
        lemma_text_order_carries(a.drop_first(), b.drop_first(), c.drop_first());
    }
}

/// A signed number that is written out reads back, and holds no white space.
pub proof fn lemma_signed_reads_back(n: int)
    requires
        i64::MIN < n <= i64::MAX,
    ensures
        signed_number(signed_dec(n)) == Some(n),
        signed_dec(n).len() > 0,
        !is_space(signed_dec(n)[0]),
        !is_space(signed_dec(n).last()),
{
    let size = if n < 0 {
        (-n) as nat
    } else {
        n as nat
    };
    lemma_dec_reads_back(size);
    lemma_dec_is_no_space(size);
    lemma_number_reads_back(size, i64::MAX as int);
    lemma_number_reads_back(size, -(i64::MIN as int));
    assert('0' <= dec(size)[0] <= '9');
    if n < 0 {
        let s = signed_dec(n);
        assert(s.drop_first() == dec(size));
        assert(s[1] == dec(size)[0]);
        assert(s.last() == dec(size).last());
    }
}

/// What is trimmed begins and ends with no white space, and is all of the text
/// where that does not either.
pub proof fn trimmed_has_no_blank_ends(s: Seq<char>)
    ensures
        trimmed(s).len() > 0 ==> !is_space(trimmed(s)[0]) && !is_space(trimmed(s).last()),
        s.len() > 0 && !is_space(s[0]) && !is_space(s.last()) ==> trimmed(s) == s,
        trimmed(trimmed(s)) == trimmed(s),
        occurs_in(s, trimmed(s)),
{
    lemma_trimmed_start_keeps(s);
    lemma_trimmed_end_keeps(trimmed_start(s));
    lemma_trimmed_twice(s);
    lemma_trimmed_start_is_a_rest(s);
    lemma_trimmed_end_is_a_beginning(trimmed_start(s));
    let from = s.len() - trimmed_start(s).len();
    let t = trimmed(s);
    assert(s.subrange(from, from + t.len()) == t);
    assert(occurs_at(s, t, from));
}

proof fn lemma_trimmed_start_is_a_rest(s: Seq<char>)
    ensures
        trimmed_start(s).len() <= s.len(),
        trimmed_start(s) == s.skip(s.len() - trimmed_start(s).len()),
    decreases s.len(),
{
    if s.len() > 0 && is_space(s[0]) {
        lemma_trimmed_start_is_a_rest(s.drop_first());
    } else {
        assert(s.skip(0) == s);
    }
}

proof fn lemma_trimmed_end_is_a_beginning(s: Seq<char>)
    ensures
        trimmed_end(s).len() <= s.len(),
        trimmed_end(s) == s.take(trimmed_end(s).len() as int),
    decreases s.len(),
{
    if s.len() > 0 && is_space(s.last()) {
        lemma_trimmed_end_is_a_beginning(s.drop_last());
    } else {
        assert(s.take(s.len() as int) == s);
    }
}

/// No piece of a text that is split holds the separator, and joined by it the
/// pieces are the text again.
pub proof fn pieces_join_to_the_text(s: Seq<char>, sep: char)
    ensures
        split_at_char(s, sep).len() > 0,
        forall|i: int|
            0 <= i < split_at_char(s, sep).len() ==> !(#[trigger] split_at_char(s, sep)[i]).contains(
                sep,
            ),
        joined(split_at_char(s, sep), seq![sep]) == s,
    decreases s.len(),
{
    let all = split_at_char(s, sep);
    if s.len() == 0 {
        assert(all == seq![Seq::<char>::empty()]);
        assert(joined(all, seq![sep]) == s);
    } else {
        let rest = s.drop_last();
        let before = split_at_char(rest, sep);
        pieces_join_to_the_text(rest, sep);
        assert(s == rest.push(s.last()));
        if s.last() == sep {
            assert(all == before.push(Seq::empty()));
            assert(all.drop_last() == before);
            assert(joined(all, seq![sep]) == joined(before, seq![sep]) + seq![sep]
                + Seq::<char>::empty());
            assert(joined(all, seq![sep]) == s);
        } else {
            let last = before.last().push(s.last());
            assert(all == before.drop_last().push(last));
            assert(all.drop_last() == before.drop_last());
            if before.len() == 1 {
                assert(joined(all, seq![sep]) == last);
                assert(joined(before, seq![sep]) == before[0]);
                assert(last == s);
            } else {
                assert(joined(all, seq![sep]) == joined(before.drop_last(), seq![sep])
                    + seq![sep] + last);
                assert(joined(all, seq![sep]) == s);
            }
            assert forall|i: int| 0 <= i < all.len() implies !(#[trigger] all[i]).contains(sep) by {
                if i < before.len() - 1 {
                    assert(all[i] == before[i]);
                } else {
                    assert(!before[before.len() - 1].contains(sep));
                    if last.contains(sep) {
                        let k = choose|k: int| 0 <= k < last.len() && last[k] == sep;
                        assert(before.last()[k] == sep);
                    }
                }
            }
        }
    }
}

proof fn lemma_piece_grows(s: Seq<char>, at: spec_fn(char) -> bool, sep: char, w: Seq<char>)
    requires
        at(sep),
        forall|i: int| 0 <= i < w.len() ==> !at(#[trigger] w[i]),
    ensures
        pieces(s + seq![sep] + w, at) == pieces(s, at).push(w),
    decreases w.len(),
{
    let all = s + seq![sep] + w;
    if w.len() == 0 {
        assert(all == s.push(sep));
        assert(all.drop_last() == s);
        assert(w == Seq::<char>::empty());
    } else {
        let shorter = w.drop_last();
        lemma_piece_grows(s, at, sep, shorter);
        assert(all.drop_last() == s + seq![sep] + shorter);
        assert(all.last() == w.last());
        assert(!at(w[w.len() - 1]));
        let before = pieces(s, at).push(shorter);
        assert(before.drop_last() == pieces(s, at));
        assert(shorter.push(w.last()) == w);
    }
}

proof fn lemma_first_piece_grows(at: spec_fn(char) -> bool, w: Seq<char>)
    requires
        forall|i: int| 0 <= i < w.len() ==> !at(#[trigger] w[i]),
    ensures
        pieces(w, at) == seq![w],
    decreases w.len(),
{
    if w.len() == 0 {
        assert(w == Seq::<char>::empty());
    } else {
        let shorter = w.drop_last();
        lemma_first_piece_grows(at, shorter);
        assert(!at(w[w.len() - 1]));
        assert(shorter.push(w.last()) == w);
        assert(seq![shorter].drop_last().push(w) == seq![w]);
    }
}

/// Words written with white space between them read back as those words: more
/// white space adds none, and a word behind some adds itself.
pub proof fn words_read_back(s: Seq<char>, space: char, word: Seq<char>)
    requires
        is_space(space),
        word.len() > 0,
        forall|i: int| 0 <= i < word.len() ==> !is_space(#[trigger] word[i]),
    ensures
        words_of(Seq::empty()).len() == 0,
        words_of(word) == seq![word],
        words_of(s.push(space)) == words_of(s),
        words_of(s + seq![space] + word) == words_of(s).push(word),
{
    let at = blank();
    let none = Seq::<char>::empty();
    assert forall|i: int| 0 <= i < word.len() implies !at(#[trigger] word[i]) by {
        assert(!is_space(word[i]));
    }
    let empty = Seq::<Seq<char>>::empty();
    assert(nonempty(empty) == empty) by {
        reveal(Seq::filter);
    }
    lemma_nonempty_push(empty, none);
    assert(seq![none] == empty.push(none));
    lemma_first_piece_grows(at, word);
    lemma_nonempty_push(empty, word);
    assert(seq![word] == empty.push(word));
    assert(s.push(space).drop_last() == s);
    lemma_nonempty_push(pieces(s, at), none);
    lemma_piece_grows(s, at, space, word);
    lemma_nonempty_push(pieces(s, at), word);
}

/// Lines written one below the other read back as those lines, whether or not
/// the last is ended.
pub proof fn lines_read_back(s: Seq<char>, line: Seq<char>)
    requires
        s.len() == 0 || s.last() == '\n',
        !line.contains('\n'),
        line.len() > 0,
        line.last() != '\r',
    ensures
        lines_of(Seq::empty()).len() == 0,
        lines_of(s + line) == lines_of(s).push(line),
        lines_of(s + line + seq!['\n']) == lines_of(s).push(line),
        lines_of(s + line + seq!['\r', '\n']) == lines_of(s).push(line),
{
    let at = only('\n');
    let none = Seq::<char>::empty();
    assert forall|i: int| 0 <= i < line.len() implies !at(#[trigger] line[i]) by {
        assert(line.contains(line[i]));
    }
    let returned = line.push('\r');
    assert forall|i: int| 0 <= i < returned.len() implies !at(#[trigger] returned[i]) by {
        if i < line.len() {
            assert(line.contains(line[i]));
        }
    }
    assert(pieces(none, at) == seq![none]);
    let before = if s.len() == 0 {
        Seq::<Seq<char>>::empty()
    } else {
        pieces(s.drop_last(), at)
    };
    if s.len() == 0 {
        assert(s == none);
        lemma_first_piece_grows(at, line);
        lemma_first_piece_grows(at, returned);
        assert(s + line == line);
        assert(s + returned == returned);
        assert(seq![line] == before.push(line));
        assert(seq![returned] == before.push(returned));
        assert(seq![none] == before.push(none));
    } else {
        let t = s.drop_last();
        assert(s == t + seq!['\n'] + none);
        lemma_piece_grows(t, at, '\n', none);
        lemma_piece_grows(t, at, '\n', line);
        lemma_piece_grows(t, at, '\n', returned);
        assert(s + line == t + seq!['\n'] + line);
        assert(s + returned == t + seq!['\n'] + returned);
    }
    assert(pieces(s, at) == before.push(none));
    assert(pieces(s + line, at) == before.push(line));
    assert(pieces(s + returned, at) == before.push(returned));
    let ended = Seq::new(before.len(), |i: int| without_return(before[i]));
    assert(lines_of(s) == ended) by {
        assert(Seq::new((before.push(none).len() - 1) as nat, |i: int|
            without_return(before.push(none)[i])) == ended);
    }
    assert(lines_of(s + line) == ended.push(line)) by {
        assert(Seq::new((before.push(line).len() - 1) as nat, |i: int|
            without_return(before.push(line)[i])) == ended);
    }
    let a = s + line + seq!['\n'];
    assert(a == (s + line).push('\n'));
    assert(a.drop_last() == s + line);
    let whole = before.push(line).push(none);
    assert(pieces(a, at) == whole);
    assert(lines_of(a) == ended.push(line)) by {
        assert(Seq::new((whole.len() - 1) as nat, |i: int| without_return(whole[i]))
            == ended.push(line));
    }
    let b = s + line + seq!['\r', '\n'];
    assert(b == (s + returned).push('\n'));
    assert(b.drop_last() == s + returned);
    let other = before.push(returned).push(none);
    assert(pieces(b, at) == other);
    assert(returned.drop_last() == line);
    assert(lines_of(b) == ended.push(line)) by {
        assert(Seq::new((other.len() - 1) as nat, |i: int| without_return(other[i]))
            == ended.push(line));
    }
    assert(lines_of(none).len() == 0);
}

/// The first occurrence of a character is the first, and the last the last.
pub proof fn first_and_last_are_so(s: Seq<char>, c: char)
    ensures
        match first_of(s, c) {
            Some(at) => 0 <= at < s.len() && s[at] == c && forall|i: int|
                0 <= i < at ==> #[trigger] s[i] != c,
            None => !s.contains(c),
        },
        match last_of(s, c) {
            Some(at) => 0 <= at < s.len() && s[at] == c && forall|i: int|
                at < i < s.len() ==> #[trigger] s[i] != c,
            None => !s.contains(c),
        },
{
    lemma_first_is_first(s, c);
    lemma_last_is_last(s, c);
}

proof fn lemma_first_is_first(s: Seq<char>, c: char)
    ensures
        match first_of(s, c) {
            Some(at) => 0 <= at < s.len() && s[at] == c && forall|i: int|
                0 <= i < at ==> #[trigger] s[i] != c,
            None => !s.contains(c),
        },
    decreases s.len(),
{
    if s.len() > 0 && s[0] != c {
        let rest = s.drop_first();
        lemma_first_is_first(rest, c);
        assert(forall|i: int| 0 < i < s.len() ==> #[trigger] s[i] == rest[i - 1]);
        if first_of(rest, c) is None && s.contains(c) {
            let k = choose|k: int| 0 <= k < s.len() && s[k] == c;
            assert(rest[k - 1] == c);
        }
    }
}

proof fn lemma_last_is_last(s: Seq<char>, c: char)
    ensures
        match last_of(s, c) {
            Some(at) => 0 <= at < s.len() && s[at] == c && forall|i: int|
                at < i < s.len() ==> #[trigger] s[i] != c,
            None => !s.contains(c),
        },
    decreases s.len(),
{
    if s.len() > 0 && s.last() != c {
        let rest = s.drop_last();
        lemma_last_is_last(rest, c);
        assert(forall|i: int| 0 <= i < rest.len() ==> rest[i] == #[trigger] s[i]);
        if last_of(rest, c) is None && s.contains(c) {
            let k = choose|k: int| 0 <= k < s.len() && s[k] == c;
            assert(rest[k] == c);
        }
    }
}

/// A text is found where it first stands, and wherever it stands at all.
pub proof fn found_where_it_first_stands(s: Seq<char>, part: Seq<char>)
    ensures
        match found_at(s, part) {
            Some(at) => occurs_at(s, part, at) && forall|i: int|
                0 <= i < at ==> !#[trigger] occurs_at(s, part, i),
            None => !occurs_in(s, part),
        },
{
    lemma_found_from(s, part, 0);
    if found_at(s, part) is None && occurs_in(s, part) {
        let at = choose|at: int| occurs_at(s, part, at);
        assert(!occurs_at(s, part, at));
    }
}

proof fn lemma_found_from(s: Seq<char>, part: Seq<char>, from: int)
    requires
        0 <= from,
    ensures
        match found_from(s, part, from) {
            Some(at) => from <= at && occurs_at(s, part, at) && forall|i: int|
                from <= i < at ==> !#[trigger] occurs_at(s, part, i),
            None => forall|i: int| from <= i ==> !#[trigger] occurs_at(s, part, i),
        },
    decreases s.len() + 1 - from,
{
    if from + part.len() <= s.len() && !occurs_at(s, part, from) {
        lemma_found_from(s, part, from + 1);
    }
}

/// A padded text is as wide as asked or as it was, with the text at its proper
/// end and nothing but blanks at the other.
pub proof fn padding_keeps_the_text(s: Seq<char>, width: nat)
    ensures
        padded_right(s, width).len() == (if s.len() < width {
            width
        } else {
            s.len()
        }),
        padded_left(s, width).len() == padded_right(s, width).len(),
        has_prefix(padded_right(s, width), s),
        has_suffix(padded_left(s, width), s),
        forall|i: int|
            s.len() <= i < padded_right(s, width).len() ==> #[trigger] padded_right(s, width)[i]
                == ' ',
        forall|i: int|
            0 <= i < padded_left(s, width).len() - s.len() ==> #[trigger] padded_left(s, width)[i]
                == ' ',
{
    let r = padded_right(s, width);
    let l = padded_left(s, width);
    assert(r.take(s.len() as int) == s);
    assert(l.skip(l.len() - s.len()) == s);
}

/// Numbers that differ are written differently, and without a leading nought.
pub proof fn numbers_are_written_apart(a: nat, b: nat)
    ensures
        dec(a) == dec(b) <==> a == b,
        hex(a) == hex(b) <==> a == b,
        a > 0 ==> dec(a)[0] != '0',
        dec(0) == seq!['0'],
{
    lemma_dec_reads_back(a);
    lemma_dec_reads_back(b);
    lemma_hex_reads_back(a);
    lemma_hex_reads_back(b);
    lemma_no_leading_nought(a);
}

proof fn lemma_no_leading_nought(n: nat)
    ensures
        n > 0 ==> dec(n)[0] != '0',
        dec(n).len() > 0,
    decreases n,
{
    if n >= 10 {
        lemma_no_leading_nought(n / 10);
        assert(dec(n)[0] == dec(n / 10)[0]);
    }
}

/// Only digits make a number, with at most a plus before them, and a number is
/// never more than it may be.
pub proof fn only_digits_make_a_number(s: Seq<char>, max: int)
    ensures
        number(s, 10, max) matches Some(n) ==> 0 <= n <= max && s.len() > 0 && forall|i: int|
            0 <= i < s.len() ==> '0' <= #[trigger] s[i] <= '9' || (i == 0 && s[i] == '+'),
        number(Seq::empty(), 10, max) is None,
{
    lemma_number_is_not_negative(s, 10, max);
    lemma_digits_are_digits(s);
    lemma_digits_are_digits(s.drop_first());
    if number(s, 10, max) is Some && s[0] == '+' {
        let rest = s.drop_first();
        assert(forall|i: int| 0 < i < s.len() ==> #[trigger] s[i] == rest[i - 1]);
    }
}

proof fn lemma_digits_are_digits(s: Seq<char>)
    ensures
        digits_value(s, 10) is Some ==> all_digits(s),
    decreases s.len(),
{
    if s.len() > 0 && digits_value(s, 10) is Some {
        lemma_digits_are_digits(s.drop_last());
        assert forall|i: int| 0 <= i < s.len() implies '0' <= #[trigger] s[i] <= '9' by {
            if i < s.len() - 1 {
                assert(s[i] == s.drop_last()[i]);
            }
        }
    }
}

/// Only the capital letters change their case, each to its own small letter.
pub proof fn only_capitals_are_lowered(a: char, b: char, s: Seq<char>)
    ensures
        lower(a) != a <==> 'A' <= a <= 'Z',
        'A' <= a <= 'Z' ==> 'a' <= lower(a) <= 'z' && lower(a) as int - 'a' as int == a as int
            - 'A' as int,
        lowered(lowered(s)) == lowered(s),
        lowered(s).len() == s.len(),
{
    assert(lowered(lowered(s)) == lowered(s));
}

/// A joined list of one is that one, and each further one comes behind a
/// separator.
pub proof fn joining_puts_separators_between(v: Seq<Seq<char>>, sep: Seq<char>, w: Seq<char>)
    ensures
        joined(Seq::empty(), sep).len() == 0,
        joined(seq![w], sep) == w,
        v.len() > 0 ==> joined(v.push(w), sep) == joined(v, sep) + sep + w,
{
    assert(v.push(w).drop_last() == v);
}

/// What is stripped off an end is only what was to be, and all of it.
pub proof fn stripping_takes_all_of_it(s: Seq<char>, c: char, n: nat)
    requires
        s.len() == 0 || s.last() != c,
    ensures
        stripped_end(s + repeated(c, n), c) == s,
    decreases n,
{
    let all = s + repeated(c, n);
    if n == 0 {
        assert(all == s);
    } else {
        stripping_takes_all_of_it(s, c, (n - 1) as nat);
        assert(all.drop_last() == s + repeated(c, (n - 1) as nat));
        assert(all.last() == c);
    }
}

proof fn lemma_digits_side_by_side(a: Seq<char>, b: Seq<char>)
    requires
        all_digits(a),
        all_digits(b),
    ensures
        digits_value(a + b, 10) == Some(
            digits_value(a, 10)->0 * tens(b.len()) + digits_value(b, 10)->0,
        ),
    decreases b.len(),
{
    lemma_digits_count(a);
    lemma_digits_count(b);
    let n = digits_value(a, 10)->0;
    if b.len() == 0 {
        assert(a + b == a);
        assert(n * tens(0) == n);
        assert(digits_value(b, 10) == Some(0int));
    } else {
        let rest = b.drop_last();
        let t = tens(rest.len());
        assert(all_digits(rest));
        lemma_digits_count(rest);
        lemma_digits_side_by_side(a, rest);
        assert((a + b).drop_last() == a + rest);
        assert((a + b).last() == b.last());
        assert('0' <= b.last() <= '9');
        let m = digits_value(rest, 10)->0;
        assert((n * t + m) * 10 == n * (10 * t) + m * 10) by (nonlinear_arith);
    }
}

/// A decimal number reads back in millionths: with six places behind its point,
/// with none at all, and with a minus before it.
pub proof fn decimals_read_back_in_millionths(whole: nat, part: Seq<char>, millionths: nat)
    requires
        part.len() == 6,
        all_digits(part),
        digits_value(part, 10) == Some(millionths as int),
        whole * 1_000_000 + millionths <= i64::MAX,
    ensures
        micros_in(dec(whole) + seq!['.'] + part) == Some((whole * 1_000_000 + millionths) as int),
        micros_in(seq!['-'] + (dec(whole) + seq!['.'] + part)) == Some(
            -(whole * 1_000_000 + millionths),
        ),
        micros_in(dec(whole)) == Some((whole * 1_000_000) as int),
{
    let w = dec(whole);
    lemma_dec_reads_back(whole);
    reveal_with_fuel(tens, 8);
    lemma_digits_side_by_side(w, part);
    lemma_zeros_behind(w, 6);
    let s = w + seq!['.'] + part;
    let n = seq!['-'] + s;
    assert forall|i: int| 0 <= i < s.len() implies ('0' <= #[trigger] s[i] <= '9' || (i == w.len()
        && s[i] == '.')) by {
        if i < w.len() {
            assert(s[i] == w[i]);
        } else if i > w.len() {
            assert(s[i] == part[i - w.len() - 1]);
        }
    }
    assert(lowered(s) == s);
    assert(lowered(n) == n);
    assert(lowered(w) == w);
    assert(n.drop_first() == s);
    assert('0' <= s[0] <= '9');
    assert('0' <= w[0] <= '9');
    lemma_no_character(s, 'e');
    lemma_no_character(w, 'e');
    lemma_no_character(w, '.');
    lemma_first_of(s, '.', w.len() as int);
    assert(s.take(w.len() as int) == w);
    assert(s.skip(w.len() as int + 1) == part);
    let digits = w + part;
    assert(point_moved(digits, 0) == digits);
    let none = Seq::<char>::empty();
    assert(w + none == w);
    assert(digits_value(digits, 10) == Some((whole * 1_000_000 + millionths) as int));
    assert(written(s) == Some(Written { negative: false, digits, shift: -6 }));
    assert(written(n) == Some(Written { negative: true, digits, shift: -6 }));
    assert(written(w) == Some(Written { negative: false, digits: w, shift: 0 }));
}

proof fn lemma_no_character(s: Seq<char>, c: char)
    requires
        forall|i: int| 0 <= i < s.len() ==> #[trigger] s[i] != c,
    ensures
        first_of(s, c) is None,
{
    lemma_first_is_first(s, c);
}

/// A mark is found where it is put, if no part of it and what stands before it
/// makes the mark sooner.
pub proof fn lemma_found_where_put(head: Seq<char>, mark: Seq<char>, rest: Seq<char>)
    requires
        mark.len() > 0,
        !occurs_in(head + mark.drop_last(), mark),
    ensures
        found_at(head + mark + rest, mark) == Some(head.len() as int),
{
    let all = head + mark + rest;
    let at = head.len() as int;
    let n = mark.len() as int;
    found_where_it_first_stands(all, mark);
    assert(all.subrange(at, at + n) == mark);
    assert(occurs_at(all, mark, at));
    assert forall|i: int| 0 <= i < at implies !#[trigger] occurs_at(all, mark, i) by {
        if occurs_at(all, mark, i) {
            let start = head + mark.drop_last();
            assert(start.subrange(i, i + n) == all.subrange(i, i + n));
            assert(occurs_at(start, mark, i));
        }
    }
}

/// A number of whole seconds reads back, whatever stands behind the point, and
/// one below nothing is nothing.
pub proof fn whole_part_reads_back(whole: u64, part: Seq<char>)
    requires
        part.len() > 0,
        all_digits(part),
    ensures
        whole_in(dec(whole as nat)) == Some(whole as int),
        whole_in(dec(whole as nat) + seq!['.'] + part) == Some(whole as int),
        whole_in(seq!['-'] + (dec(whole as nat) + seq!['.'] + part)) == Some(0int),
{
    let w = dec(whole as nat);
    lemma_dec_reads_back(whole as nat);
    let s = w + seq!['.'] + part;
    let n = seq!['-'] + s;
    assert forall|i: int| 0 <= i < s.len() implies ('0' <= #[trigger] s[i] <= '9' || (i == w.len()
        && s[i] == '.')) by {
        if i < w.len() {
            assert(s[i] == w[i]);
        } else if i > w.len() {
            assert(s[i] == part[i - w.len() - 1]);
        }
    }
    assert(lowered(s) == s);
    assert(lowered(n) == n);
    assert(lowered(w) == w);
    assert(n.drop_first() == s);
    assert('0' <= s[0] <= '9');
    assert('0' <= w[0] <= '9');
    lemma_no_character(s, 'e');
    lemma_no_character(w, 'e');
    lemma_no_character(w, '.');
    lemma_first_of(s, '.', w.len() as int);
    assert(s.take(w.len() as int) == w);
    assert(s.skip(w.len() as int + 1) == part);
    let digits = w + part;
    let none = Seq::<char>::empty();
    assert(w + none == w);
    assert(point_moved(w, 0) == w);
    assert(point_moved(digits, -(part.len() as int)) == w);
    assert(written(s) == Some(Written { negative: false, digits, shift: -(part.len() as int) }));
    assert(written(n) == Some(Written { negative: true, digits, shift: -(part.len() as int) }));
    assert(written(w) == Some(Written { negative: false, digits: w, shift: 0 }));
}

/// A beginning is taken off as often as it stands there, and a text that begins
/// otherwise stays as it is.
pub proof fn stripping_takes_every_beginning(prefix: Seq<char>, rest: Seq<char>)
    requires
        prefix.len() > 0,
    ensures
        stripped_start(prefix + rest, prefix) == stripped_start(rest, prefix),
        !has_prefix(rest, prefix) ==> stripped_start(prefix + rest, prefix) == rest,
        !has_prefix(stripped_start(rest, prefix), prefix),
    decreases rest.len(),
{
    let all = prefix + rest;
    assert(all.skip(prefix.len() as int) == rest);
    assert(all.take(prefix.len() as int) == prefix);
    assert(has_prefix(all, prefix));
    if has_prefix(rest, prefix) {
        let left = rest.skip(prefix.len() as int);
        stripping_takes_every_beginning(prefix, left);
    }
}

} // verus!
