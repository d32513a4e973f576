//! The four panes. Each module owns its own state and turns what was read off
//! the box into it; the matching module under [`crate::ui`] draws it.
//!
//! Every reader is written to degrade, never to fail: a missing command, an
//! absent `/sys` entry or an unreadable `/proc` file arrives here as `None` and
//! ends in a pane that says so.

use vstd::prelude::*;

use crate::text::{
    dec, from_utf8_lossy, is_space, lemma_dec_is_no_space, lemma_number_reads_back,
    lemma_trimmed_around, lossy_text, number, parse_u64, trim, trimmed,
};

pub mod classg;
pub mod health;
pub mod radios;
pub mod system;

verus! {

/// A small `/proc` or `/sys` file, trimmed. `None` for one that could not be
/// read.
pub fn read_trimmed(contents: Option<&str>) -> (r: Option<String>)
    ensures
        match (contents, r) {
            (Some(text), Some(t)) => t@ == trimmed(text@),
            (None, None) => true,
            _ => false,
        },
{
    match contents {
        Some(text) => Some(trim(text)),
        None => None,
    }
}

/// The integer that the contents of a file hold, if they hold one.
pub open spec fn integer_in(contents: Option<Seq<char>>) -> Option<int> {
    match contents {
        Some(text) => number(trimmed(text), 10, u64::MAX as int),
        None => None,
    }
}

/// The value of a `/sys` file that holds a single integer.
pub fn read_u64(contents: Option<&str>) -> (r: Option<u64>)
    ensures
        match r {
            Some(n) => contents is Some && integer_in(Some(contents->0@)) == Some(n as int),
            None => contents is None || integer_in(Some(contents->0@)) is None,
        },
{
    match read_trimmed(contents) {
        Some(text) => parse_u64(text.as_str()),
        None => None,
    }
}

/// What a command has to say: its output, trimmed, or `None` if it failed or
/// wrote nothing.
pub fn command_output(success: bool, stdout: &str) -> (r: Option<String>)
    ensures
        match r {
            Some(t) => success && t@ == trimmed(stdout@) && t@.len() > 0,
            None => !success || trimmed(stdout@).len() == 0,
        },
{
    if !success {
        return None;
    }
    let text = trim(stdout);
    if text.as_str().is_empty() {
        None
    } else {
        Some(text)
    }
}

/// What a command has to say, from the bytes that it wrote. What is not UTF-8
/// in them is replaced.
pub fn command_bytes(success: bool, stdout: &[u8]) -> (r: Option<String>)
    ensures
        match r {
            Some(t) => success && t@ == trimmed(lossy_text(stdout@)) && t@.len() > 0,
            None => !success || trimmed(lossy_text(stdout@)).len() == 0,
        },
{
    command_output(success, from_utf8_lossy(stdout).as_str())
}

/// The number that up to eight bytes hold, least significant first.
pub open spec fn little_endian(bytes: Seq<u8>) -> nat
    decreases bytes.len(),
{
    if bytes.len() == 0 {
        0
    } else {
        bytes[0] as nat + 256 * little_endian(bytes.drop_first())
    }
}

/// Whether a page of `n` bytes is believable: a power of two between a
/// kilobyte and a megabyte.
pub open spec fn plausible_page(n: nat) -> bool {
    n == 0x400 || n == 0x800 || n == 0x1000 || n == 0x2000 || n == 0x4000 || n == 0x8000 || n
        == 0x10000 || n == 0x20000 || n == 0x40000 || n == 0x80000 || n == 0x100000
}

/// The page size in the auxiliary vector: pairs of words, a key and a value,
/// up to the key zero. The first pair with key six and a believable value has
/// it; without one it is taken to be 4096.
pub open spec fn page_in(auxv: Seq<u8>, word: nat) -> nat
    decreases auxv.len(),
{
    if word == 0 || auxv.len() < 2 * word {
        4096
    } else {
        let key = little_endian(auxv.take(word as int));
        let value = little_endian(auxv.subrange(word as int, 2 * word as int));
        if key == 6 && plausible_page(value) {
            value
        } else if key == 0 {
            4096
        } else {
            page_in(auxv.skip(2 * word as int), word)
        }
    }
}

fn word_at(bytes: &[u8], at: usize, word: usize) -> (r: u64)
    requires
        at + word <= bytes@.len(),
        word <= 8,
    ensures
        r == little_endian(bytes@.subrange(at as int, at + word)),
        word == 0 ==> r == 0,
        word == 1 ==> r <= 0xff,
        word == 2 ==> r <= 0xffff,
        word == 3 ==> r <= 0xff_ffff,
        word == 4 ==> r <= 0xffff_ffff,
        word == 5 ==> r <= 0xff_ffff_ffff,
        word == 6 ==> r <= 0xffff_ffff_ffff,
        word == 7 ==> r <= 0xff_ffff_ffff_ffff,
    decreases word,
{
    if word == 0 {
        0
    } else {
        assert(at < bytes.len());
        let rest: u64 = word_at(bytes, at + 1, word - 1);
        assert(bytes@.subrange(at as int, at + word).drop_first() == bytes@.subrange(
            at + 1,
            at + 1 + (word - 1),
        ));
        bytes[at] as u64 + 256 * rest
    }
}

/// The kernel's page size, from the contents of `/proc/self/auxv` on a machine
/// of `word` byte words, least significant byte first.
///
/// Read rather than assumed: arm64 kernels come in several page sizes, and a
/// constant would report memory wrong by a factor on the others.
pub fn page_size(auxv: &[u8], word: usize) -> (r: u64)
    requires
        word <= 8,
    ensures
        r == page_in(auxv@, word as nat),
        plausible_page(r as nat),
{
    if word == 0 {
        return 4096;
    }
    let n: usize = auxv.len();
    let mut at: usize = 0;
    assert(auxv@.skip(0) == auxv@);
    while n - at >= 2 * word
        invariant
            at <= n == auxv@.len(),
            0 < word <= 8,
            page_in(auxv@, word as nat) == page_in(auxv@.skip(at as int), word as nat),
        decreases n - at,
    {
        let ghost rest = auxv@.skip(at as int);
        proof {
            assert(rest.take(word as int) == auxv@.subrange(at as int, at + word));
            assert(rest.subrange(word as int, 2 * word as int) == auxv@.subrange(
                at + word,
                at + word + word,
            ));
            assert(rest.skip(2 * word as int) == auxv@.skip(at + 2 * word));
        }
        let key: u64 = word_at(auxv, at, word);
        if key == 6 {
            let v: u64 = word_at(auxv, at + word, word);
            if v == 0x400 || v == 0x800 || v == 0x1000 || v == 0x2000 || v == 0x4000 || v == 0x8000
                || v == 0x10000 || v == 0x20000 || v == 0x40000 || v == 0x80000 || v == 0x100000 {
                return v;
            }
        }
        if key == 0 {
            return 4096;
        }
        at = at + 2 * word;
    }
    4096
}

/// A file that holds one number reads back as it, whatever the white space round
/// it.
pub proof fn files_of_one_number_read_back(n: u64, lead: Seq<char>, trail: Seq<char>)
    requires
        forall|i: int| 0 <= i < lead.len() ==> is_space(#[trigger] lead[i]),
        forall|i: int| 0 <= i < trail.len() ==> is_space(#[trigger] trail[i]),
    ensures
        integer_in(Some(lead + dec(n as nat) + trail)) == Some(n as int),
        integer_in(None) is None,
{
    lemma_dec_is_no_space(n as nat);
    lemma_trimmed_around(lead, dec(n as nat), trail);
    lemma_number_reads_back(n as nat, u64::MAX as int);
}

/// The size of a page is the first that the kernel gives under its own key and
/// that can be one; other entries are passed over, and where the list ends
/// without it a page is four kilobytes.
pub proof fn page_size_is_the_kernels(
    key: Seq<u8>,
    value: Seq<u8>,
    rest: Seq<u8>,
    word: nat,
)
    requires
        word > 0,
        key.len() == word,
        value.len() == word,
    ensures
        little_endian(key) == 6 && plausible_page(little_endian(value)) ==> page_in(
            key + value + rest,
            word,
        ) == little_endian(value),
        little_endian(key) == 0 ==> page_in(key + value + rest, word) == 4096,
        little_endian(key) != 0 && (little_endian(key) != 6 || !plausible_page(
            little_endian(value),
        )) ==> page_in(key + value + rest, word) == page_in(rest, word),
        page_in(Seq::empty(), word) == 4096,
{
    let all = key + value + rest;
    assert(all.take(word as int) == key);
    assert(all.subrange(word as int, 2 * word as int) == value);
    assert(all.skip(2 * word as int) == rest);
}

/// A page is a power of two from one kilobyte to a megabyte.
pub proof fn pages_are_powers_of_two(n: nat)
    ensures
        plausible_page(n) ==> 1024 <= n <= 0x10_0000 && n % 1024 == 0,
        plausible_page(1024),
        plausible_page(4096),
        plausible_page(16384),
        plausible_page(65536),
        plausible_page(n) && n < 0x10_0000 ==> plausible_page(2 * n),
        plausible_page(n) && n > 1024 ==> plausible_page(n / 2),
{
}

} // verus!
