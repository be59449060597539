//! Turning raw kernel bytes into strings: lossy UTF-8 decoding (no
//! process is dropped for encoding reasons alone) and the NUL-to-space
//! rewriting of `cmdline` files.

use vstd::prelude::*;

verus! {

/// The characters that lossy UTF-8 decoding yields for a byte string:
/// valid sequences decode as themselves, invalid ones become
/// replacement characters.
pub uninterp spec fn lossy_of(bytes: Seq<u8>) -> Seq<char>;

/// Relies on `String::from_utf8_lossy`: the result depends on the bytes
/// alone; an empty input gives an empty string; ASCII bytes decode to
/// themselves.
#[verifier::external_body]
fn lossy_string(bytes: &Vec<u8>) -> (r: String)
    ensures
        r@ == lossy_of(bytes@),
        bytes@.len() == 0 ==> r@.len() == 0,
        (forall|i: int| 0 <= i < bytes@.len() ==> bytes@[i] < 128) ==> r@ == bytes@.map_values(
            |b: u8| b as char,
        ),
{
    String::from_utf8_lossy(bytes).into_owned()
}

/// A copy of `bytes[from..to]`.
pub fn subvec(bytes: &Vec<u8>, from: usize, to: usize) -> (r: Vec<u8>)
    requires
        from <= to <= bytes@.len(),
    ensures
        r@ == bytes@.subrange(from as int, to as int),
{
    let mut r: Vec<u8> = Vec::new();
    let mut i: usize = from;
    while i < to
        invariant
            from <= i <= to <= bytes@.len(),
            r@ == bytes@.subrange(from as int, i as int),
        decreases to - i,
    {
        r.push(bytes[i]);
        proof {
            assert(r@ =~= bytes@.subrange(from as int, i + 1));
        }
        i += 1;
    }
    r
}

/// Decodes `bytes[from..to]` lossily into a string; an all-ASCII range
/// decodes to exactly its bytes.
pub fn lossy_substring(bytes: &Vec<u8>, from: usize, to: usize) -> (r: String)
    requires
        from <= to <= bytes@.len(),
    ensures
        r@ == lossy_of(bytes@.subrange(from as int, to as int)),
        (forall|i: int| from <= i < to ==> bytes@[i] < 128) ==> r@ == bytes@.subrange(
            from as int,
            to as int,
        ).map_values(|b: u8| b as char),
{
    let part = subvec(bytes, from, to);
    lossy_string(&part)
}

/// Every NUL byte replaced by an ASCII space.
pub open spec fn nul_to_space(bytes: Seq<u8>) -> Seq<u8> {
    bytes.map_values(|b: u8| if b == 0 { 32u8 } else { b })
}

/// The string without its trailing spaces.
pub open spec fn trim_trailing_spaces(s: Seq<char>) -> Seq<char>
    decreases s.len(),
{
    if s.len() > 0 && s.last() == ' ' {
        trim_trailing_spaces(s.drop_last())
    } else {
        s
    }
}

/// What a raw `cmdline` file displays as: NUL separators become single
/// spaces, the bytes are decoded lossily, and trailing spaces go.
pub open spec fn cmdline_view(bytes: Seq<u8>) -> Seq<char> {
    trim_trailing_spaces(lossy_of(nul_to_space(bytes)))
}

/// If everything from `k` on is a space and the character before `k` is
/// not, trimming cuts exactly at `k`.
proof fn lemma_trim_at(s: Seq<char>, k: int)
    requires
        0 <= k <= s.len(),
        forall|j: int| k <= j < s.len() ==> s[j] == ' ',
        k > 0 ==> s[k - 1] != ' ',
    ensures
        trim_trailing_spaces(s) == s.subrange(0, k),
    decreases s.len(),
{
    if s.len() == k {
        assert(s.subrange(0, k) =~= s);
    } else {
        assert(s.last() == ' ');
        assert(s.drop_last().subrange(0, k) =~= s.subrange(0, k));
        lemma_trim_at(s.drop_last(), k);
    }
}

/// Decodes the raw bytes of a `cmdline` file: the argument vector with
/// its NUL separators shown as single spaces and trailing spaces
/// removed. An empty file yields an empty string.
pub fn cmdline_from_bytes(bytes: &Vec<u8>) -> (r: String)
    ensures
        r@ == cmdline_view(bytes@),
        bytes@.len() == 0 ==> r@.len() == 0,
{
    let mut replaced: Vec<u8> = Vec::new();
    let mut i: usize = 0;
    while i < bytes.len()
        invariant
            i <= bytes@.len(),
            replaced@ == nul_to_space(bytes@.take(i as int)),
        decreases bytes@.len() - i,
    {
        let b: u8 = bytes[i];
        replaced.push(if b == 0 {
            32
        } else {
            b
        });
        proof {
            assert(replaced@ =~= nul_to_space(bytes@.take(i + 1)));
        }
        i += 1;
    }
    proof {
        assert(bytes@.take(bytes@.len() as int) =~= bytes@);
    }
    let decoded = lossy_string(&replaced);
    let n: usize = decoded.as_str().unicode_len();
    let mut k: usize = n;
    while k > 0 && decoded.as_str().get_char(k - 1) == ' '
        invariant
            k <= n,
            n == decoded@.len(),
            forall|j: int| k <= j < n ==> decoded@[j] == ' ',
        decreases k,
    {
        k -= 1;
    }
    let trimmed = decoded.as_str().substring_char(0, k);
    proof {
        lemma_trim_at(decoded@, k as int);
    }
    String::from_str(trimmed)
}

} // verus!
