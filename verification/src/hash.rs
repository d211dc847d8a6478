//! Names of shard directories: the first sixteen hexadecimal digits of a SHA-256 digest.

use sha2::Digest;
use vstd::prelude::*;

verus! {

/// The SHA-256 digest of `data`.
pub uninterp spec fn sha256_digest(data: Seq<u8>) -> Seq<u8>;

/// Calls `sha2::Sha256::digest`.
///
/// The contract claims that the digest depends on the bytes alone and that it is 32 bytes long.
#[verifier::external_body]
fn sha256(data: &[u8]) -> (r: Vec<u8>)
    ensures
        r@ == sha256_digest(data@),
        r@.len() == 32,
{
    sha2::Sha256::digest(data).to_vec()
}

/// The lower-case hexadecimal digit for `n`.
pub open spec fn hex_digit(n: int) -> char {
    if n < 10 {
        ('0' as int + n) as char
    } else {
        ('a' as int + (n - 10)) as char
    }
}

/// The sixteen hexadecimal digits of the first eight bytes of `digest`, high half first.
pub open spec fn hex16(digest: Seq<u8>) -> Seq<char> {
    Seq::new(
        16,
        |i: int|
            hex_digit(
                if i % 2 == 0 {
                    digest[i / 2] as int / 16
                } else {
                    digest[i / 2] as int % 16
                },
            ),
    )
}

/// The directory name for `data`.
pub open spec fn shard_of(data: Seq<u8>) -> Seq<char> {
    hex16(sha256_digest(data))
}

fn hex_str(n: u8) -> (r: &'static str)
    requires
        n < 16,
    ensures
        r@ == seq![hex_digit(n as int)],
{
    proof {
        reveal_strlit("0");
        reveal_strlit("1");
        reveal_strlit("2");
        reveal_strlit("3");
        reveal_strlit("4");
        reveal_strlit("5");
        reveal_strlit("6");
        reveal_strlit("7");
        reveal_strlit("8");
        reveal_strlit("9");
        reveal_strlit("a");
        reveal_strlit("b");
        reveal_strlit("c");
        reveal_strlit("d");
        reveal_strlit("e");
        reveal_strlit("f");
    }
    let r: &'static str = match n {
        0 => "0",
        1 => "1",
        2 => "2",
        3 => "3",
        4 => "4",
        5 => "5",
        6 => "6",
        7 => "7",
        8 => "8",
        9 => "9",
        10 => "a",
        11 => "b",
        12 => "c",
        13 => "d",
        14 => "e",
        _ => "f",
    };
    assert(r@ =~= seq![hex_digit(n as int)]);
    r
}

/// The directory name for `data`.
pub fn shard_name(data: &[u8]) -> (r: String)
    ensures
        r@ == shard_of(data@),
{
    let digest: Vec<u8> = sha256(data);
    let mut out: String = String::new();
    let mut i: usize = 0;
    while i < 8
        invariant
            i <= 8,
            digest@ == sha256_digest(data@),
            digest@.len() == 32,
            out@ == hex16(digest@).subrange(0, 2 * i as int),
        decreases 8 - i,
    {
        let b: u8 = digest[i];
        out.append(hex_str(b / 16));
        out.append(hex_str(b % 16));
        assert(out@ =~= hex16(digest@).subrange(0, 2 * (i + 1) as int));
        i = i + 1;
    }
    assert(out@ =~= hex16(digest@));
    out
}

} // verus!
