//! What holds of the names that are made of digests.

use vstd::prelude::*;

verus! {

proof fn lemma_digit(a: int, b: int)
    requires
        0 <= a < 16,
        0 <= b < 16,
    ensures
        crate::hash::hex_digit(a) == crate::hash::hex_digit(b) <==> a == b,
        '0' <= crate::hash::hex_digit(a) <= '9' || 'a' <= crate::hash::hex_digit(a) <= 'f',
{
}

/// The number that a digit stands for.
pub open spec fn hex_value(c: char) -> int {
    if '0' <= c <= '9' {
        c as int - '0' as int
    } else {
        c as int - 'a' as int + 10
    }
}

/// Two characters of a name stand for one byte of the digest, the greater part of it first.
pub proof fn two_characters_stand_for_a_byte(digest: Seq<u8>, i: int)
    requires
        0 <= i < 8,
    ensures
        ({
            let name = crate::hash::hex16(digest);
            hex_value(name[2 * i]) * 16 + hex_value(name[2 * i + 1]) == digest[i]
        }),
{
    let name = crate::hash::hex16(digest);
    let n = digest[i] as int;
    assert(name[2 * i] == crate::hash::hex_digit(n / 16));
    assert(name[2 * i + 1] == crate::hash::hex_digit(n % 16));
    lemma_digit(n / 16, n / 16);
    lemma_digit(n % 16, n % 16);
}

/// A name that is made of a digest is its first eight bytes, two characters each: two digests have one name
/// if and only if they have those bytes in common.
pub proof fn a_name_is_the_first_bytes_of_a_digest(a: Seq<u8>, b: Seq<u8>)
    ensures
        crate::hash::hex16(a).len() == 16,
        forall|i: int|
            0 <= i < 16 ==> '0' <= #[trigger] crate::hash::hex16(a)[i] <= '9' || 'a'
                <= crate::hash::hex16(a)[i] <= 'f',
        crate::hash::hex16(a) == crate::hash::hex16(b) <==> forall|i: int|
            0 <= i < 8 ==> #[trigger] a[i] == b[i],
{
    let x = crate::hash::hex16(a);
    let y = crate::hash::hex16(b);
    assert forall|i: int| 0 <= i < 16 implies '0' <= #[trigger] x[i] <= '9' || 'a' <= x[i] <= 'f' by {
        let n = if i % 2 == 0 {
            a[i / 2] as int / 16
        } else {
            a[i / 2] as int % 16
        };
        lemma_digit(n, n);
    }
    if x == y {
        assert forall|i: int| 0 <= i < 8 implies #[trigger] a[i] == b[i] by {
            assert(x[2 * i] == y[2 * i]);
            assert(x[2 * i + 1] == y[2 * i + 1]);
            lemma_digit(a[i] as int / 16, b[i] as int / 16);
            lemma_digit(a[i] as int % 16, b[i] as int % 16);
        }
    }
    if forall|i: int| 0 <= i < 8 ==> #[trigger] a[i] == b[i] {
        assert forall|i: int| 0 <= i < 16 implies x[i] == y[i] by {
            assert(a[i / 2] == b[i / 2]);
        }
        assert(x =~= y);
    }
}

/// What the name of a cached version is made of tells its path and its version apart from every other:
/// where paths hold no zero byte, two versions have it in common only if they have both in common.
pub proof fn a_cached_version_is_told_apart(
    path: Seq<char>,
    etag: Seq<char>,
    other_path: Seq<char>,
    other_etag: Seq<char>,
)
    requires
        !vstd::utf8::encode_utf8(path).contains(0u8),
        !vstd::utf8::encode_utf8(other_path).contains(0u8),
        crate::cache::key_bytes(path, etag) == crate::cache::key_bytes(other_path, other_etag),
    ensures
        vstd::utf8::encode_utf8(path) == vstd::utf8::encode_utf8(other_path),
        vstd::utf8::encode_utf8(etag) == vstd::utf8::encode_utf8(other_etag),
{
    let p = vstd::utf8::encode_utf8(path);
    let q = vstd::utf8::encode_utf8(other_path);
    let e = vstd::utf8::encode_utf8(etag);
    let f = vstd::utf8::encode_utf8(other_etag);
    let s = crate::cache::key_bytes(path, etag);
    assert(s[p.len() as int] == 0u8);
    assert(s[q.len() as int] == 0u8);
    if p.len() < q.len() {
        assert(q[p.len() as int] == 0u8);
    }
    if q.len() < p.len() {
        assert(p[q.len() as int] == 0u8);
    }
    assert(p =~= s.subrange(0, p.len() as int));
    assert(q =~= s.subrange(0, q.len() as int));
    assert(e =~= s.subrange(p.len() as int + 1, s.len() as int));
    assert(f =~= s.subrange(q.len() as int + 1, s.len() as int));
}

/// A draft lies under a name made of the digest of its whole path, and a cached version under one made of
/// the digest of its path and its version: two have one name if and only if their digests begin alike.
pub proof fn drafts_and_versions_lie_under_their_digests(
    path: Seq<char>,
    other: Seq<char>,
    etag: Seq<char>,
    other_etag: Seq<char>,
)
    ensures
        crate::drafts::path_hash(path).len() == 16,
        crate::drafts::path_hash(path) == crate::drafts::path_hash(other) <==> forall|i: int|
            0 <= i < 8 ==> #[trigger] crate::hash::sha256_digest(vstd::utf8::encode_utf8(path))[i]
                == crate::hash::sha256_digest(vstd::utf8::encode_utf8(other))[i],
        crate::cache::key_hash(path, etag) == crate::cache::key_hash(other, other_etag) <==> forall|i: int|
            0 <= i < 8 ==> #[trigger] crate::hash::sha256_digest(
                crate::cache::key_bytes(path, etag),
            )[i] == crate::hash::sha256_digest(crate::cache::key_bytes(other, other_etag))[i],
{
    a_name_is_the_first_bytes_of_a_digest(
        crate::hash::sha256_digest(vstd::utf8::encode_utf8(path)),
        crate::hash::sha256_digest(vstd::utf8::encode_utf8(other)),
    );
    a_name_is_the_first_bytes_of_a_digest(
        crate::hash::sha256_digest(crate::cache::key_bytes(path, etag)),
        crate::hash::sha256_digest(crate::cache::key_bytes(other, other_etag)),
    );
}

} // verus!
