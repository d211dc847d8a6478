//! What holds of paths and of numbers as text.

use vstd::prelude::*;

verus! {

// ---------------------------------------------------------------------------
// Splitting and joining.
// ---------------------------------------------------------------------------

/// A text that is joined with `c` is split at that `c` again, as long as what follows holds no other.
pub proof fn splitting_undoes_joining(a: Seq<char>, c: char, b: Seq<char>)
    requires
        !b.contains(c),
    ensures
        crate::text::rsplit_once_at(a + seq![c] + b, c) == Some((a, b)),
{
    let s = a + seq![c] + b;
    crate::text::lemma_last_index_of(s, c);
    assert(s[a.len() as int] == c);
    match crate::text::last_index_of(s, c) {
        Some(i) => {
            if i > a.len() {
                assert(s[i] == b[i - a.len() - 1]);
                assert(b.contains(s[i]));
            }
            assert(i == a.len());
            assert(s.subrange(0, i) =~= a);
            assert(s.subrange(i + 1, s.len() as int) =~= b);
        },
        None => {},
    }
}

/// Splitting loses nothing: the parts, joined again, are the text, and the second part is free of the
/// character. A text is not split if and only if it does not hold the character.
pub proof fn joining_undoes_splitting(s: Seq<char>, c: char)
    ensures
        crate::text::rsplit_once_at(s, c) is None <==> !s.contains(c),
        crate::text::rsplit_once_at(s, c) matches Some(parts) ==> s == parts.0 + seq![c] + parts.1
            && !parts.1.contains(c),
{
    crate::text::lemma_last_index_of(s, c);
    match crate::text::last_index_of(s, c) {
        Some(i) => {
            let rest = s.subrange(i + 1, s.len() as int);
            assert(s.contains(s[i]));
            assert(s =~= s.subrange(0, i) + seq![c] + rest);
            if rest.contains(c) {
                let j = choose|j: int| 0 <= j < rest.len() && rest[j] == c;
                assert(s[i + 1 + j] == c);
            }
        },
        None => {
            if s.contains(c) {
                let j = choose|j: int| 0 <= j < s.len() && s[j] == c;
                assert(s[j] != c);
            }
        },
    }
}

/// An entry's path tells its directory and its name: two entries whose names hold no slash have one path
/// only if they have one directory and one name.
pub proof fn a_path_tells_directory_and_name(
    dir: Seq<char>,
    name: Seq<char>,
    other_dir: Seq<char>,
    other_name: Seq<char>,
)
    requires
        !name.contains('/'),
        !other_name.contains('/'),
    ensures
        crate::text::child_path(dir, name) == crate::text::child_path(other_dir, other_name) <==> dir
            == other_dir && name == other_name,
        crate::text::rsplit_once_at(crate::text::child_path(dir, name), '/') == Some((dir, name)),
{
    splitting_undoes_joining(dir, '/', name);
    splitting_undoes_joining(other_dir, '/', other_name);
}

/// A path lies under a directory if and only if it continues the directory's path with a slash: what is
/// in the directory does, at any depth, and neither the directory itself nor what merely starts with its
/// name does.
pub proof fn under_a_directory_lies_what_it_holds(path: Seq<char>, dir: Seq<char>, rest: Seq<char>)
    ensures
        crate::text::is_strictly_under(crate::text::child_path(dir, rest), dir),
        !crate::text::is_strictly_under(dir, dir),
        crate::text::is_strictly_under(dir + rest, dir) <==> rest.len() > 0 && rest[0] == '/',
        crate::text::is_strictly_under(path, dir) ==> path.len() > dir.len() && crate::text::child_path(
            dir,
            path.subrange(dir.len() as int + 1, path.len() as int),
        ) == path,
{
    let at = dir + seq!['/'];
    let child = crate::text::child_path(dir, rest);
    assert(child.subrange(0, at.len() as int) =~= at);
    let joined = dir + rest;
    if rest.len() > 0 && rest[0] == '/' {
        assert(joined.subrange(0, at.len() as int) =~= at);
    }
    if at.is_prefix_of(joined) {
        assert(joined[dir.len() as int] == at[dir.len() as int]);
    }
    if crate::text::is_strictly_under(path, dir) {
        assert(path =~= crate::text::child_path(
            dir,
            path.subrange(dir.len() as int + 1, path.len() as int),
        ));
    }
}

/// What lies under a directory that lies under another lies under that one too.
pub proof fn lying_under_passes_on(path: Seq<char>, dir: Seq<char>, above: Seq<char>)
    requires
        crate::text::is_strictly_under(path, dir),
        crate::text::is_strictly_under(dir, above),
    ensures
        crate::text::is_strictly_under(path, above),
{
    let at = above + seq!['/'];
    assert(path.subrange(0, at.len() as int) =~= at) by {
        assert forall|i: int| 0 <= i < at.len() implies path[i] == at[i] by {
            assert((dir + seq!['/'])[i] == dir[i]);
            assert(dir[i] == at[i]);
        }
    }
}

// ---------------------------------------------------------------------------
// Numbers.
// ---------------------------------------------------------------------------

proof fn lemma_digit(n: nat)
    requires
        n < 10,
    ensures
        '0' <= crate::text::digit(n) <= '9',
        (crate::text::digit(n) as nat) - ('0' as nat) == n,
{
}

/// A number that is written down reads back as that number, without a sign as with one: all its characters
/// are digits, and the first is no zero unless the number is.
pub proof fn a_number_reads_back(n: nat)
    ensures
        crate::scan::is_digits(crate::text::dec(n)),
        crate::scan::digits_value(crate::text::dec(n)) == n,
        crate::text::dec(n)[0] == '0' <==> n == 0,
        crate::scan::number(crate::text::dec(n), false) == Some(n as int),
        crate::scan::number(crate::text::dec(n), true) == Some(n as int),
        crate::scan::number(seq!['-'] + crate::text::dec(n), true) == Some(-(n as int)),
        crate::scan::number(seq!['-'] + crate::text::dec(n), false) is None,
        crate::scan::number(seq!['+'] + crate::text::dec(n), true) == Some(n as int),
        crate::scan::number(seq!['+'] + crate::text::dec(n), false) == Some(n as int),
    decreases n,
{
    let s = crate::text::dec(n);
    if n < 10 {
        lemma_digit(n);
        assert(s.drop_last() =~= Seq::<char>::empty());
        assert(s[0] == crate::text::digit(n));
        assert(crate::scan::digits_value(s.drop_last()) == 0);
        assert(s.last() == crate::text::digit(n));
    } else {
        a_number_reads_back(n / 10);
        let t = crate::text::dec(n / 10);
        lemma_digit(n % 10);
        assert(s.drop_last() =~= t);
        assert(s.last() == crate::text::digit(n % 10));
        assert(s[0] == t[0]);
        assert forall|i: int| 0 <= i < s.len() implies '0' <= #[trigger] s[i] <= '9' by {
            if i < t.len() {
                assert(s[i] == t[i]);
            }
        }
    }
    let minus = seq!['-'] + s;
    let plus = seq!['+'] + s;
    assert(minus.subrange(1, minus.len() as int) =~= s);
    assert(plus.subrange(1, plus.len() as int) =~= s);
    assert(minus[0] == '-');
    assert(plus[0] == '+');
    assert(s[0] != '+' && s[0] != '-');
}

} // verus!
