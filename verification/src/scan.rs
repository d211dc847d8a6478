//! Cutting texts up: lines, words, what stands around a separator, and numbers.

use vstd::prelude::*;

use crate::text::to_chars;

verus! {

// ---------------------------------------------------------------------------
// Finding.
// ---------------------------------------------------------------------------

/// Whether `p` stands in `s` at position `i`.
pub open spec fn occurs_at(s: Seq<char>, p: Seq<char>, i: int) -> bool {
    0 <= i && i + p.len() <= s.len() && s.subrange(i, i + p.len()) == p
}

/// Whether `p` stands anywhere in `s`.
pub open spec fn holds(s: Seq<char>, p: Seq<char>) -> bool {
    exists|i: int| occurs_at(s, p, i)
}

/// The first position from `i` on at which `p` stands in `s`.
pub open spec fn find_from(s: Seq<char>, p: Seq<char>, i: int) -> Option<int>
    decreases s.len() - p.len() - i + 1,
{
    if i + p.len() > s.len() {
        None
    } else if occurs_at(s, p, i) {
        Some(i)
    } else {
        find_from(s, p, i + 1)
    }
}

/// The last position up to `i` at which `p` stands in `s`.
pub open spec fn rfind_to(s: Seq<char>, p: Seq<char>, i: int) -> Option<int>
    decreases i + 1,
{
    if i < 0 {
        None
    } else if occurs_at(s, p, i) {
        Some(i)
    } else {
        rfind_to(s, p, i - 1)
    }
}

/// What stands before and after the first occurrence of `p`.
pub open spec fn split_once_at(s: Seq<char>, p: Seq<char>) -> Option<(Seq<char>, Seq<char>)> {
    match find_from(s, p, 0) {
        Some(i) => Some((s.subrange(0, i), s.subrange(i + p.len(), s.len() as int))),
        None => None,
    }
}

/// What stands before and after the last occurrence of `p`.
pub open spec fn rsplit_once_at(s: Seq<char>, p: Seq<char>) -> Option<(Seq<char>, Seq<char>)> {
    match rfind_to(s, p, s.len() - p.len()) {
        Some(i) => Some((s.subrange(0, i), s.subrange(i + p.len(), s.len() as int))),
        None => None,
    }
}

proof fn lemma_find_from(s: Seq<char>, p: Seq<char>, i: int)
    requires
        0 <= i,
    ensures
        find_from(s, p, i) matches Some(k) ==> i <= k && occurs_at(s, p, k),
        find_from(s, p, i) is None ==> forall|k: int| i <= k ==> !#[trigger] occurs_at(s, p, k),
    decreases s.len() - p.len() - i + 1,
{
    if i + p.len() <= s.len() && !occurs_at(s, p, i) {
        lemma_find_from(s, p, i + 1);
    }
}

proof fn lemma_rfind_to(s: Seq<char>, p: Seq<char>, i: int)
    ensures
        rfind_to(s, p, i) matches Some(k) ==> 0 <= k <= i && occurs_at(s, p, k),
    decreases i + 1,
{
    if i >= 0 && !occurs_at(s, p, i) {
        lemma_rfind_to(s, p, i - 1);
    }
}

fn stands_at(s: &Vec<char>, p: &Vec<char>, i: usize) -> (r: bool)
    requires
        i + p@.len() <= s@.len(),
    ensures
        r == occurs_at(s@, p@, i as int),
{
    let ghost there = s@.subrange(i as int, i + p@.len());
    let n: usize = s.len();
    let mut j: usize = 0;
    while j < p.len()
        invariant
            j <= p@.len(),
            n == s@.len(),
            i + p@.len() <= n,
            there == s@.subrange(i as int, i + p@.len()),
            forall|k: int| 0 <= k < j ==> there[k] == p@[k],
        decreases p@.len() - j,
    {
        if s[i + j] != p[j] {
            assert(there[j as int] != p@[j as int]);
            return false;
        }
        j = j + 1;
    }
    assert(there =~= p@);
    true
}

/// Whether `p` stands anywhere in `s`.
pub fn contains(s: &str, p: &str) -> (r: bool)
    ensures
        r == holds(s@, p@),
{
    proof {
        lemma_find_from(s@, p@, 0);
    }
    match find(s, p) {
        Some(i) => {
            assert(occurs_at(s@, p@, i as int));
            true
        },
        None => {
            assert forall|i: int| !occurs_at(s@, p@, i) by {
                if i >= 0 {
                    assert(!occurs_at(s@, p@, i));
                }
            }
            false
        },
    }
}

/// The first position at which `p` stands in `s`.
pub fn find(s: &str, p: &str) -> (r: Option<usize>)
    ensures
        match r {
            Some(i) => find_from(s@, p@, 0) == Some(i as int),
            None => find_from(s@, p@, 0) is None,
        },
{
    let a: Vec<char> = to_chars(s);
    let b: Vec<char> = to_chars(p);
    if b.len() > a.len() {
        return None;
    }
    let last: usize = a.len() - b.len();
    let mut i: usize = 0;
    loop
        invariant
            a@ == s@,
            b@ == p@,
            b@.len() <= a@.len(),
            last == a@.len() - b@.len(),
            i <= last,
            find_from(s@, p@, 0) == find_from(s@, p@, i as int),
        decreases last - i,
    {
        if stands_at(&a, &b, i) {
            return Some(i);
        }
        if i == last {
            assert(find_from(s@, p@, i + 1) is None);
            return None;
        }
        i = i + 1;
    }
}

/// The last position at which `p` stands in `s`.
pub fn rfind(s: &str, p: &str) -> (r: Option<usize>)
    ensures
        match r {
            Some(i) => rfind_to(s@, p@, s@.len() - p@.len()) == Some(i as int),
            None => rfind_to(s@, p@, s@.len() - p@.len()) is None,
        },
{
    let a: Vec<char> = to_chars(s);
    let b: Vec<char> = to_chars(p);
    if b.len() > a.len() {
        return None;
    }
    let mut i: usize = a.len() - b.len();
    loop
        invariant
            a@ == s@,
            b@ == p@,
            i + b@.len() <= a@.len(),
            rfind_to(s@, p@, s@.len() - p@.len()) == rfind_to(s@, p@, i as int),
        decreases i,
    {
        if stands_at(&a, &b, i) {
            return Some(i);
        }
        if i == 0 {
            assert(rfind_to(s@, p@, -1) is None);
            return None;
        }
        i = i - 1;
    }
}

/// The characters of `s` from `from` to `to`.
fn cut(s: &str, from: usize, to: usize) -> (r: String)
    requires
        from <= to <= s@.len(),
    ensures
        r@ == s@.subrange(from as int, to as int),
{
    s.substring_char(from, to).to_owned()
}

/// Splits `s` at the first occurrence of `p`.
pub fn split_once(s: &str, p: &str) -> (r: Option<(String, String)>)
    ensures
        match r {
            Some(x) => split_once_at(s@, p@) == Some((x.0@, x.1@)),
            None => split_once_at(s@, p@) is None,
        },
{
    proof {
        lemma_find_from(s@, p@, 0);
    }
    match find(s, p) {
        Some(i) => {
            let n: usize = s.unicode_len();
            let m: usize = p.unicode_len();
            Some((cut(s, 0, i), cut(s, i + m, n)))
        },
        None => None,
    }
}

/// Splits `s` at the last occurrence of `p`.
pub fn rsplit_once(s: &str, p: &str) -> (r: Option<(String, String)>)
    ensures
        match r {
            Some(x) => rsplit_once_at(s@, p@) == Some((x.0@, x.1@)),
            None => rsplit_once_at(s@, p@) is None,
        },
{
    proof {
        lemma_rfind_to(s@, p@, s@.len() - p@.len());
    }
    match rfind(s, p) {
        Some(i) => {
            let n: usize = s.unicode_len();
            let m: usize = p.unicode_len();
            Some((cut(s, 0, i), cut(s, i + m, n)))
        },
        None => None,
    }
}

// ---------------------------------------------------------------------------
// Lines.
// ---------------------------------------------------------------------------

/// Where the line that holds position `i` ends: at the next line feed, or at the end.
pub open spec fn line_end(s: Seq<char>, i: int) -> int
    decreases s.len() - i,
{
    if i >= s.len() {
        s.len() as int
    } else if s[i] == '\n' {
        i
    } else {
        line_end(s, i + 1)
    }
}

/// The line from `i` to `end`, without the carriage return of its ending.
pub open spec fn line_text(s: Seq<char>, i: int, end: int) -> Seq<char> {
    if end < s.len() && end > i && s[end - 1] == '\r' {
        s.subrange(i, end - 1)
    } else {
        s.subrange(i, end)
    }
}

proof fn lemma_line_end(s: Seq<char>, i: int)
    requires
        0 <= i <= s.len(),
    ensures
        i <= line_end(s, i) <= s.len(),
    decreases s.len() - i,
{
    if i < s.len() && s[i] != '\n' {
        lemma_line_end(s, i + 1);
    }
}

/// The lines of `s` from position `i` on. A line feed ends a line, alone or after a carriage return; the
/// last line needs no ending.
pub open spec fn lines_from(s: Seq<char>, i: int) -> Seq<Seq<char>>
    decreases s.len() - i + 1,
    when 0 <= i
    via lines_from_decreases
{
    if i >= s.len() {
        Seq::empty()
    } else {
        let end = line_end(s, i);
        seq![line_text(s, i, end)] + lines_from(s, end + 1)
    }
}

#[via_fn]
proof fn lines_from_decreases(s: Seq<char>, i: int) {
    if i < s.len() {
        lemma_line_end(s, i);
    }
}

/// The lines of `s`.
pub fn lines(s: &str) -> (r: Vec<String>)
    ensures
        crate::text::texts(r@) == lines_from(s@, 0),
{
    let a: Vec<char> = to_chars(s);
    let n: usize = s.unicode_len();
    let mut out: Vec<String> = Vec::new();
    let mut i: usize = 0;
    assert(crate::text::texts(out@) + lines_from(s@, 0) =~= lines_from(s@, 0));
    while i < n
        invariant
            a@ == s@,
            n == s@.len(),
            i <= n,
            crate::text::texts(out@) + lines_from(s@, i as int) == lines_from(s@, 0),
        decreases n - i,
    {
        let mut end: usize = i;
        while end < n && a[end] != '\n'
            invariant
                a@ == s@,
                n == s@.len(),
                i <= end <= n,
                line_end(s@, i as int) == line_end(s@, end as int),
            decreases n - end,
        {
            end = end + 1;
        }
        assert(line_end(s@, i as int) == end);
        let line: String = if end < n && end > i && a[end - 1] == '\r' {
            cut(s, i, end - 1)
        } else {
            cut(s, i, end)
        };
        let ghost before = crate::text::texts(out@);
        out.push(line);
        proof {
            let rest = lines_from(s@, end + 1);
            assert(crate::text::texts(out@) =~= before.push(line@));
            assert(before.push(line@) + rest =~= before + (seq![line@] + rest));
        }
        if end < n {
            i = end + 1;
        } else {
            assert(lines_from(s@, end + 1) =~= lines_from(s@, end as int));
            i = end;
        }
    }
    assert(crate::text::texts(out@) =~= lines_from(s@, 0));
    out
}

// ---------------------------------------------------------------------------
// Blanks and words.
// ---------------------------------------------------------------------------

/// Whether a character is white space.
pub open spec fn is_blank(c: char) -> bool {
    let u = c as u32;
    ||| 0x09 <= u <= 0x0d
    ||| u == 0x20
    ||| u == 0x85
    ||| u == 0xa0
    ||| u == 0x1680
    ||| 0x2000 <= u <= 0x200a
    ||| u == 0x2028
    ||| u == 0x2029
    ||| u == 0x202f
    ||| u == 0x205f
    ||| u == 0x3000
}

fn blank(c: char) -> (r: bool)
    ensures
        r == is_blank(c),
{
    let u: u32 = c as u32;
    (0x09 <= u && u <= 0x0d) || u == 0x20 || u == 0x85 || u == 0xa0 || u == 0x1680 || (0x2000 <= u && u
        <= 0x200a) || u == 0x2028 || u == 0x2029 || u == 0x202f || u == 0x205f || u == 0x3000
}

/// The first position from `i` on that is not blank, or the end.
pub open spec fn skip_blanks(s: Seq<char>, i: int) -> int
    decreases s.len() - i,
{
    if i >= s.len() {
        s.len() as int
    } else if is_blank(s[i]) {
        skip_blanks(s, i + 1)
    } else {
        i
    }
}

/// The first position from `i` on that is blank, or the end.
pub open spec fn word_end(s: Seq<char>, i: int) -> int
    decreases s.len() - i,
{
    if i >= s.len() {
        s.len() as int
    } else if is_blank(s[i]) {
        i
    } else {
        word_end(s, i + 1)
    }
}

/// The position after the last character before `i` that is not blank, or the start.
pub open spec fn skip_blanks_back(s: Seq<char>, i: int) -> int
    decreases i,
{
    if i <= 0 {
        0
    } else if is_blank(s[i - 1]) {
        skip_blanks_back(s, i - 1)
    } else {
        i
    }
}

/// `s` without the white space at its ends.
pub open spec fn trimmed(s: Seq<char>) -> Seq<char> {
    let from = skip_blanks(s, 0);
    let to = skip_blanks_back(s, s.len() as int);
    if from < to {
        s.subrange(from, to)
    } else {
        Seq::empty()
    }
}

proof fn lemma_word(s: Seq<char>, i: int)
    requires
        0 <= i <= s.len(),
    ensures
        i <= skip_blanks(s, i) <= s.len(),
        i <= word_end(s, i) <= s.len(),
        i < s.len() && !is_blank(s[i]) ==> i < word_end(s, i),
        skip_blanks(s, i) < s.len() ==> !is_blank(s[skip_blanks(s, i)]),
    decreases s.len() - i,
{
    if i < s.len() {
        lemma_word(s, i + 1);
    }
}

/// The words of `s` from position `i` on: what white space parts.
pub open spec fn words_from(s: Seq<char>, i: int) -> Seq<Seq<char>>
    decreases s.len() - i,
    when 0 <= i
    via words_from_decreases
{
    let from = skip_blanks(s, i);
    if i >= s.len() || from >= s.len() {
        Seq::empty()
    } else {
        let to = word_end(s, from);
        seq![s.subrange(from, to)] + words_from(s, to)
    }
}

#[via_fn]
proof fn words_from_decreases(s: Seq<char>, i: int) {
    if i < s.len() {
        lemma_word(s, i);
        if skip_blanks(s, i) < s.len() {
            lemma_word(s, skip_blanks(s, i));
        }
    }
}

/// The words of `s`.
pub fn words(s: &str) -> (r: Vec<String>)
    ensures
        crate::text::texts(r@) == words_from(s@, 0),
{
    let a: Vec<char> = to_chars(s);
    let n: usize = s.unicode_len();
    let mut out: Vec<String> = Vec::new();
    let mut i: usize = 0;
    assert(crate::text::texts(out@) + words_from(s@, 0) =~= words_from(s@, 0));
    loop
        invariant
            a@ == s@,
            n == s@.len(),
            i <= n,
            crate::text::texts(out@) + words_from(s@, i as int) == words_from(s@, 0),
        decreases n - i,
    {
        let mut from: usize = i;
        while from < n && blank(a[from])
            invariant
                a@ == s@,
                n == s@.len(),
                i <= from <= n,
                skip_blanks(s@, i as int) == skip_blanks(s@, from as int),
            decreases n - from,
        {
            from = from + 1;
        }
        assert(skip_blanks(s@, i as int) == from);
        if from >= n {
            assert(crate::text::texts(out@) =~= words_from(s@, 0));
            return out;
        }
        let mut to: usize = from;
        while to < n && !blank(a[to])
            invariant
                a@ == s@,
                n == s@.len(),
                from <= to <= n,
                word_end(s@, from as int) == word_end(s@, to as int),
            decreases n - to,
        {
            to = to + 1;
        }
        assert(word_end(s@, from as int) == to);
        proof {
            lemma_word(s@, from as int);
        }
        let ghost before = crate::text::texts(out@);
        let word: String = cut(s, from, to);
        out.push(word);
        proof {
            let rest = words_from(s@, to as int);
            assert(crate::text::texts(out@) =~= before.push(word@));
            assert(before.push(word@) + rest =~= before + (seq![word@] + rest));
        }
        i = to;
    }
}

/// `s` without the white space at its ends.
pub fn trim(s: &str) -> (r: String)
    ensures
        r@ == trimmed(s@),
{
    let a: Vec<char> = to_chars(s);
    let n: usize = s.unicode_len();
    let mut from: usize = 0;
    while from < n && blank(a[from])
        invariant
            a@ == s@,
            n == s@.len(),
            from <= n,
            skip_blanks(s@, 0) == skip_blanks(s@, from as int),
        decreases n - from,
    {
        from = from + 1;
    }
    let mut to: usize = n;
    while to > 0 && blank(a[to - 1])
        invariant
            a@ == s@,
            n == s@.len(),
            to <= n,
            skip_blanks_back(s@, n as int) == skip_blanks_back(s@, to as int),
        decreases to,
    {
        to = to - 1;
    }
    assert(skip_blanks(s@, 0) == from);
    assert(skip_blanks_back(s@, n as int) == to);
    if from < to {
        cut(s, from, to)
    } else {
        let empty: String = String::new();
        assert(empty@ =~= Seq::<char>::empty());
        empty
    }
}

// ---------------------------------------------------------------------------
// Numbers.
// ---------------------------------------------------------------------------

/// Whether `s` is one or more decimal digits.
pub open spec fn is_digits(s: Seq<char>) -> bool {
    s.len() > 0 && forall|i: int| 0 <= i < s.len() ==> '0' <= #[trigger] s[i] <= '9'
}

/// The number that decimal digits stand for.
pub open spec fn digits_value(s: Seq<char>) -> nat
    decreases s.len(),
{
    if s.len() == 0 {
        0
    } else {
        digits_value(s.drop_last()) * 10 + ((s.last() as nat) - ('0' as nat)) as nat
    }
}

/// The number that `s` writes down in decimal, with an optional sign; a minus sign only if `signed`.
pub open spec fn number(s: Seq<char>, signed: bool) -> Option<int> {
    if s.len() > 0 && (s[0] == '+' || (signed && s[0] == '-')) {
        let rest = s.subrange(1, s.len() as int);
        if !is_digits(rest) {
            None
        } else if s[0] == '-' {
            Some(-(digits_value(rest) as int))
        } else {
            Some(digits_value(rest) as int)
        }
    } else if is_digits(s) {
        Some(digits_value(s) as int)
    } else {
        None
    }
}

proof fn lemma_value_grows(s: Seq<char>, n: int)
    requires
        0 <= n <= s.len(),
        forall|i: int| 0 <= i < s.len() ==> '0' <= #[trigger] s[i] <= '9',
    ensures
        digits_value(s.subrange(0, n)) <= digits_value(s),
    decreases s.len() - n,
{
    if n == s.len() {
        assert(s.subrange(0, n) =~= s);
    } else {
        lemma_value_grows(s, n + 1);
        assert(s.subrange(0, n + 1).drop_last() =~= s.subrange(0, n));
    }
}

/// The number that the digits from `from` on stand for, where it is no greater than `limit`.
fn digits_within(a: &Vec<char>, from: usize, limit: u64) -> (r: Option<u64>)
    requires
        from <= a@.len(),
        limit <= 0xffff_ffff,
    ensures
        ({
            let s = a@.subrange(from as int, a@.len() as int);
            match r {
                Some(v) => is_digits(s) && v == digits_value(s) && v <= limit,
                None => !is_digits(s) || digits_value(s) > limit,
            }
        }),
{
    let ghost s = a@.subrange(from as int, a@.len() as int);
    let n: usize = a.len();
    if from == n {
        return None;
    }
    let mut v: u64 = 0;
    let mut i: usize = from;
    assert(s.subrange(0, 0) =~= Seq::<char>::empty());
    while i < n
        invariant
            from <= i <= n,
            n == a@.len(),
            limit <= 0xffff_ffff,
            s == a@.subrange(from as int, a@.len() as int),
            forall|j: int| 0 <= j < i - from ==> '0' <= #[trigger] s[j] <= '9',
            v == digits_value(s.subrange(0, i - from)),
            v <= limit,
        decreases n - i,
    {
        let c: char = a[i];
        assert(s[i - from] == c);
        if c < '0' || c > '9' {
            return None;
        }
        let d: u64 = c as u64 - '0' as u64;
        let next: u64 = v * 10 + d;
        proof {
            assert(s.subrange(0, i - from + 1).drop_last() =~= s.subrange(0, i - from));
            assert(next == digits_value(s.subrange(0, i - from + 1)));
        }
        if next > limit {
            proof {
                if is_digits(s) {
                    lemma_value_grows(s, i - from + 1);
                }
            }
            return None;
        }
        v = next;
        i = i + 1;
    }
    assert(s.subrange(0, n - from) =~= s);
    Some(v)
}

/// The number that `s` writes down, where it fits 16 bits without a sign.
pub fn parse_u16(s: &str) -> (r: Option<u16>)
    ensures
        match r {
            Some(v) => number(s@, false) == Some(v as int),
            None => match number(s@, false) {
                Some(n) => n > u16::MAX,
                None => true,
            },
        },
{
    let a: Vec<char> = to_chars(s);
    assert(s@.subrange(0, s@.len() as int) =~= s@);
    let from: usize = if a.len() > 0 && a[0] == '+' {
        1
    } else {
        0
    };
    match digits_within(&a, from, 65535) {
        Some(v) => Some(v as u16),
        None => None,
    }
}

/// The number that `s` writes down, where it fits 32 bits with a sign.
pub fn parse_i32(s: &str) -> (r: Option<i32>)
    ensures
        match r {
            Some(v) => number(s@, true) == Some(v as int),
            None => match number(s@, true) {
                Some(n) => n > i32::MAX || n < i32::MIN,
                None => true,
            },
        },
{
    let a: Vec<char> = to_chars(s);
    assert(s@.subrange(0, s@.len() as int) =~= s@);
    if a.len() > 0 && a[0] == '-' {
        match digits_within(&a, 1, 2_147_483_648) {
            Some(v) => Some((0i64 - v as i64) as i32),
            None => None,
        }
    } else {
        let from: usize = if a.len() > 0 && a[0] == '+' {
            1
        } else {
            0
        };
        match digits_within(&a, from, 2_147_483_647) {
            Some(v) => Some(v as i32),
            None => None,
        }
    }
}

} // verus!
