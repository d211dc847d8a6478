//! What holds of reading text.

use vstd::prelude::*;

verus! {

// ---------------------------------------------------------------------------
// Searching.
// ---------------------------------------------------------------------------

/// A text holds another if and only if something before it and something after it make up the text.
pub proof fn a_text_holds_what_it_is_made_of(s: Seq<char>, a: Seq<char>, p: Seq<char>, b: Seq<char>)
    ensures
        crate::scan::holds(a + p + b, p),
        crate::scan::holds(s, p) <==> exists|x: Seq<char>, y: Seq<char>| #[trigger] (x + p + y) == s,
{
    let t = a + p + b;
    assert(t.subrange(a.len() as int, a.len() as int + p.len()) =~= p);
    assert(crate::scan::occurs_at(t, p, a.len() as int));
    if crate::scan::holds(s, p) {
        let i = choose|i: int| crate::scan::occurs_at(s, p, i);
        let x = s.subrange(0, i);
        let y = s.subrange(i + p.len(), s.len() as int);
        assert(x + p + y =~= s) by {
            assert forall|j: int| 0 <= j < s.len() implies (x + p + y)[j] == s[j] by {
                if i <= j < i + p.len() {
                    assert(s.subrange(i, i + p.len())[j - i] == p[j - i]);
                }
            }
        }
    }
    if exists|x: Seq<char>, y: Seq<char>| #[trigger] (x + p + y) == s {
        let (x, y) = choose|x: Seq<char>, y: Seq<char>| #[trigger] (x + p + y) == s;
        assert(s.subrange(x.len() as int, x.len() as int + p.len()) =~= p);
        assert(crate::scan::occurs_at(s, p, x.len() as int));
    }
}

proof fn lemma_first(s: Seq<char>, p: Seq<char>, i: int)
    requires
        0 <= i,
    ensures
        match crate::scan::find_from(s, p, i) {
            Some(k) => i <= k && crate::scan::occurs_at(s, p, k) && forall|j: int|
                i <= j < k ==> !#[trigger] crate::scan::occurs_at(s, p, j),
            None => forall|j: int| i <= j ==> !#[trigger] crate::scan::occurs_at(s, p, j),
        },
    decreases s.len() - p.len() - i + 1,
{
    if i + p.len() <= s.len() && !crate::scan::occurs_at(s, p, i) {
        lemma_first(s, p, i + 1);
    }
}

proof fn lemma_final(s: Seq<char>, p: Seq<char>, i: int)
    ensures
        match crate::scan::rfind_to(s, p, i) {
            Some(k) => 0 <= k <= i && crate::scan::occurs_at(s, p, k) && forall|j: int|
                k < j <= i ==> !#[trigger] crate::scan::occurs_at(s, p, j),
            None => forall|j: int| j <= i ==> !#[trigger] crate::scan::occurs_at(s, p, j),
        },
    decreases i + 1,
{
    if i >= 0 && !crate::scan::occurs_at(s, p, i) {
        lemma_final(s, p, i - 1);
    }
}

proof fn lemma_cut(s: Seq<char>, p: Seq<char>, i: int)
    requires
        crate::scan::occurs_at(s, p, i),
    ensures
        s.subrange(0, i) + p + s.subrange(i + p.len(), s.len() as int) == s,
{
    let t = s.subrange(0, i) + p + s.subrange(i + p.len(), s.len() as int);
    assert forall|j: int| 0 <= j < s.len() implies t[j] == s[j] by {
        if i <= j < i + p.len() {
            assert(s.subrange(i, i + p.len())[j - i] == p[j - i]);
        }
    }
    assert(t =~= s);
}

/// A text is split at the first place where the other stands, and from behind at the last: the parts and
/// the other make up the text. It is not split if and only if it does not hold the other.
pub proof fn splitting_is_at_the_first_place(s: Seq<char>, p: Seq<char>)
    ensures
        crate::scan::split_once_at(s, p) is None <==> !crate::scan::holds(s, p),
        crate::scan::rsplit_once_at(s, p) is None <==> !crate::scan::holds(s, p),
        crate::scan::split_once_at(s, p) matches Some(x) ==> x.0 + p + x.1 == s && forall|j: int|
            0 <= j < x.0.len() ==> !#[trigger] crate::scan::occurs_at(s, p, j),
        crate::scan::rsplit_once_at(s, p) matches Some(x) ==> x.0 + p + x.1 == s && forall|j: int|
            x.0.len() < j ==> !#[trigger] crate::scan::occurs_at(s, p, j),
{
    lemma_first(s, p, 0);
    lemma_final(s, p, s.len() - p.len());
    if let Some(i) = crate::scan::find_from(s, p, 0) {
        lemma_cut(s, p, i);
    }
    if let Some(i) = crate::scan::rfind_to(s, p, s.len() - p.len()) {
        lemma_cut(s, p, i);
    }
    if crate::scan::holds(s, p) {
        let i = choose|i: int| crate::scan::occurs_at(s, p, i);
        assert(crate::scan::occurs_at(s, p, i));
    }
}

// ---------------------------------------------------------------------------
// Blanks and words.
// ---------------------------------------------------------------------------

/// What is blank among the characters of plain text: the space and the control characters that move to
/// another place, and no character that can be seen.
pub proof fn what_can_be_seen_is_not_blank(c: char)
    ensures
        crate::scan::is_blank(' '),
        crate::scan::is_blank('\t'),
        crate::scan::is_blank('\n'),
        crate::scan::is_blank('\r'),
        0x21 <= c as u32 <= 0x7e ==> !crate::scan::is_blank(c),
{
}

/// Past plain text, the blanks are the next line, the spaces of every width, and the separators of lines
/// and paragraphs, and nothing else.
pub proof fn spaces_of_every_width_are_blank(c: char)
    requires
        c as u32 > 0x7e,
    ensures
        crate::scan::is_blank(c) <==> (0x2000 <= c as int && (c as int) < 0x200b) || set![
            0x85u32,
            0xa0,
            0x1680,
            0x2028,
            0x2029,
            0x202f,
            0x205f,
            0x3000,
        ].contains(c as u32),
{
}

proof fn lemma_skip(s: Seq<char>, i: int)
    requires
        0 <= i <= s.len(),
    ensures
        i <= crate::scan::skip_blanks(s, i) <= s.len(),
        forall|j: int| i <= j < crate::scan::skip_blanks(s, i) ==> crate::scan::is_blank(#[trigger] s[j]),
        crate::scan::skip_blanks(s, i) < s.len() ==> !crate::scan::is_blank(
            s[crate::scan::skip_blanks(s, i)],
        ),
    decreases s.len() - i,
{
    if i < s.len() && crate::scan::is_blank(s[i]) {
        lemma_skip(s, i + 1);
    }
}

proof fn lemma_skip_back(s: Seq<char>, i: int)
    requires
        0 <= i <= s.len(),
    ensures
        0 <= crate::scan::skip_blanks_back(s, i) <= i,
        forall|j: int|
            crate::scan::skip_blanks_back(s, i) <= j < i ==> crate::scan::is_blank(#[trigger] s[j]),
        crate::scan::skip_blanks_back(s, i) > 0 ==> !crate::scan::is_blank(
            s[crate::scan::skip_blanks_back(s, i) - 1],
        ),
    decreases i,
{
    if i > 0 && crate::scan::is_blank(s[i - 1]) {
        lemma_skip_back(s, i - 1);
    }
}

proof fn lemma_word_end(s: Seq<char>, i: int)
    requires
        0 <= i <= s.len(),
    ensures
        i <= crate::scan::word_end(s, i) <= s.len(),
        forall|j: int| i <= j < crate::scan::word_end(s, i) ==> !crate::scan::is_blank(#[trigger] s[j]),
        crate::scan::word_end(s, i) < s.len() ==> crate::scan::is_blank(s[crate::scan::word_end(s, i)]),
    decreases s.len() - i,
{
    if i < s.len() && !crate::scan::is_blank(s[i]) {
        lemma_word_end(s, i + 1);
    }
}

/// Trimming takes the blanks from both ends and nothing else: what is left neither starts nor ends with a
/// blank, and what was taken is blank. A text of blanks leaves nothing.
pub proof fn trimming_takes_only_blanks_at_the_ends(s: Seq<char>)
    ensures
        ({
            let t = crate::scan::trimmed(s);
            &&& t.len() > 0 ==> !crate::scan::is_blank(t[0]) && !crate::scan::is_blank(t.last())
            &&& t.len() == 0 <==> forall|j: int|
                0 <= j < s.len() ==> crate::scan::is_blank(#[trigger] s[j])
            &&& t.len() > 0 ==> exists|from: int, to: int|
                0 <= from < to <= s.len() && t == #[trigger] s.subrange(from, to) && (forall|j: int|
                    0 <= j < from || to <= j < s.len() ==> crate::scan::is_blank(#[trigger] s[j]))
        }),
{
    let n = s.len() as int;
    let from = crate::scan::skip_blanks(s, 0);
    let to = crate::scan::skip_blanks_back(s, n);
    lemma_skip(s, 0);
    lemma_skip_back(s, n);
    if from < to {
        assert(crate::scan::trimmed(s) == s.subrange(from, to));
        assert(!crate::scan::is_blank(s[from]));
    } else if from < n {
        assert(crate::scan::is_blank(s[from]));
    }
}

/// The words of a text come one after the other: the first starts at the first character that is not
/// blank and ends before the first blank behind it, and the others are the words of what follows. A text of
/// blanks has none.
pub proof fn words_come_one_after_the_other(s: Seq<char>, i: int)
    requires
        0 <= i <= s.len(),
    ensures
        ({
            let w = crate::scan::words_from(s, i);
            &&& w.len() == 0 <==> forall|j: int|
                i <= j < s.len() ==> crate::scan::is_blank(#[trigger] s[j])
            &&& w.len() > 0 ==> exists|from: int, to: int|
                i <= from < to <= s.len() && w[0] == #[trigger] s.subrange(from, to) && (forall|j: int|
                    i <= j < from ==> crate::scan::is_blank(#[trigger] s[j])) && (forall|j: int|
                    from <= j < to ==> !crate::scan::is_blank(#[trigger] s[j])) && (to < s.len()
                    ==> crate::scan::is_blank(s[to])) && w.drop_first() == crate::scan::words_from(
                    s,
                    to,
                )
        }),
{
    let w = crate::scan::words_from(s, i);
    let from = crate::scan::skip_blanks(s, i);
    lemma_skip(s, i);
    if i < s.len() && from < s.len() {
        let to = crate::scan::word_end(s, from);
        lemma_word_end(s, from);
        assert(to > from);
        assert(w == seq![s.subrange(from, to)] + crate::scan::words_from(s, to));
        assert(w[0] == s.subrange(from, to));
        assert(w.drop_first() =~= crate::scan::words_from(s, to));
        assert(!crate::scan::is_blank(s[from]));
    }
}

// ---------------------------------------------------------------------------
// Lines.
// ---------------------------------------------------------------------------

proof fn lemma_line_end(s: Seq<char>, i: int)
    requires
        0 <= i <= s.len(),
    ensures
        i <= crate::scan::line_end(s, i) <= s.len(),
        forall|j: int| i <= j < crate::scan::line_end(s, i) ==> #[trigger] s[j] != '\n',
        crate::scan::line_end(s, i) < s.len() ==> s[crate::scan::line_end(s, i)] == '\n',
    decreases s.len() - i,
{
    if i < s.len() && s[i] != '\n' {
        lemma_line_end(s, i + 1);
    }
}

/// The lines of a text come one after the other: the first goes up to the first line feed, without a
/// carriage return just before it, and the others are the lines of what follows; a text without a line feed
/// is one line, and an empty one is none.
pub proof fn lines_come_one_after_the_other(a: Seq<char>, b: Seq<char>)
    requires
        !a.contains('\n'),
    ensures
        crate::scan::lines_from(Seq::empty(), 0).len() == 0,
        a.len() > 0 ==> crate::scan::lines_from(a, 0) == seq![a],
        ({
            let s = a + seq!['\n'] + b;
            let lines = crate::scan::lines_from(s, 0);
            &&& lines.len() > 0
            &&& lines.drop_first() == crate::scan::lines_from(s, a.len() as int + 1)
            &&& a.len() == 0 || a.last() != '\r' ==> lines[0] == a
            &&& a.len() > 0 && a.last() == '\r' ==> lines[0] == a.drop_last()
        }),
{
    let s = a + seq!['\n'] + b;
    lemma_line_end(s, 0);
    lemma_line_end(a, 0);
    let end = crate::scan::line_end(s, 0);
    assert(s[a.len() as int] == '\n');
    if end < a.len() {
        assert(a[end] == '\n');
        assert(a.contains('\n'));
    }
    assert(end == a.len());
    let lines = crate::scan::lines_from(s, 0);
    assert(lines == seq![crate::scan::line_text(s, 0, end)] + crate::scan::lines_from(s, end + 1));
    assert(lines.drop_first() =~= crate::scan::lines_from(s, end + 1));
    if a.len() > 0 {
        assert(s[a.len() - 1] == a.last());
        assert(s.subrange(0, end - 1) =~= a.drop_last());
        let stop = crate::scan::line_end(a, 0);
        if stop < a.len() {
            assert(a.contains(a[stop]));
        }
        assert(a.subrange(0, stop) =~= a);
        assert(crate::scan::lines_from(a, stop + 1) =~= Seq::<Seq<char>>::empty());
        assert(crate::scan::lines_from(a, 0) =~= seq![a]);
    }
    assert(s.subrange(0, end) =~= a);
}

// ---------------------------------------------------------------------------
// Numbers.
// ---------------------------------------------------------------------------

/// A text is a number if and only if it is made of digits, at least one, behind a sign if one is allowed:
/// a plus always, a minus only where the number may be below zero.
pub proof fn a_number_is_made_of_digits(s: Seq<char>, signed: bool)
    ensures
        crate::scan::number(s, signed) is Some ==> s.len() > 0 && forall|i: int|
            1 <= i < s.len() ==> '0' <= #[trigger] s[i] <= '9',
        crate::scan::number(s, signed) is Some && !('0' <= s[0] <= '9') ==> s.len() > 1 && (s[0] == '+'
            || signed && s[0] == '-'),
        s.len() > 0 && (forall|i: int| 0 <= i < s.len() ==> '0' <= #[trigger] s[i] <= '9')
            ==> crate::scan::number(s, signed) is Some,
        crate::scan::number(s, signed) matches Some(n) ==> (n < 0 ==> s[0] == '-'),
{
    if s.len() > 0 && (s[0] == '+' || signed && s[0] == '-') {
        let rest = s.subrange(1, s.len() as int);
        if crate::scan::is_digits(rest) {
            assert forall|i: int| 1 <= i < s.len() implies '0' <= #[trigger] s[i] <= '9' by {
                assert(rest[i - 1] == s[i]);
            }
        }
    }
}

} // verus!
