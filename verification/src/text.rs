//! Text utilities shared by the tokenizer and the emitter: character classes,
//! splitting a source into lines and a line into whitespace-delimited words,
//! joining words back with single spaces, and rendering a number in decimal.

use vstd::prelude::*;

verus! {

/// Characters that separate words within a line.
pub open spec fn is_space_char(c: char) -> bool {
    c == ' ' || c == '\t' || c == '\r'
}

pub open spec fn is_digit_char(c: char) -> bool {
    '0' <= c && c <= '9'
}

pub open spec fn is_letter_char(c: char) -> bool {
    ('a' <= c && c <= 'z') || ('A' <= c && c <= 'Z')
}

/// The views of a vector of owned strings.
pub open spec fn views_of(ws: Seq<String>) -> Seq<Seq<char>> {
    ws.map_values(|w: String| w@)
}

/// Index of the first occurrence of `c` in `s`, or -1 if there is none.
pub open spec fn find_char(s: Seq<char>, c: char) -> int
    decreases s.len(),
{
    if s.len() == 0 {
        -1
    } else if s[0] == c {
        0
    } else if find_char(s.drop_first(), c) == -1 {
        -1
    } else {
        find_char(s.drop_first(), c) + 1
    }
}

/// Index of the first word-separating character in `s`, or -1 if there is none.
pub open spec fn find_space(s: Seq<char>) -> int
    decreases s.len(),
{
    if s.len() == 0 {
        -1
    } else if is_space_char(s[0]) {
        0
    } else if find_space(s.drop_first()) == -1 {
        -1
    } else {
        find_space(s.drop_first()) + 1
    }
}

pub proof fn lemma_find_char_range(s: Seq<char>, c: char)
    ensures
        find_char(s, c) == -1 || (0 <= find_char(s, c) < s.len() && s[find_char(s, c)] == c),
    decreases s.len(),
{
    if s.len() > 0 && s[0] != c {
        lemma_find_char_range(s.drop_first(), c);
    }
}

pub proof fn lemma_find_space_range(s: Seq<char>)
    ensures
        find_space(s) == -1 || (0 <= find_space(s) < s.len() && is_space_char(s[find_space(s)])),
    decreases s.len(),
{
    if s.len() > 0 && !is_space_char(s[0]) {
        lemma_find_space_range(s.drop_first());
    }
}

/// `find_char` returns exactly the first position that holds `c`.
pub proof fn lemma_find_char_first(s: Seq<char>, c: char, m: int)
    requires
        0 <= m < s.len(),
        s[m] == c,
        forall|j: int| 0 <= j < m ==> s[j] != c,
    ensures
        find_char(s, c) == m,
    decreases m,
{
    if m > 0 {
        lemma_find_char_first(s.drop_first(), c, m - 1);
    }
}

pub proof fn lemma_find_char_none(s: Seq<char>, c: char)
    requires
        forall|j: int| 0 <= j < s.len() ==> s[j] != c,
    ensures
        find_char(s, c) == -1,
    decreases s.len(),
{
    if s.len() > 0 {
        lemma_find_char_none(s.drop_first(), c);
    }
}

/// `find_space` returns exactly the first position that holds a separator.
pub proof fn lemma_find_space_first(s: Seq<char>, m: int)
    requires
        0 <= m < s.len(),
        is_space_char(s[m]),
        forall|j: int| 0 <= j < m ==> !is_space_char(s[j]),
    ensures
        find_space(s) == m,
    decreases m,
{
    if m > 0 {
        lemma_find_space_first(s.drop_first(), m - 1);
    }
}

pub proof fn lemma_find_space_none(s: Seq<char>)
    requires
        forall|j: int| 0 <= j < s.len() ==> !is_space_char(s[j]),
    ensures
        find_space(s) == -1,
    decreases s.len(),
{
    if s.len() > 0 {
        lemma_find_space_none(s.drop_first());
    }
}

/// The source split at newline characters; the separators themselves are
/// dropped, and a source of n newlines yields n + 1 lines.
pub open spec fn split_lines(s: Seq<char>) -> Seq<Seq<char>>
    decreases s.len(),
    via split_lines_decreases
{
    if find_char(s, '\n') == -1 {
        seq![s]
    } else {
        seq![s.take(find_char(s, '\n'))] + split_lines(s.skip(find_char(s, '\n') + 1))
    }
}

#[via_fn]
proof fn split_lines_decreases(s: Seq<char>) {
    lemma_find_char_range(s, '\n');
}

/// A line split at word separators; empty fragments are dropped, so the
/// result holds exactly the maximal runs of non-separator characters.
pub open spec fn split_words(s: Seq<char>) -> Seq<Seq<char>>
    decreases s.len(),
    via split_words_decreases
{
    if s.len() == 0 {
        seq![]
    } else if is_space_char(s[0]) {
        split_words(s.drop_first())
    } else if find_space(s) == -1 {
        seq![s]
    } else {
        seq![s.take(find_space(s))] + split_words(s.skip(find_space(s)))
    }
}

#[via_fn]
proof fn split_words_decreases(s: Seq<char>) {
    lemma_find_space_range(s);
}

/// The words joined back together with a single space between neighbours.
pub open spec fn join_space(ws: Seq<Seq<char>>) -> Seq<char>
    decreases ws.len(),
{
    if ws.len() == 0 {
        Seq::empty()
    } else if ws.len() == 1 {
        ws[0]
    } else {
        join_space(ws.drop_last()) + seq![' '] + ws.last()
    }
}

/// `s` begins with the prefix `p`.
pub open spec fn has_prefix(s: Seq<char>, p: Seq<char>) -> bool {
    p.len() <= s.len() && s.take(p.len() as int) == p
}

/// The decimal digit character for a value below ten.
pub open spec fn digit_char(d: int) -> char {
    if d == 0 {
        '0'
    } else if d == 1 {
        '1'
    } else if d == 2 {
        '2'
    } else if d == 3 {
        '3'
    } else if d == 4 {
        '4'
    } else if d == 5 {
        '5'
    } else if d == 6 {
        '6'
    } else if d == 7 {
        '7'
    } else if d == 8 {
        '8'
    } else {
        '9'
    }
}

/// The usual decimal rendering of a non-negative number, without leading
/// zeros (except for the number zero itself).
pub open spec fn dec_of(n: int) -> Seq<char>
    recommends
        n >= 0,
    decreases n,
{
    if n < 10 {
        seq![digit_char(n)]
    } else {
        dec_of(n / 10) + seq![digit_char(n % 10)]
    }
}

pub fn is_space(c: char) -> (r: bool)
    ensures
        r == is_space_char(c),
{
    c == ' ' || c == '\t' || c == '\r'
}

pub fn str_eq(a: &str, b: &str) -> (r: bool)
    ensures
        r == (a@ == b@),
{
    let na: usize = a.unicode_len();
    let nb: usize = b.unicode_len();
    if na != nb {
        return false;
    }
    let mut i: usize = 0;
    while i < na
        invariant
            i <= na,
            na == a@.len(),
            na == b@.len(),
            forall|j: int| 0 <= j < i ==> a@[j] == b@[j],
        decreases na - i,
    {
        if a.get_char(i) != b.get_char(i) {
            return false;
        }
        i = i + 1;
    }
    proof {
        assert(a@ =~= b@);
    }
    true
}

pub fn starts_with(s: &str, p: &str) -> (r: bool)
    ensures
        r == has_prefix(s@, p@),
{
    let np: usize = p.unicode_len();
    let ns: usize = s.unicode_len();
    if np > ns {
        return false;
    }
    let mut i: usize = 0;
    while i < np
        invariant
            i <= np,
            np == p@.len(),
            ns == s@.len(),
            np <= ns,
            forall|j: int| 0 <= j < i ==> s@[j] == p@[j],
        decreases np - i,
    {
        if s.get_char(i) != p.get_char(i) {
            proof {
                assert(s@.take(np as int)[i as int] != p@[i as int]);
            }
            return false;
        }
        i = i + 1;
    }
    proof {
        assert(s@.take(np as int) =~= p@);
    }
    true
}

pub fn split_lines_exec(s: &str) -> (r: Vec<String>)
    ensures
        views_of(r@) == split_lines(s@),
{
    let n: usize = s.unicode_len();
    let mut r: Vec<String> = Vec::new();
    let mut start: usize = 0;
    let mut i: usize = 0;
    proof {
        assert(s@.skip(0) =~= s@);
        assert(views_of(r@) + split_lines(s@) =~= split_lines(s@));
    }
    while i < n
        invariant
            start <= i <= n,
            n == s@.len(),
            forall|j: int| start <= j < i ==> s@[j] != '\n',
            split_lines(s@) == views_of(r@) + split_lines(s@.skip(start as int)),
        decreases n - i,
    {
        if s.get_char(i) == '\n' {
            let piece: String = String::from_str(s.substring_char(start, i));
            proof {
                let tail = s@.skip(start as int);
                assert(tail.drop_first() =~= s@.skip(start as int + 1));
                lemma_find_char_first(tail, '\n', i - start);
                assert(tail.take(i - start) =~= piece@);
                assert(tail.skip(i - start + 1) =~= s@.skip(i + 1));
                assert(views_of(r@.push(piece)) =~= views_of(r@).push(piece@));
                assert(views_of(r@) + (seq![piece@] + split_lines(s@.skip(i + 1)))
                    =~= views_of(r@.push(piece)) + split_lines(s@.skip(i + 1)));
            }
            r.push(piece);
            start = i + 1;
        }
        i = i + 1;
    }
    let piece: String = String::from_str(s.substring_char(start, n));
    proof {
        let tail = s@.skip(start as int);
        lemma_find_char_none(tail, '\n');
        assert(tail =~= piece@);
        assert(views_of(r@.push(piece)) =~= views_of(r@).push(piece@));
        assert(views_of(r@) + seq![piece@] =~= views_of(r@.push(piece)));
    }
    r.push(piece);
    r
}

pub fn split_words_exec(s: &str) -> (r: Vec<String>)
    ensures
        views_of(r@) == split_words(s@),
{
    let n: usize = s.unicode_len();
    let mut r: Vec<String> = Vec::new();
    let mut i: usize = 0;
    proof {
        assert(s@.skip(0) =~= s@);
        assert(views_of(r@) + split_words(s@) =~= split_words(s@));
    }
    while i < n
        invariant
            i <= n,
            n == s@.len(),
            split_words(s@) == views_of(r@) + split_words(s@.skip(i as int)),
        decreases n - i,
    {
        if is_space(s.get_char(i)) {
            proof {
                let tail = s@.skip(i as int);
                assert(tail.drop_first() =~= s@.skip(i as int + 1));
            }
            i = i + 1;
        } else {
            let mut j: usize = i + 1;
            while j < n && !is_space(s.get_char(j))
                invariant
                    i < j <= n,
                    n == s@.len(),
                    !is_space_char(s@[i as int]),
                    forall|k: int| i <= k < j ==> !is_space_char(s@[k]),
                decreases n - j,
            {
                j = j + 1;
            }
            let piece: String = String::from_str(s.substring_char(i, j));
            proof {
                let tail = s@.skip(i as int);
                if j < n {
                    lemma_find_space_first(tail, j - i);
                    assert(tail.take(j - i) =~= piece@);
                    assert(tail.skip(j - i) =~= s@.skip(j as int));
                    assert(views_of(r@) + (seq![piece@] + split_words(s@.skip(j as int)))
                        =~= views_of(r@).push(piece@) + split_words(s@.skip(j as int)));
                } else {
                    lemma_find_space_none(tail);
                    assert(tail =~= piece@);
                    assert(s@.skip(j as int) =~= Seq::<char>::empty());
                    assert(views_of(r@) + seq![piece@]
                        =~= views_of(r@).push(piece@) + split_words(s@.skip(j as int)));
                }
                assert(views_of(r@.push(piece)) =~= views_of(r@).push(piece@));
            }
            r.push(piece);
            i = j;
        }
    }
    proof {
        assert(s@.skip(i as int) =~= Seq::<char>::empty());
        assert(views_of(r@) + split_words(Seq::<char>::empty()) =~= views_of(r@));
    }
    r
}

/// The words from position `start` on, joined with single spaces.
pub fn join_from(words: &Vec<String>, start: usize) -> (r: String)
    requires
        start <= words@.len(),
    ensures
        r@ == join_space(views_of(words@).skip(start as int)),
{
    let mut r: String = String::new();
    let mut k: usize = start;
    while k < words.len()
        invariant
            start <= k <= words@.len(),
            r@ == join_space(views_of(words@).subrange(start as int, k as int)),
        decreases words@.len() - k,
    {
        if k > start {
            r.append(" ");
        }
        r.append(words[k].as_str());
        proof {
            reveal_strlit(" ");
            let vs = views_of(words@);
            let sub1 = vs.subrange(start as int, k as int + 1);
            assert(sub1.drop_last() =~= vs.subrange(start as int, k as int));
            assert(sub1.last() == vs[k as int]);
            if k == start {
                assert(r@ =~= sub1[0]);
            } else {
                assert(" "@ =~= seq![' ']);
                assert(r@ =~= join_space(sub1.drop_last()) + seq![' '] + sub1.last());
            }
        }
        k = k + 1;
    }
    proof {
        assert(views_of(words@).subrange(start as int, words@.len() as int)
            =~= views_of(words@).skip(start as int));
    }
    r
}

fn digit_str(d: usize) -> (r: &'static str)
    requires
        d < 10,
    ensures
        r@ == seq![digit_char(d as int)],
{
    let r: &'static str = if d == 0 {
        "0"
    } else if d == 1 {
        "1"
    } else if d == 2 {
        "2"
    } else if d == 3 {
        "3"
    } else if d == 4 {
        "4"
    } else if d == 5 {
        "5"
    } else if d == 6 {
        "6"
    } else if d == 7 {
        "7"
    } else if d == 8 {
        "8"
    } else {
        "9"
    };
    proof {
        reveal_strlit("0");
        reveal_strlit("1");
        reveal_strlit("2");
        reveal_strlit("3");
        reveal_strlit("4");
        reveal_strlit("5");
        reveal_strlit("6");
        reveal_strlit("7");
        reveal_strlit("8");
        reveal_strlit("9");
        assert(r@ =~= seq![digit_char(d as int)]);
    }
    r
}

/// Renders `n` in decimal.
pub fn usize_to_dec(n: usize) -> (r: String)
    ensures
        r@ == dec_of(n as int),
    decreases n,
{
    if n < 10 {
        String::from_str(digit_str(n))
    } else {
        let mut r: String = usize_to_dec(n / 10);
        r.append(digit_str(n % 10));
        r
    }
}

} // verus!
