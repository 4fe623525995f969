//! The value classifier: predicates that decide whether a text fragment is an
//! integer literal, a float literal, an identifier, or a quoted string
//! literal, and the extraction routine that resolves escape sequences inside
//! a quoted string literal.

use vstd::prelude::*;

use crate::text::{is_digit_char, is_letter_char};

verus! {

/// One or more decimal digits.
pub open spec fn is_int_text(s: Seq<char>) -> bool {
    s.len() > 0 && forall|j: int| 0 <= j < s.len() ==> is_digit_char(s[j])
}

/// One or more digits, a literal dot, then one or more digits.
pub open spec fn is_float_text(s: Seq<char>) -> bool {
    exists|k: int|
        0 <= k < s.len() && s[k] == '.' && is_int_text(s.take(k)) && is_int_text(
            s.skip(k + 1),
        )
}

/// `s` is letters up to position `k` and digits from there on, with at least
/// one letter.
pub open spec fn var_split_at(s: Seq<char>, k: int) -> bool {
    1 <= k <= s.len() && (forall|i: int| 0 <= i < k ==> is_letter_char(s[i])) && (forall|i: int|
        k <= i < s.len() ==> is_digit_char(s[i]))
}

/// One or more letters followed by zero or more trailing digits.
pub open spec fn is_var_text(s: Seq<char>) -> bool {
    exists|k: int| var_split_at(s, k)
}

/// Begins and ends with a single-quote character; the content between is
/// unconstrained, including being empty.
pub open spec fn is_string_text(s: Seq<char>) -> bool {
    s.len() >= 2 && s[0] == '\'' && s[s.len() - 1] == '\''
}

/// The characters accepted after a backslash inside a quoted string literal.
pub open spec fn escape_ok(c: char) -> bool {
    c == 'n' || c == 't' || c == 'r' || c == '\\' || c == '"' || c == '\''
}

/// The quoted-string scan: walk `s` toggling an "inside the string" flag on
/// each unescaped single-quote and accumulate the characters seen while
/// inside. An accepted escape contributes the character that follows the
/// backslash, copied verbatim rather than decoded; any other use of a
/// backslash inside the string fails the scan (`None`).
pub open spec fn scan_string(s: Seq<char>, inside: bool) -> Option<Seq<char>>
    decreases s.len(),
{
    if s.len() == 0 {
        Some(Seq::empty())
    } else if !inside {
        scan_string(s.drop_first(), s[0] == '\'')
    } else if s[0] == '\\' {
        if s.len() >= 2 && escape_ok(s[1]) {
            match scan_string(s.skip(2), true) {
                Some(t) => Some(seq![s[1]] + t),
                None => None,
            }
        } else {
            None
        }
    } else if s[0] == '\'' {
        scan_string(s.drop_first(), false)
    } else {
        match scan_string(s.drop_first(), true) {
            Some(t) => Some(seq![s[0]] + t),
            None => None,
        }
    }
}

/// The character a failed scan complains about: the character that follows
/// the offending backslash, or the backslash itself when nothing follows it.
pub open spec fn scan_bad_char(s: Seq<char>, inside: bool) -> char
    decreases s.len(),
{
    if s.len() == 0 {
        '\\'
    } else if !inside {
        scan_bad_char(s.drop_first(), s[0] == '\'')
    } else if s[0] == '\\' {
        if s.len() >= 2 && escape_ok(s[1]) {
            scan_bad_char(s.skip(2), true)
        } else if s.len() >= 2 {
            s[1]
        } else {
            '\\'
        }
    } else if s[0] == '\'' {
        scan_bad_char(s.drop_first(), false)
    } else {
        scan_bad_char(s.drop_first(), true)
    }
}

/// `s` with every single-quote character removed, embedded ones included.
pub open spec fn strip_quotes(s: Seq<char>) -> Seq<char>
    decreases s.len(),
{
    if s.len() == 0 {
        Seq::empty()
    } else if s.last() == '\'' {
        strip_quotes(s.drop_last())
    } else {
        strip_quotes(s.drop_last()).push(s.last())
    }
}

/// An integer-literal text over a range of `s` is the same as every character
/// of the range being a digit, the range being non-empty.
pub proof fn lemma_int_text_range(s: Seq<char>, a: int, b: int)
    requires
        0 <= a <= b <= s.len(),
    ensures
        is_int_text(s.subrange(a, b)) <==> (b - a > 0 && forall|j: int|
            a <= j < b ==> is_digit_char(s[j])),
{
    let sub = s.subrange(a, b);
    if is_int_text(sub) {
        assert forall|j: int| a <= j < b implies is_digit_char(s[j]) by {
            assert(is_digit_char(sub[j - a]));
        }
    }
    if b - a > 0 && (forall|j: int| a <= j < b ==> is_digit_char(s[j])) {
        assert forall|j: int| 0 <= j < sub.len() implies is_digit_char(sub[j]) by {
            assert(sub[j] == s[a + j]);
        }
    }
}

/// A float-literal text has exactly one possible split point: the first dot.
pub proof fn lemma_float_first_dot(s: Seq<char>)
    ensures
        is_float_text(s) <==> (find_dot(s) != -1 && is_int_text(s.take(find_dot(s)))
            && is_int_text(s.skip(find_dot(s) + 1))),
{
    crate::text::lemma_find_char_range(s, '.');
    let k = find_dot(s);
    if is_float_text(s) {
        let k2 = choose|k2: int|
            0 <= k2 < s.len() && s[k2] == '.' && is_int_text(s.take(k2)) && is_int_text(
                s.skip(k2 + 1),
            );
        assert forall|j: int| 0 <= j < k2 implies s[j] != '.' by {
            assert(is_digit_char(s.take(k2)[j]));
            assert(s.take(k2)[j] == s[j]);
        }
        crate::text::lemma_find_char_first(s, '.', k2);
    }
    if k != -1 && is_int_text(s.take(k)) && is_int_text(s.skip(k + 1)) {
        assert(0 <= k < s.len() && s[k] == '.');
        assert(is_float_text(s)) by {
            assert(s[k] == '.' && is_int_text(s.take(k)) && is_int_text(s.skip(k + 1)));
        }
    }
}

/// The first dot in `s`, or -1.
pub open spec fn find_dot(s: Seq<char>) -> int {
    crate::text::find_char(s, '.')
}

/// An identifier text splits exactly at the end of its maximal letter prefix.
pub proof fn lemma_var_split(s: Seq<char>, k: int)
    requires
        0 <= k <= s.len(),
        forall|i: int| 0 <= i < k ==> is_letter_char(s[i]),
        k == s.len() || !is_letter_char(s[k]),
    ensures
        is_var_text(s) <==> (k >= 1 && forall|i: int| k <= i < s.len() ==> is_digit_char(s[i])),
{
    if is_var_text(s) {
        let k2 = choose|k2: int| var_split_at(s, k2);
        if k2 > k {
            assert(is_letter_char(s[k]));
            assert(false);
        }
        assert(k >= 1);
        assert forall|i: int| k <= i < s.len() implies is_digit_char(s[i]) by {
            assert(k2 <= i);
        }
    }
    if k >= 1 && (forall|i: int| k <= i < s.len() ==> is_digit_char(s[i])) {
        assert(is_var_text(s)) by {
            assert(var_split_at(s, k));
        }
    }
}

fn is_digit(c: char) -> (r: bool)
    ensures
        r == is_digit_char(c),
{
    c >= '0' && c <= '9'
}

fn is_letter(c: char) -> (r: bool)
    ensures
        r == is_letter_char(c),
{
    (c >= 'a' && c <= 'z') || (c >= 'A' && c <= 'Z')
}

/// Every character of `s` in the range `[a, b)` is a decimal digit.
fn digits_in(s: &str, a: usize, b: usize) -> (r: bool)
    requires
        a <= b <= s@.len(),
    ensures
        r == forall|j: int| a <= j < b ==> is_digit_char(s@[j]),
{
    let mut i: usize = a;
    while i < b
        invariant
            a <= i <= b <= s@.len(),
            forall|j: int| a <= j < i ==> is_digit_char(s@[j]),
        decreases b - i,
    {
        if !is_digit(s.get_char(i)) {
            assert(!is_digit_char(s@[i as int]));
            return false;
        }
        i = i + 1;
    }
    true
}

/// True exactly when the text is one or more decimal digits.
pub fn is_int(input_string: &String) -> (r: bool)
    ensures
        r == is_int_text(input_string@),
{
    let s = input_string.as_str();
    let n: usize = s.unicode_len();
    n > 0 && digits_in(s, 0, n)
}

/// True exactly when the text is one or more digits, a dot, then one or more
/// digits: no sign, no exponent, no leading or trailing dot.
pub fn is_float(input_string: &String) -> (r: bool)
    ensures
        r == is_float_text(input_string@),
{
    let s = input_string.as_str();
    let n: usize = s.unicode_len();
    let mut k: usize = 0;
    while k < n && s.get_char(k) != '.'
        invariant
            k <= n,
            n == s@.len(),
            forall|j: int| 0 <= j < k ==> s@[j] != '.',
        decreases n - k,
    {
        k = k + 1;
    }
    proof {
        lemma_float_first_dot(s@);
        if k < n {
            crate::text::lemma_find_char_first(s@, '.', k as int);
        } else {
            crate::text::lemma_find_char_none(s@, '.');
        }
    }
    if k == n {
        return false;
    }
    let r = k >= 1 && k + 1 < n && digits_in(s, 0, k) && digits_in(s, k + 1, n);
    proof {
        lemma_int_text_range(s@, 0, k as int);
        lemma_int_text_range(s@, k as int + 1, n as int);
        assert(s@.subrange(0, k as int) =~= s@.take(k as int));
        assert(s@.subrange(k as int + 1, n as int) =~= s@.skip(k as int + 1));
    }
    r
}

/// True exactly when the text is one or more letters followed by zero or
/// more trailing digits.
pub fn is_var(input_string: &String) -> (r: bool)
    ensures
        r == is_var_text(input_string@),
{
    let s = input_string.as_str();
    let n: usize = s.unicode_len();
    let mut k: usize = 0;
    while k < n && is_letter(s.get_char(k))
        invariant
            k <= n,
            n == s@.len(),
            forall|i: int| 0 <= i < k ==> is_letter_char(s@[i]),
        decreases n - k,
    {
        k = k + 1;
    }
    let r = k >= 1 && digits_in(s, k, n);
    proof {
        lemma_var_split(s@, k as int);
    }
    r
}

/// True exactly when the text begins and ends with a single-quote character.
pub fn is_string(input_string: &String) -> (r: bool)
    ensures
        r == is_string_text(input_string@),
{
    let s = input_string.as_str();
    let n: usize = s.unicode_len();
    n >= 2 && s.get_char(0) == '\'' && s.get_char(n - 1) == '\''
}

/// Runs the quoted-string scan over `text` and returns the accumulated
/// content re-wrapped in a single pair of delimiting quotes. An unrecognized
/// escape sequence fails with the offending character (the one that follows
/// the backslash, or the backslash itself when it ends the text).
pub fn extract_string(text: &str) -> (r: Result<String, char>)
    ensures
        ({
            let sc = scan_string(text@, false);
            match r {
                Ok(w) => sc matches Some(c) && w@ == seq!['\''] + c + seq!['\''],
                Err(ch) => sc is None && ch == scan_bad_char(text@, false),
            }
        }),
{
    let n: usize = text.unicode_len();
    let mut content: String = String::new();
    let mut inside: bool = false;
    let mut i: usize = 0;
    proof {
        assert(text@.skip(0) =~= text@);
    }
    while i < n
        invariant
            i <= n,
            n == text@.len(),
            ({
                let sc = scan_string(text@.skip(i as int), inside);
                let full = scan_string(text@, false);
                match sc {
                    Some(t) => full matches Some(ft) && ft == content@ + t,
                    None => full is None && scan_bad_char(text@, false) == scan_bad_char(
                        text@.skip(i as int),
                        inside,
                    ),
                }
            }),
        decreases n - i,
    {
        let ghost tail = text@.skip(i as int);
        proof {
            assert(tail.drop_first() =~= text@.skip(i as int + 1));
        }
        let c = text.get_char(i);
        if inside {
            if c == '\\' {
                if i + 1 < n {
                    let e = text.get_char(i + 1);
                    if e == 'n' || e == 't' || e == 'r' || e == '\\' || e == '"' || e == '\'' {
                        let ghost content_old = content@;
                        content.append(text.substring_char(i + 1, i + 2));
                        proof {
                            assert(tail.skip(2) =~= text@.skip(i as int + 2));
                            assert(content@ =~= content_old + seq![tail[1]]);
                            match scan_string(text@.skip(i as int + 2), true) {
                                Some(t) => {
                                    assert(content_old + (seq![tail[1]] + t) =~= content@ + t);
                                },
                                None => {},
                            }
                        }
                        i = i + 2;
                    } else {
                        return Err(e);
                    }
                } else {
                    proof {
                        assert(tail.len() == 1);
                    }
                    return Err('\\');
                }
            } else if c == '\'' {
                inside = false;
                i = i + 1;
            } else {
                let ghost content_old = content@;
                content.append(text.substring_char(i, i + 1));
                proof {
                    assert(content@ =~= content_old + seq![tail[0]]);
                    match scan_string(text@.skip(i as int + 1), true) {
                        Some(t) => {
                            assert(content_old + (seq![tail[0]] + t) =~= content@ + t);
                        },
                        None => {},
                    }
                }
                i = i + 1;
            }
        } else {
            inside = c == '\'';
            i = i + 1;
        }
    }
    proof {
        assert(text@.skip(n as int) =~= Seq::<char>::empty());
        assert(content@ + Seq::<char>::empty() =~= content@);
    }
    let mut out: String = String::from_str("'");
    out.append(content.as_str());
    out.append("'");
    proof {
        reveal_strlit("'");
        assert("'"@ =~= seq!['\'']);
        assert(out@ =~= seq!['\''] + content@ + seq!['\'']);
    }
    Ok(out)
}

/// Removes every single-quote character from `s`, the delimiting pair and
/// any embedded ones alike.
pub fn strip_quotes_exec(s: &str) -> (r: String)
    ensures
        r@ == strip_quotes(s@),
{
    let n: usize = s.unicode_len();
    let mut r: String = String::new();
    let mut i: usize = 0;
    proof {
        assert(s@.take(0) =~= Seq::<char>::empty());
    }
    while i < n
        invariant
            i <= n,
            n == s@.len(),
            r@ == strip_quotes(s@.take(i as int)),
        decreases n - i,
    {
        let c = s.get_char(i);
        proof {
            assert(s@.take(i as int + 1).drop_last() =~= s@.take(i as int));
            assert(s@.take(i as int + 1).last() == s@[i as int]);
        }
        if c != '\'' {
            r.append(s.substring_char(i, i + 1));
            proof {
                assert(s@.subrange(i as int, i as int + 1) =~= seq![s@[i as int]]);
                assert(r@ =~= strip_quotes(s@.take(i as int)).push(s@[i as int]));
            }
        }
        i = i + 1;
    }
    proof {
        assert(s@.take(n as int) =~= s@);
    }
    r
}

} // verus!
