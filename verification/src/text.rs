//! Verified text utilities over `&str` / `String` (viewed as `Seq<char>`):
//! whitespace trimming, substring search, whitespace tokenization and decimal
//! rendering.  These are the building blocks of the bridge-output parsers.

use vstd::prelude::*;

verus! {

/// The whitespace characters recognized by this crate's parsers (the ASCII
/// whitespace set, which is all the device-bridge tool ever emits).
pub open spec fn is_space_char(c: char) -> bool {
    c == ' ' || c == '\t' || c == '\n' || c == '\r' || c == '\u{b}' || c == '\u{c}'
}

pub fn is_space(c: char) -> (r: bool)
    ensures
        r == is_space_char(c),
{
    c == ' ' || c == '\t' || c == '\n' || c == '\r' || c == '\u{b}' || c == '\u{c}'
}

pub open spec fn trim_start_rec(s: Seq<char>) -> Seq<char>
    decreases s.len(),
{
    if s.len() > 0 && is_space_char(s[0]) {
        trim_start_rec(s.drop_first())
    } else {
        s
    }
}

pub open spec fn trim_end_rec(s: Seq<char>) -> Seq<char>
    decreases s.len(),
{
    if s.len() > 0 && is_space_char(s.last()) {
        trim_end_rec(s.drop_last())
    } else {
        s
    }
}

/// A string with leading and trailing whitespace removed.
pub open spec fn spec_trim(s: Seq<char>) -> Seq<char> {
    trim_end_rec(trim_start_rec(s))
}

fn trim_start(s: &str) -> (r: &str)
    ensures
        r@ == trim_start_rec(s@),
    decreases s@.len(),
{
    let n = s.unicode_len();
    if n > 0 && is_space(s.get_char(0)) {
        let rest = s.substring_char(1, n);
        proof {
            assert(rest@ =~= s@.drop_first());
        }
        trim_start(rest)
    } else {
        s
    }
}

fn trim_end(s: &str) -> (r: &str)
    ensures
        r@ == trim_end_rec(s@),
    decreases s@.len(),
{
    let n = s.unicode_len();
    if n > 0 && is_space(s.get_char(n - 1)) {
        let rest = s.substring_char(0, n - 1);
        proof {
            assert(rest@ =~= s@.drop_last());
        }
        trim_end(rest)
    } else {
        s
    }
}

pub fn trim_str(s: &str) -> (r: &str)
    ensures
        r@ == spec_trim(s@),
{
    trim_end(trim_start(s))
}

/// The pattern `pat` occurs in `text` starting at position `i`.
pub open spec fn matches_at(text: Seq<char>, pat: Seq<char>, i: int) -> bool {
    0 <= i && i + pat.len() <= text.len() && text.subrange(i, i + pat.len() as int) == pat
}

/// The pattern `pat` occurs somewhere in `text`.
pub open spec fn spec_contains(text: Seq<char>, pat: Seq<char>) -> bool {
    exists|i: int| matches_at(text, pat, i)
}

pub open spec fn spec_starts_with(s: Seq<char>, p: Seq<char>) -> bool {
    p.len() <= s.len() && s.subrange(0, p.len() as int) == p
}

pub fn starts_with_str(s: &str, p: &str) -> (r: bool)
    ensures
        r == spec_starts_with(s@, p@),
{
    let sn = s.unicode_len();
    let pn = p.unicode_len();
    if pn > sn {
        return false;
    }
    let mut k: usize = 0;
    while k < pn
        invariant
            k <= pn <= sn,
            sn == s@.len(),
            pn == p@.len(),
            forall|j: int| 0 <= j < k ==> s@[j] == p@[j],
        decreases pn - k,
    {
        if s.get_char(k) != p.get_char(k) {
            proof {
                assert(s@.subrange(0, pn as int)[k as int] != p@[k as int]);
            }
            return false;
        }
        k += 1;
    }
    proof {
        assert(s@.subrange(0, pn as int) =~= p@);
    }
    true
}

pub fn eq_str(a: &str, b: &str) -> (r: bool)
    ensures
        r == (a@ == b@),
{
    let an = a.unicode_len();
    let bn = b.unicode_len();
    if an != bn {
        return false;
    }
    let r = starts_with_str(a, b);
    proof {
        assert(a@.subrange(0, bn as int) =~= a@);
    }
    r
}

/// Substring search; quadratic, which is fine for the short lines this crate
/// parses.
pub fn contains_str(text: &str, pat: &str) -> (r: bool)
    ensures
        r == spec_contains(text@, pat@),
    decreases text@.len(),
{
    if starts_with_str(text, pat) {
        proof {
            assert(matches_at(text@, pat@, 0));
        }
        return true;
    }
    let n = text.unicode_len();
    if n == 0 {
        proof {
            assert forall|i: int| !matches_at(text@, pat@, i) by {
                if matches_at(text@, pat@, i) {
                    assert(text@.subrange(i, i + pat@.len() as int) == pat@);
                    assert(i == 0);
                }
            }
        }
        return false;
    }
    let rest = text.substring_char(1, n);
    proof {
        assert(rest@ =~= text@.drop_first());
    }
    let r = contains_str(rest, pat);
    proof {
        if r {
            let i = choose|i: int| matches_at(rest@, pat@, i);
            assert(text@.subrange(i + 1, i + 1 + pat@.len() as int) =~= rest@.subrange(
                i,
                i + pat@.len() as int,
            ));
            assert(matches_at(text@, pat@, i + 1));
        } else {
            assert forall|i: int| !matches_at(text@, pat@, i) by {
                if matches_at(text@, pat@, i) {
                    if i == 0 {
                        assert(spec_starts_with(text@, pat@));
                    } else {
                        assert(rest@.subrange(i - 1, i - 1 + pat@.len() as int) =~= text@.subrange(
                            i,
                            i + pat@.len() as int,
                        ));
                        assert(matches_at(rest@, pat@, i - 1));
                    }
                }
            }
        }
    }
    r
}

/// Index of the first occurrence of `pat` in `text`, or -1 when absent.
pub open spec fn spec_find(text: Seq<char>, pat: Seq<char>) -> int
    decreases text.len(),
{
    if spec_starts_with(text, pat) {
        0
    } else if text.len() == 0 {
        -1
    } else if spec_find(text.drop_first(), pat) == -1 {
        -1
    } else {
        spec_find(text.drop_first(), pat) + 1
    }
}

pub proof fn lemma_find_characterizes(text: Seq<char>, pat: Seq<char>)
    ensures
        spec_find(text, pat) >= -1,
        spec_find(text, pat) == -1 <==> !spec_contains(text, pat),
        spec_find(text, pat) >= 0 ==> matches_at(text, pat, spec_find(text, pat)) && forall|j: int|
            0 <= j < spec_find(text, pat) ==> !matches_at(text, pat, j),
    decreases text.len(),
{
    if spec_starts_with(text, pat) {
        assert(matches_at(text, pat, 0));
    } else if text.len() == 0 {
        assert forall|i: int| !matches_at(text, pat, i) by {
            if matches_at(text, pat, i) {
                assert(text.subrange(i, i + pat.len() as int) == pat);
                assert(i == 0);
            }
        }
    } else {
        let rest = text.drop_first();
        lemma_find_characterizes(rest, pat);
        assert forall|i: int| matches_at(text, pat, i) && i >= 1 implies matches_at(
            rest,
            pat,
            i - 1,
        ) by {
            assert(rest.subrange(i - 1, i - 1 + pat.len() as int) =~= text.subrange(
                i,
                i + pat.len() as int,
            ));
        }
        assert forall|i: int| matches_at(rest, pat, i) implies matches_at(text, pat, i + 1) by {
            assert(text.subrange(i + 1, i + 1 + pat.len() as int) =~= rest.subrange(
                i,
                i + pat.len() as int,
            ));
        }
        if spec_find(rest, pat) == -1 {
            assert forall|i: int| !matches_at(text, pat, i) by {
                if matches_at(text, pat, i) {
                    if i == 0 {
                        assert(spec_starts_with(text, pat));
                    } else {
                        assert(matches_at(rest, pat, i - 1));
                        assert(spec_contains(rest, pat));
                    }
                }
            }
        } else {
            let f = spec_find(rest, pat);
            assert(text.subrange(f + 1, f + 1 + pat.len() as int) =~= rest.subrange(
                f,
                f + pat.len() as int,
            ));
            assert(matches_at(text, pat, f + 1));
            assert forall|j: int| 0 <= j < f + 1 implies !matches_at(text, pat, j) by {
                if matches_at(text, pat, j) {
                    if j == 0 {
                        assert(spec_starts_with(text, pat));
                    } else {
                        assert(matches_at(rest, pat, j - 1));
                    }
                }
            }
        }
    }
}

/// First occurrence of `pat` in `text`, as a character index.
pub fn find_str(text: &str, pat: &str) -> (r: Option<usize>)
    ensures
        match r {
            Some(i) => spec_find(text@, pat@) == i,
            None => spec_find(text@, pat@) == -1,
        },
    decreases text@.len(),
{
    if starts_with_str(text, pat) {
        return Some(0);
    }
    let n = text.unicode_len();
    if n == 0 {
        return None;
    }
    let rest = text.substring_char(1, n);
    proof {
        assert(rest@ =~= text@.drop_first());
        lemma_find_characterizes(rest@, pat@);
    }
    match find_str(rest, pat) {
        // the recursion consumes one character per step, so the index fits
        Some(i) => Some(i + 1),
        None => None,
    }
}

/// Index of the first occurrence of the character `c`, or -1 when absent.
pub open spec fn spec_find_char(s: Seq<char>, c: char) -> int
    decreases s.len(),
{
    if s.len() == 0 {
        -1
    } else if s[0] == c {
        0
    } else if spec_find_char(s.drop_first(), c) == -1 {
        -1
    } else {
        spec_find_char(s.drop_first(), c) + 1
    }
}

pub proof fn lemma_find_char_characterizes(s: Seq<char>, c: char)
    ensures
        spec_find_char(s, c) >= -1,
        spec_find_char(s, c) == -1 <==> (forall|j: int| 0 <= j < s.len() ==> s[j] != c),
        spec_find_char(s, c) >= 0 ==> spec_find_char(s, c) < s.len() && s[spec_find_char(s, c)]
            == c && forall|j: int| 0 <= j < spec_find_char(s, c) ==> s[j] != c,
    decreases s.len(),
{
    if s.len() > 0 && s[0] != c {
        let rest = s.drop_first();
        lemma_find_char_characterizes(rest, c);
        let f = spec_find_char(rest, c);
        if f == -1 {
            assert forall|j: int| 0 <= j < s.len() implies s[j] != c by {
                if j > 0 {
                    assert(s[j] == rest[j - 1]);
                }
            }
        } else {
            assert(s[f + 1] == rest[f]);
            assert forall|j: int| 0 <= j < f + 1 implies s[j] != c by {
                if j > 0 {
                    assert(s[j] == rest[j - 1]);
                }
            }
        }
    }
}

pub fn find_char(s: &str, c: char) -> (r: Option<usize>)
    ensures
        match r {
            Some(i) => spec_find_char(s@, c) == i,
            None => spec_find_char(s@, c) == -1,
        },
    decreases s@.len(),
{
    let n = s.unicode_len();
    if n == 0 {
        return None;
    }
    if s.get_char(0) == c {
        return Some(0);
    }
    let rest = s.substring_char(1, n);
    proof {
        assert(rest@ =~= s@.drop_first());
        lemma_find_char_characterizes(rest@, c);
    }
    match find_char(rest, c) {
        Some(i) => Some(i + 1),
        None => None,
    }
}

/// Case-folded character code: upper-case ASCII letters map to their
/// lower-case counterparts, every other character to itself.
pub open spec fn lower_code(c: char) -> int {
    if 65 <= c as int <= 90 {
        c as int + 32
    } else {
        c as int
    }
}

pub open spec fn eq_ci(a: char, b: char) -> bool {
    lower_code(a) == lower_code(b)
}

pub open spec fn matches_at_ci(text: Seq<char>, pat: Seq<char>, i: int) -> bool {
    0 <= i && i + pat.len() <= text.len() && forall|k: int|
        0 <= k < pat.len() ==> eq_ci(text[i + k], pat[k])
}

/// `pat` occurs in `text` up to ASCII case.
pub open spec fn spec_contains_ci(text: Seq<char>, pat: Seq<char>) -> bool {
    exists|i: int| matches_at_ci(text, pat, i)
}

fn eq_ci_exec(a: char, b: char) -> (r: bool)
    ensures
        r == eq_ci(a, b),
{
    let ac = a as u32;
    let bc = b as u32;
    let af = if 65 <= ac && ac <= 90 {
        ac + 32
    } else {
        ac
    };
    let bf = if 65 <= bc && bc <= 90 {
        bc + 32
    } else {
        bc
    };
    af == bf
}

fn starts_with_ci(s: &str, p: &str) -> (r: bool)
    ensures
        r == matches_at_ci(s@, p@, 0),
{
    let sn = s.unicode_len();
    let pn = p.unicode_len();
    if pn > sn {
        return false;
    }
    let mut k: usize = 0;
    while k < pn
        invariant
            k <= pn <= sn,
            sn == s@.len(),
            pn == p@.len(),
            forall|j: int| 0 <= j < k ==> eq_ci(s@[j], p@[j]),
        decreases pn - k,
    {
        if !eq_ci_exec(s.get_char(k), p.get_char(k)) {
            return false;
        }
        k += 1;
    }
    true
}

pub fn contains_ci(text: &str, pat: &str) -> (r: bool)
    ensures
        r == spec_contains_ci(text@, pat@),
    decreases text@.len(),
{
    if starts_with_ci(text, pat) {
        return true;
    }
    let n = text.unicode_len();
    if n == 0 {
        proof {
            assert forall|i: int| !matches_at_ci(text@, pat@, i) by {
                if matches_at_ci(text@, pat@, i) {
                    assert(i == 0);
                }
            }
        }
        return false;
    }
    let rest = text.substring_char(1, n);
    proof {
        assert(rest@ =~= text@.drop_first());
    }
    let r = contains_ci(rest, pat);
    proof {
        if r {
            let i = choose|i: int| matches_at_ci(rest@, pat@, i);
            assert forall|k: int| 0 <= k < pat@.len() implies eq_ci(text@[i + 1 + k], pat@[k]) by {
                assert(text@[i + 1 + k] == rest@[i + k]);
            }
            assert(matches_at_ci(text@, pat@, i + 1));
        } else {
            assert forall|i: int| !matches_at_ci(text@, pat@, i) by {
                if matches_at_ci(text@, pat@, i) {
                    if i == 0 {
                    } else {
                        assert forall|k: int| 0 <= k < pat@.len() implies eq_ci(
                            rest@[i - 1 + k],
                            pat@[k],
                        ) by {
                            assert(rest@[i - 1 + k] == text@[i + k]);
                        }
                        assert(matches_at_ci(rest@, pat@, i - 1));
                    }
                }
            }
        }
    }
    r
}

/// Length of the maximal run of non-whitespace characters at the front.
pub open spec fn token_len(s: Seq<char>) -> int
    decreases s.len(),
{
    if s.len() == 0 || is_space_char(s[0]) {
        0
    } else {
        1 + token_len(s.drop_first())
    }
}

pub proof fn lemma_token_len_characterizes(s: Seq<char>)
    ensures
        0 <= token_len(s) <= s.len(),
        forall|j: int| 0 <= j < token_len(s) ==> !is_space_char(s[j]),
        token_len(s) < s.len() ==> is_space_char(s[token_len(s)]),
    decreases s.len(),
{
    if s.len() > 0 && !is_space_char(s[0]) {
        let rest = s.drop_first();
        lemma_token_len_characterizes(rest);
        assert forall|j: int| 0 <= j < token_len(s) implies !is_space_char(s[j]) by {
            if j > 0 {
                assert(s[j] == rest[j - 1]);
            }
        }
        if token_len(s) < s.len() {
            assert(s[token_len(s)] == rest[token_len(s) - 1]);
        }
    }
}

/// The whitespace-separated tokens of `s`, in order.
pub open spec fn spec_tokens(s: Seq<char>) -> Seq<Seq<char>>
    decreases s.len(),
    via spec_tokens_decreases
{
    if s.len() == 0 {
        Seq::empty()
    } else if is_space_char(s[0]) {
        spec_tokens(s.drop_first())
    } else {
        seq![s.take(token_len(s))] + spec_tokens(s.skip(token_len(s)))
    }
}

#[via_fn]
proof fn spec_tokens_decreases(s: Seq<char>) {
    lemma_token_len_characterizes(s);
}

fn token_end(s: &str) -> (t: usize)
    ensures
        t == token_len(s@),
    decreases s@.len(),
{
    proof {
        lemma_token_len_characterizes(s@);
    }
    let n = s.unicode_len();
    if n == 0 || is_space(s.get_char(0)) {
        0
    } else {
        let rest = s.substring_char(1, n);
        proof {
            assert(rest@ =~= s@.drop_first());
            lemma_token_len_characterizes(rest@);
        }
        1 + token_end(rest)
    }
}

/// Splits on runs of whitespace, like the tokenization the device listing
/// uses; empty input or all-whitespace input yields no tokens.
pub fn split_ws(s: &str) -> (r: Vec<String>)
    ensures
        r@.len() == spec_tokens(s@).len(),
        forall|i: int| 0 <= i < r@.len() ==> r@[i]@ == spec_tokens(s@)[i],
    decreases s@.len(),
{
    let n = s.unicode_len();
    if n == 0 {
        return Vec::new();
    }
    if is_space(s.get_char(0)) {
        let rest = s.substring_char(1, n);
        proof {
            assert(rest@ =~= s@.drop_first());
        }
        return split_ws(rest);
    }
    let t = token_end(s);
    proof {
        lemma_token_len_characterizes(s@);
    }
    let head = String::from_str(s.substring_char(0, t));
    let rest = s.substring_char(t, n);
    proof {
        assert(head@ =~= s@.take(token_len(s@)));
        assert(rest@ =~= s@.skip(token_len(s@)));
    }
    let mut tail = split_ws(rest);
    let mut out: Vec<String> = Vec::new();
    out.push(head);
    out.append(&mut tail);
    proof {
        assert(spec_tokens(s@) == seq![s@.take(token_len(s@))] + spec_tokens(
            s@.skip(token_len(s@)),
        ));
    }
    out
}

/// The lines of `s`, splitting on `'\n'`; the final line is kept even when
/// empty, and any `'\r'` is left for the tokenizers and trimmers to discard.
pub open spec fn spec_lines(s: Seq<char>) -> Seq<Seq<char>>
    decreases s.len(),
    via spec_lines_decreases
{
    if spec_find_char(s, '\n') == -1 {
        seq![s]
    } else {
        seq![s.take(spec_find_char(s, '\n'))] + spec_lines(s.skip(spec_find_char(s, '\n') + 1))
    }
}

#[via_fn]
proof fn spec_lines_decreases(s: Seq<char>) {
    lemma_find_char_characterizes(s, '\n');
}

pub fn split_lines(s: &str) -> (r: Vec<String>)
    ensures
        r@.len() == spec_lines(s@).len(),
        forall|i: int| 0 <= i < r@.len() ==> r@[i]@ == spec_lines(s@)[i],
    decreases s@.len(),
{
    proof {
        lemma_find_char_characterizes(s@, '\n');
    }
    match find_char(s, '\n') {
        None => {
            let mut v: Vec<String> = Vec::new();
            v.push(String::from_str(s));
            v
        },
        Some(i) => {
            let n = s.unicode_len();
            let head = String::from_str(s.substring_char(0, i));
            let rest = s.substring_char(i + 1, n);
            proof {
                assert(head@ =~= s@.take(i as int));
                assert(rest@ =~= s@.skip(i + 1));
            }
            let mut out: Vec<String> = Vec::new();
            out.push(head);
            let mut tail = split_lines(rest);
            out.append(&mut tail);
            out
        },
    }
}

pub open spec fn digit_char(d: int) -> char {
    if d == 0 {
        '0'
    } else if d == 1 {
        '1'
    } else if d == 2 {
        '2'
    } else if d == 3 {
        '3'
    } else if d == 4 {
        '4'
    } else if d == 5 {
        '5'
    } else if d == 6 {
        '6'
    } else if d == 7 {
        '7'
    } else if d == 8 {
        '8'
    } else {
        '9'
    }
}

/// The decimal rendering of `n`, without leading zeros (except for 0 itself).
pub open spec fn dec_digits(n: nat) -> Seq<char>
    decreases n,
{
    if n < 10 {
        seq![digit_char(n as int)]
    } else {
        dec_digits(n / 10).push(digit_char((n % 10) as int))
    }
}

fn digit_str(d: u64) -> (r: &'static str)
    requires
        d < 10,
    ensures
        r@ == seq![digit_char(d as int)],
{
    if d == 0 {
        let s = "0";
        proof {
            reveal_strlit("0");
        }
        s
    } else if d == 1 {
        let s = "1";
        proof {
            reveal_strlit("1");
        }
        s
    } else if d == 2 {
        let s = "2";
        proof {
            reveal_strlit("2");
        }
        s
    } else if d == 3 {
        let s = "3";
        proof {
            reveal_strlit("3");
        }
        s
    } else if d == 4 {
        let s = "4";
        proof {
            reveal_strlit("4");
        }
        s
    } else if d == 5 {
        let s = "5";
        proof {
            reveal_strlit("5");
        }
        s
    } else if d == 6 {
        let s = "6";
        proof {
            reveal_strlit("6");
        }
        s
    } else if d == 7 {
        let s = "7";
        proof {
            reveal_strlit("7");
        }
        s
    } else if d == 8 {
        let s = "8";
        proof {
            reveal_strlit("8");
        }
        s
    } else {
        let s = "9";
        proof {
            reveal_strlit("9");
        }
        s
    }
}

/// Renders `n` in decimal.
pub fn u64_to_dec(n: u64) -> (r: String)
    ensures
        r@ == dec_digits(n as nat),
    decreases n,
{
    if n < 10 {
        String::from_str(digit_str(n))
    } else {
        let mut s = u64_to_dec(n / 10);
        s.append(digit_str(n % 10));
        proof {
            assert(s@ =~= dec_digits((n / 10) as nat).push(digit_char((n % 10) as int)));
        }
        s
    }
}

/// Concatenation returning a fresh `String`.
pub fn concat_str(a: &str, b: &str) -> (r: String)
    ensures
        r@ == a@ + b@,
{
    let s = String::from_str(a);
    s.concat(b)
}

} // verus!

