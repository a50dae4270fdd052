//! Character predicates and string operations the pipeline is built on:
//! case-insensitive substring matching, whitespace trimming and splitting,
//! and index parsing.

use vstd::prelude::*;

verus! {

/// The Unicode white-space code points, the set that `char::is_whitespace`
/// recognises.
pub open spec fn is_space_char(c: char) -> bool {
    let u = c as u32;
    u == 0x09 || u == 0x0A || u == 0x0B || u == 0x0C || u == 0x0D || u == 0x20
        || u == 0x85 || u == 0xA0 || u == 0x1680
        || (0x2000 <= u && u <= 0x200A)
        || u == 0x2028 || u == 0x2029 || u == 0x202F || u == 0x205F || u == 0x3000
}

pub fn is_space(c: char) -> (r: bool)
    ensures
        r == is_space_char(c),
{
    let u: u32 = c as u32;
    u == 0x09 || u == 0x0A || u == 0x0B || u == 0x0C || u == 0x0D || u == 0x20
        || u == 0x85 || u == 0xA0 || u == 0x1680
        || (0x2000 <= u && u <= 0x200A)
        || u == 0x2028 || u == 0x2029 || u == 0x202F || u == 0x205F || u == 0x3000
}

/// An ASCII letter, `a`..`z` or `A`..`Z`.
pub open spec fn is_ascii_letter_char(c: char) -> bool {
    let u = c as u32;
    (0x41 <= u && u <= 0x5A) || (0x61 <= u && u <= 0x7A)
}

pub fn is_ascii_letter(c: char) -> (r: bool)
    ensures
        r == is_ascii_letter_char(c),
{
    let u: u32 = c as u32;
    (0x41 <= u && u <= 0x5A) || (0x61 <= u && u <= 0x7A)
}

/// An ASCII decimal digit.
pub open spec fn is_digit_char(c: char) -> bool {
    let u = c as u32;
    0x30 <= u && u <= 0x39
}

pub fn is_digit(c: char) -> (r: bool)
    ensures
        r == is_digit_char(c),
{
    let u: u32 = c as u32;
    0x30 <= u && u <= 0x39
}

/// `needle` occurs in `hay` starting at position `i`.
pub open spec fn contains_at(hay: Seq<char>, i: int, needle: Seq<char>) -> bool {
    0 <= i && i + needle.len() <= hay.len() && hay.subrange(i, i + needle.len()) == needle
}

/// `needle` occurs somewhere in `hay` as a contiguous run of characters.
pub open spec fn seq_contains(hay: Seq<char>, needle: Seq<char>) -> bool {
    exists|i: int| contains_at(hay, i, needle)
}

fn window_eq(hay: &str, at: usize, needle: &str) -> (r: bool)
    requires
        at + needle@.len() <= hay@.len(),
    ensures
        r == contains_at(hay@, at as int, needle@),
{
    let hay_len = hay.unicode_len();
    let m = needle.unicode_len();
    let mut j: usize = 0;
    while j < m
        invariant
            j <= m,
            m == needle@.len(),
            hay_len == hay@.len(),
            at + m <= hay@.len(),
            forall|k: int| 0 <= k < j ==> hay@[at + k] == needle@[k],
        decreases m - j,
    {
        if hay.get_char(at + j) != needle.get_char(j) {
            proof {
                assert(hay@.subrange(at as int, at + needle@.len())[j as int] == hay@[at + j]);
            }
            return false;
        }
        j += 1;
    }
    proof {
        assert(hay@.subrange(at as int, at + needle@.len()) =~= needle@);
    }
    true
}

/// Case-sensitive substring test, the matcher's basic operation.
pub fn str_contains(hay: &str, needle: &str) -> (r: bool)
    ensures
        r == seq_contains(hay@, needle@),
{
    let n = hay.unicode_len();
    let m = needle.unicode_len();
    if m == 0 {
        proof {
            assert(hay@.subrange(0, 0) =~= needle@);
            assert(contains_at(hay@, 0, needle@));
        }
        return true;
    }
    if m > n {
        proof {
            assert(forall|i: int| !contains_at(hay@, i, needle@));
        }
        return false;
    }
    let mut i: usize = 0;
    while i <= n - m
        invariant
            1 <= m <= n,
            n == hay@.len(),
            m == needle@.len(),
            i <= n - m + 1,
            forall|k: int| 0 <= k < i ==> !contains_at(hay@, k, needle@),
        decreases n - m + 1 - i,
    {
        if window_eq(hay, i, needle) {
            return true;
        }
        i += 1;
    }
    proof {
        assert(forall|k: int| contains_at(hay@, k, needle@) ==> 0 <= k <= n - m);
    }
    false
}

/// `s` with its leading white space removed.
pub open spec fn trim_front(s: Seq<char>) -> Seq<char>
    decreases s.len(),
{
    if s.len() > 0 && is_space_char(s[0]) {
        trim_front(s.subrange(1, s.len() as int))
    } else {
        s
    }
}

/// `s` with its trailing white space removed.
pub open spec fn trim_back(s: Seq<char>) -> Seq<char>
    decreases s.len(),
{
    if s.len() > 0 && is_space_char(s[s.len() - 1]) {
        trim_back(s.subrange(0, s.len() - 1))
    } else {
        s
    }
}

/// `s` with white space removed from both ends, as `str::trim` leaves it.
pub open spec fn trim_spec(s: Seq<char>) -> Seq<char> {
    trim_back(trim_front(s))
}

proof fn lemma_trim_front_range(s: Seq<char>, a: int)
    requires
        0 <= a <= s.len(),
        forall|k: int| 0 <= k < a ==> is_space_char(s[k]),
        a < s.len() ==> !is_space_char(s[a]),
    ensures
        trim_front(s) == s.subrange(a, s.len() as int),
    decreases a,
{
    if a == 0 {
        assert(s.subrange(0, s.len() as int) =~= s);
    } else {
        let t = s.subrange(1, s.len() as int);
        lemma_trim_front_range(t, a - 1);
        assert(t.subrange(a - 1, t.len() as int) =~= s.subrange(a, s.len() as int));
    }
}

proof fn lemma_trim_back_range(s: Seq<char>, b: int)
    requires
        0 <= b <= s.len(),
        forall|k: int| b <= k < s.len() ==> is_space_char(s[k]),
        b > 0 ==> !is_space_char(s[b - 1]),
    ensures
        trim_back(s) == s.subrange(0, b),
    decreases s.len() - b,
{
    if b == s.len() {
        assert(s.subrange(0, b) =~= s);
    } else {
        let t = s.subrange(0, s.len() - 1);
        lemma_trim_back_range(t, b);
        assert(t.subrange(0, b) =~= s.subrange(0, b));
    }
}

/// White space trimmed from both ends of `s`, the way user input lines are
/// normalised before parsing.
pub fn trim<'a>(s: &'a str) -> (r: &'a str)
    ensures
        r@ == trim_spec(s@),
{
    let n = s.unicode_len();
    let mut a: usize = 0;
    while a < n && is_space(s.get_char(a))
        invariant
            a <= n,
            n == s@.len(),
            forall|k: int| 0 <= k < a ==> is_space_char(s@[k]),
        decreases n - a,
    {
        a += 1;
    }
    proof {
        lemma_trim_front_range(s@, a as int);
    }
    let mut b: usize = n;
    while b > a && is_space(s.get_char(b - 1))
        invariant
            a <= b <= n,
            n == s@.len(),
            forall|k: int| b <= k < n ==> is_space_char(s@[k]),
        decreases b,
    {
        b -= 1;
    }
    proof {
        let t = s@.subrange(a as int, n as int);
        lemma_trim_back_range(t, b - a);
        assert(t.subrange(0, b - a) =~= s@.subrange(a as int, b as int));
    }
    s.substring_char(a, b)
}

/// The numeric weight of a decimal digit character.
pub open spec fn digit_val(c: char) -> int {
    c as u32 - 0x30
}

/// Every character of `s` is a decimal digit.
pub open spec fn all_digits(s: Seq<char>) -> bool {
    forall|i: int| 0 <= i < s.len() ==> is_digit_char(s[i])
}

/// The value of `s` read as a decimal numeral.
pub open spec fn digits_value(s: Seq<char>) -> int
    decreases s.len(),
{
    if s.len() == 0 {
        0
    } else {
        digits_value(s.subrange(0, s.len() - 1)) * 10 + digit_val(s[s.len() - 1])
    }
}

proof fn lemma_digits_value_nonneg(s: Seq<char>)
    requires
        all_digits(s),
    ensures
        digits_value(s) >= 0,
    decreases s.len(),
{
    if s.len() > 0 {
        let t = s.subrange(0, s.len() - 1);
        lemma_digits_value_nonneg(t);
    }
}

proof fn lemma_digits_value_mono(s: Seq<char>, i: int)
    requires
        0 <= i <= s.len(),
        all_digits(s),
    ensures
        digits_value(s.subrange(0, i)) <= digits_value(s),
    decreases s.len() - i,
{
    if i == s.len() {
        assert(s.subrange(0, i) =~= s);
    } else {
        lemma_digits_value_mono(s, i + 1);
        let p = s.subrange(0, i + 1);
        assert(p.subrange(0, p.len() - 1) =~= s.subrange(0, i));
        lemma_digits_value_nonneg(s.subrange(0, i));
    }
}

/// What `str::parse::<usize>` accepts: an optional leading plus sign, then
/// one or more decimal digits whose value fits in `usize`.
pub open spec fn parse_usize_spec(s: Seq<char>) -> Option<usize> {
    let d = if s.len() > 0 && s[0] == '+' {
        s.subrange(1, s.len() as int)
    } else {
        s
    };
    if d.len() > 0 && all_digits(d) && digits_value(d) <= usize::MAX {
        Some(digits_value(d) as usize)
    } else {
        None
    }
}

/// Reads a decimal `usize` from `s`, rejecting anything `str::parse` would
/// reject: stray characters, an empty numeral, or a value too large to hold.
pub fn parse_usize(s: &str) -> (r: Option<usize>)
    ensures
        r == parse_usize_spec(s@),
{
    let n = s.unicode_len();
    let mut start: usize = 0;
    if n > 0 && s.get_char(0) == '+' {
        start = 1;
    }
    let ghost d_seq = if s@.len() > 0 && s@[0] == '+' {
        s@.subrange(1, s@.len() as int)
    } else {
        s@
    };
    if start == n {
        return None;
    }
    let mut acc: usize = 0;
    let mut i: usize = start;
    while i < n
        invariant
            start <= i <= n,
            n == s@.len(),
            start <= 1,
            (start == 1) <==> (n > 0 && s@[0] == '+'),
            d_seq == (if s@.len() > 0 && s@[0] == '+' {
                s@.subrange(1, s@.len() as int)
            } else {
                s@
            }),
            d_seq.len() == n - start,
            forall|k: int| 0 <= k < d_seq.len() ==> d_seq[k] == s@[start + k],
            all_digits(d_seq.subrange(0, i - start)),
            acc == digits_value(d_seq.subrange(0, i - start)),
        decreases n - i,
    {
        let c = s.get_char(i);
        if !is_digit(c) {
            proof {
                assert(d_seq[i - start] == s@[i as int]);
                assert(!all_digits(d_seq));
            }
            return None;
        }
        let d: usize = ((c as u32) - 0x30) as usize;
        proof {
            let p = d_seq.subrange(0, i - start + 1);
            assert(p.subrange(0, p.len() - 1) =~= d_seq.subrange(0, i - start));
            assert(p[p.len() - 1] == s@[i as int]);
        }
        if acc > (usize::MAX - d) / 10 {
            proof {
                assert(10 * acc + d > usize::MAX) by (nonlinear_arith)
                    requires
                        acc > (usize::MAX - d) / 10,
                        0 <= d <= 9,
                        d <= usize::MAX,
                ;
                if all_digits(d_seq) {
                    lemma_digits_value_mono(d_seq, i - start + 1);
                }
            }
            return None;
        }
        proof {
            assert(10 * acc + d <= usize::MAX) by (nonlinear_arith)
                requires
                    acc <= (usize::MAX - d) / 10,
                    0 <= d <= 9,
                    d <= usize::MAX,
            ;
        }
        acc = acc * 10 + d;
        i += 1;
    }
    proof {
        assert(d_seq.subrange(0, i - start) =~= d_seq);
    }
    Some(acc)
}

/// The words of `s` after the word `cur` already being read: white space
/// separates words, runs of it count once, and ends contribute no empty word.
pub open spec fn split_words_rec(s: Seq<char>, cur: Seq<char>) -> Seq<Seq<char>>
    decreases s.len(),
{
    if s.len() == 0 {
        if cur.len() == 0 {
            Seq::empty()
        } else {
            seq![cur]
        }
    } else if is_space_char(s[0]) {
        if cur.len() == 0 {
            split_words_rec(s.subrange(1, s.len() as int), Seq::empty())
        } else {
            seq![cur] + split_words_rec(s.subrange(1, s.len() as int), Seq::empty())
        }
    } else {
        split_words_rec(s.subrange(1, s.len() as int), cur.push(s[0]))
    }
}

/// The white-space-separated words of `s`, in order, as
/// `str::split_whitespace` yields them.
pub open spec fn split_words(s: Seq<char>) -> Seq<Seq<char>> {
    split_words_rec(s, Seq::empty())
}

/// Splits `s` on white space, dropping the separators.
pub fn split_whitespace_words(s: &str) -> (words: Vec<String>)
    ensures
        words@.map_values(|w: String| w@) == split_words(s@),
{
    let n = s.unicode_len();
    let mut words: Vec<String> = Vec::new();
    let mut cur = String::new();
    proof {
        assert(s@.subrange(0, n as int) =~= s@);
        assert(words@.map_values(|w: String| w@) + split_words_rec(s@, cur@) =~= split_words_rec(
            s@,
            cur@,
        ));
    }
    let mut i: usize = 0;
    while i < n
        invariant
            i <= n,
            n == s@.len(),
            split_words(s@) == words@.map_values(|w: String| w@) + split_words_rec(
                s@.subrange(i as int, n as int),
                cur@,
            ),
        decreases n - i,
    {
        let ghost suf = s@.subrange(i as int, n as int);
        proof {
            assert(suf.subrange(1, suf.len() as int) =~= s@.subrange(i + 1, n as int));
        }
        let c = s.get_char(i);
        if is_space(c) {
            if cur.as_str().is_empty() {
                proof {
                    assert(cur@ =~= Seq::<char>::empty());
                }
            } else {
                let ghost old_words = words@;
                let ghost old_cur = cur@;
                words.push(cur);
                cur = String::new();
                proof {
                    assert(words@.map_values(|w: String| w@) =~= old_words.map_values(
                        |w: String| w@,
                    ) + seq![old_cur]);
                    assert((old_words.map_values(|w: String| w@) + seq![old_cur])
                        + split_words_rec(s@.subrange(i + 1, n as int), Seq::empty())
                        =~= old_words.map_values(|w: String| w@) + (seq![old_cur]
                        + split_words_rec(s@.subrange(i + 1, n as int), Seq::empty())));
                }
            }
        } else {
            let ghost prev_cur = cur@;
            cur.append(s.substring_char(i, i + 1));
            proof {
                assert(s@.subrange(i as int, i + 1) =~= seq![s@[i as int]]);
                assert(prev_cur + seq![s@[i as int]] =~= prev_cur.push(s@[i as int]));
            }
        }
        i += 1;
    }
    proof {
        assert(s@.subrange(n as int, n as int) =~= Seq::<char>::empty());
    }
    if !cur.as_str().is_empty() {
        let ghost old_words = words@;
        let ghost old_cur = cur@;
        words.push(cur);
        proof {
            assert(words@.map_values(|w: String| w@) =~= old_words.map_values(|w: String| w@)
                + seq![old_cur]);
        }
    }
    words
}

/// What `str::to_lowercase` returns: the Unicode lowercase form of a string,
/// a function of its characters alone.
pub uninterp spec fn lower_of(s: Seq<char>) -> Seq<char>;

/// Relies on `str::to_lowercase`: its result is determined by the characters
/// of its input alone.
#[verifier::external_body]
pub(crate) fn to_lower(s: &str) -> (r: String)
    ensures
        r@ == lower_of(s@),
{
    s.to_lowercase()
}

} // verus!
