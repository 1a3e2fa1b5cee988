use vstd::prelude::*;

verus! {

use vstd::string::StrSliceExecFns;
use crate::views::opt_str_view;

/// A decimal digit character.
pub open spec fn is_digit_char(c: char) -> bool {
    48 <= c as u32 && c as u32 <= 57
}

/// A word character: letter, digit or underscore. A dotted quad is recognised
/// only where no word character touches it on either side.
pub open spec fn is_word_char(c: char) -> bool {
    ||| is_digit_char(c)
    ||| 97 <= c as u32 && c as u32 <= 122
    ||| 65 <= c as u32 && c as u32 <= 90
    ||| c as u32 == 95
}

/// The value of one digit character.
pub open spec fn digit_val(c: char) -> int {
    c as u32 - 48
}

/// Length of the run of digit characters starting at position `i`.
pub open spec fn digit_run_len(s: Seq<char>, i: int) -> nat
    decreases s.len() - i,
{
    if 0 <= i && i < s.len() && is_digit_char(s[i]) {
        (1 + digit_run_len(s, i + 1)) as nat
    } else {
        0
    }
}

/// Position just past the digit run starting at `j`.
pub open spec fn run_end(s: Seq<char>, j: int) -> int {
    j + digit_run_len(s, j)
}

/// Start of the second digit group of a quad at `i`.
pub open spec fn g2_start(s: Seq<char>, i: int) -> int {
    run_end(s, i) + 1
}

/// Start of the third digit group of a quad at `i`.
pub open spec fn g3_start(s: Seq<char>, i: int) -> int {
    run_end(s, g2_start(s, i)) + 1
}

/// Start of the fourth digit group of a quad at `i`.
pub open spec fn g4_start(s: Seq<char>, i: int) -> int {
    run_end(s, g3_start(s, i)) + 1
}

/// Position just past the whole quad at `i`.
pub open spec fn quad_end(s: Seq<char>, i: int) -> int {
    run_end(s, g4_start(s, i))
}

/// A group of one to three digits at `j`, immediately followed by a dot.
pub open spec fn group_then_dot(s: Seq<char>, j: int) -> bool {
    &&& 1 <= digit_run_len(s, j) <= 3
    &&& run_end(s, j) < s.len()
    &&& s[run_end(s, j)] == '.'
}

/// A dotted quad — four groups of one to three digits separated by dots —
/// begins at `i`, with no word character glued to either end.
pub open spec fn quad_shape_at(s: Seq<char>, i: int) -> bool {
    &&& 0 <= i < s.len()
    &&& (i == 0 || !is_word_char(s[i - 1]))
    &&& group_then_dot(s, i)
    &&& group_then_dot(s, g2_start(s, i))
    &&& group_then_dot(s, g3_start(s, i))
    &&& 1 <= digit_run_len(s, g4_start(s, i)) <= 3
    &&& (quad_end(s, i) == s.len() || !is_word_char(s[quad_end(s, i)]))
}

/// Decimal value of the digit characters `s[j..e]`.
pub open spec fn digits_val(s: Seq<char>, j: int, e: int) -> int
    decreases e - j,
{
    if j < e {
        digits_val(s, j, e - 1) * 10 + digit_val(s[e - 1])
    } else {
        0
    }
}

/// Value of the digit group starting at `j`.
pub open spec fn octet_at(s: Seq<char>, j: int) -> int {
    digits_val(s, j, run_end(s, j))
}

/// A dotted quad at `i` whose four groups each parse to at most 255.
pub open spec fn quad_valid_at(s: Seq<char>, i: int) -> bool {
    &&& quad_shape_at(s, i)
    &&& octet_at(s, i) <= 255
    &&& octet_at(s, g2_start(s, i)) <= 255
    &&& octet_at(s, g3_start(s, i)) <= 255
    &&& octet_at(s, g4_start(s, i)) <= 255
}

/// The first valid dotted quad at or after position `i`, scanning left to
/// right; an ill-shaped or out-of-range group only moves the scan along.
pub open spec fn extract_from(s: Seq<char>, i: int) -> Option<Seq<char>>
    decreases s.len() - i,
{
    if i >= s.len() {
        None
    } else if quad_valid_at(s, i) {
        Some(s.subrange(i, quad_end(s, i)))
    } else {
        extract_from(s, i + 1)
    }
}

/// The first valid dotted quad of the whole text.
pub open spec fn extract_ip_spec(s: Seq<char>) -> Option<Seq<char>> {
    extract_from(s, 0)
}

/// Every character inside a digit run is a digit.
pub proof fn lemma_run_digits(s: Seq<char>, j: int, t: int)
    requires
        0 <= j,
        0 <= t < digit_run_len(s, j),
    ensures
        is_digit_char(s[j + t]),
    decreases t,
{
    if t > 0 {
        lemma_run_digits(s, j + 1, t - 1);
    }
}

/// The scan from `i` comes up empty exactly when no later position starts a
/// valid quad.
proof fn lemma_extract_from_none_iff(s: Seq<char>, i: int)
    requires
        0 <= i <= s.len(),
    ensures
        extract_from(s, i) is None <==> (forall|j: int| i <= j < s.len() ==> !quad_valid_at(s, j)),
    decreases s.len() - i,
{
    if i < s.len() {
        lemma_extract_from_none_iff(s, i + 1);
    }
}

/// The scan finds a candidate exactly when some position starts a valid quad.
pub proof fn lemma_extract_some_iff(s: Seq<char>)
    ensures
        extract_ip_spec(s) is Some <==> (exists|i: int| 0 <= i < s.len() && quad_valid_at(s, i)),
{
    lemma_extract_from_none_iff(s, 0);
}

fn word_char_at(text: &str, i: usize) -> (b: bool)
    requires
        i < text@.len(),
    ensures
        b == is_word_char(text@[i as int]),
{
    let c = text.get_char(i);
    let n = c as u32;
    (48 <= n && n <= 57) || (97 <= n && n <= 122) || (65 <= n && n <= 90) || n == 95
}

/// Length of the digit run of `text` starting at `j`.
fn run_len_at(text: &str, j: usize, n: usize) -> (k: usize)
    requires
        n == text@.len(),
        j <= n,
    ensures
        k == digit_run_len(text@, j as int),
        j + k <= n,
{
    let mut k: usize = 0;
    while j + k < n
        invariant
            n == text@.len(),
            j + k <= n,
            digit_run_len(text@, j as int) == k + digit_run_len(text@, (j + k) as int),
        ensures
            k == digit_run_len(text@, j as int),
        decreases n - j - k,
    {
        let c = text.get_char(j + k);
        if !(48 <= c as u32 && c as u32 <= 57) {
            break;
        }
        k = k + 1;
    }
    k
}

/// Value of the digit group of length `k` starting at `j`.
fn octet_value(text: &str, j: usize, k: usize, n: usize) -> (v: u32)
    requires
        n == text@.len(),
        j + k <= n,
        k == digit_run_len(text@, j as int),
        1 <= k <= 3,
    ensures
        v as int == octet_at(text@, j as int),
        v <= 999,
{
    let ghost s = text@;
    proof {
        lemma_run_digits(s, j as int, 0);
        if k >= 2 {
            lemma_run_digits(s, j as int, 1);
        }
        if k >= 3 {
            lemma_run_digits(s, j as int, 2);
        }
        assert(digits_val(s, j as int, j as int) == 0);
    }
    let d0 = text.get_char(j) as u32 - 48;
    if k == 1 {
        proof {
            assert(octet_at(s, j as int) == digits_val(s, j as int, j + 1 as int));
        }
        d0
    } else {
        let d1 = text.get_char(j + 1) as u32 - 48;
        if k == 2 {
            proof {
                assert(digits_val(s, j as int, j + 1 as int) == digit_val(s[j as int]));
                assert(octet_at(s, j as int) == digits_val(s, j as int, j + 2 as int));
            }
            d0 * 10 + d1
        } else {
            let d2 = text.get_char(j + 2) as u32 - 48;
            proof {
                assert(digits_val(s, j as int, j + 1 as int) == digit_val(s[j as int]));
                assert(digits_val(s, j as int, j + 2 as int) == digit_val(s[j as int]) * 10
                    + digit_val(s[j + 1 as int]));
                assert(octet_at(s, j as int) == digits_val(s, j as int, j + 3 as int));
            }
            d0 * 100 + d1 * 10 + d2
        }
    }
}

/// Whether a valid dotted quad starts at `i`; on success, the position just
/// past it.
fn try_quad_at(text: &str, i: usize, n: usize) -> (r: Option<usize>)
    requires
        n == text@.len(),
        i < n,
    ensures
        match r {
            Some(end) => quad_valid_at(text@, i as int) && end == quad_end(text@, i as int)
                && i < end <= n,
            None => !quad_valid_at(text@, i as int),
        },
{
    let ghost s = text@;
    if i > 0 && word_char_at(text, i - 1) {
        return None;
    }
    let k1 = run_len_at(text, i, n);
    if k1 < 1 || k1 > 3 {
        return None;
    }
    let e1 = i + k1;
    if e1 >= n || text.get_char(e1) != '.' {
        return None;
    }
    let j2 = e1 + 1;
    let k2 = run_len_at(text, j2, n);
    if k2 < 1 || k2 > 3 {
        return None;
    }
    let e2 = j2 + k2;
    if e2 >= n || text.get_char(e2) != '.' {
        return None;
    }
    let j3 = e2 + 1;
    let k3 = run_len_at(text, j3, n);
    if k3 < 1 || k3 > 3 {
        return None;
    }
    let e3 = j3 + k3;
    if e3 >= n || text.get_char(e3) != '.' {
        return None;
    }
    let j4 = e3 + 1;
    let k4 = run_len_at(text, j4, n);
    if k4 < 1 || k4 > 3 {
        return None;
    }
    let end = j4 + k4;
    if end < n && word_char_at(text, end) {
        return None;
    }
    let v1 = octet_value(text, i, k1, n);
    let v2 = octet_value(text, j2, k2, n);
    let v3 = octet_value(text, j3, k3, n);
    let v4 = octet_value(text, j4, k4, n);
    if v1 <= 255 && v2 <= 255 && v3 <= 255 && v4 <= 255 {
        Some(end)
    } else {
        None
    }
}

/// The first valid dotted quad of `text`, scanning left to right: four groups
/// of one to three digits separated by dots, each group at most 255, with no
/// word character glued to either end.
pub fn extract_ip_from_text(text: &str) -> (r: Option<String>)
    ensures
        opt_str_view(r) == extract_ip_spec(text@),
{
    let n = text.unicode_len();
    let mut i: usize = 0;
    while i < n
        invariant
            n == text@.len(),
            i <= n,
            extract_from(text@, 0) == extract_from(text@, i as int),
        decreases n - i,
    {
        match try_quad_at(text, i, n) {
            Some(end) => {
                let found = text.substring_char(i, end).to_owned();
                return Some(found);
            }
            None => {
                i = i + 1;
            }
        }
    }
    None
}

} // verus!
