//! The order of version components: runs of non-digits are compared
//! character by character (`~` before the end, the end before letters,
//! letters before other characters), runs of digits by their value.
use vstd::prelude::*;

verus! {

pub open spec fn is_digit(c: char) -> bool {
    '0' <= c <= '9'
}

pub open spec fn is_ascii_letter(c: char) -> bool {
    ('a' <= c <= 'z') || ('A' <= c <= 'Z')
}

/// The weight of a character in a run of non-digits.
pub open spec fn char_weight(c: char) -> int {
    if is_digit(c) {
        0
    } else if is_ascii_letter(c) {
        c as u32 as int
    } else if c == '~' {
        -1
    } else {
        c as u32 as int + 256
    }
}

/// The weight of the first character of `s`; the end weighs 0.
pub open spec fn weight_at(s: Seq<char>) -> int {
    if s.len() == 0 {
        0
    } else {
        char_weight(s[0])
    }
}

pub open spec fn sign(x: int) -> int {
    if x < 0 {
        -1
    } else if x > 0 {
        1
    } else {
        0
    }
}

/// The number of digits at the start of `s`.
pub open spec fn leading_digits(s: Seq<char>) -> nat
    decreases s.len(),
{
    if s.len() > 0 && is_digit(s[0]) {
        1 + leading_digits(s.drop_first())
    } else {
        0
    }
}

/// The number of `0` characters at the start of `s`.
pub open spec fn leading_zeros(s: Seq<char>) -> nat
    decreases s.len(),
{
    if s.len() > 0 && s[0] == '0' {
        1 + leading_zeros(s.drop_first())
    } else {
        0
    }
}

/// Compares two runs of digits of the same length: the first difference decides.
pub open spec fn compare_same_length(x: Seq<char>, y: Seq<char>) -> int
    decreases x.len(),
{
    if x.len() == 0 || y.len() == 0 {
        0
    } else if x[0] != y[0] {
        sign(x[0] as u32 as int - y[0] as u32 as int)
    } else {
        compare_same_length(x.drop_first(), y.drop_first())
    }
}

/// Compares two runs of digits by their value: without leading zeros, the
/// longer is larger, and between equally long ones the first difference decides.
pub open spec fn compare_numbers(x: Seq<char>, y: Seq<char>) -> int {
    let xs = x.skip(leading_zeros(x) as int);
    let ys = y.skip(leading_zeros(y) as int);
    if xs.len() != ys.len() {
        sign(xs.len() - ys.len())
    } else {
        compare_same_length(xs, ys)
    }
}

/// Compares two version components: -1, 0 or 1.
pub open spec fn compare_component(a: Seq<char>, b: Seq<char>) -> int
    decreases a.len() + b.len(),
{
    if a.len() == 0 && b.len() == 0 {
        0
    } else if (a.len() > 0 && !is_digit(a[0])) || (b.len() > 0 && !is_digit(b[0])) {
        if a.len() > 0 && b.len() > 0 && weight_at(a) == weight_at(b) {
            compare_component(a.drop_first(), b.drop_first())
        } else {
            sign(weight_at(a) - weight_at(b))
        }
    } else {
        let la = leading_digits(a);
        let lb = leading_digits(b);
        let c = compare_numbers(a.take(la as int), b.take(lb as int));
        if c != 0 || la + lb == 0 || la > a.len() || lb > b.len() {
            c
        } else {
            compare_component(a.skip(la as int), b.skip(lb as int))
        }
    }
}

pub proof fn lemma_leading_bounds(s: Seq<char>)
    ensures
        leading_digits(s) <= s.len(),
        leading_zeros(s) <= s.len(),
        leading_zeros(s) <= leading_digits(s),
    decreases s.len(),
{
    if s.len() > 0 {
        lemma_leading_bounds(s.drop_first());
    }
}

fn weight(c: char) -> (r: i64)
    ensures
        r == char_weight(c),
{
    if '0' <= c && c <= '9' {
        0
    } else if ('a' <= c && c <= 'z') || ('A' <= c && c <= 'Z') {
        c as u32 as i64
    } else if c == '~' {
        -1
    } else {
        c as u32 as i64 + 256
    }
}

fn sign_of(x: i64) -> (r: i8)
    ensures
        r == sign(x as int),
{
    if x < 0 {
        -1
    } else if x > 0 {
        1
    } else {
        0
    }
}

fn in_run(c: char, zeros: bool) -> (r: bool)
    ensures
        r == if zeros {
            c == '0'
        } else {
            is_digit(c)
        },
{
    if zeros {
        c == '0'
    } else {
        '0' <= c && c <= '9'
    }
}

/// The end of the run of characters from `i` on that are digits (or, with
/// `zeros`, that are `0`), not going past `end`.
fn run_end(s: &str, i: usize, end: usize, zeros: bool) -> (r: usize)
    requires
        i <= end <= s@.len(),
    ensures
        i <= r <= end,
        zeros ==> r - i == leading_zeros(s@.subrange(i as int, end as int)),
        !zeros ==> r - i == leading_digits(s@.subrange(i as int, end as int)),
{
    let mut k: usize = i;
    while k < end && in_run(s.get_char(k), zeros)
        invariant
            i <= k <= end <= s@.len(),
            zeros ==> leading_zeros(s@.subrange(i as int, end as int)) == (k - i) + leading_zeros(
                s@.subrange(k as int, end as int),
            ),
            !zeros ==> leading_digits(s@.subrange(i as int, end as int)) == (k - i)
                + leading_digits(s@.subrange(k as int, end as int)),
        decreases end - k,
    {
        assert(s@.subrange(k as int, end as int).drop_first() =~= s@.subrange(k + 1, end as int));
        k = k + 1;
    }
    proof {
        let rest = s@.subrange(k as int, end as int);
        if k < end {
            assert(rest[0] == s@[k as int]);
        }
        if zeros {
            assert(leading_zeros(rest) == 0);
        } else {
            assert(leading_digits(rest) == 0);
        }
    }
    k
}

/// Compares the runs of digits `a[i..ie]` and `b[j..je]` by their value.
fn compare_number_runs(a: &str, i: usize, ie: usize, b: &str, j: usize, je: usize) -> (r: i8)
    requires
        i <= ie <= a@.len(),
        j <= je <= b@.len(),
    ensures
        r == compare_numbers(a@.subrange(i as int, ie as int), b@.subrange(j as int, je as int)),
{
    let ghost x = a@.subrange(i as int, ie as int);
    let ghost y = b@.subrange(j as int, je as int);
    let iz = run_end(a, i, ie, true);
    let jz = run_end(b, j, je, true);
    proof {
        lemma_leading_bounds(x);
        lemma_leading_bounds(y);
    }
    assert(x.skip(leading_zeros(x) as int) =~= a@.subrange(iz as int, ie as int));
    assert(y.skip(leading_zeros(y) as int) =~= b@.subrange(jz as int, je as int));
    let la = ie - iz;
    let lb = je - jz;
    if la != lb {
        return if la < lb {
            -1
        } else {
            1
        };
    }
    let mut k: usize = 0;
    while k < la
        invariant
            iz + la == ie <= a@.len(),
            jz + la == je <= b@.len(),
            k <= la,
            x == a@.subrange(i as int, ie as int),
            y == b@.subrange(j as int, je as int),
            compare_numbers(x, y) == compare_same_length(
                a@.subrange(iz + k, ie as int),
                b@.subrange(jz + k, je as int),
            ),
        decreases la - k,
    {
        let c = a.get_char(iz + k);
        let d = b.get_char(jz + k);
        let ghost xs = a@.subrange(iz + k, ie as int);
        let ghost ys = b@.subrange(jz + k, je as int);
        assert(xs[0] == c && ys[0] == d);
        assert(xs.len() > 0 && ys.len() > 0);
        if c != d {
            return sign_of(c as u32 as i64 - d as u32 as i64);
        }
        assert(xs.drop_first() =~= a@.subrange(iz + k + 1, ie as int));
        assert(ys.drop_first() =~= b@.subrange(jz + k + 1, je as int));
        k = k + 1;
    }
    0
}

fn is_digit_char(c: char) -> (r: bool)
    ensures
        r == is_digit(c),
{
    '0' <= c && c <= '9'
}

/// Compares two version components: -1, 0 or 1.
pub fn compare_components(a: &str, b: &str) -> (r: i8)
    ensures
        r == compare_component(a@, b@),
{
    let n = a.unicode_len();
    let m = b.unicode_len();
    let mut i: usize = 0;
    let mut j: usize = 0;
    assert(a@.subrange(0, n as int) =~= a@);
    assert(b@.subrange(0, m as int) =~= b@);
    loop
        invariant
            i <= n == a@.len(),
            j <= m == b@.len(),
            compare_component(a@, b@) == compare_component(
                a@.subrange(i as int, n as int),
                b@.subrange(j as int, m as int),
            ),
        decreases (n - i) + (m - j),
    {
        let ghost x = a@.subrange(i as int, n as int);
        let ghost y = b@.subrange(j as int, m as int);
        if i == n && j == m {
            return 0;
        }
        let a_other = i < n && !is_digit_char(a.get_char(i));
        let b_other = j < m && !is_digit_char(b.get_char(j));
        if a_other || b_other {
            let wa: i64 = if i < n {
                weight(a.get_char(i))
            } else {
                0
            };
            let wb: i64 = if j < m {
                weight(b.get_char(j))
            } else {
                0
            };
            if i < n && j < m && wa == wb {
                assert(x.drop_first() =~= a@.subrange(i + 1, n as int));
                assert(y.drop_first() =~= b@.subrange(j + 1, m as int));
                i = i + 1;
                j = j + 1;
            } else {
                return sign_of(wa - wb);
            }
        } else {
            let ie = run_end(a, i, n, false);
            let je = run_end(b, j, m, false);
            proof {
                lemma_leading_bounds(x);
                lemma_leading_bounds(y);
            }
            assert(x.take(leading_digits(x) as int) =~= a@.subrange(i as int, ie as int));
            assert(y.take(leading_digits(y) as int) =~= b@.subrange(j as int, je as int));
            let c = compare_number_runs(a, i, ie, b, j, je);
            if c != 0 || (ie == i && je == j) {
                return c;
            }
            assert(x.skip(leading_digits(x) as int) =~= a@.subrange(ie as int, n as int));
            assert(y.skip(leading_digits(y) as int) =~= b@.subrange(je as int, m as int));
            i = ie;
            j = je;
        }
    }
}

} // verus!
