//! Natural order of texts: runs of digits compare as numbers, everything else
//! character by character without regard to ASCII case.

use std::cmp::Ordering;

use vstd::prelude::*;
use crate::text::chars_of;

verus! {

pub open spec fn is_digit(c: char) -> bool {
    '0' <= c <= '9'
}

/// `c` with the letters `A` to `Z` made small.
pub open spec fn lower(c: char) -> char {
    if 'A' <= c <= 'Z' {
        ((c as nat) + 32) as char
    } else {
        c
    }
}

/// How many digits `s` starts with.
pub open spec fn run_len(s: Seq<char>) -> nat
    decreases s.len(),
{
    if s.len() == 0 || !is_digit(s[0]) {
        0
    } else {
        1 + run_len(s.skip(1))
    }
}

/// The number that a run of digits denotes.
pub open spec fn digits_value(digits: Seq<char>) -> nat
    decreases digits.len(),
{
    if digits.len() == 0 {
        0
    } else {
        (10 * digits_value(digits.drop_last()) + (digits.last() as nat - 48)) as nat
    }
}

/// The sort key of a text, piece by piece: a run of digits stands at the place
/// of the digits among the characters and then by its number; any other
/// character stands for itself in lower case.
pub open spec fn natural_key(s: Seq<char>) -> Seq<(nat, nat)>
    decreases s.len(),
{
    if s.len() == 0 {
        seq![]
    } else if is_digit(s[0]) {
        proof {
            lemma_run_len(s);
        }
        let n = run_len(s) as int;
        seq![(48nat, digits_value(s.take(n)))] + natural_key(s.skip(n))
    } else {
        seq![(lower(s[0]) as nat, 0nat)] + natural_key(s.skip(1))
    }
}

/// The sign of `a - b`.
pub open spec fn sign_of(a: nat, b: nat) -> int {
    if a < b {
        -1
    } else if a > b {
        1
    } else {
        0
    }
}

/// Pieces compare by place first, then by number.
pub open spec fn piece_order(a: (nat, nat), b: (nat, nat)) -> int {
    if a.0 != b.0 {
        sign_of(a.0, b.0)
    } else {
        sign_of(a.1, b.1)
    }
}

/// Lexicographic order of keys: -1, 0 or 1; a proper prefix comes first.
pub open spec fn key_order(a: Seq<(nat, nat)>, b: Seq<(nat, nat)>) -> int
    decreases a.len(),
{
    if a.len() == 0 && b.len() == 0 {
        0
    } else if a.len() == 0 {
        -1
    } else if b.len() == 0 {
        1
    } else if piece_order(a[0], b[0]) != 0 {
        piece_order(a[0], b[0])
    } else {
        key_order(a.skip(1), b.skip(1))
    }
}

/// The natural order of two texts: -1, 0 or 1.
pub open spec fn natural_order(a: Seq<char>, b: Seq<char>) -> int {
    key_order(natural_key(a), natural_key(b))
}

/// Every text of the list comes before or level with the later ones.
pub open spec fn naturally_sorted(list: Seq<Seq<char>>) -> bool {
    forall|i: int, j: int|
        0 <= i < j < list.len() ==> natural_order(#[trigger] list[i], #[trigger] list[j]) <= 0
}

// ---- facts about the pieces ----

/// The run that `run_len` measures is the longest run of digits at the start.
pub proof fn lemma_run_len(s: Seq<char>)
    ensures
        run_len(s) <= s.len(),
        forall|i: int| 0 <= i < run_len(s) ==> is_digit(#[trigger] s[i]),
        run_len(s) < s.len() ==> !is_digit(s[run_len(s) as int]),
    decreases s.len(),
{
    if s.len() > 0 && is_digit(s[0]) {
        let rest = s.skip(1);
        lemma_run_len(rest);
        assert forall|i: int| 0 <= i < run_len(s) implies is_digit(#[trigger] s[i]) by {
            if i > 0 {
                assert(rest[i - 1] == s[i]);
            }
        }
    }
}

/// A run of `n` digits followed by something else has length `n`.
proof fn lemma_run_len_is(s: Seq<char>, n: nat)
    requires
        n <= s.len(),
        forall|i: int| 0 <= i < n ==> is_digit(#[trigger] s[i]),
        n < s.len() ==> !is_digit(s[n as int]),
    ensures
        run_len(s) == n,
    decreases n,
{
    if n > 0 {
        let rest = s.skip(1);
        assert(is_digit(s[0]));
        assert forall|i: int| 0 <= i < n - 1 implies is_digit(#[trigger] rest[i]) by {
            assert(rest[i] == s[i + 1]);
        }
        lemma_run_len_is(rest, (n - 1) as nat);
    }
}

proof fn lemma_key_digits(s: Seq<char>)
    requires
        s.len() > 0,
        is_digit(s[0]),
    ensures
        0 < run_len(s) <= s.len(),
        natural_key(s).len() > 0,
        natural_key(s)[0] == (48nat, digits_value(s.take(run_len(s) as int))),
        natural_key(s).skip(1) == natural_key(s.skip(run_len(s) as int)),
{
    lemma_run_len(s);
    assert(natural_key(s).skip(1) =~= natural_key(s.skip(run_len(s) as int)));
}

proof fn lemma_key_other(s: Seq<char>)
    requires
        s.len() > 0,
        !is_digit(s[0]),
    ensures
        natural_key(s).len() > 0,
        natural_key(s)[0] == (lower(s[0]) as nat, 0nat),
        natural_key(s).skip(1) == natural_key(s.skip(1)),
{
    assert(natural_key(s).skip(1) =~= natural_key(s.skip(1)));
}

// ---- the comparison ----

fn digit(c: char) -> (yes: bool)
    ensures
        yes == is_digit(c),
{
    '0' <= c && c <= '9'
}

fn small(c: char) -> (s: char)
    ensures
        s == lower(c),
{
    if 'A' <= c && c <= 'Z' {
        (c as u8 + 32) as char
    } else {
        c
    }
}

/// Where the run of digits that starts at `from` ends.
fn run_end(chars: &Vec<char>, from: usize) -> (end: usize)
    requires
        from <= chars@.len(),
    ensures
        end == from + run_len(chars@.skip(from as int)),
        end <= chars@.len(),
{
    let ghost tail = chars@.skip(from as int);
    let mut i: usize = from;
    while i < chars.len() && digit(chars[i])
        invariant
            from <= i <= chars@.len(),
            tail == chars@.skip(from as int),
            forall|j: int| 0 <= j < i - from ==> is_digit(#[trigger] tail[j]),
        decreases chars@.len() - i,
    {
        assert(tail[i - from] == chars@[i as int]);
        i = i + 1;
    }
    proof {
        let n = (i - from) as nat;
        if n < tail.len() {
            assert(tail[n as int] == chars@[i as int]);
        }
        lemma_run_len_is(tail, n);
    }
    i
}

/// A zero in front does not count.
proof fn lemma_leading_zero(digits: Seq<char>)
    requires
        digits.len() > 0,
        digits[0] == '0',
        forall|i: int| 0 <= i < digits.len() ==> is_digit(#[trigger] digits[i]),
    ensures
        digits_value(digits) == digits_value(digits.skip(1)),
    decreases digits.len(),
{
    reveal_with_fuel(digits_value, 2);
    if digits.len() == 1 {
        assert(digits.skip(1) =~= seq![]);
        assert(digits.drop_last() =~= seq![]);
    } else {
        let shorter = digits.drop_last();
        assert forall|i: int| 0 <= i < shorter.len() implies is_digit(#[trigger] shorter[i]) by {
            assert(shorter[i] == digits[i]);
        }
        lemma_leading_zero(shorter);
        assert(shorter.skip(1) =~= digits.skip(1).drop_last());
    }
}

/// Of two numbers without a zero in front the longer one is larger.
proof fn lemma_longer_is_larger(short: Seq<char>, long: Seq<char>)
    requires
        short.len() < long.len(),
        long[0] != '0',
        forall|i: int| 0 <= i < short.len() ==> is_digit(#[trigger] short[i]),
        forall|i: int| 0 <= i < long.len() ==> is_digit(#[trigger] long[i]),
    ensures
        digits_value(short) < digits_value(long),
    decreases long.len(),
{
    assert(is_digit(long[long.len() - 1]));
    let rest = long.drop_last();
    assert forall|i: int| 0 <= i < rest.len() implies is_digit(#[trigger] rest[i]) by {
        assert(rest[i] == long[i]);
    }
    if short.len() > 0 {
        assert(is_digit(short[short.len() - 1]));
        let head = short.drop_last();
        assert forall|i: int| 0 <= i < head.len() implies is_digit(#[trigger] head[i]) by {
            assert(head[i] == short[i]);
        }
        lemma_longer_is_larger(head, rest);
    } else if rest.len() > 0 {
        lemma_longer_is_larger(short, rest);
    }
}

/// Skips the zeros in front of the number in `chars[from..to]`.
fn skip_zeros(chars: &Vec<char>, from: usize, to: usize) -> (start: usize)
    requires
        from <= to <= chars@.len(),
        forall|i: int| from <= i < to ==> is_digit(#[trigger] chars@[i]),
    ensures
        from <= start <= to,
        start < to ==> chars@[start as int] != '0',
        digits_value(chars@.subrange(start as int, to as int)) == digits_value(
            chars@.subrange(from as int, to as int),
        ),
{
    let mut i: usize = from;
    while i < to && chars[i] == '0'
        invariant
            from <= i <= to <= chars@.len(),
            forall|j: int| from <= j < to ==> is_digit(#[trigger] chars@[j]),
            digits_value(chars@.subrange(i as int, to as int)) == digits_value(
                chars@.subrange(from as int, to as int),
            ),
        decreases to - i,
    {
        proof {
            let rest = chars@.subrange(i as int, to as int);
            lemma_leading_zero(rest);
            assert(rest.skip(1) =~= chars@.subrange(i + 1, to as int));
        }
        i = i + 1;
    }
    i
}

/// Compares the numbers in `x[i..i_end]` and `y[j..j_end]`.
fn run_sign(x: &Vec<char>, i: usize, i_end: usize, y: &Vec<char>, j: usize, j_end: usize) -> (r: i8)
    requires
        i <= i_end <= x@.len(),
        j <= j_end <= y@.len(),
        forall|k: int| i <= k < i_end ==> is_digit(#[trigger] x@[k]),
        forall|k: int| j <= k < j_end ==> is_digit(#[trigger] y@[k]),
    ensures
        r == sign_of(
            digits_value(x@.subrange(i as int, i_end as int)),
            digits_value(y@.subrange(j as int, j_end as int)),
        ),
{
    let a: usize = skip_zeros(x, i, i_end);
    let b: usize = skip_zeros(y, j, j_end);
    let ghost p = x@.subrange(a as int, i_end as int);
    let ghost q = y@.subrange(b as int, j_end as int);
    if i_end - a < j_end - b {
        proof {
            lemma_longer_is_larger(p, q);
        }
        return -1;
    }
    if i_end - a > j_end - b {
        proof {
            lemma_longer_is_larger(q, p);
        }
        return 1;
    }
    let len: usize = i_end - a;
    let mut sign: i8 = 0;
    let mut k: usize = 0;
    proof {
        assert(p.take(0) =~= seq![]);
        assert(q.take(0) =~= seq![]);
    }
    while k < len
        invariant
            k <= len,
            a + len == i_end <= x@.len(),
            b + len == j_end <= y@.len(),
            i <= a,
            j <= b,
            forall|m: int| i <= m < i_end ==> is_digit(#[trigger] x@[m]),
            forall|m: int| j <= m < j_end ==> is_digit(#[trigger] y@[m]),
            p == x@.subrange(a as int, i_end as int),
            q == y@.subrange(b as int, j_end as int),
            sign == sign_of(digits_value(p.take(k as int)), digits_value(q.take(k as int))),
        decreases len - k,
    {
        let c = x[a + k];
        let d = y[b + k];
        proof {
            assert(is_digit(x@[a + k]) && is_digit(y@[b + k]));
            assert(p.take(k + 1).drop_last() =~= p.take(k as int));
            assert(q.take(k + 1).drop_last() =~= q.take(k as int));
            assert(p.take(k + 1).last() == c && q.take(k + 1).last() == d);
        }
        if sign == 0 {
            sign = if c < d {
                -1
            } else if c > d {
                1
            } else {
                0
            };
        }
        k = k + 1;
    }
    assert(p.take(k as int) =~= p);
    assert(q.take(k as int) =~= q);
    sign
}

/// The natural order of two texts as a sign.
pub fn natural_sign(a: &str, b: &str) -> (r: i8)
    ensures
        r == natural_order(a@, b@),
{
    let x = chars_of(a);
    let y = chars_of(b);
    let mut i: usize = 0;
    let mut j: usize = 0;
    proof {
        assert(a@.skip(0) == a@);
        assert(b@.skip(0) == b@);
    }
    loop
        invariant
            x@ == a@,
            y@ == b@,
            i <= x@.len(),
            j <= y@.len(),
            natural_order(a@, b@) == natural_order(x@.skip(i as int), y@.skip(j as int)),
        decreases x@.len() - i,
    {
        let ghost p = x@.skip(i as int);
        let ghost q = y@.skip(j as int);
        if i == x.len() {
            return if j == y.len() {
                0
            } else {
                proof {
                    if is_digit(q[0]) {
                        lemma_key_digits(q);
                    } else {
                        lemma_key_other(q);
                    }
                }
                -1
            };
        }
        proof {
            if is_digit(p[0]) {
                lemma_key_digits(p);
            } else {
                lemma_key_other(p);
            }
        }
        if j == y.len() {
            return 1;
        }
        proof {
            if is_digit(q[0]) {
                lemma_key_digits(q);
            } else {
                lemma_key_other(q);
            }
        }
        if digit(x[i]) && digit(y[j]) {
            let i_end: usize = run_end(&x, i);
            let j_end: usize = run_end(&y, j);
            proof {
                lemma_run_len(p);
                lemma_run_len(q);
                assert(p.take(run_len(p) as int) =~= x@.subrange(i as int, i_end as int));
                assert(q.take(run_len(q) as int) =~= y@.subrange(j as int, j_end as int));
                assert forall|k: int| i <= k < i_end implies is_digit(#[trigger] x@[k]) by {
                    assert(p[k - i] == x@[k]);
                }
                assert forall|k: int| j <= k < j_end implies is_digit(#[trigger] y@[k]) by {
                    assert(q[k - j] == y@[k]);
                }
            }
            let s: i8 = run_sign(&x, i, i_end, &y, j, j_end);
            if s != 0 {
                return s;
            }
            proof {
                assert(p.skip(run_len(p) as int) == x@.skip(i_end as int));
                assert(q.skip(run_len(q) as int) == y@.skip(j_end as int));
            }
            i = i_end;
            j = j_end;
        } else {
            let c = small(x[i]);
            let d = small(y[j]);
            if c != d {
                return if c < d {
                    -1
                } else {
                    1
                };
            }
            proof {
                assert(p.skip(1) == x@.skip(i + 1));
                assert(q.skip(1) == y@.skip(j + 1));
            }
            i = i + 1;
            j = j + 1;
        }
    }
}

/// Compares two texts in natural order.
pub fn natural_cmp(a: &str, b: &str) -> (order: Ordering)
    ensures
        match order {
            Ordering::Less => natural_order(a@, b@) < 0,
            Ordering::Equal => natural_order(a@, b@) == 0,
            Ordering::Greater => natural_order(a@, b@) > 0,
        },
{
    let s: i8 = natural_sign(a, b);
    if s < 0 {
        Ordering::Less
    } else if s == 0 {
        Ordering::Equal
    } else {
        Ordering::Greater
    }
}

// ---- laws ----

proof fn lemma_key_order_flips(a: Seq<(nat, nat)>, b: Seq<(nat, nat)>)
    ensures
        key_order(a, b) == -key_order(b, a),
        -1 <= key_order(a, b) <= 1,
    decreases a.len(),
{
    if a.len() > 0 && b.len() > 0 {
        lemma_key_order_flips(a.skip(1), b.skip(1));
    }
}

proof fn lemma_key_order_chains(a: Seq<(nat, nat)>, b: Seq<(nat, nat)>, c: Seq<(nat, nat)>)
    requires
        key_order(a, b) <= 0,
        key_order(b, c) <= 0,
    ensures
        key_order(a, c) <= 0,
        key_order(a, c) == 0 ==> key_order(a, b) == 0 && key_order(b, c) == 0,
    decreases a.len(),
{
    if a.len() > 0 && b.len() > 0 && c.len() > 0 {
        if piece_order(a[0], b[0]) == 0 && piece_order(b[0], c[0]) == 0 {
            lemma_key_order_chains(a.skip(1), b.skip(1), c.skip(1));
        }
    }
}

proof fn lemma_key_order_same(a: Seq<(nat, nat)>)
    ensures
        key_order(a, a) == 0,
    decreases a.len(),
{
    if a.len() > 0 {
        lemma_key_order_same(a.skip(1));
    }
}

/// Every text is level with itself.
pub proof fn law_natural_order_reflexive(a: Seq<char>)
    ensures
        natural_order(a, a) == 0,
{
    lemma_key_order_same(natural_key(a));
}

/// Swapping the texts flips the order.
pub proof fn law_natural_order_flips(a: Seq<char>, b: Seq<char>)
    ensures
        natural_order(a, b) == -natural_order(b, a),
        -1 <= natural_order(a, b) <= 1,
{
    lemma_key_order_flips(natural_key(a), natural_key(b));
}

/// The order chains: if `a` is not after `b` and `b` is not after `c`, then `a`
/// is not after `c`; and it is level with `c` only if both steps were level.
pub proof fn law_natural_order_transitive(a: Seq<char>, b: Seq<char>, c: Seq<char>)
    requires
        natural_order(a, b) <= 0,
        natural_order(b, c) <= 0,
    ensures
        natural_order(a, c) <= 0,
        natural_order(a, c) == 0 ==> natural_order(a, b) == 0 && natural_order(b, c) == 0,
{
    lemma_key_order_chains(natural_key(a), natural_key(b), natural_key(c));
}

proof fn lemma_lower_keeps_digits(c: char)
    ensures
        is_digit(lower(c)) == is_digit(c),
        is_digit(c) ==> lower(c) == c,
{
}

proof fn lemma_key_ignores_case(a: Seq<char>, b: Seq<char>)
    requires
        a.len() == b.len(),
        forall|i: int| 0 <= i < a.len() ==> lower(#[trigger] a[i]) == lower(b[i]),
    ensures
        natural_key(a) == natural_key(b),
    decreases a.len(),
{
    if a.len() > 0 {
        assert(lower(a[0]) == lower(b[0]));
        lemma_lower_keeps_digits(a[0]);
        lemma_lower_keeps_digits(b[0]);
        if is_digit(a[0]) {
            let n = run_len(a);
            lemma_run_len(a);
            assert forall|i: int| 0 <= i < n implies is_digit(#[trigger] b[i]) && a[i] == b[i] by {
                assert(is_digit(a[i]));
                lemma_lower_keeps_digits(a[i]);
                lemma_lower_keeps_digits(b[i]);
            }
            if n < a.len() {
                lemma_lower_keeps_digits(a[n as int]);
                lemma_lower_keeps_digits(b[n as int]);
            }
            lemma_run_len_is(b, n);
            assert(a.take(n as int) =~= b.take(n as int));
            lemma_key_ignores_case(a.skip(n as int), b.skip(n as int));
        } else {
            lemma_key_ignores_case(a.skip(1), b.skip(1));
        }
    }
}

/// Texts that differ in ASCII case only are level.
pub proof fn law_natural_order_ignores_case(a: Seq<char>, b: Seq<char>)
    requires
        a.len() == b.len(),
        forall|i: int| 0 <= i < a.len() ==> lower(#[trigger] a[i]) == lower(b[i]),
    ensures
        natural_order(a, b) == 0,
{
    lemma_key_ignores_case(a, b);
    lemma_key_order_same(natural_key(a));
}

/// Two runs of digits compare as the numbers they denote.
pub proof fn law_natural_order_of_numbers(a: Seq<char>, b: Seq<char>)
    requires
        a.len() > 0,
        b.len() > 0,
        forall|i: int| 0 <= i < a.len() ==> is_digit(#[trigger] a[i]),
        forall|i: int| 0 <= i < b.len() ==> is_digit(#[trigger] b[i]),
    ensures
        natural_order(a, b) == sign_of(digits_value(a), digits_value(b)),
{
    reveal_with_fuel(key_order, 2);
    assert(is_digit(a[0]) && is_digit(b[0]));
    lemma_run_len_is(a, a.len());
    lemma_run_len_is(b, b.len());
    assert(a.take(a.len() as int) == a);
    assert(b.take(b.len() as int) == b);
    lemma_key_digits(a);
    lemma_key_digits(b);
    assert(natural_key(a.skip(a.len() as int)).len() == 0);
    assert(natural_key(b.skip(b.len() as int)).len() == 0);
}

/// Two texts can be put one behind the other without making one number of two.
pub open spec fn parts_there(a: Seq<char>, b: Seq<char>) -> bool {
    a.len() == 0 || b.len() == 0 || !('0' <= a.last() <= '9') || !('0' <= b[0] <= '9')
}

proof fn lemma_key_concat(a: Seq<char>, b: Seq<char>)
    requires
        parts_there(a, b),
    ensures
        natural_key(a + b) == natural_key(a) + natural_key(b),
    decreases a.len(),
{
    let s = a + b;
    if a.len() == 0 {
        assert(s =~= b);
        assert(natural_key(a) + natural_key(b) =~= natural_key(b));
    } else if is_digit(a[0]) {
        let n = run_len(a);
        lemma_run_len(a);
        lemma_key_digits(a);
        assert forall|i: int| 0 <= i < n implies is_digit(#[trigger] s[i]) by {
            assert(s[i] == a[i]);
        }
        if n < s.len() {
            if n < a.len() {
                assert(s[n as int] == a[n as int]);
            } else {
                assert(is_digit(a[n - 1]));
                assert(s[n as int] == b[0]);
            }
        }
        lemma_run_len_is(s, n);
        assert(s.take(n as int) =~= a.take(n as int));
        assert(s.skip(n as int) =~= a.skip(n as int) + b);
        lemma_key_concat(a.skip(n as int), b);
        assert(natural_key(s) =~= natural_key(a) + natural_key(b));
    } else {
        assert(s.skip(1) =~= a.skip(1) + b);
        lemma_key_concat(a.skip(1), b);
        assert(natural_key(s) =~= natural_key(a) + natural_key(b));
    }
}

proof fn lemma_same_start(k: Seq<(nat, nat)>, u: Seq<(nat, nat)>, v: Seq<(nat, nat)>)
    ensures
        key_order(k + u, k + v) == key_order(u, v),
    decreases k.len(),
{
    if k.len() == 0 {
        assert(k + u =~= u);
        assert(k + v =~= v);
    } else {
        assert((k + u).skip(1) =~= k.skip(1) + u);
        assert((k + v).skip(1) =~= k.skip(1) + v);
        lemma_same_start(k.skip(1), u, v);
    }
}

/// What two texts share at the start does not matter.
pub proof fn law_same_start_does_not_matter(start: Seq<char>, a: Seq<char>, b: Seq<char>)
    requires
        parts_there(start, a),
        parts_there(start, b),
    ensures
        natural_order(start + a, start + b) == natural_order(a, b),
{
    lemma_key_concat(start, a);
    lemma_key_concat(start, b);
    lemma_same_start(natural_key(start), natural_key(a), natural_key(b));
}

/// A text comes before any longer one that starts with it.
pub proof fn law_beginnings_come_first(a: Seq<char>, b: Seq<char>)
    requires
        parts_there(a, b),
        b.len() > 0,
    ensures
        natural_order(a, a + b) == -1,
{
    lemma_key_concat(a, b);
    lemma_same_start(natural_key(a), seq![], natural_key(b));
    assert(natural_key(a) + seq![] =~= natural_key(a));
    if is_digit(b[0]) {
        lemma_key_digits(b);
    } else {
        lemma_key_other(b);
    }
}

/// Where both texts start with other characters than digits, the first of these
/// decide: in the order of their code points, capital letters counting as small
/// ones. What comes behind does not matter.
pub proof fn law_first_characters_decide(c: char, x: Seq<char>, d: char, y: Seq<char>)
    requires
        !('0' <= c <= '9'),
        !('0' <= d <= '9'),
    ensures
        !('A' <= c <= 'Z') && !('A' <= d <= 'Z') && c < d ==> natural_order(
            seq![c] + x,
            seq![d] + y,
        ) == -1,
        'A' <= c <= 'Z' && !('A' <= d <= 'Z') && (c as int) + 32 < d as int ==> natural_order(
            seq![c] + x,
            seq![d] + y,
        ) == -1,
        'A' <= c <= 'Z' && !('A' <= d <= 'Z') && (c as int) + 32 > d as int ==> natural_order(
            seq![c] + x,
            seq![d] + y,
        ) == 1,
        'A' <= c <= 'Z' && 'A' <= d <= 'Z' && c < d ==> natural_order(seq![c] + x, seq![d] + y)
            == -1,
        c == d ==> natural_order(seq![c] + x, seq![d] + y) == natural_order(x, y),
{
    let (a, b) = (seq![c] + x, seq![d] + y);
    lemma_key_other(a);
    lemma_key_other(b);
    assert(a.skip(1) =~= x);
    assert(b.skip(1) =~= y);
}

/// Digits come before every character above `9` and behind every one below `0`.
pub proof fn law_digits_among_characters(c: char, x: Seq<char>, d: char, y: Seq<char>)
    requires
        '0' <= c <= '9',
        !('0' <= d <= '9'),
    ensures
        d > '9' ==> natural_order(seq![c] + x, seq![d] + y) == -1,
        d < '0' ==> natural_order(seq![c] + x, seq![d] + y) == 1,
{
    lemma_key_digits(seq![c] + x);
    lemma_key_other(seq![d] + y);
}

/// Numbers inside texts compare as numbers, whatever their length; level numbers
/// leave it to what comes behind them.
pub proof fn law_numbers_inside_texts(
    start: Seq<char>,
    m: Seq<char>,
    x: Seq<char>,
    n: Seq<char>,
    y: Seq<char>,
)
    requires
        m.len() > 0,
        n.len() > 0,
        forall|i: int| 0 <= i < m.len() ==> '0' <= #[trigger] m[i] <= '9',
        forall|i: int| 0 <= i < n.len() ==> '0' <= #[trigger] n[i] <= '9',
        start.len() > 0 ==> !('0' <= start.last() <= '9'),
        x.len() > 0 ==> !('0' <= x[0] <= '9'),
        y.len() > 0 ==> !('0' <= y[0] <= '9'),
    ensures
        digits_value(m) < digits_value(n) ==> natural_order(start + (m + x), start + (n + y)) == -1,
        digits_value(m) > digits_value(n) ==> natural_order(start + (m + x), start + (n + y)) == 1,
        digits_value(m) == digits_value(n) ==> natural_order(start + (m + x), start + (n + y))
            == natural_order(x, y),
{
    law_same_start_does_not_matter(start, m + x, n + y);
    lemma_number_key(m, x);
    lemma_number_key(n, y);
    lemma_same_start(seq![(48nat, digits_value(m))], natural_key(x), natural_key(y));
    let (u, v) = (natural_key(m + x), natural_key(n + y));
    assert(u.skip(1) =~= natural_key(x));
    assert(v.skip(1) =~= natural_key(y));
}

proof fn lemma_number_key(m: Seq<char>, x: Seq<char>)
    requires
        m.len() > 0,
        forall|i: int| 0 <= i < m.len() ==> '0' <= #[trigger] m[i] <= '9',
        x.len() > 0 ==> !('0' <= x[0] <= '9'),
    ensures
        natural_key(m + x) == seq![(48nat, digits_value(m))] + natural_key(x),
{
    let s = m + x;
    assert forall|i: int| 0 <= i < m.len() implies is_digit(#[trigger] s[i]) by {
        assert(s[i] == m[i]);
    }
    if m.len() < s.len() {
        assert(s[m.len() as int] == x[0]);
    }
    lemma_run_len_is(s, m.len());
    assert(is_digit(s[0]));
    assert(s.take(m.len() as int) =~= m);
    assert(s.skip(m.len() as int) =~= x);
}

/// Capital and small ASCII letters are level.
pub proof fn law_capitals_are_level(a: Seq<char>, b: Seq<char>)
    requires
        a.len() == b.len(),
        forall|i: int|
            0 <= i < a.len() ==> #[trigger] a[i] == b[i] || ('A' <= a[i] <= 'Z' && b[i] as int
                == a[i] as int + 32) || ('A' <= b[i] <= 'Z' && a[i] as int == b[i] as int + 32),
    ensures
        natural_order(a, b) == 0,
{
    assert forall|i: int| 0 <= i < a.len() implies lower(#[trigger] a[i]) == lower(b[i]) by {}
    law_natural_order_ignores_case(a, b);
}

/// A digit more makes a number ten times as large and adds the digit; zeros in
/// front do not count.
pub proof fn law_numbers_digit_by_digit(digits: Seq<char>, d: char)
    requires
        '0' <= d <= '9',
        forall|i: int| 0 <= i < digits.len() ==> '0' <= #[trigger] digits[i] <= '9',
    ensures
        digits_value(seq![]) == 0,
        digits_value(digits.push(d)) == 10 * digits_value(digits) + (d as int - '0' as int),
        digits_value(seq!['0'] + digits) == digits_value(digits),
{
    assert(digits.push(d).drop_last() =~= digits);
    let longer = seq!['0'] + digits;
    assert forall|i: int| 0 <= i < longer.len() implies is_digit(#[trigger] longer[i]) by {
        if i > 0 {
            assert(longer[i] == digits[i - 1]);
        }
    }
    lemma_leading_zero(longer);
    assert(longer.skip(1) =~= digits);
}

/// In a sorted list no text comes before an earlier one.
pub proof fn law_sorted_lists(list: Seq<Seq<char>>, i: int, j: int)
    requires
        naturally_sorted(list),
        0 <= i < j < list.len(),
    ensures
        natural_order(list[j], list[i]) >= 0,
        natural_order(list[i], list[j]) <= 0,
{
    law_natural_order_flips(list[i], list[j]);
}

/// The comparison answers by the order: two calls with the texts swapped give
/// opposite answers.
pub proof fn law_comparisons_are_opposite(a: &str, b: &str, x: Ordering, y: Ordering)
    requires
        call_ensures(natural_cmp, (a, b), x),
        call_ensures(natural_cmp, (b, a), y),
    ensures
        x is Less <==> y is Greater,
        x is Equal <==> y is Equal,
        x is Less <==> natural_order(a@, b@) == -1,
        x is Greater <==> natural_order(a@, b@) == 1,
{
    law_natural_order_flips(a@, b@);
}

} // verus!
