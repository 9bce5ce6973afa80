//! Natural order of file names: runs of ASCII digits compare by their value.

use vstd::prelude::*;
use vstd::string::StringSliceAdditionalSpecFns;

use crate::format::pow10;

verus! {

/// The outcome of comparing two file names.
#[derive(Clone, Copy, Debug, PartialEq, Eq, Structural)]
pub enum NaturalOrder {
    Less,
    Equal,
    Greater,
}

pub open spec fn compare_int(a: int, b: int) -> NaturalOrder {
    if a < b {
        NaturalOrder::Less
    } else if a > b {
        NaturalOrder::Greater
    } else {
        NaturalOrder::Equal
    }
}

pub open spec fn reversed(order: NaturalOrder) -> NaturalOrder {
    match order {
        NaturalOrder::Less => NaturalOrder::Greater,
        NaturalOrder::Equal => NaturalOrder::Equal,
        NaturalOrder::Greater => NaturalOrder::Less,
    }
}

/// `first`, and `second` to break a tie.
pub open spec fn then_order(first: NaturalOrder, second: NaturalOrder) -> NaturalOrder {
    if first == NaturalOrder::Equal {
        second
    } else {
        first
    }
}

pub open spec fn is_digit_byte(b: u8) -> bool {
    48 <= b <= 57
}

/// The length of the run of ASCII digits at the start of `s`.
pub open spec fn digit_run_len(s: Seq<u8>) -> nat
    decreases s.len(),
{
    if s.len() == 0 || !is_digit_byte(s[0]) {
        0
    } else {
        1 + digit_run_len(s.drop_first())
    }
}

/// A run of digits without its leading zeros; a run of zeros keeps one zero.
pub open spec fn trimmed(run: Seq<u8>) -> Seq<u8>
    decreases run.len(),
{
    if run.len() > 1 && run[0] == 48 {
        trimmed(run.drop_first())
    } else {
        run
    }
}

/// Lexicographic order of byte strings, a proper prefix coming first.
pub open spec fn lexicographic(a: Seq<u8>, b: Seq<u8>) -> NaturalOrder
    decreases a.len(),
{
    if a.len() == 0 || b.len() == 0 {
        compare_int(a.len() as int, b.len() as int)
    } else if a[0] < b[0] {
        NaturalOrder::Less
    } else if a[0] > b[0] {
        NaturalOrder::Greater
    } else {
        lexicographic(a.drop_first(), b.drop_first())
    }
}

/// Digit runs compare by their number of significant digits, then by those
/// digits, then the run with fewer leading zeros comes first.
pub open spec fn digit_run_order(a: Seq<u8>, b: Seq<u8>) -> NaturalOrder {
    then_order(
        compare_int(trimmed(a).len() as int, trimmed(b).len() as int),
        then_order(
            lexicographic(trimmed(a), trimmed(b)),
            compare_int(a.len() as int, b.len() as int),
        ),
    )
}

/// The leading digit run lies within the name and holds only digits.
pub proof fn lemma_digit_run_len_bounds(s: Seq<u8>)
    ensures
        digit_run_len(s) <= s.len(),
        s.len() > 0 && is_digit_byte(s[0]) ==> digit_run_len(s) >= 1,
        forall|i: int| 0 <= i < digit_run_len(s) ==> is_digit_byte(#[trigger] s[i]),
        digit_run_len(s) < s.len() ==> !is_digit_byte(s[digit_run_len(s) as int]),
    decreases s.len(),
{
    if s.len() > 0 && is_digit_byte(s[0]) {
        lemma_digit_run_len_bounds(s.drop_first());
        assert forall|i: int| 0 <= i < digit_run_len(s) implies is_digit_byte(#[trigger] s[i]) by {
            if i > 0 {
                assert(s[i] == s.drop_first()[i - 1]);
            }
        }
    }
}

/// The natural order of two names given as bytes: digit runs at the same
/// place compare as numbers, other bytes compare by value, and a name that
/// runs out first comes first.
pub open spec fn natural_order(a: Seq<u8>, b: Seq<u8>) -> NaturalOrder
    decreases a.len(),
{
    if a.len() == 0 || b.len() == 0 {
        compare_int(a.len() as int, b.len() as int)
    } else if is_digit_byte(a[0]) && is_digit_byte(b[0]) {
        let la = digit_run_len(a) as int;
        let lb = digit_run_len(b) as int;
        let order = digit_run_order(a.take(la), b.take(lb));
        if order != NaturalOrder::Equal {
            order
        } else {
            proof {
                lemma_digit_run_len_bounds(a);
            }
            natural_order(a.skip(la), b.skip(lb))
        }
    } else if a[0] < b[0] {
        NaturalOrder::Less
    } else if a[0] > b[0] {
        NaturalOrder::Greater
    } else {
        natural_order(a.skip(1), b.skip(1))
    }
}


/// The lexicographic order is antisymmetric and equal only on equal strings.
pub proof fn lemma_lexicographic_laws(a: Seq<u8>, b: Seq<u8>)
    ensures
        lexicographic(a, b) == reversed(lexicographic(b, a)),
        lexicographic(a, b) == NaturalOrder::Equal ==> a == b,
    decreases a.len(),
{
    if a.len() > 0 && b.len() > 0 && a[0] == b[0] {
        lemma_lexicographic_laws(a.drop_first(), b.drop_first());
        if lexicographic(a, b) == NaturalOrder::Equal {
            assert(a =~= seq![a[0]] + a.drop_first());
            assert(b =~= seq![b[0]] + b.drop_first());
        }
    } else if a.len() == 0 && b.len() == 0 {
        assert(a =~= b);
    }
}

/// A run of digits is its leading zeros followed by its trimmed form.
proof fn lemma_trimmed_shape(run: Seq<u8>)
    ensures
        trimmed(run).len() <= run.len(),
        run.len() > 0 ==> trimmed(run).len() > 0,
        trimmed(run) =~= run.skip(run.len() - trimmed(run).len()),
        forall|i: int| 0 <= i < run.len() - trimmed(run).len() ==> #[trigger] run[i] == 48,
    decreases run.len(),
{
    if run.len() > 1 && run[0] == 48 {
        let rest = run.drop_first();
        lemma_trimmed_shape(rest);
        assert forall|i: int| 0 <= i < run.len() - trimmed(run).len() implies #[trigger] run[i]
            == 48 by {
            if i > 0 {
                assert(run[i] == rest[i - 1]);
            }
        }
    } else {
        assert(run.skip(0) =~= run);
    }
}

proof fn lemma_digit_run_order_laws(a: Seq<u8>, b: Seq<u8>)
    ensures
        digit_run_order(a, b) == reversed(digit_run_order(b, a)),
        digit_run_order(a, b) == NaturalOrder::Equal ==> a == b,
{
    lemma_lexicographic_laws(trimmed(a), trimmed(b));
    if digit_run_order(a, b) == NaturalOrder::Equal {
        lemma_trimmed_shape(a);
        lemma_trimmed_shape(b);
        assert forall|i: int| 0 <= i < a.len() implies a[i] == b[i] by {
            let zeros = a.len() - trimmed(a).len();
            if i >= zeros {
                assert(a[i] == trimmed(a)[i - zeros]);
                assert(b[i] == trimmed(b)[i - zeros]);
            }
        }
        assert(a =~= b);
    }
}

/// Law: the natural order is antisymmetric, and two names are equal in it
/// only when they are the same bytes; in particular every name is equal to
/// itself.
pub proof fn law_natural_order_antisymmetric(a: Seq<u8>, b: Seq<u8>)
    ensures
        natural_order(a, b) == reversed(natural_order(b, a)),
        natural_order(a, b) == NaturalOrder::Equal <==> a == b,
    decreases a.len(),
{
    if a.len() == 0 || b.len() == 0 {
        if a.len() == 0 && b.len() == 0 {
            assert(a =~= b);
        }
    } else if is_digit_byte(a[0]) && is_digit_byte(b[0]) {
        lemma_digit_run_len_bounds(a);
        lemma_digit_run_len_bounds(b);
        let la = digit_run_len(a) as int;
        let lb = digit_run_len(b) as int;
        lemma_digit_run_order_laws(a.take(la), b.take(lb));
        if digit_run_order(a.take(la), b.take(lb)) == NaturalOrder::Equal {
            law_natural_order_antisymmetric(a.skip(la), b.skip(lb));
            assert(a =~= a.take(la) + a.skip(la));
            assert(b =~= b.take(lb) + b.skip(lb));
        } else if a == b {
            assert(a.take(la) == b.take(lb));
            lemma_digit_run_order_laws(a.take(la), a.take(la));
        }
    } else if a[0] == b[0] {
        law_natural_order_antisymmetric(a.skip(1), b.skip(1));
        assert(a =~= seq![a[0]] + a.skip(1));
        assert(b =~= seq![b[0]] + b.skip(1));
    }
}


pub proof fn lemma_lexicographic_transitive(a: Seq<u8>, b: Seq<u8>, c: Seq<u8>)
    requires
        lexicographic(a, b) == NaturalOrder::Less,
        lexicographic(b, c) == NaturalOrder::Less,
    ensures
        lexicographic(a, c) == NaturalOrder::Less,
    decreases a.len(),
{
    if a.len() > 0 && b.len() > 0 && c.len() > 0 && a[0] == b[0] && b[0] == c[0] {
        lemma_lexicographic_transitive(a.drop_first(), b.drop_first(), c.drop_first());
    }
}

proof fn lemma_digit_run_order_transitive(a: Seq<u8>, b: Seq<u8>, c: Seq<u8>)
    requires
        digit_run_order(a, b) == NaturalOrder::Less,
        digit_run_order(b, c) == NaturalOrder::Less,
    ensures
        digit_run_order(a, c) == NaturalOrder::Less,
{
    let (ta, tb, tc) = (trimmed(a), trimmed(b), trimmed(c));
    lemma_lexicographic_laws(ta, tb);
    lemma_lexicographic_laws(tb, tc);
    lemma_lexicographic_laws(ta, tc);
    if lexicographic(ta, tb) == NaturalOrder::Less && lexicographic(tb, tc) == NaturalOrder::Less {
        lemma_lexicographic_transitive(ta, tb, tc);
    }
}

/// Law: the natural order is transitive; with antisymmetry and equality only
/// on equal names, it is a total order of byte strings.
pub proof fn law_natural_order_transitive(a: Seq<u8>, b: Seq<u8>, c: Seq<u8>)
    requires
        natural_order(a, b) == NaturalOrder::Less,
        natural_order(b, c) == NaturalOrder::Less,
    ensures
        natural_order(a, c) == NaturalOrder::Less,
    decreases a.len(),
{
    if a.len() == 0 || b.len() == 0 || c.len() == 0 {
    } else if is_digit_byte(a[0]) && is_digit_byte(b[0]) && is_digit_byte(c[0]) {
        lemma_digit_run_len_bounds(a);
        lemma_digit_run_len_bounds(b);
        lemma_digit_run_len_bounds(c);
        let (la, lb, lc) = (digit_run_len(a) as int, digit_run_len(b) as int, digit_run_len(c) as int);
        let (ra, rb, rc) = (a.take(la), b.take(lb), c.take(lc));
        lemma_digit_run_order_laws(ra, rb);
        lemma_digit_run_order_laws(rb, rc);
        lemma_digit_run_order_laws(ra, rc);
        if digit_run_order(ra, rb) == NaturalOrder::Less && digit_run_order(rb, rc)
            == NaturalOrder::Less {
            lemma_digit_run_order_transitive(ra, rb, rc);
        } else if digit_run_order(ra, rb) == NaturalOrder::Equal && digit_run_order(rb, rc)
            == NaturalOrder::Equal {
            assert(la == lb && lb == lc);
            law_natural_order_transitive(a.skip(la), b.skip(lb), c.skip(lc));
        }
    } else if a[0] == b[0] && b[0] == c[0] {
        law_natural_order_transitive(a.skip(1), b.skip(1), c.skip(1));
    }
}

/// Whether every byte is an ASCII digit.
pub open spec fn all_digit_bytes(s: Seq<u8>) -> bool {
    forall|i: int| 0 <= i < s.len() ==> is_digit_byte(#[trigger] s[i])
}

/// The number that a run of ASCII digits denotes in decimal.
pub open spec fn digit_run_value(run: Seq<u8>) -> int
    decreases run.len(),
{
    if run.len() == 0 {
        0
    } else {
        (run[0] - 48) * pow10((run.len() - 1) as nat) + digit_run_value(run.drop_first())
    }
}

proof fn lemma_pow10_monotonic(m: nat, n: nat)
    requires
        m <= n,
    ensures
        1 <= pow10(m) <= pow10(n),
    decreases n,
{
    if n > 0 {
        if n > m {
            lemma_pow10_monotonic(m, (n - 1) as nat);
        } else {
            lemma_pow10_monotonic((n - 1) as nat, (n - 1) as nat);
        }
        assert(pow10(n) == 10 * pow10((n - 1) as nat));
    }
}

/// A run of `n` digits denotes less than `10^n`, and at least `10^(n-1)` when
/// it does not start with a zero.
proof fn lemma_digit_run_value_bounds(run: Seq<u8>)
    requires
        all_digit_bytes(run),
    ensures
        0 <= digit_run_value(run) < pow10(run.len()),
        run.len() > 0 && run[0] != 48 ==> pow10((run.len() - 1) as nat) <= digit_run_value(run),
    decreases run.len(),
{
    if run.len() > 0 {
        let rest = run.drop_first();
        assert(all_digit_bytes(rest)) by {
            assert forall|i: int| 0 <= i < rest.len() implies is_digit_byte(#[trigger] rest[i]) by {
                assert(rest[i] == run[i + 1]);
            }
        }
        lemma_digit_run_value_bounds(rest);
        let p = pow10(rest.len());
        let d = run[0] - 48;
        assert(is_digit_byte(run[0]));
        lemma_pow10_monotonic(0, rest.len());
        assert(pow10(run.len()) == 10 * p);
        assert(0 <= d * p <= 9 * p) by (nonlinear_arith)
            requires
                0 <= d <= 9,
                p >= 1,
        {
        }
        assert(d >= 1 ==> d * p >= p) by (nonlinear_arith)
            requires
                p >= 1,
        {
        }
    }
}

/// Leading zeros do not change the number.
proof fn lemma_trimmed_value(run: Seq<u8>)
    requires
        all_digit_bytes(run),
    ensures
        digit_run_value(trimmed(run)) == digit_run_value(run),
        all_digit_bytes(trimmed(run)),
        run.len() > 0 ==> trimmed(run).len() > 0,
        trimmed(run).len() > 1 ==> trimmed(run)[0] != 48,
    decreases run.len(),
{
    if run.len() > 1 && run[0] == 48 {
        let rest = run.drop_first();
        assert(all_digit_bytes(rest)) by {
            assert forall|i: int| 0 <= i < rest.len() implies is_digit_byte(#[trigger] rest[i]) by {
                assert(rest[i] == run[i + 1]);
            }
        }
        lemma_trimmed_value(rest);
        assert((run[0] - 48) * pow10((run.len() - 1) as nat) == 0);
    }
}

/// Two digit strings of the same length compare, byte by byte, as the numbers
/// they denote.
proof fn lemma_lexicographic_is_numeric(a: Seq<u8>, b: Seq<u8>)
    requires
        a.len() == b.len(),
        all_digit_bytes(a),
        all_digit_bytes(b),
    ensures
        lexicographic(a, b) == compare_int(digit_run_value(a), digit_run_value(b)),
    decreases a.len(),
{
    if a.len() > 0 {
        let (ra, rb) = (a.drop_first(), b.drop_first());
        assert(all_digit_bytes(ra)) by {
            assert forall|i: int| 0 <= i < ra.len() implies is_digit_byte(#[trigger] ra[i]) by {
                assert(ra[i] == a[i + 1]);
            }
        }
        assert(all_digit_bytes(rb)) by {
            assert forall|i: int| 0 <= i < rb.len() implies is_digit_byte(#[trigger] rb[i]) by {
                assert(rb[i] == b[i + 1]);
            }
        }
        lemma_lexicographic_is_numeric(ra, rb);
        lemma_digit_run_value_bounds(ra);
        lemma_digit_run_value_bounds(rb);
        let p = pow10(ra.len());
        let (da, db) = (a[0] - 48, b[0] - 48);
        let (va, vb) = (digit_run_value(ra), digit_run_value(rb));
        if da < db {
            assert(da * p + va < db * p + vb) by (nonlinear_arith)
                requires
                    da + 1 <= db,
                    0 <= va < p,
                    0 <= vb,
            {
            }
        } else if da > db {
            assert(da * p + va > db * p + vb) by (nonlinear_arith)
                requires
                    db + 1 <= da,
                    0 <= vb < p,
                    0 <= va,
            {
            }
        }
    }
}

/// Law: two runs of digits are ordered as the numbers they denote; runs that
/// denote the same number are ordered by length, less zero padding first.
pub proof fn law_digit_runs_compare_by_value(a: Seq<u8>, b: Seq<u8>)
    requires
        a.len() > 0,
        b.len() > 0,
        all_digit_bytes(a),
        all_digit_bytes(b),
    ensures
        digit_run_value(a) < digit_run_value(b) ==> digit_run_order(a, b) == NaturalOrder::Less,
        digit_run_value(a) > digit_run_value(b) ==> digit_run_order(a, b) == NaturalOrder::Greater,
        digit_run_value(a) == digit_run_value(b) ==> digit_run_order(a, b) == compare_int(
            a.len() as int,
            b.len() as int,
        ),
{
    let (ta, tb) = (trimmed(a), trimmed(b));
    lemma_trimmed_value(a);
    lemma_trimmed_value(b);
    lemma_digit_run_value_bounds(ta);
    lemma_digit_run_value_bounds(tb);
    if ta.len() < tb.len() {
        lemma_pow10_monotonic(ta.len(), (tb.len() - 1) as nat);
    } else if ta.len() > tb.len() {
        lemma_pow10_monotonic(tb.len(), (ta.len() - 1) as nat);
    } else {
        lemma_lexicographic_is_numeric(ta, tb);
    }
}

proof fn lemma_digit_run_len_of_run(a: Seq<u8>, x: Seq<u8>)
    requires
        all_digit_bytes(a),
        x.len() == 0 || !is_digit_byte(x[0]),
    ensures
        digit_run_len(a + x) == a.len(),
    decreases a.len(),
{
    if a.len() > 0 {
        let rest = a.drop_first();
        assert(all_digit_bytes(rest)) by {
            assert forall|i: int| 0 <= i < rest.len() implies is_digit_byte(#[trigger] rest[i]) by {
                assert(rest[i] == a[i + 1]);
            }
        }
        lemma_digit_run_len_of_run(rest, x);
        assert((a + x).drop_first() =~= rest + x);
        assert(is_digit_byte(a[0]));
    } else {
        assert(a + x =~= x);
    }
}

/// Law: names that agree up to a number, with no digit before it, are in the
/// order of their numbers, whatever follows the numbers: `page-9.jpg` comes
/// before `page-10.jpg`, and `page-10.jpg` before `page-11.jpg`.
pub proof fn law_numbered_names_follow_their_numbers(
    prefix: Seq<u8>,
    a: Seq<u8>,
    x: Seq<u8>,
    b: Seq<u8>,
    y: Seq<u8>,
)
    requires
        forall|i: int| 0 <= i < prefix.len() ==> !is_digit_byte(#[trigger] prefix[i]),
        a.len() > 0 && all_digit_bytes(a),
        b.len() > 0 && all_digit_bytes(b),
        x.len() == 0 || !is_digit_byte(x[0]),
        y.len() == 0 || !is_digit_byte(y[0]),
        digit_run_value(a) != digit_run_value(b),
    ensures
        natural_order(prefix + a + x, prefix + b + y) == compare_int(
            digit_run_value(a),
            digit_run_value(b),
        ),
    decreases prefix.len(),
{
    let left = prefix + a + x;
    let right = prefix + b + y;
    if prefix.len() > 0 {
        let rest = prefix.drop_first();
        assert forall|i: int| 0 <= i < rest.len() implies !is_digit_byte(#[trigger] rest[i]) by {
            assert(rest[i] == prefix[i + 1]);
        }
        law_numbered_names_follow_their_numbers(rest, a, x, b, y);
        assert(left.skip(1) =~= rest + a + x);
        assert(right.skip(1) =~= rest + b + y);
        assert(left[0] == prefix[0] && right[0] == prefix[0]);
    } else {
        assert(left =~= a + x);
        assert(right =~= b + y);
        lemma_digit_run_len_of_run(a, x);
        lemma_digit_run_len_of_run(b, y);
        assert((a + x).take(a.len() as int) =~= a);
        assert((b + y).take(b.len() as int) =~= b);
        assert(is_digit_byte(a[0]) && is_digit_byte(b[0]));
        assert(left[0] == a[0] && right[0] == b[0]);
        law_digit_runs_compare_by_value(a, b);
    }
}

/// Law: names that agree up to a position, with no digit before it, are in
/// the order of the bytes there when neither is a digit, and a name that ends
/// there comes before every longer one.
pub proof fn law_names_follow_their_first_difference(prefix: Seq<u8>, c: u8, x: Seq<u8>, d: u8, y: Seq<u8>)
    requires
        forall|i: int| 0 <= i < prefix.len() ==> !is_digit_byte(#[trigger] prefix[i]),
    ensures
        !is_digit_byte(c) && !is_digit_byte(d) ==> natural_order(
            prefix + seq![c] + x,
            prefix + seq![d] + y,
        ) == (if c < d {
            NaturalOrder::Less
        } else if c > d {
            NaturalOrder::Greater
        } else {
            natural_order(x, y)
        }),
        natural_order(prefix, prefix + seq![d] + y) == NaturalOrder::Less,
    decreases prefix.len(),
{
    let left = prefix + seq![c] + x;
    let right = prefix + seq![d] + y;
    let longer = prefix + seq![d] + y;
    if prefix.len() > 0 {
        let rest = prefix.drop_first();
        assert forall|i: int| 0 <= i < rest.len() implies !is_digit_byte(#[trigger] rest[i]) by {
            assert(rest[i] == prefix[i + 1]);
        }
        law_names_follow_their_first_difference(rest, c, x, d, y);
        assert(left.skip(1) =~= rest + seq![c] + x);
        assert(right.skip(1) =~= rest + seq![d] + y);
        assert(prefix.skip(1) =~= rest);
        assert(left[0] == prefix[0] && right[0] == prefix[0] && longer[0] == prefix[0]);
    } else {
        assert(left =~= seq![c] + x);
        assert(right =~= seq![d] + y);
        assert(left.skip(1) =~= x);
        assert(right.skip(1) =~= y);
    }
}

/// Where the run of digits that starts at `start` ends.
fn digit_run_end(value: &[u8], start: usize) -> (end: usize)
    requires
        start <= value@.len(),
    ensures
        start <= end <= value@.len(),
        end - start == digit_run_len(value@.skip(start as int)),
{
    let mut end = start;
    while end < value.len() && 48 <= value[end] && value[end] <= 57
        invariant
            start <= end <= value@.len(),
            digit_run_len(value@.skip(start as int)) == (end - start) + digit_run_len(
                value@.skip(end as int),
            ),
        decreases value@.len() - end,
    {
        assert(value@.skip(end as int).drop_first() =~= value@.skip(end + 1));
        end = end + 1;
    }
    end
}

/// Where the significant digits of the digit run `value[start..end]` begin.
fn trim_leading_zeroes(value: &[u8], start: usize, end: usize) -> (first: usize)
    requires
        start < end <= value@.len(),
    ensures
        start <= first < end,
        value@.subrange(first as int, end as int) == trimmed(
            value@.subrange(start as int, end as int),
        ),
{
    let mut first = start;
    while first + 1 < end && value[first] == 48
        invariant
            start <= first < end <= value@.len(),
            trimmed(value@.subrange(start as int, end as int)) == trimmed(
                value@.subrange(first as int, end as int),
            ),
        decreases end - first,
    {
        assert(value@.subrange(first as int, end as int).drop_first() =~= value@.subrange(
            first + 1,
            end as int,
        ));
        first = first + 1;
    }
    first
}

/// Lexicographic comparison of `left[ls..le]` and `right[rs..re]`.
pub fn compare_bytes(left: &[u8], ls: usize, le: usize, right: &[u8], rs: usize, re: usize) -> (order:
    NaturalOrder)
    requires
        ls <= le <= left@.len(),
        rs <= re <= right@.len(),
    ensures
        order == lexicographic(
            left@.subrange(ls as int, le as int),
            right@.subrange(rs as int, re as int),
        ),
{
    let mut i = ls;
    let mut j = rs;
    while i < le && j < re
        invariant
            ls <= i <= le <= left@.len(),
            rs <= j <= re <= right@.len(),
            i - ls == j - rs,
            lexicographic(left@.subrange(ls as int, le as int), right@.subrange(rs as int, re as int))
                == lexicographic(
                left@.subrange(i as int, le as int),
                right@.subrange(j as int, re as int),
            ),
        decreases le - i,
    {
        assert(left@.subrange(i as int, le as int).drop_first() =~= left@.subrange(
            i + 1,
            le as int,
        ));
        assert(right@.subrange(j as int, re as int).drop_first() =~= right@.subrange(
            j + 1,
            re as int,
        ));
        if left[i] < right[j] {
            return NaturalOrder::Less;
        }
        if left[i] > right[j] {
            return NaturalOrder::Greater;
        }
        i = i + 1;
        j = j + 1;
    }
    compare_lengths(le - i, re - j)
}

fn compare_lengths(a: usize, b: usize) -> (order: NaturalOrder)
    ensures
        order == compare_int(a as int, b as int),
{
    if a < b {
        NaturalOrder::Less
    } else if a > b {
        NaturalOrder::Greater
    } else {
        NaturalOrder::Equal
    }
}

/// Compares the digit runs `left[ls..le]` and `right[rs..re]`: number of
/// significant digits, then their value, then the amount of zero padding.
fn compare_digit_runs(left: &[u8], ls: usize, le: usize, right: &[u8], rs: usize, re: usize) -> (order:
    NaturalOrder)
    requires
        ls < le <= left@.len(),
        rs < re <= right@.len(),
    ensures
        order == digit_run_order(
            left@.subrange(ls as int, le as int),
            right@.subrange(rs as int, re as int),
        ),
{
    let lt = trim_leading_zeroes(left, ls, le);
    let rt = trim_leading_zeroes(right, rs, re);
    let by_length = compare_lengths(le - lt, re - rt);
    if by_length != NaturalOrder::Equal {
        return by_length;
    }
    let by_digits = compare_bytes(left, lt, le, right, rt, re);
    if by_digits != NaturalOrder::Equal {
        return by_digits;
    }
    compare_lengths(le - ls, re - rs)
}

/// Compares two names as byte strings in natural order.
pub fn natural_compare_bytes(left: &[u8], right: &[u8]) -> (order: NaturalOrder)
    ensures
        order == natural_order(left@, right@),
{
    let mut l: usize = 0;
    let mut r: usize = 0;
    assert(left@.skip(0) =~= left@);
    assert(right@.skip(0) =~= right@);
    while l < left.len() && r < right.len()
        invariant
            l <= left@.len(),
            r <= right@.len(),
            l == r,
            natural_order(left@, right@) == natural_order(
                left@.skip(l as int),
                right@.skip(r as int),
            ),
        decreases left@.len() - l,
    {
        let ghost a = left@.skip(l as int);
        let ghost b = right@.skip(r as int);
        if 48 <= left[l] && left[l] <= 57 && 48 <= right[r] && right[r] <= 57 {
            let le = digit_run_end(left, l);
            let re = digit_run_end(right, r);
            proof {
                lemma_digit_run_len_bounds(a);
                lemma_digit_run_len_bounds(b);
                assert(a.take(le - l) =~= left@.subrange(l as int, le as int));
                assert(b.take(re - r) =~= right@.subrange(r as int, re as int));
                assert(a.skip(le - l) =~= left@.skip(le as int));
                assert(b.skip(re - r) =~= right@.skip(re as int));
            }
            let order = compare_digit_runs(left, l, le, right, r, re);
            if order != NaturalOrder::Equal {
                return order;
            }
            proof {
                lemma_digit_run_order_laws(
                    left@.subrange(l as int, le as int),
                    right@.subrange(r as int, re as int),
                );
            }
            l = le;
            r = re;
        } else {
            if left[l] < right[r] {
                return NaturalOrder::Less;
            }
            if left[l] > right[r] {
                return NaturalOrder::Greater;
            }
            proof {
                assert(a.skip(1) =~= left@.skip(l + 1));
                assert(b.skip(1) =~= right@.skip(r + 1));
            }
            l = l + 1;
            r = r + 1;
        }
    }
    compare_lengths(left.len(), right.len())
}


/// The standard ordering that corresponds to a natural order.
pub open spec fn standard_ordering(order: NaturalOrder) -> core::cmp::Ordering {
    match order {
        NaturalOrder::Less => core::cmp::Ordering::Less,
        NaturalOrder::Equal => core::cmp::Ordering::Equal,
        NaturalOrder::Greater => core::cmp::Ordering::Greater,
    }
}

/// Compares two file names in natural order: runs of ASCII digits compare by
/// value, so `page-2` comes before `page-10`, and for equal values the run
/// with less zero padding comes first, so `page-1` comes before `page-01`.
pub fn natural_compare(left: &str, right: &str) -> (order: core::cmp::Ordering)
    ensures
        order == standard_ordering(natural_order(left.spec_bytes(), right.spec_bytes())),
{
    match natural_compare_bytes(left.as_bytes(), right.as_bytes()) {
        NaturalOrder::Less => core::cmp::Ordering::Less,
        NaturalOrder::Equal => core::cmp::Ordering::Equal,
        NaturalOrder::Greater => core::cmp::Ordering::Greater,
    }
}

} // verus!
