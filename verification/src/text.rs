use vstd::prelude::*;

verus! {

/// `==` of `str`. The contract claims what the comparison is documented to
/// do: the result is `true` exactly when the two slices hold the same
/// characters.
#[verifier::external_body]
pub(crate) fn same_text(a: &str, b: &str) -> (r: bool)
    ensures
        r == (a@ == b@),
{
    a == b
}

/// Whether `s` begins with `prefix`.
pub fn starts_with(s: &str, prefix: &str) -> (r: bool)
    ensures
        r == prefix@.is_prefix_of(s@),
{
    let n = s.unicode_len();
    let m = prefix.unicode_len();
    if m > n {
        return false;
    }
    let mut i: usize = 0;
    while i < m
        invariant
            i <= m <= n,
            n == s@.len(),
            m == prefix@.len(),
            forall|j: int| 0 <= j < i ==> s@[j] == prefix@[j],
        decreases m - i,
    {
        if s.get_char(i) != prefix.get_char(i) {
            assert(s@.subrange(0, m as int)[i as int] != prefix@[i as int]);
            return false;
        }
        i += 1;
    }
    assert(s@.subrange(0, m as int) =~= prefix@);
    true
}

/// The character that stands for one decimal digit.
pub open spec fn digit(d: nat) -> char {
    if d == 0 {
        '0'
    } else if d == 1 {
        '1'
    } else if d == 2 {
        '2'
    } else if d == 3 {
        '3'
    } else if d == 4 {
        '4'
    } else if d == 5 {
        '5'
    } else if d == 6 {
        '6'
    } else if d == 7 {
        '7'
    } else if d == 8 {
        '8'
    } else {
        '9'
    }
}

/// A natural number in decimal, most significant digit first, without
/// leading zeros.
pub open spec fn decimal(n: nat) -> Seq<char>
    decreases n,
{
    if n < 10 {
        seq![digit(n)]
    } else {
        decimal(n / 10).push(digit(n % 10))
    }
}

fn digit_text(d: u8) -> (r: &'static str)
    requires
        d < 10,
    ensures
        r@ == seq![digit(d as nat)],
{
    proof {
        reveal_strlit("0");
        reveal_strlit("1");
        reveal_strlit("2");
        reveal_strlit("3");
        reveal_strlit("4");
        reveal_strlit("5");
        reveal_strlit("6");
        reveal_strlit("7");
        reveal_strlit("8");
        reveal_strlit("9");
    }
    let r = if d == 0 {
        "0"
    } else if d == 1 {
        "1"
    } else if d == 2 {
        "2"
    } else if d == 3 {
        "3"
    } else if d == 4 {
        "4"
    } else if d == 5 {
        "5"
    } else if d == 6 {
        "6"
    } else if d == 7 {
        "7"
    } else if d == 8 {
        "8"
    } else {
        "9"
    };
    assert(r@ =~= seq![digit(d as nat)]);
    r
}

/// Writes `n` in decimal.
pub fn decimal_string(n: u128) -> (r: String)
    ensures
        r@ == decimal(n as nat),
    decreases n,
{
    if n < 10 {
        String::from_str(digit_text(n as u8))
    } else {
        let mut r = decimal_string(n / 10);
        let d = digit_text((n % 10) as u8);
        r.append(d);
        assert(r@ =~= decimal(n as nat));
        r
    }
}

/// Every natural number is written with at least one digit.
pub proof fn lemma_decimal_len(n: nat)
    ensures
        decimal(n).len() >= 1,
        n >= 10 ==> decimal(n).len() >= 2,
    decreases n,
{
    if n >= 10 {
        lemma_decimal_len(n / 10);
    }
}

/// Two numbers that are written alike are the same number.
pub proof fn lemma_decimal_injective(a: nat, b: nat)
    requires
        decimal(a) == decimal(b),
    ensures
        a == b,
    decreases a,
{
    lemma_decimal_len(a);
    lemma_decimal_len(b);
    if a < 10 && b < 10 {
        assert(decimal(a) == seq![digit(a)]);
        assert(decimal(b) == seq![digit(b)]);
        assert(seq![digit(a)][0] == digit(a));
        assert(seq![digit(b)][0] == digit(b));
        lemma_digit_injective(a, b);
    } else if a >= 10 && b >= 10 {
        let x = decimal(a / 10);
        let y = decimal(b / 10);
        assert(x =~= decimal(a).drop_last());
        assert(y =~= decimal(b).drop_last());
        assert(decimal(a).last() == digit(a % 10));
        assert(decimal(b).last() == digit(b % 10));
        lemma_decimal_injective(a / 10, b / 10);
        lemma_digit_injective(a % 10, b % 10);
    } else if a < 10 {
        assert(decimal(a).len() == 1);
    } else {
        assert(decimal(b).len() == 1);
    }
}

/// Two digits that are written alike are the same digit.
pub proof fn lemma_digit_injective(a: nat, b: nat)
    requires
        a < 10,
        b < 10,
        digit(a) == digit(b),
    ensures
        a == b,
{
}

/// A text followed by one of two different numbers gives two different texts.
pub proof fn lemma_numbered_injective(base: Seq<char>, a: nat, b: nat)
    requires
        base + decimal(a) == base + decimal(b),
    ensures
        a == b,
{
    let x = base + decimal(a);
    let y = base + decimal(b);
    assert(decimal(a) =~= x.subrange(base.len() as int, x.len() as int));
    assert(decimal(b) =~= y.subrange(base.len() as int, y.len() as int));
    lemma_decimal_injective(a, b);
}

/// The predicate that holds of every position.
pub open spec fn every() -> spec_fn(int) -> bool {
    |i: int| true
}

/// The pieces `line(i)` of the positions `i` below `n` that `keep` holds of,
/// one after the other in the order of the positions.
pub open spec fn joined<A>(n: nat, keep: spec_fn(int) -> bool, line: spec_fn(int) -> Seq<A>) -> Seq<
    A,
>
    decreases n,
{
    if n == 0 {
        Seq::empty()
    } else {
        let before = joined((n - 1) as nat, keep, line);
        if keep(n - 1) {
            before + line(n - 1)
        } else {
            before
        }
    }
}

/// The positions below `n` that `keep` holds of, in increasing order.
pub open spec fn kept(n: nat, keep: spec_fn(int) -> bool) -> Seq<int>
    decreases n,
{
    if n == 0 {
        Seq::empty()
    } else {
        let before = kept((n - 1) as nat, keep);
        if keep(n - 1) {
            before.push(n - 1)
        } else {
            before
        }
    }
}

/// The pieces `line(i)` of the positions `i` that `at` lists, in the order of
/// the list.
pub open spec fn joined_at<A>(at: Seq<int>, line: spec_fn(int) -> Seq<A>) -> Seq<A>
    decreases at.len(),
{
    if at.len() == 0 {
        Seq::empty()
    } else {
        joined_at(at.drop_last(), line) + line(at.last())
    }
}

/// `kept` lists exactly the positions below `n` that `keep` holds of, each
/// once, in increasing order.
pub proof fn lemma_kept(n: nat, keep: spec_fn(int) -> bool)
    ensures
        forall|a: int, b: int|
            0 <= a < b < kept(n, keep).len() ==> kept(n, keep)[a] < kept(n, keep)[b],
        forall|a: int|
            0 <= a < kept(n, keep).len() ==> 0 <= #[trigger] kept(n, keep)[a] < n && keep(
                kept(n, keep)[a],
            ),
        forall|i: int| 0 <= i < n && keep(i) ==> #[trigger] kept(n, keep).contains(i),
        kept(n, keep).no_duplicates(),
    decreases n,
{
    if n > 0 {
        let before = kept((n - 1) as nat, keep);
        lemma_kept((n - 1) as nat, keep);
        let now = kept(n, keep);
        assert forall|i: int| 0 <= i < n && keep(i) implies #[trigger] now.contains(i) by {
            if i < n - 1 {
                assert(before.contains(i));
                let a = choose|a: int| 0 <= a < before.len() && before[a] == i;
                assert(now[a] == i);
            } else {
                assert(now[now.len() - 1] == i);
            }
        }
    }
}

/// A position is in `kept` exactly when it is below `n` and `keep` holds
/// of it.
pub proof fn lemma_kept_contains(n: nat, keep: spec_fn(int) -> bool, i: int)
    ensures
        kept(n, keep).contains(i) <==> 0 <= i < n && keep(i),
{
    lemma_kept(n, keep);
    if kept(n, keep).contains(i) {
        let a = choose|a: int| 0 <= a < kept(n, keep).len() && kept(n, keep)[a] == i;
        assert(keep(kept(n, keep)[a]));
    }
}

/// `joined` is the pieces of the positions that `kept` lists.
pub proof fn lemma_joined_is_kept<A>(
    n: nat,
    keep: spec_fn(int) -> bool,
    line: spec_fn(int) -> Seq<A>,
)
    ensures
        joined(n, keep, line) == joined_at(kept(n, keep), line),
    decreases n,
{
    if n > 0 {
        lemma_joined_is_kept((n - 1) as nat, keep, line);
        if keep(n - 1) {
            let before = kept((n - 1) as nat, keep);
            assert(before.push(n - 1).drop_last() =~= before);
        }
    }
}

} // verus!
