use vstd::prelude::*;
use vstd::relations::injective_on;
use vstd::set_lib::{lemma_int_range, lemma_len_subset, lemma_map_size, set_int_range};

verus! {

pub open spec fn digit(d: nat) -> char {
    if d == 0 {
        '0'
    } else if d == 1 {
        '1'
    } else if d == 2 {
        '2'
    } else if d == 3 {
        '3'
    } else if d == 4 {
        '4'
    } else if d == 5 {
        '5'
    } else if d == 6 {
        '6'
    } else if d == 7 {
        '7'
    } else if d == 8 {
        '8'
    } else {
        '9'
    }
}

/// The decimal digits of `n`, without leading zeros.
pub open spec fn decimal(n: nat) -> Seq<char>
    decreases n,
{
    if n < 10 {
        seq![digit(n)]
    } else {
        decimal(n / 10).push(digit(n % 10))
    }
}

/// Index of the last `.` of `name`, or -1 where it has none.
pub open spec fn last_dot(name: Seq<char>) -> int
    decreases name.len(),
{
    if name.len() == 0 {
        -1
    } else if name.last() == '.' {
        name.len() - 1
    } else {
        last_dot(name.drop_last())
    }
}

/// The file stem: all before the last `.`, or the whole name where the only
/// `.` leads it or there is none.
pub open spec fn stem(name: Seq<char>) -> Seq<char> {
    if last_dot(name) <= 0 {
        name
    } else {
        name.take(last_dot(name))
    }
}

/// The extension with its leading `.`, or nothing.
pub open spec fn dotted_ext(name: Seq<char>) -> Seq<char> {
    if last_dot(name) <= 0 {
        Seq::empty()
    } else {
        name.skip(last_dot(name))
    }
}

/// The `n`-th name tried for `name`: the name itself, then
/// `stem_n.ext` (or `stem_n` without an extension).
pub open spec fn candidate(name: Seq<char>, n: nat) -> Seq<char> {
    if n == 0 {
        name
    } else {
        stem(name) + seq!['_'] + decimal(n) + dotted_ext(name)
    }
}

proof fn lemma_last_dot(name: Seq<char>)
    ensures
        -1 <= last_dot(name) < name.len(),
        last_dot(name) >= 0 ==> name[last_dot(name)] == '.',
    decreases name.len(),
{
    if name.len() > 0 && name.last() != '.' {
        lemma_last_dot(name.drop_last());
    }
}

proof fn lemma_stem_ext(name: Seq<char>)
    ensures
        name == stem(name) + dotted_ext(name),
{
    lemma_last_dot(name);
    assert(name =~= stem(name) + dotted_ext(name));
}

proof fn lemma_decimal_len(n: nat)
    ensures
        decimal(n).len() >= 1,
        decimal(n).len() == 1 <==> n < 10,
    decreases n,
{
    if n >= 10 {
        lemma_decimal_len(n / 10);
    }
}

proof fn lemma_decimal_injective(a: nat, b: nat)
    requires
        decimal(a) == decimal(b),
    ensures
        a == b,
    decreases a,
{
    lemma_decimal_len(a);
    lemma_decimal_len(b);
    if a >= 10 && b >= 10 {
        assert(decimal(a).last() == digit(a % 10));
        assert(decimal(b).last() == digit(b % 10));
        assert(decimal(a / 10) == decimal(a).drop_last());
        assert(decimal(b / 10) == decimal(b).drop_last());
        lemma_decimal_injective(a / 10, b / 10);
    } else if a < 10 && b < 10 {
        assert(decimal(a)[0] == digit(a));
        assert(decimal(b)[0] == digit(b));
    }
}

proof fn lemma_candidate_injective(name: Seq<char>, a: nat, b: nat)
    requires
        candidate(name, a) == candidate(name, b),
    ensures
        a == b,
{
    lemma_stem_ext(name);
    lemma_decimal_len(a);
    lemma_decimal_len(b);
    let p = stem(name) + seq!['_'];
    let e = dotted_ext(name);
    if a > 0 && b > 0 {
        let ca = candidate(name, a);
        assert(ca.len() == p.len() + decimal(a).len() + e.len());
        assert(candidate(name, b).len() == p.len() + decimal(b).len() + e.len());
        assert forall|i: int| 0 <= i < decimal(a).len() implies decimal(a)[i] == decimal(b)[i] by {
            assert(ca[p.len() + i] == decimal(a)[i]);
            assert(candidate(name, b)[p.len() + i] == decimal(b)[i]);
        }
        assert(decimal(a) =~= decimal(b));
        lemma_decimal_injective(a, b);
    } else if a > 0 || b > 0 {
        assert(candidate(name, a).len() != candidate(name, b).len());
    }
}

/// At most `ts.len()` candidates can be taken: the first `n + 1` all being
/// in `ts` means `ts` has more than `n` members.
proof fn lemma_taken_bound(name: Seq<char>, ts: Seq<Seq<char>>, n: nat)
    requires
        forall|j: nat| j <= n ==> ts.contains(#[trigger] candidate(name, j)),
    ensures
        n < ts.len(),
{
    let xs = set_int_range(0, n + 1 as int);
    let f = |k: int| candidate(name, k as nat);
    lemma_int_range(0, n + 1 as int);
    assert forall|x1: int, x2: int| xs.contains(x1) && xs.contains(x2) && #[trigger] f(x1) == #[trigger] f(
        x2,
    ) implies x1 == x2 by {
        lemma_candidate_injective(name, x1 as nat, x2 as nat);
    }
    assert(injective_on(f, xs));
    let ys = xs.map(f);
    lemma_map_size(xs, ys, f);
    assert forall|y: Seq<char>| ys.contains(y) implies ts.to_set().contains(y) by {
        let k = choose|k: int| xs.contains(k) && y == f(k);
        assert(ts.contains(candidate(name, k as nat)));
    }
    vstd::seq_lib::seq_to_set_is_finite(ts);
    lemma_len_subset(ys, ts.to_set());
    ts.lemma_cardinality_of_set();
}

/// The counter of the name that `available_name` picks: the least one whose
/// candidate is not in `ts`.
pub open spec fn free_index(name: Seq<char>, ts: Seq<Seq<char>>) -> nat {
    choose|n: nat|
        !ts.contains(candidate(name, n)) && forall|j: nat|
            j < n ==> ts.contains(#[trigger] candidate(name, j))
}

/// The name that `available_name` picks for `name` among the names `ts`.
pub open spec fn first_free(name: Seq<char>, ts: Seq<Seq<char>>) -> Seq<char> {
    candidate(name, free_index(name, ts))
}

proof fn lemma_free_from(name: Seq<char>, ts: Seq<Seq<char>>, k: nat)
    requires
        forall|j: nat| j < k ==> ts.contains(#[trigger] candidate(name, j)),
        k <= ts.len(),
    ensures
        exists|n: nat|
            !ts.contains(candidate(name, n)) && forall|j: nat|
                j < n ==> ts.contains(#[trigger] candidate(name, j)),
    decreases ts.len() - k,
{
    if !ts.contains(candidate(name, k)) {
        assert(forall|j: nat| j < k ==> ts.contains(#[trigger] candidate(name, j)));
    } else {
        if k == ts.len() {
            lemma_taken_bound(name, ts, k);
        } else {
            lemma_free_from(name, ts, k + 1);
        }
    }
}

proof fn lemma_free_unique(name: Seq<char>, ts: Seq<Seq<char>>, n: nat)
    requires
        !ts.contains(candidate(name, n)),
        forall|j: nat| j < n ==> ts.contains(#[trigger] candidate(name, j)),
    ensures
        free_index(name, ts) == n,
{
    let m = free_index(name, ts);
    assert(!ts.contains(candidate(name, m)) && forall|j: nat|
        j < m ==> ts.contains(#[trigger] candidate(name, j)));
    if m < n {
        assert(ts.contains(candidate(name, m)));
    } else if n < m {
        assert(ts.contains(candidate(name, n)));
    }
}

/// Among any names, `first_free` picks a name that is not one of them, and
/// every earlier candidate is one of them.
pub proof fn lemma_first_free(name: Seq<char>, ts: Seq<Seq<char>>)
    ensures
        !ts.contains(first_free(name, ts)),
        forall|j: nat| j < free_index(name, ts) ==> ts.contains(#[trigger] candidate(name, j)),
{
    lemma_free_from(name, ts, 0);
    let n = choose|n: nat|
        !ts.contains(candidate(name, n)) && forall|j: nat|
            j < n ==> ts.contains(#[trigger] candidate(name, j));
    lemma_free_unique(name, ts, n);
}

fn digit_text(d: usize) -> (r: &'static str)
    requires
        d < 10,
    ensures
        r@ == seq![digit(d as nat)],
{
    proof {
        reveal_strlit("0");
        reveal_strlit("1");
        reveal_strlit("2");
        reveal_strlit("3");
        reveal_strlit("4");
        reveal_strlit("5");
        reveal_strlit("6");
        reveal_strlit("7");
        reveal_strlit("8");
        reveal_strlit("9");
    }
    if d == 0 {
        "0"
    } else if d == 1 {
        "1"
    } else if d == 2 {
        "2"
    } else if d == 3 {
        "3"
    } else if d == 4 {
        "4"
    } else if d == 5 {
        "5"
    } else if d == 6 {
        "6"
    } else if d == 7 {
        "7"
    } else if d == 8 {
        "8"
    } else {
        "9"
    }
}

fn append_decimal(out: &mut String, n: usize)
    ensures
        final(out)@ == old(out)@ + decimal(n as nat),
    decreases n,
{
    if n >= 10 {
        append_decimal(out, n / 10);
    }
    out.append(digit_text(n % 10));
    proof {
        if n >= 10 {
            assert(old(out)@ + decimal(n as nat) =~= old(out)@ + decimal((n / 10) as nat) + seq![
                digit((n % 10) as nat),
            ]);
        }
    }
}

/// Index of the last `.` of `name`, if it has one.
fn find_last_dot(name: &str) -> (r: Option<usize>)
    ensures
        r is None ==> last_dot(name@) == -1,
        r is Some ==> r->0 == last_dot(name@) && r->0 < name@.len(),
{
    proof {
        lemma_last_dot(name@);
    }
    let n = name.unicode_len();
    let mut i: usize = n;
    proof {
        assert(name@.take(n as int) =~= name@);
    }
    while i > 0
        invariant
            n == name@.len(),
            0 <= i <= n,
            last_dot(name@) == last_dot(name@.take(i as int)),
        decreases i,
    {
        assert(name@.take(i as int).drop_last() =~= name@.take(i - 1));
        if name.get_char(i - 1) == '.' {
            return Some(i - 1);
        }
        i = i - 1;
    }
    None
}

/// The `counter`-th name tried for `desired`.
pub fn candidate_name(desired: &str, counter: usize) -> (r: String)
    ensures
        r@ == candidate(desired@, counter as nat),
{
    if counter == 0 {
        return String::from_str(desired);
    }
    let n = desired.unicode_len();
    let k: usize = match find_last_dot(desired) {
        Some(k) => k,
        None => 0,
    };
    let mut out = if k == 0 {
        String::from_str(desired)
    } else {
        String::from_str(desired.substring_char(0, k))
    };
    proof {
        reveal_strlit("_");
    }
    out.append("_");
    append_decimal(&mut out, counter);
    if k > 0 {
        out.append(desired.substring_char(k, n));
    }
    proof {
        assert(out@ =~= candidate(desired@, counter as nat));
    }
    out
}

/// Whether a member of `taken` equals `name`.
fn is_taken(taken: &Vec<String>, name: &String) -> (r: bool)
    ensures
        r == taken@.map_values(|s: String| s@).contains(name@),
{
    let ghost ts = taken@.map_values(|s: String| s@);
    let mut i: usize = 0;
    while i < taken.len()
        invariant
            ts == taken@.map_values(|s: String| s@),
            0 <= i <= taken.len(),
            forall|k: int| 0 <= k < i ==> ts[k] != name@,
        decreases taken.len() - i,
    {
        if taken[i] == *name {
            assert(ts[i as int] == name@);
            return true;
        }
        i = i + 1;
    }
    false
}

/// The first candidate for `desired` that no member of `taken` holds: the
/// name itself where it is free, else `stem_1.ext`, `stem_2.ext`, ...
pub fn available_name(desired: &str, taken: &Vec<String>) -> (r: String)
    ensures
        r@ == first_free(desired@, taken@.map_values(|s: String| s@)),
        !taken@.map_values(|s: String| s@).contains(r@),
{
    let ghost ts = taken@.map_values(|s: String| s@);
    let total = taken.len();
    let mut counter: usize = 0;
    loop
        invariant
            total == ts.len(),
            ts == taken@.map_values(|s: String| s@),
            counter <= ts.len(),
            forall|j: nat| j < counter ==> ts.contains(#[trigger] candidate(desired@, j)),
        decreases ts.len() - counter,
    {
        let name = candidate_name(desired, counter);
        if !is_taken(taken, &name) {
            proof {
                lemma_free_unique(desired@, ts, counter as nat);
            }
            return name;
        }
        proof {
            assert forall|j: nat| j <= counter implies ts.contains(
                #[trigger] candidate(desired@, j),
            ) by {
                if j == counter {
                    assert(name@ == candidate(desired@, j));
                }
            }
            lemma_taken_bound(desired@, ts, counter as nat);
        }
        counter = counter + 1;
    }
}

} // verus!
