//! The shared per-bucket accumulator: deduplicated, sorted address and
//! range lists, and the merge of a chunk's private lists into it.
//!
//! Keeping each shared list strictly sorted makes the accumulator a set:
//! it holds no duplicates, and its contents do not depend on the order
//! in which chunks were merged.

use vstd::prelude::*;

use crate::matcher::{ListData, CATEGORY_COUNT};

verus! {

/// Strictly ascending, hence duplicate-free.
pub open spec fn strictly_sorted_u64(s: Seq<u64>) -> bool {
    forall|i: int, j: int| 0 <= i < j < s.len() ==> #[trigger] s[i] < #[trigger] s[j]
}

/// Lexicographic order on `(start, end)` range pairs.
pub open spec fn pair_lt(a: (u64, u64), b: (u64, u64)) -> bool {
    a.0 < b.0 || (a.0 == b.0 && a.1 < b.1)
}

/// Strictly ascending by `(start, end)`, hence duplicate-free.
pub open spec fn strictly_sorted_pairs(s: Seq<(u64, u64)>) -> bool {
    forall|i: int, j: int| 0 <= i < j < s.len() ==> pair_lt(#[trigger] s[i], #[trigger] s[j])
}

/// `r` holds exactly the elements of `a` and `b` together.
pub open spec fn is_union<T>(r: Seq<T>, a: Seq<T>, b: Seq<T>) -> bool {
    forall|y: T| r.contains(y) <==> a.contains(y) || b.contains(y)
}

/// A well-formed shared accumulator: one list pair per category, each
/// strictly sorted.
pub open spec fn wf_sets(s: Seq<ListData>) -> bool {
    s.len() == CATEGORY_COUNT && forall|i: int|
        0 <= i < CATEGORY_COUNT ==> strictly_sorted_u64(#[trigger] s[i].addresses@)
            && strictly_sorted_pairs(s[i].networks@)
}

/// One empty, trivially sorted pair of lists per category.
pub fn create_empty_sets() -> (r: Vec<ListData>)
    ensures
        wf_sets(r@),
        forall|i: int|
            0 <= i < CATEGORY_COUNT ==> (#[trigger] r@[i]).addresses@ == Seq::<u64>::empty()
                && r@[i].networks@ == Seq::<(u64, u64)>::empty(),
{
    let r = crate::matcher::create_empty_lists();
    r
}

/// Inserts a single address, keeping the list strictly sorted; a value
/// already present is dropped.
pub fn insert_address(v: &mut Vec<u64>, x: u64)
    requires
        strictly_sorted_u64(old(v)@),
    ensures
        strictly_sorted_u64(final(v)@),
        forall|y: u64| final(v)@.contains(y) <==> (old(v)@.contains(y) || y == x),
{
    let mut i: usize = 0;
    while i < v.len() && v[i] < x
        invariant
            strictly_sorted_u64(v@),
            v@ == old(v)@,
            i <= v@.len(),
            forall|k: int| 0 <= k < i ==> #[trigger] v@[k] < x,
        decreases v@.len() - i,
    {
        i = i + 1;
    }
    if i < v.len() && v[i] == x {
        assert(v@.contains(x)) by {
            assert(v@[i as int] == x);
        }
        return ;
    }
    assert(i == v@.len() || v@[i as int] > x);
    let ghost s = v@;
    v.insert(i, x);
    proof {
        s.insert_ensures(i as int, x);
        assert(v@ == s.insert(i as int, x));
        assert forall|a: int, b: int| 0 <= a < b < v@.len() implies v@[a] < v@[b] by {
            if b < i {
                assert(v@[a] == s[a] && v@[b] == s[b]);
            } else if a > i {
                assert(v@[a] == s[a - 1] && v@[b] == s[b - 1]);
            } else if a < i && b == i {
                assert(v@[a] == s[a] && v@[b] == x);
            } else if a < i && b > i {
                assert(v@[a] == s[a] && v@[b] == s[b - 1]);
                if i < s.len() {
                    assert(s[b - 1] >= s[i as int] || b - 1 == i);
                }
            } else if a == i {
                assert(v@[a] == x && v@[b] == s[b - 1]);
                assert(s[b - 1] >= s[i as int]);
            }
        }
        assert forall|y: u64| v@.contains(y) <==> (s.contains(y) || y == x) by {
            lemma_insert_contains(s, i as int, x, y);
        }
    }
}

/// Inserts one range pair, keeping the list strictly sorted by
/// `(start, end)`; a pair already present is dropped.
pub fn insert_network(v: &mut Vec<(u64, u64)>, x: (u64, u64))
    requires
        strictly_sorted_pairs(old(v)@),
    ensures
        strictly_sorted_pairs(final(v)@),
        forall|y: (u64, u64)| final(v)@.contains(y) <==> (old(v)@.contains(y) || y == x),
{
    let mut i: usize = 0;
    while i < v.len() && (v[i].0 < x.0 || (v[i].0 == x.0 && v[i].1 < x.1))
        invariant
            strictly_sorted_pairs(v@),
            v@ == old(v)@,
            i <= v@.len(),
            forall|k: int| 0 <= k < i ==> pair_lt(#[trigger] v@[k], x),
        decreases v@.len() - i,
    {
        i = i + 1;
    }
    if i < v.len() && v[i].0 == x.0 && v[i].1 == x.1 {
        assert(v@[i as int] == x);
        assert(v@.contains(x));
        return ;
    }
    assert(i == v@.len() || pair_lt(x, v@[i as int]));
    let ghost s = v@;
    v.insert(i, x);
    proof {
        s.insert_ensures(i as int, x);
        assert(v@ == s.insert(i as int, x));
        assert forall|a: int, b: int| 0 <= a < b < v@.len() implies pair_lt(v@[a], v@[b]) by {
            if b < i {
                assert(v@[a] == s[a] && v@[b] == s[b]);
            } else if a > i {
                assert(v@[a] == s[a - 1] && v@[b] == s[b - 1]);
            } else if a < i && b == i {
                assert(v@[a] == s[a] && v@[b] == x);
            } else if a < i && b > i {
                assert(v@[a] == s[a] && v@[b] == s[b - 1]);
                if b - 1 > i {
                    assert(pair_lt(s[i as int], s[b - 1]));
                }
            } else if a == i {
                assert(v@[a] == x && v@[b] == s[b - 1]);
                if b - 1 > i {
                    assert(pair_lt(s[i as int], s[b - 1]));
                }
            }
        }
        assert forall|y: (u64, u64)| v@.contains(y) <==> (s.contains(y) || y == x) by {
            lemma_insert_pair_contains(s, i as int, x, y);
        }
    }
}

/// Merges one chunk's private lists into the shared accumulator: plain
/// set union, per category; duplicates collapse here.
pub fn merge_lists(shared: &mut Vec<ListData>, local: &Vec<ListData>)
    requires
        wf_sets(old(shared)@),
        local@.len() == CATEGORY_COUNT,
    ensures
        wf_sets(final(shared)@),
        forall|c: int|
            0 <= c < CATEGORY_COUNT ==> is_union(
                (#[trigger] final(shared)@[c]).addresses@,
                old(shared)@[c].addresses@,
                local@[c].addresses@,
            ) && is_union(
                final(shared)@[c].networks@,
                old(shared)@[c].networks@,
                local@[c].networks@,
            ),
{
    let mut c: usize = 0;
    while c < CATEGORY_COUNT
        invariant
            wf_sets(shared@),
            local@.len() == CATEGORY_COUNT,
            c <= CATEGORY_COUNT,
            forall|k: int|
                0 <= k < c ==> is_union(
                    (#[trigger] shared@[k]).addresses@,
                    old(shared)@[k].addresses@,
                    local@[k].addresses@,
                ) && is_union(
                    shared@[k].networks@,
                    old(shared)@[k].networks@,
                    local@[k].networks@,
                ),
            forall|k: int| c <= k < CATEGORY_COUNT ==> #[trigger] shared@[k] == old(shared)@[k],
        decreases CATEGORY_COUNT - c,
    {
        let ghost snap = shared@;
        let mut j: usize = 0;
        while j < local[c].addresses.len()
            invariant
                c < CATEGORY_COUNT,
                local@.len() == CATEGORY_COUNT,
                shared@.len() == CATEGORY_COUNT,
                j <= local@[c as int].addresses@.len(),
                strictly_sorted_u64(shared@[c as int].addresses@),
                forall|y: u64|
                    shared@[c as int].addresses@.contains(y) <==> (snap[c as int].addresses@
                        .contains(y) || local@[c as int].addresses@.take(j as int).contains(y)),
                shared@[c as int].networks@ == snap[c as int].networks@,
                forall|k: int|
                    0 <= k < CATEGORY_COUNT && k != c ==> #[trigger] shared@[k] == snap[k],
            decreases local@[c as int].addresses@.len() - j,
        {
            let x = local[c].addresses[j];
            let ghost pre = shared@[c as int].addresses@;
            let ghost j0 = j as int;
            insert_address(&mut shared[c].addresses, x);
            j = j + 1;
            proof {
                assert forall|y: u64|
                    shared@[c as int].addresses@.contains(y) <==> (snap[c as int].addresses@
                        .contains(y) || local@[c as int].addresses@.take(j as int).contains(
                        y,
                    )) by {
                    lemma_take_step_u64(local@[c as int].addresses@, j0, y);
                    assert(pre.contains(y) <==> (snap[c as int].addresses@.contains(y)
                        || local@[c as int].addresses@.take(j0).contains(y)));
                    assert(shared@[c as int].addresses@.contains(y) <==> (pre.contains(y) || y
                        == x));
                    assert(local@[c as int].addresses@.take(j as int) == local@[c as
                        int].addresses@.take(j0 + 1));
                }
            }
        }
        proof {
            assert(local@[c as int].addresses@.take(local@[c as int].addresses@.len() as int)
                =~= local@[c as int].addresses@);
        }
        let mut j: usize = 0;
        while j < local[c].networks.len()
            invariant
                c < CATEGORY_COUNT,
                local@.len() == CATEGORY_COUNT,
                shared@.len() == CATEGORY_COUNT,
                j <= local@[c as int].networks@.len(),
                strictly_sorted_u64(shared@[c as int].addresses@),
                strictly_sorted_pairs(shared@[c as int].networks@),
                is_union(
                    shared@[c as int].addresses@,
                    snap[c as int].addresses@,
                    local@[c as int].addresses@,
                ),
                forall|y: (u64, u64)|
                    shared@[c as int].networks@.contains(y) <==> (snap[c as int].networks@.contains(
                        y,
                    ) || local@[c as int].networks@.take(j as int).contains(y)),
                forall|k: int|
                    0 <= k < CATEGORY_COUNT && k != c ==> #[trigger] shared@[k] == snap[k],
            decreases local@[c as int].networks@.len() - j,
        {
            let x = local[c].networks[j];
            let ghost pre = shared@[c as int].networks@;
            let ghost j0 = j as int;
            insert_network(&mut shared[c].networks, x);
            j = j + 1;
            proof {
                assert forall|y: (u64, u64)|
                    shared@[c as int].networks@.contains(y) <==> (snap[c as int].networks@.contains(
                        y,
                    ) || local@[c as int].networks@.take(j as int).contains(y)) by {
                    lemma_take_step_pair(local@[c as int].networks@, j0, y);
                    assert(pre.contains(y) <==> (snap[c as int].networks@.contains(y) || local@[c
                        as int].networks@.take(j0).contains(y)));
                    assert(shared@[c as int].networks@.contains(y) <==> (pre.contains(y) || y
                        == x));
                    assert(local@[c as int].networks@.take(j as int) == local@[c as
                        int].networks@.take(j0 + 1));
                }
            }
        }
        proof {
            assert(local@[c as int].networks@.take(local@[c as int].networks@.len() as int)
                =~= local@[c as int].networks@);
            assert(snap[c as int] == old(shared)@[c as int]);
        }
        c = c + 1;
    }
}

/// Taking one more element of a prefix adds exactly that element to its
/// contents.
proof fn lemma_take_step_u64(s: Seq<u64>, j: int, y: u64)
    requires
        0 <= j < s.len(),
    ensures
        s.take(j + 1).contains(y) <==> (s.take(j).contains(y) || s[j] == y),
{
    let a = s.take(j);
    let b = s.take(j + 1);
    assert(b =~= a.push(s[j]));
    if b.contains(y) {
        let k = choose|k: int| 0 <= k < b.len() && b[k] == y;
        if k < j {
            assert(a[k] == y);
        }
    }
    if a.contains(y) {
        let k = choose|k: int| 0 <= k < a.len() && a[k] == y;
        assert(b[k] == y);
    }
    if s[j] == y {
        assert(b[j] == y);
    }
}

/// Same fact for range pairs.
proof fn lemma_take_step_pair(s: Seq<(u64, u64)>, j: int, y: (u64, u64))
    requires
        0 <= j < s.len(),
    ensures
        s.take(j + 1).contains(y) <==> (s.take(j).contains(y) || s[j] == y),
{
    let a = s.take(j);
    let b = s.take(j + 1);
    assert(b =~= a.push(s[j]));
    if b.contains(y) {
        let k = choose|k: int| 0 <= k < b.len() && b[k] == y;
        if k < j {
            assert(a[k] == y);
        }
    }
    if a.contains(y) {
        let k = choose|k: int| 0 <= k < a.len() && a[k] == y;
        assert(b[k] == y);
    }
    if s[j] == y {
        assert(b[j] == y);
    }
}

/// Two strictly sorted address lists with the same contents are the same
/// list: the accumulator's final value does not depend on the order in
/// which elements arrived, so merging chunks in any order gives one and
/// the same output.
pub proof fn lemma_sorted_unique_equal(a: Seq<u64>, b: Seq<u64>)
    requires
        strictly_sorted_u64(a),
        strictly_sorted_u64(b),
        forall|y: u64| a.contains(y) <==> b.contains(y),
    ensures
        a == b,
    decreases a.len(),
{
    if a.len() == 0 {
        if b.len() > 0 {
            assert(b.contains(b[0]));
        }
        assert(a =~= b);
    } else {
        assert(a.contains(a[0]));
        assert(b.contains(b[0]));
        let i = choose|i: int| 0 <= i < b.len() && b[i] == a[0];
        let k = choose|k: int| 0 <= k < a.len() && a[k] == b[0];
        assert(b[0] <= b[i] && a[0] <= a[k]);
        assert(a[0] == b[0]);
        let a1 = a.subrange(1, a.len() as int);
        let b1 = b.subrange(1, b.len() as int);
        assert forall|y: u64| a1.contains(y) <==> b1.contains(y) by {
            lemma_tail_contains_u64(a, y);
            lemma_tail_contains_u64(b, y);
        }
        lemma_sorted_unique_equal(a1, b1);
        assert forall|i: int| 0 <= i < a.len() implies a[i] == b[i] by {
            if i > 0 {
                assert(a[i] == a1[i - 1]);
                assert(b[i] == b1[i - 1]);
            }
        }
        assert(a =~= b);
    }
}

/// The tail of a strictly sorted sequence holds exactly the elements
/// other than the head.
proof fn lemma_tail_contains_u64(s: Seq<u64>, y: u64)
    requires
        strictly_sorted_u64(s),
        s.len() > 0,
    ensures
        s.subrange(1, s.len() as int).contains(y) <==> (s.contains(y) && y != s[0]),
{
    let t = s.subrange(1, s.len() as int);
    if t.contains(y) {
        let k = choose|k: int| 0 <= k < t.len() && t[k] == y;
        assert(s[k + 1] == y);
        assert(s[0] < s[k + 1]);
    }
    if s.contains(y) && y != s[0] {
        let k = choose|k: int| 0 <= k < s.len() && s[k] == y;
        assert(t[k - 1] == y);
    }
}

/// The same uniqueness fact for range lists sorted by `(start, end)`.
pub proof fn lemma_sorted_unique_equal_pairs(a: Seq<(u64, u64)>, b: Seq<(u64, u64)>)
    requires
        strictly_sorted_pairs(a),
        strictly_sorted_pairs(b),
        forall|y: (u64, u64)| a.contains(y) <==> b.contains(y),
    ensures
        a == b,
    decreases a.len(),
{
    if a.len() == 0 {
        if b.len() > 0 {
            assert(b.contains(b[0]));
        }
        assert(a =~= b);
    } else {
        assert(a.contains(a[0]));
        assert(b.contains(b[0]));
        let i = choose|i: int| 0 <= i < b.len() && b[i] == a[0];
        let k = choose|k: int| 0 <= k < a.len() && a[k] == b[0];
        assert(i > 0 ==> pair_lt(b[0], b[i]));
        assert(k > 0 ==> pair_lt(a[0], a[k]));
        assert(a[0] == b[0]);
        let a1 = a.subrange(1, a.len() as int);
        let b1 = b.subrange(1, b.len() as int);
        assert forall|y: (u64, u64)| a1.contains(y) <==> b1.contains(y) by {
            lemma_tail_contains_pair(a, y);
            lemma_tail_contains_pair(b, y);
        }
        lemma_sorted_unique_equal_pairs(a1, b1);
        assert forall|i: int| 0 <= i < a.len() implies a[i] == b[i] by {
            if i > 0 {
                assert(a[i] == a1[i - 1]);
                assert(b[i] == b1[i - 1]);
            }
        }
        assert(a =~= b);
    }
}

/// The tail of a strictly sorted pair sequence holds exactly the
/// elements other than the head.
proof fn lemma_tail_contains_pair(s: Seq<(u64, u64)>, y: (u64, u64))
    requires
        strictly_sorted_pairs(s),
        s.len() > 0,
    ensures
        s.subrange(1, s.len() as int).contains(y) <==> (s.contains(y) && y != s[0]),
{
    let t = s.subrange(1, s.len() as int);
    if t.contains(y) {
        let k = choose|k: int| 0 <= k < t.len() && t[k] == y;
        assert(s[k + 1] == y);
        assert(pair_lt(s[0], s[k + 1]));
    }
    if s.contains(y) && y != s[0] {
        let k = choose|k: int| 0 <= k < s.len() && s[k] == y;
        assert(t[k - 1] == y);
    }
}

/// A strictly sorted list holds no value twice: distinct positions hold
/// distinct values.
pub proof fn lemma_sorted_no_duplicates(s: Seq<u64>)
    requires
        strictly_sorted_u64(s),
    ensures
        forall|i: int, j: int|
            0 <= i < s.len() && 0 <= j < s.len() && i != j ==> #[trigger] s[i] != #[trigger] s[j],
{
}

/// A strictly sorted range list holds no `(start, end)` pair twice.
pub proof fn lemma_sorted_no_duplicate_pairs(s: Seq<(u64, u64)>)
    requires
        strictly_sorted_pairs(s),
    ensures
        forall|i: int, j: int|
            0 <= i < s.len() && 0 <= j < s.len() && i != j ==> #[trigger] s[i] != #[trigger] s[j],
{
    assert forall|i: int, j: int|
        0 <= i < s.len() && 0 <= j < s.len() && i != j implies #[trigger] s[i] != #[trigger] s[j] by {
        if i < j {
            assert(pair_lt(s[i], s[j]));
        } else {
            assert(pair_lt(s[j], s[i]));
        }
    }
}

/// Inserting at position `i` adds exactly the new element to the
/// sequence's contents.
proof fn lemma_insert_contains(s: Seq<u64>, i: int, x: u64, y: u64)
    requires
        0 <= i <= s.len(),
    ensures
        s.insert(i, x).contains(y) <==> (s.contains(y) || y == x),
{
    let t = s.insert(i, x);
    s.insert_ensures(i, x);
    if t.contains(y) {
        let k = choose|k: int| 0 <= k < t.len() && t[k] == y;
        if k < i {
            assert(s[k] == y);
        } else if k > i {
            assert(s[k - 1] == y);
        }
    }
    if s.contains(y) {
        let k = choose|k: int| 0 <= k < s.len() && s[k] == y;
        if k < i {
            assert(t[k] == y);
        } else {
            assert(t[k + 1] == y);
        }
    }
    if y == x {
        assert(t[i] == y);
    }
}

/// Same fact for range pairs.
proof fn lemma_insert_pair_contains(s: Seq<(u64, u64)>, i: int, x: (u64, u64), y: (u64, u64))
    requires
        0 <= i <= s.len(),
    ensures
        s.insert(i, x).contains(y) <==> (s.contains(y) || y == x),
{
    let t = s.insert(i, x);
    s.insert_ensures(i, x);
    if t.contains(y) {
        let k = choose|k: int| 0 <= k < t.len() && t[k] == y;
        if k < i {
            assert(s[k] == y);
        } else if k > i {
            assert(s[k - 1] == y);
        }
    }
    if s.contains(y) {
        let k = choose|k: int| 0 <= k < s.len() && s[k] == y;
        if k < i {
            assert(t[k] == y);
        } else {
            assert(t[k + 1] == y);
        }
    }
    if y == x {
        assert(t[i] == y);
    }
}

} // verus!
