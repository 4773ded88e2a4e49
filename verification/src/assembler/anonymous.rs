//! Anonymous labels: labels named `@...`, reached by counting from an address.
use vstd::prelude::*;
use crate::assembler::symbols::SymbolTable;
use crate::text::chars_of;

verus! {

/// Whether the symbol `name` bound to `v` is an anonymous label on the side
/// of `address` that `backward` selects.
pub open spec fn qualifies(name: Seq<char>, v: u64, address: u64, backward: bool) -> bool {
    name.len() > 0 && name[0] == '@' && (if backward { v < address } else { v > address })
}

/// Whether `x` comes before `y` when counting away from the address.
pub open spec fn comes_before(x: u64, y: u64, backward: bool) -> bool {
    if backward { x > y } else { x < y }
}

/// The number of anonymous labels among the first `n` symbols that come
/// before `pivot` (or, when `inclusive`, also those equal to it).
pub open spec fn count_before(
    names: Seq<Seq<char>>,
    values: Seq<u64>,
    n: int,
    address: u64,
    backward: bool,
    pivot: u64,
    inclusive: bool,
) -> nat
    decreases n,
{
    if n <= 0 || n > names.len() || n > values.len() {
        0
    } else {
        count_before(names, values, n - 1, address, backward, pivot, inclusive) + if qualifies(
            names[n - 1],
            values[n - 1],
            address,
            backward,
        ) && (comes_before(values[n - 1], pivot, backward) || (inclusive && values[n - 1] == pivot)) {
            1nat
        } else {
            0nat
        }
    }
}

/// The number of steps an offset asks for.
pub open spec fn steps(offset: isize) -> int {
    if offset < 0 { -offset } else { offset as int }
}

/// Whether `v` is the anonymous label that `offset` reaches from `address`:
/// one of them, with fewer than `|offset|` of them strictly before it and at
/// least `|offset|` up to it.
pub open spec fn is_anonymous_kth(names: Seq<Seq<char>>, values: Seq<u64>, address: u64, offset: isize, v: u64) -> bool {
    let backward = offset < 0;
    let n = names.len() as int;
    &&& names.len() == values.len()
    &&& exists|i: int| 0 <= i < n && qualifies(names[i], values[i], address, backward) && values[i] == v
    &&& count_before(names, values, n, address, backward, v, false) < steps(offset)
    &&& steps(offset) <= count_before(names, values, n, address, backward, v, true)
}

proof fn lemma_count_monotone(
    names: Seq<Seq<char>>,
    values: Seq<u64>,
    n: int,
    address: u64,
    backward: bool,
    p1: u64,
    inc1: bool,
    p2: u64,
    inc2: bool,
)
    requires
        forall|x: u64|
            (comes_before(x, p1, backward) || (inc1 && x == p1)) ==> (comes_before(x, p2, backward) || (inc2
                && x == p2)),
    ensures
        count_before(names, values, n, address, backward, p1, inc1) <= count_before(
            names,
            values,
            n,
            address,
            backward,
            p2,
            inc2,
        ),
    decreases n,
{
    if 0 < n <= names.len() && n <= values.len() {
        lemma_count_monotone(names, values, n - 1, address, backward, p1, inc1, p2, inc2);
    }
}

/// At most one label is the one that an offset reaches.
pub proof fn lemma_anonymous_kth_unique(
    names: Seq<Seq<char>>,
    values: Seq<u64>,
    address: u64,
    offset: isize,
    v1: u64,
    v2: u64,
)
    requires
        is_anonymous_kth(names, values, address, offset, v1),
        is_anonymous_kth(names, values, address, offset, v2),
    ensures
        v1 == v2,
{
    let backward = offset < 0;
    let n = names.len() as int;
    if v1 != v2 {
        let (a, b) = if comes_before(v1, v2, backward) { (v1, v2) } else { (v2, v1) };
        assert(comes_before(a, b, backward));
        lemma_count_monotone(names, values, n, address, backward, a, true, b, false);
    }
}

/// The number of anonymous labels among the first `n` symbols on the side
/// of `address` that `backward` selects.
pub open spec fn count_side(names: Seq<Seq<char>>, values: Seq<u64>, n: int, address: u64, backward: bool) -> nat
    decreases n,
{
    if n <= 0 || n > names.len() || n > values.len() {
        0
    } else {
        count_side(names, values, n - 1, address, backward) + if qualifies(names[n - 1], values[n - 1], address, backward) {
            1nat
        } else {
            0nat
        }
    }
}

proof fn lemma_count_pointwise(
    names: Seq<Seq<char>>,
    values: Seq<u64>,
    n: int,
    address: u64,
    backward: bool,
    p1: u64,
    inc1: bool,
    p2: u64,
    inc2: bool,
)
    requires
        n <= names.len(),
        n <= values.len(),
        forall|i: int|
            0 <= i < n && qualifies(names[i], values[i], address, backward) && (comes_before(
                #[trigger] values[i],
                p1,
                backward,
            ) || (inc1 && values[i] == p1)) ==> (comes_before(values[i], p2, backward) || (inc2 && values[i] == p2)),
    ensures
        count_before(names, values, n, address, backward, p1, inc1) <= count_before(names, values, n, address, backward, p2, inc2),
    decreases n,
{
    if n > 0 {
        lemma_count_pointwise(names, values, n - 1, address, backward, p1, inc1, p2, inc2);
    }
}

proof fn lemma_count_bounds(names: Seq<Seq<char>>, values: Seq<u64>, n: int, address: u64, backward: bool, p: u64, inc: bool)
    requires
        n <= names.len(),
        n <= values.len(),
    ensures
        count_before(names, values, n, address, backward, p, inc) <= count_side(names, values, n, address, backward),
        (forall|i: int| 0 <= i < n && qualifies(names[i], values[i], address, backward) ==> (comes_before(#[trigger] values[i], p, backward) || (inc && values[i] == p)))
            ==> count_before(names, values, n, address, backward, p, inc) == count_side(names, values, n, address, backward),
        count_before(names, values, n, address, backward, p, inc) >= 1 ==> exists|i: int|
            0 <= i < n && qualifies(names[i], values[i], address, backward) && (comes_before(#[trigger] values[i], p, backward) || (inc && values[i] == p)),
        count_side(names, values, n, address, backward) >= 1 ==> exists|i: int|
            0 <= i < n && #[trigger] qualifies(names[i], values[i], address, backward),
    decreases n,
{
    if n > 0 {
        lemma_count_bounds(names, values, n - 1, address, backward, p, inc);
    }
}

/// The index of the earliest (or, when `latest`, the latest) value, counting
/// away from the address, among the first `m` indices that `keep` admits.
pub open spec fn pick(values: Seq<u64>, m: int, keep: spec_fn(int) -> bool, backward: bool, latest: bool) -> Option<int>
    decreases m,
{
    if m <= 0 {
        None
    } else {
        let prev = pick(values, m - 1, keep, backward, latest);
        if !keep(m - 1) {
            prev
        } else {
            match prev {
                None => Some(m - 1),
                Some(j) => if (if latest {
                    comes_before(values[j], values[m - 1], backward)
                } else {
                    comes_before(values[m - 1], values[j], backward)
                }) {
                    Some(m - 1)
                } else {
                    Some(j)
                },
            }
        }
    }
}

proof fn lemma_pick_none(values: Seq<u64>, m: int, keep: spec_fn(int) -> bool, backward: bool, latest: bool)
    requires
        forall|i: int| 0 <= i < m ==> !#[trigger] keep(i),
    ensures
        pick(values, m, keep, backward, latest) is None,
    decreases m,
{
    if m > 0 {
        assert(!keep(m - 1));
        lemma_pick_none(values, m - 1, keep, backward, latest);
    }
}

proof fn lemma_pick(values: Seq<u64>, m: int, keep: spec_fn(int) -> bool, backward: bool, latest: bool)
    requires
        0 <= m <= values.len(),
        exists|i: int| 0 <= i < m && #[trigger] keep(i),
    ensures
        pick(values, m, keep, backward, latest) matches Some(j) && 0 <= j < m && keep(j) && forall|i: int|
            0 <= i < m && #[trigger] keep(i) ==> (if latest {
                !comes_before(values[j], values[i], backward)
            } else {
                !comes_before(values[i], values[j], backward)
            }),
    decreases m,
{
    let r = pick(values, m, keep, backward, latest);
    if exists|i: int| 0 <= i < m - 1 && #[trigger] keep(i) {
        lemma_pick(values, m - 1, keep, backward, latest);
        let j = pick(values, m - 1, keep, backward, latest)->0;
        if keep(m - 1) {
            let jj = r->0;
            assert forall|i: int| 0 <= i < m && #[trigger] keep(i) implies (if latest {
                !comes_before(values[jj], values[i], backward)
            } else {
                !comes_before(values[i], values[jj], backward)
            }) by {
                if i < m - 1 {
                    assert(if latest {
                        !comes_before(values[j], values[i], backward)
                    } else {
                        !comes_before(values[i], values[j], backward)
                    });
                }
            }
        }
    } else {
        assert(keep(m - 1));
        lemma_pick_none(values, m - 1, keep, backward, latest);
        assert forall|i: int| 0 <= i < m && #[trigger] keep(i) implies i == m - 1 by {}
    }
}

/// Whenever there are at least `|offset|` anonymous labels on the side of
/// `address` that `offset` selects, one of them is the one that `offset` reaches.
pub proof fn lemma_anonymous_kth_exists(names: Seq<Seq<char>>, values: Seq<u64>, address: u64, offset: isize)
    requires
        names.len() == values.len(),
        offset != 0,
        steps(offset) <= count_side(names, values, names.len() as int, address, offset < 0),
    ensures
        exists|v: u64| #[trigger] is_anonymous_kth(names, values, address, offset, v),
{
    let backward = offset < 0;
    let n = names.len() as int;
    let k = steps(offset);
    lemma_count_bounds(names, values, n, address, backward, 0, false);
    let q = |i: int| 0 <= i < n && qualifies(names[i], values[i], address, backward);
    let w = choose|i: int| 0 <= i < n && #[trigger] qualifies(names[i], values[i], address, backward);
    assert(q(w));
    lemma_pick(values, n, q, backward, true);
    let mx = pick(values, n, q, backward, true)->0;
    lemma_count_bounds(names, values, n, address, backward, values[mx], true);
    assert forall|i: int| 0 <= i < n && qualifies(names[i], values[i], address, backward) implies (comes_before(#[trigger] values[i], values[mx], backward) || (true && values[i] == values[mx])) by {
        assert(q(i));
    }
    let cand = |i: int| q(i) && k <= count_before(names, values, n, address, backward, values[i], true);
    assert(cand(mx));
    lemma_pick(values, n, cand, backward, false);
    let c = pick(values, n, cand, backward, false)->0;
    if count_before(names, values, n, address, backward, values[c], false) >= k {
        lemma_count_bounds(names, values, n, address, backward, values[c], false);
        let wb = choose|i: int| 0 <= i < n && qualifies(names[i], values[i], address, backward) && (comes_before(#[trigger] values[i], values[c], backward) || (false && values[i] == values[c]));
        let bef = |i: int| q(i) && comes_before(values[i], values[c], backward);
        assert(bef(wb));
        lemma_pick(values, n, bef, backward, true);
        let p = pick(values, n, bef, backward, true)->0;
        assert forall|i: int| 0 <= i < n && qualifies(names[i], values[i], address, backward) && (comes_before(#[trigger] values[i], values[c], backward) || (false && values[i] == values[c])) implies (comes_before(values[i], values[p], backward) || (true && values[i] == values[p])) by {
            assert(bef(i));
        }
        lemma_count_pointwise(names, values, n, address, backward, values[c], false, values[p], true);
        assert(cand(p));
        assert(false);
    }
    assert(is_anonymous_kth(names, values, address, offset, values[c]));
}

/// The label that an offset reaches exists exactly when there are at least
/// `|offset|` anonymous labels on the side of the address it selects.
pub proof fn lemma_anonymous_found_iff(names: Seq<Seq<char>>, values: Seq<u64>, address: u64, offset: isize)
    requires
        names.len() == values.len(),
        offset != 0,
    ensures
        (exists|v: u64| #[trigger] is_anonymous_kth(names, values, address, offset, v)) <==> steps(offset)
            <= count_side(names, values, names.len() as int, address, offset < 0),
{
    if steps(offset) <= count_side(names, values, names.len() as int, address, offset < 0) {
        lemma_anonymous_kth_exists(names, values, address, offset);
    }
    if exists|v: u64| #[trigger] is_anonymous_kth(names, values, address, offset, v) {
        let v = choose|v: u64| #[trigger] is_anonymous_kth(names, values, address, offset, v);
        lemma_count_bounds(names, values, names.len() as int, address, offset < 0, v, true);
    }
}

/// Counts, computed.
fn count_exec(symbols: &SymbolTable, address: u64, backward: bool, pivot: u64, inclusive: bool) -> (c: u64)
    ensures
        c == count_before(symbols.names(), symbols.values(), symbols.names().len() as int, address, backward, pivot, inclusive),
{
    let n = symbols.len();
    let mut c: u64 = 0;
    let mut j: usize = 0;
    while j < n
        invariant
            j <= n,
            n == symbols.names().len(),
            n == symbols.values().len(),
            c == count_before(symbols.names(), symbols.values(), j as int, address, backward, pivot, inclusive),
            c <= j,
        decreases n - j,
    {
        let name = chars_of(symbols.name_at(j));
        let v = symbols.value_at(j);
        let q = name.len() > 0 && name[0] == '@' && (if backward { v < address } else { v > address });
        let before = if backward { v > pivot } else { v < pivot };
        if q && (before || (inclusive && v == pivot)) {
            c = c + 1;
        }
        j = j + 1;
    }
    c
}

/// The anonymous label that a non-zero `offset` reaches from `address`.
pub fn anonymous_label(symbols: &SymbolTable, address: u64, offset: isize) -> (r: Result<u64, String>)
    requires
        offset != 0,
    ensures
        r is Ok <==> exists|v: u64| #[trigger] is_anonymous_kth(symbols.names(), symbols.values(), address, offset, v),
        r is Ok <==> steps(offset) <= count_side(symbols.names(), symbols.values(), symbols.names().len() as int, address, offset < 0),
        r matches Ok(v) ==> is_anonymous_kth(symbols.names(), symbols.values(), address, offset, v),
        r matches Err(m) ==> m@ == "Anon label landed outside range"@,
{
    let n = symbols.len();
    proof {
        lemma_anonymous_found_iff(symbols.names(), symbols.values(), address, offset);
    }
    let backward = offset < 0;
    let k: u64 = if offset < 0 { (0 - (offset as i128)) as u64 } else { offset as u64 };
    let ghost names = symbols.names();
    let ghost values = symbols.values();
    let mut i: usize = 0;
    while i < n
        invariant
            i <= n,
            n == names.len(),
            n == values.len(),
            names == symbols.names(),
            values == symbols.values(),
            backward == (offset < 0),
            k == steps(offset),
            forall|m: int| 0 <= m < i && qualifies(names[m], values[m], address, backward) ==> !(
                #[trigger] count_before(names, values, n as int, address, backward, values[m], false) < k
                && k <= count_before(names, values, n as int, address, backward, values[m], true)),
        decreases n - i,
    {
        let name = chars_of(symbols.name_at(i));
        let v = symbols.value_at(i);
        let q = name.len() > 0 && name[0] == '@' && (if backward { v < address } else { v > address });
        if q {
            let lt = count_exec(symbols, address, backward, v, false);
            let le = count_exec(symbols, address, backward, v, true);
            if lt < k && k <= le {
                assert(is_anonymous_kth(names, values, address, offset, v));
                proof {
                    lemma_anonymous_found_iff(names, values, address, offset);
                }
                return Ok(v);
            }
        }
        i = i + 1;
    }
    proof {
        assert forall|v: u64| !#[trigger] is_anonymous_kth(names, values, address, offset, v) by {
            if is_anonymous_kth(names, values, address, offset, v) {
                let m = choose|m: int| 0 <= m < n && qualifies(names[m], values[m], address, backward) && values[m] == v;
                assert(count_before(names, values, n as int, address, backward, values[m], false) < k);
            }
        }
    }
    Err("Anon label landed outside range".to_owned())
}

} // verus!
