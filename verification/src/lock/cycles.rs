//! Dependency cycles.
//!
//! Cycles are normal: packages that depend on each other appear in real lockfiles.
//! They are reported group by group, a group being all packages that lead to each
//! other.

use vstd::prelude::*;

verus! {

/// A chain of at least one arrow, each from where the one before ended.
pub open spec fn is_chain(arrow: spec_fn(int, int) -> bool, path: Seq<int>) -> bool {
    &&& path.len() >= 2
    &&& forall|k: int| 0 <= k && k + 1 < path.len() ==> arrow(#[trigger] path[k], path[k + 1])
}

/// One or more arrows lead from one place to another.
pub open spec fn leads(arrow: spec_fn(int, int) -> bool, i: int, j: int) -> bool {
    exists|path: Seq<int>| #[trigger] is_chain(arrow, path) && path[0] == i && path.last() == j
}

/// Each of two places leads to the other.
pub open spec fn together(arrow: spec_fn(int, int) -> bool, i: int, j: int) -> bool {
    leads(arrow, i, j) && leads(arrow, j, i)
}

/// The arrows that lists of successors stand for.
pub open spec fn listed(lists: Seq<Seq<usize>>) -> spec_fn(int, int) -> bool {
    |i: int, j: int|
        0 <= i < lists.len() && exists|k: int| 0 <= k < lists[i].len() && #[trigger] lists[i][k] == j
}

/// Lists of successors that stay in range.
pub open spec fn in_range(lists: Seq<Seq<usize>>) -> bool {
    forall|i: int, k: int|
        0 <= i < lists.len() && 0 <= k < lists[i].len() ==> (#[trigger] lists[i][k]) < lists.len()
}

/// Rows as lists.
pub open spec fn rows(v: Seq<Vec<usize>>) -> Seq<Seq<usize>> {
    Seq::new(v.len(), |i: int| v[i]@)
}

proof fn one_arrow_leads(arrow: spec_fn(int, int) -> bool, i: int, j: int)
    requires
        arrow(i, j),
    ensures
        leads(arrow, i, j),
{
    let path = seq![i, j];
    assert(is_chain(arrow, path));
    assert(path.last() == j);
}

proof fn one_more_arrow_leads(arrow: spec_fn(int, int) -> bool, i: int, j: int, k: int)
    requires
        leads(arrow, i, j),
        arrow(j, k),
    ensures
        leads(arrow, i, k),
{
    let path = choose|path: Seq<int>|
        #[trigger] is_chain(arrow, path) && path[0] == i && path.last() == j;
    let longer = path.push(k);
    assert forall|m: int| 0 <= m && m + 1 < longer.len() implies arrow(
        #[trigger] longer[m],
        longer[m + 1],
    ) by {
        if m + 1 < path.len() {
            assert(arrow(path[m], path[m + 1]));
        }
    }
    assert(is_chain(arrow, longer));
    assert(longer.last() == k);
}

/// Two chains, one from where the other ended, make one.
pub proof fn leads_on(arrow: spec_fn(int, int) -> bool, i: int, j: int, k: int)
    requires
        leads(arrow, i, j),
        leads(arrow, j, k),
    ensures
        leads(arrow, i, k),
{
    let a = choose|path: Seq<int>|
        #[trigger] is_chain(arrow, path) && path[0] == i && path.last() == j;
    let b = choose|path: Seq<int>|
        #[trigger] is_chain(arrow, path) && path[0] == j && path.last() == k;
    let all = a + b.skip(1);
    assert forall|m: int| 0 <= m && m + 1 < all.len() implies arrow(
        #[trigger] all[m],
        all[m + 1],
    ) by {
        if m + 1 < a.len() {
            assert(arrow(a[m], a[m + 1]));
        } else {
            let q = m + 1 - a.len();
            assert(all[m + 1] == b[q + 1]);
            assert(all[m] == b[q]);
            assert(arrow(b[q], b[q + 1]));
        }
    }
    assert(is_chain(arrow, all));
    assert(all.last() == k);
}

/// Arrows turned round lead back.
proof fn leads_back(a: spec_fn(int, int) -> bool, b: spec_fn(int, int) -> bool, i: int, j: int)
    requires
        leads(a, i, j),
        forall|x: int, y: int| #[trigger] a(x, y) ==> b(y, x),
    ensures
        leads(b, j, i),
{
    let path = choose|path: Seq<int>| #[trigger] is_chain(a, path) && path[0] == i && path.last()
        == j;
    let back = path.reverse();
    assert forall|m: int| 0 <= m && m + 1 < back.len() implies b(#[trigger] back[m], back[m + 1]) by {
        let q = path.len() - 2 - m;
        assert(back[m] == path[q + 1]);
        assert(back[m + 1] == path[q]);
        assert(a(path[q], path[q + 1]));
    }
    assert(is_chain(b, back));
    assert(back[0] == j);
    assert(back.last() == i);
}

// --- What can be reached ----------------------------------------------------------

/// How many are not marked.
spec fn unmarked(s: Seq<bool>) -> nat
    decreases s.len(),
{
    if s.len() == 0 {
        0
    } else {
        unmarked(s.drop_last()) + if s.last() {
            0nat
        } else {
            1nat
        }
    }
}

proof fn marking_counts(s: Seq<bool>, i: int)
    requires
        0 <= i < s.len(),
        !s[i],
    ensures
        unmarked(s.update(i, true)) + 1 == unmarked(s),
    decreases s.len(),
{
    let t = s.update(i, true);
    if i == s.len() - 1 {
        assert(t.drop_last() =~= s.drop_last());
    } else {
        assert(t.drop_last() =~= s.drop_last().update(i, true));
        marking_counts(s.drop_last(), i);
    }
}

/// What is closed under arrows from a place holds all that the place leads to.
proof fn closed_holds(
    arrow: spec_fn(int, int) -> bool,
    seen: Seq<bool>,
    from: int,
    path: Seq<int>,
    n: int,
)
    requires
        is_chain(arrow, path),
        path[0] == from,
        1 <= n < path.len(),
        forall|x: int, y: int|
            (x == from || (0 <= x < seen.len() && seen[x])) && #[trigger] arrow(x, y) ==> 0 <= y
                < seen.len() && seen[y],
    ensures
        0 <= path[n] < seen.len(),
        seen[path[n]],
    decreases n,
{
    assert(arrow(path[n - 1], path[n]));
    if n > 1 {
        closed_holds(arrow, seen, from, path, n - 1);
    }
}

/// All marked false.
fn unmarked_list(n: usize) -> (r: Vec<bool>)
    ensures
        r.len() == n,
        forall|i: int| 0 <= i < n ==> !#[trigger] r@[i],
{
    let mut r: Vec<bool> = Vec::new();
    let mut i: usize = 0;
    while i < n
        invariant
            i <= n,
            r.len() == i,
            forall|k: int| 0 <= k < i ==> !#[trigger] r@[k],
        decreases n - i,
    {
        r.push(false);
        i += 1;
    }
    r
}

/// Marks every place that one place leads to.
fn reached(lists: &Vec<Vec<usize>>, from: usize) -> (r: Vec<bool>)
    requires
        from < lists.len(),
        in_range(rows(lists@)),
    ensures
        r.len() == lists.len(),
        forall|j: int|
            0 <= j < lists.len() ==> #[trigger] r@[j] == leads(listed(rows(lists@)), from as int, j),
{
    let ghost all = rows(lists@);
    let ghost arrow = listed(all);
    let n: usize = lists.len();
    let mut seen = unmarked_list(n);
    let mut stack: Vec<usize> = Vec::new();
    stack.push(from);
    assert(stack@[0] == from);
    while stack.len() > 0
        invariant
            all == rows(lists@),
            arrow == listed(all),
            in_range(all),
            n == lists.len(),
            from < n,
            seen.len() == n,
            forall|k: int| 0 <= k < stack.len() ==> (#[trigger] stack@[k]) < n,
            forall|k: int|
                0 <= k < stack.len() ==> (#[trigger] stack@[k]) == from || seen@[stack@[k] as int],
            forall|j: int| 0 <= j < n && #[trigger] seen@[j] ==> leads(arrow, from as int, j),
            forall|x: int, y: int|
                (x == from || (0 <= x < n && seen@[x])) && !stack@.contains(x as usize)
                    && #[trigger] arrow(x, y) ==> 0 <= y < n && seen@[y],
        decreases 2 * unmarked(seen@) + stack.len(),
    {
        let ghost full = stack@;
        let ghost before = seen@;
        let x: usize = match stack.pop() {
            Some(x) => x,
            None => {
                return seen;
            },
        };
        assert(full[full.len() - 1] == x);
        assert(x < n);
        assert(x == from || before[x as int]);
        let row = &lists[x];
        assert(all[x as int] == row@);
        proof {
            assert forall|z: int, y: int|
                (z == from || (0 <= z < n && seen@[z])) && z != x && !stack@.contains(z as usize)
                    && #[trigger] arrow(z, y) implies 0 <= y < n && seen@[y] by {
                if full.contains(z as usize) {
                    let p = full.index_of(z as usize);
                    assert(stack@[p] == z as usize);
                }
            }
        }
        let mut k: usize = 0;
        while k < row.len()
            invariant
                all == rows(lists@),
                arrow == listed(all),
                in_range(all),
                n == lists.len(),
                from < n,
                x < n,
                row@ == all[x as int],
                seen.len() == n,
                k <= row.len(),
                x == from || seen@[x as int],
                forall|q: int| 0 <= q < stack.len() ==> (#[trigger] stack@[q]) < n,
                forall|q: int|
                    0 <= q < stack.len() ==> (#[trigger] stack@[q]) == from || seen@[stack@[q] as int],
                forall|j: int| 0 <= j < n && #[trigger] seen@[j] ==> leads(arrow, from as int, j),
                forall|q: int| 0 <= q < k ==> seen@[#[trigger] row@[q] as int],
                forall|z: int, y: int|
                    (z == from || (0 <= z < n && seen@[z])) && z != x && !stack@.contains(
                        z as usize,
                    ) && #[trigger] arrow(z, y) ==> 0 <= y < n && seen@[y],
                2 * unmarked(seen@) + stack.len() < 2 * unmarked(before) + full.len(),
            decreases row.len() - k,
        {
            let y: usize = row[k];
            assert(all[x as int][k as int] == y);
            assert(y < n);
            assert(arrow(x as int, y as int));
            if !seen[y] {
                let ghost earlier = seen@;
                let ghost pile = stack@;
                proof {
                    marking_counts(seen@, y as int);
                    if x == from {
                        one_arrow_leads(arrow, from as int, y as int);
                    }
                    if seen@[x as int] {
                        one_more_arrow_leads(arrow, from as int, x as int, y as int);
                    }
                }
                seen.set(y, true);
                stack.push(y);
                proof {
                    assert(seen@ == earlier.update(y as int, true));
                    assert forall|z: int, w: int|
                        (z == from || (0 <= z < n && seen@[z])) && z != x && !stack@.contains(
                            z as usize,
                        ) && #[trigger] arrow(z, w) implies 0 <= w < n && seen@[w] by {
                        assert(stack@[stack@.len() - 1] == y);
                        if pile.contains(z as usize) {
                            let p = pile.index_of(z as usize);
                            assert(stack@[p] == z as usize);
                        }
                    }
                }
            }
            k += 1;
        }
        proof {
            assert forall|z: int, y: int|
                (z == from || (0 <= z < n && seen@[z])) && !stack@.contains(z as usize)
                    && #[trigger] arrow(z, y) implies 0 <= y < n && seen@[y] by {
                if z == x {
                    let q = choose|q: int| 0 <= q < all[z].len() && #[trigger] all[z][q] == y;
                    assert(row@[q] == y);
                }
            }
        }
    }
    proof {
        assert forall|j: int| 0 <= j < n && leads(arrow, from as int, j) implies #[trigger] seen@[j] by {
            let path = choose|path: Seq<int>|
                #[trigger] is_chain(arrow, path) && path[0] == from as int && path.last() == j;
            closed_holds(arrow, seen@, from as int, path, path.len() - 1);
        }
    }
    seen
}

// --- Groups -----------------------------------------------------------------------

/// `n` empty rows.
fn empty_rows(n: usize) -> (r: Vec<Vec<usize>>)
    ensures
        r.len() == n,
        forall|i: int| 0 <= i < n ==> (#[trigger] r@[i])@.len() == 0,
{
    let mut r: Vec<Vec<usize>> = Vec::new();
    let mut i: usize = 0;
    while i < n
        invariant
            i <= n,
            r.len() == i,
            forall|k: int| 0 <= k < i ==> (#[trigger] r@[k])@.len() == 0,
        decreases n - i,
    {
        r.push(Vec::new());
        i += 1;
    }
    r
}

/// A row holds a number.
spec fn holds(lists: Seq<Seq<usize>>, i: int, v: int) -> bool {
    exists|k: int| 0 <= k < lists[i].len() && #[trigger] lists[i][k] == v
}

/// A number stands among the first `n` of a row.
spec fn among(row: Seq<usize>, n: int, v: int) -> bool {
    exists|k: int| 0 <= k < n && #[trigger] row[k] == v
}

/// The arrows from `v` to `a` that have been turned round once the first `i` rows and
/// `k` entries of the next are done.
spec fn done(lists: Seq<Seq<usize>>, i: int, k: int, a: int, v: int) -> bool {
    ||| 0 <= v < i && holds(lists, v, a)
    ||| v == i && among(lists[i], k, a)
}

proof fn pushing_holds(before: Seq<Seq<usize>>, after: Seq<Seq<usize>>, j: int, v: usize)
    requires
        0 <= j < before.len(),
        after == before.update(j, before[j].push(v)),
    ensures
        forall|a: int, w: int|
            0 <= a < before.len() ==> (#[trigger] holds(after, a, w) <==> holds(before, a, w) || (a
                == j && w == v)),
{
    assert forall|a: int, w: int|
        0 <= a < before.len() implies (#[trigger] holds(after, a, w) <==> holds(before, a, w) || (a
        == j && w == v)) by {
        if holds(before, a, w) {
            let k = choose|k: int| 0 <= k < before[a].len() && #[trigger] before[a][k] == w;
            assert(after[a][k] == w);
        }
        if a == j && w == v {
            assert(after[a][before[j].len() as int] == w);
        }
        if holds(after, a, w) {
            let k = choose|k: int| 0 <= k < after[a].len() && #[trigger] after[a][k] == w;
            if a != j || k < before[j].len() {
                assert(before[a][k] == w);
            }
        }
    }
}

/// The same arrows turned round.
fn turned(lists: &Vec<Vec<usize>>) -> (r: Vec<Vec<usize>>)
    requires
        in_range(rows(lists@)),
    ensures
        r.len() == lists.len(),
        in_range(rows(r@)),
        forall|i: int, j: int|
            #[trigger] listed(rows(r@))(i, j) <==> listed(rows(lists@))(j, i),
{
    let ghost all = rows(lists@);
    let n: usize = lists.len();
    let mut out = empty_rows(n);
    let mut i: usize = 0;
    proof {
        assert forall|a: int, v: int| 0 <= a < n implies (#[trigger] holds(rows(out@), a, v)
            <==> done(all, 0, 0, a, v)) by {
            assert(rows(out@)[a].len() == 0);
        }
    }
    while i < n
        invariant
            all == rows(lists@),
            n == lists.len(),
            out.len() == n,
            in_range(all),
            i <= n,
            forall|a: int, v: int|
                0 <= a < n ==> (#[trigger] holds(rows(out@), a, v) <==> done(
                    all,
                    i as int,
                    0,
                    a,
                    v,
                )),
        decreases n - i,
    {
        let row = &lists[i];
        let mut k: usize = 0;
        while k < row.len()
            invariant
                all == rows(lists@),
                n == lists.len(),
                i < n,
                row@ == all[i as int],
                in_range(all),
                out.len() == n,
                k <= row.len(),
                forall|a: int, v: int|
                    0 <= a < n ==> (#[trigger] holds(rows(out@), a, v) <==> done(
                        all,
                        i as int,
                        k as int,
                        a,
                        v,
                    )),
            decreases row.len() - k,
        {
            let j: usize = row[k];
            assert(all[i as int][k as int] == j);
            let ghost before = rows(out@);
            out[j].push(i);
            proof {
                let after = rows(out@);
                assert(after =~= before.update(j as int, before[j as int].push(i)));
                pushing_holds(before, after, j as int, i);
                assert forall|a: int, v: int| 0 <= a < n implies (#[trigger] holds(after, a, v)
                    <==> done(all, i as int, k + 1, a, v)) by {
                    assert(holds(before, a, v) <==> done(all, i as int, k as int, a, v));
                    if among(all[i as int], k as int, a) {
                        let q = choose|q: int| 0 <= q < k && #[trigger] all[i as int][q] == a;
                        assert(all[i as int][q] == a);
                    }
                    if among(all[i as int], k + 1, a) {
                        let q = choose|q: int| 0 <= q < k + 1 && #[trigger] all[i as int][q] == a;
                        if q < k {
                            assert(all[i as int][q] == a);
                        }
                    }
                    if a == j {
                        assert(among(all[i as int], k + 1, a));
                    }
                }
            }
            k += 1;
        }
        proof {
            assert forall|a: int, v: int| 0 <= a < n implies (#[trigger] holds(rows(out@), a, v)
                <==> done(all, i + 1, 0, a, v)) by {
                assert(holds(rows(out@), a, v) <==> done(all, i as int, k as int, a, v));
                if v == i {
                    assert(among(all[i as int], k as int, a) <==> holds(all, v, a));
                }
            }
        }
        i += 1;
    }
    proof {
        let o = rows(out@);
        assert forall|a: int, k: int| 0 <= a < o.len() && 0 <= k < o[a].len() implies (
        #[trigger] o[a][k]) < o.len() by {
            assert(holds(o, a, o[a][k] as int));
            assert(done(all, n as int, 0, a, o[a][k] as int));
        }
        assert forall|a: int, b: int| #[trigger] listed(o)(a, b) <==> listed(all)(b, a) by {
            if 0 <= a < n {
                assert(holds(o, a, b) <==> done(all, n as int, 0, a, b));
            }
            if listed(all)(b, a) {
                let q = choose|q: int| 0 <= q < all[b].len() && #[trigger] all[b][q] == a;
                assert(all[b][q] < n);
                assert(holds(all, b, a));
            }
        }
    }
    out
}

/// Those of the first `m` places that are together with a place, in order.
pub open spec fn members(arrow: spec_fn(int, int) -> bool, i: int, m: int) -> Seq<int>
    decreases m,
{
    if m <= 0 {
        Seq::empty()
    } else if together(arrow, i, m - 1) {
        members(arrow, i, m - 1).push(m - 1)
    } else {
        members(arrow, i, m - 1)
    }
}

/// A place is the first of a group: it leads to itself, and it is together with none
/// before it.
pub open spec fn opens_group(arrow: spec_fn(int, int) -> bool, i: int) -> bool {
    leads(arrow, i, i) && forall|j: int| 0 <= j < i ==> !#[trigger] together(arrow, j, i)
}

/// The groups that the first `m` of `n` places open, in order.
pub open spec fn groups_of(arrow: spec_fn(int, int) -> bool, n: int, m: int) -> Seq<Seq<int>>
    decreases m,
{
    if m <= 0 {
        Seq::empty()
    } else if opens_group(arrow, m - 1) {
        groups_of(arrow, n, m - 1).push(members(arrow, m - 1, n))
    } else {
        groups_of(arrow, n, m - 1)
    }
}

/// Numbers as they are.
pub open spec fn numbers(v: Seq<usize>) -> Seq<int> {
    v.map_values(|x: usize| x as int)
}

/// Rows of numbers as they are.
pub open spec fn number_rows(v: Seq<Vec<usize>>) -> Seq<Seq<int>> {
    v.map_values(|row: Vec<usize>| numbers(row@))
}

/// All groups of places that lead to each other.
pub fn groups(lists: &Vec<Vec<usize>>) -> (r: Vec<Vec<usize>>)
    requires
        in_range(rows(lists@)),
    ensures
        number_rows(r@) == groups_of(
            listed(rows(lists@)),
            lists.len() as int,
            lists.len() as int,
        ),
        in_range_of(r@, lists.len() as int),
{
    let ghost arrow = listed(rows(lists@));
    let n: usize = lists.len();
    let back = turned(lists);
    let ghost behind = listed(rows(back@));
    let mut grouped = unmarked_list(n);
    let mut out: Vec<Vec<usize>> = Vec::new();
    let mut i: usize = 0;
    assert(number_rows(out@) =~= groups_of(arrow, n as int, 0));
    while i < n
        invariant
            n == lists.len(),
            n == back.len(),
            arrow == listed(rows(lists@)),
            behind == listed(rows(back@)),
            in_range(rows(lists@)),
            in_range(rows(back@)),
            forall|a: int, b: int| #[trigger] behind(a, b) <==> arrow(b, a),
            grouped.len() == n,
            i <= n,
            forall|j: int|
                0 <= j < n ==> (#[trigger] grouped@[j] <==> exists|k: int|
                    0 <= k < i && #[trigger] together(arrow, k, j)),
            number_rows(out@) == groups_of(arrow, n as int, i as int),
            in_range_of(out@, n as int),
        decreases n - i,
    {
        let ghost marks = grouped@;
        if !grouped[i] {
            let ahead = reached(lists, i);
            if ahead[i] {
                let behind_it = reached(&back, i);
                proof {
                    assert forall|j: int| 0 <= j < n implies #[trigger] behind_it@[j] == leads(
                        arrow,
                        j,
                        i as int,
                    ) by {
                        if leads(behind, i as int, j) {
                            leads_back(behind, arrow, i as int, j);
                        }
                        if leads(arrow, j, i as int) {
                            assert forall|x: int, y: int| #[trigger] arrow(x, y) implies behind(y, x) by {
                                assert(behind(y, x) <==> arrow(x, y));
                            }
                            leads_back(arrow, behind, j, i as int);
                        }
                    }
                }
                let mut group: Vec<usize> = Vec::new();
                let mut j: usize = 0;
                assert(numbers(group@) =~= members(arrow, i as int, 0));
                while j < n
                    invariant
                        n == ahead.len(),
                        n == behind_it.len(),
                        n == grouped.len(),
                        n == marks.len(),
                        i < n,
                        j <= n,
                        forall|q: int|
                            0 <= q < n ==> #[trigger] ahead@[q] == leads(arrow, i as int, q),
                        forall|q: int|
                            0 <= q < n ==> #[trigger] behind_it@[q] == leads(arrow, q, i as int),
                        numbers(group@) == members(arrow, i as int, j as int),
                        forall|q: int| 0 <= q < group.len() ==> (#[trigger] group@[q]) < n,
                        forall|q: int|
                            0 <= q < n ==> (#[trigger] grouped@[q] <==> marks[q] || (q < j
                                && together(arrow, i as int, q))),
                    decreases n - j,
                {
                    let ghost so_far = numbers(group@);
                    if ahead[j] && behind_it[j] {
                        group.push(j);
                        grouped.set(j, true);
                        assert(numbers(group@) =~= so_far.push(j as int));
                    }
                    j += 1;
                }
                let ghost found = numbers(group@);
                let ghost before = number_rows(out@);
                out.push(group);
                proof {
                    assert(number_rows(out@) =~= before.push(found));
                    assert(opens_group(arrow, i as int));
                }
            }
        }
        proof {
            assert forall|j: int| 0 <= j < n implies (#[trigger] grouped@[j] <==> exists|k: int|
                0 <= k < i + 1 && #[trigger] together(arrow, k, j)) by {
                if together(arrow, i as int, j) {
                    leads_on(arrow, i as int, j, i as int);
                    if marks[i as int] {
                        let k = choose|k: int| 0 <= k < i && #[trigger] together(arrow, k, i as int);
                        leads_on(arrow, k, i as int, j);
                        leads_on(arrow, j, i as int, k);
                        assert(together(arrow, k, j));
                    }
                }
            }
        }
        i += 1;
    }
    out
}

/// Every number in a row is below `n`.
pub open spec fn in_range_of(v: Seq<Vec<usize>>, n: int) -> bool {
    forall|i: int, k: int|
        0 <= i < v.len() && 0 <= k < v[i]@.len() ==> (#[trigger] v[i]@[k]) < n
}

// --- Laws -------------------------------------------------------------------------

proof fn members_are_together(arrow: spec_fn(int, int) -> bool, i: int, m: int, j: int)
    ensures
        members(arrow, i, m).contains(j) <==> 0 <= j < m && together(arrow, i, j),
    decreases m,
{
    let list = members(arrow, i, m);
    if m > 0 {
        let before = members(arrow, i, m - 1);
        members_are_together(arrow, i, m - 1, j);
        if before.contains(j) {
            assert(list[before.index_of(j)] == j);
        }
        if j == m - 1 && together(arrow, i, j) {
            assert(list[before.len() as int] == j);
        }
        if list.contains(j) {
            let p = list.index_of(j);
            if p < before.len() {
                assert(before[p] == j);
            }
        }
    }
}

/// A group is that of the place that opens it.
proof fn group_is_opened(arrow: spec_fn(int, int) -> bool, n: int, m: int, g: int) -> (i: int)
    requires
        0 <= g < groups_of(arrow, n, m).len(),
    ensures
        0 <= i < m,
        opens_group(arrow, i),
        groups_of(arrow, n, m)[g] == members(arrow, i, n),
    decreases m,
{
    let before = groups_of(arrow, n, m - 1);
    if g < before.len() {
        group_is_opened(arrow, n, m - 1, g)
    } else {
        m - 1
    }
}

proof fn opened_group_is_listed(arrow: spec_fn(int, int) -> bool, n: int, m: int, i: int)
    requires
        0 <= i < m,
        opens_group(arrow, i),
    ensures
        groups_of(arrow, n, m).contains(members(arrow, i, n)),
    decreases m,
{
    let list = groups_of(arrow, n, m);
    let before = groups_of(arrow, n, m - 1);
    let group = members(arrow, i, n);
    if i < m - 1 {
        opened_group_is_listed(arrow, n, m - 1, i);
        assert(list[before.index_of(group)] == group);
    } else {
        assert(list[before.len() as int] == group);
    }
}

/// All that stand in one group lead to each other, and to themselves.
pub proof fn members_lead_to_each_other(
    arrow: spec_fn(int, int) -> bool,
    n: int,
    g: int,
    a: int,
    b: int,
)
    requires
        0 <= g < groups_of(arrow, n, n).len(),
        groups_of(arrow, n, n)[g].contains(a),
        groups_of(arrow, n, n)[g].contains(b),
    ensures
        leads(arrow, a, b),
        leads(arrow, b, a),
        leads(arrow, a, a),
{
    let i = group_is_opened(arrow, n, n, g);
    members_are_together(arrow, i, n, a);
    members_are_together(arrow, i, n, b);
    leads_on(arrow, a, i, b);
    leads_on(arrow, b, i, a);
    leads_on(arrow, a, b, a);
}

/// Only places in range stand in groups.
pub proof fn members_are_places(arrow: spec_fn(int, int) -> bool, n: int, g: int, a: int)
    requires
        0 <= g < groups_of(arrow, n, n).len(),
        groups_of(arrow, n, n)[g].contains(a),
    ensures
        0 <= a < n,
{
    let i = group_is_opened(arrow, n, n, g);
    members_are_together(arrow, i, n, a);
}

proof fn some_place_opens(arrow: spec_fn(int, int) -> bool, i: int, m: int) -> (j: int)
    requires
        0 <= m <= i,
        leads(arrow, i, i),
        forall|k: int| 0 <= k < m ==> !#[trigger] together(arrow, k, i),
    ensures
        0 <= j <= i,
        opens_group(arrow, j),
        together(arrow, j, i),
    decreases i - m,
{
    if m == i {
        i
    } else if together(arrow, m, i) {
        assert forall|k: int| 0 <= k < m implies !#[trigger] together(arrow, k, m) by {
            if together(arrow, k, m) {
                leads_on(arrow, k, m, i);
                leads_on(arrow, i, m, k);
                assert(together(arrow, k, i));
            }
        }
        leads_on(arrow, m, i, m);
        m
    } else {
        some_place_opens(arrow, i, m + 1)
    }
}

/// Every place that leads back to itself stands in a group.
pub proof fn every_cycle_is_reported(arrow: spec_fn(int, int) -> bool, n: int, i: int)
    requires
        0 <= i < n,
        leads(arrow, i, i),
    ensures
        exists|g: int|
            0 <= g < groups_of(arrow, n, n).len() && (#[trigger] groups_of(arrow, n, n)[g]).contains(
                i,
            ),
{
    let j = some_place_opens(arrow, i, 0);
    opened_group_is_listed(arrow, n, n, j);
    members_are_together(arrow, j, n, i);
    let g = groups_of(arrow, n, n).index_of(members(arrow, j, n));
    assert(groups_of(arrow, n, n)[g].contains(i));
}

proof fn openers_increase(arrow: spec_fn(int, int) -> bool, n: int, m: int, g: int, h: int)
    requires
        0 <= g < h < groups_of(arrow, n, m).len(),
    ensures
        exists|i: int, j: int|
            0 <= i < j < m && #[trigger] opens_group(arrow, i) && #[trigger] opens_group(arrow, j)
                && groups_of(arrow, n, m)[g] == members(arrow, i, n) && groups_of(arrow, n, m)[h]
                == members(arrow, j, n),
    decreases m,
{
    let before = groups_of(arrow, n, m - 1);
    if h < before.len() {
        openers_increase(arrow, n, m - 1, g, h);
    } else {
        let i = group_is_opened(arrow, n, m - 1, g);
        assert(opens_group(arrow, i) && opens_group(arrow, m - 1));
    }
}

/// No place stands in two groups.
pub proof fn groups_do_not_overlap(
    arrow: spec_fn(int, int) -> bool,
    n: int,
    g: int,
    h: int,
    a: int,
)
    requires
        0 <= g < h < groups_of(arrow, n, n).len(),
        groups_of(arrow, n, n)[g].contains(a),
    ensures
        !groups_of(arrow, n, n)[h].contains(a),
{
    openers_increase(arrow, n, n, g, h);
    let (i, j) = choose|i: int, j: int|
        0 <= i < j < n && #[trigger] opens_group(arrow, i) && #[trigger] opens_group(arrow, j)
            && groups_of(arrow, n, n)[g] == members(arrow, i, n) && groups_of(arrow, n, n)[h]
            == members(arrow, j, n);
    members_are_together(arrow, i, n, a);
    members_are_together(arrow, j, n, a);
    if groups_of(arrow, n, n)[h].contains(a) {
        leads_on(arrow, i, a, j);
        leads_on(arrow, j, a, i);
        assert(together(arrow, i, j));
    }
}

} // verus!
