use vstd::prelude::*;

verus! {

/// Number of columns of a hierarchy row: the top level and five levels below it.
pub const LEVELS: usize = 6;

/// One row of the organisation roster: `id, name, parent_id`.
pub struct OrgRecord {
    pub id: String,
    pub name: String,
    pub parent_id: String,
}

/// The characters of each string, in order.
pub open spec fn names_of(s: Seq<String>) -> Seq<Seq<char>> {
    s.map_values(|x: String| x@)
}

/// No two records of the roster share an id.
pub open spec fn ids_unique(recs: Seq<OrgRecord>) -> bool {
    forall|i: int, j: int|
        0 <= i < recs.len() && 0 <= j < recs.len() && i != j ==> recs[i].id@ != recs[j].id@
}

/// Record `c` hangs below record `p`: `p` was read before `c` and carries the
/// id that `c` names as its parent.
pub open spec fn is_child(recs: Seq<OrgRecord>, p: int, c: int) -> bool {
    0 <= p < c < recs.len() && recs[p].id@ == recs[c].parent_id@
}

pub open spec fn has_parent(recs: Seq<OrgRecord>, c: int) -> bool {
    exists|p: int| is_child(recs, p, c)
}

pub open spec fn parent_of(recs: Seq<OrgRecord>, c: int) -> int {
    choose|p: int| is_child(recs, p, c)
}

/// Names from the top of `n`'s tree down to `n` itself.
pub open spec fn path_of(recs: Seq<OrgRecord>, n: int) -> Seq<Seq<char>>
    decreases n,
    when 0 <= n < recs.len()
{
    if has_parent(recs, n) {
        path_of(recs, parent_of(recs, n)).push(recs[n].name@)
    } else {
        seq![recs[n].name@]
    }
}

/// Node `n` followed by the subtrees of its children, in file order.
pub open spec fn subtree(recs: Seq<OrgRecord>, n: int) -> Seq<int>
    decreases recs.len() - n, recs.len() + 1,
{
    if 0 <= n < recs.len() {
        seq![n] + forest(recs, n, recs.len() as int)
    } else {
        seq![]
    }
}

/// The subtrees of those children of `p` that stand before index `k`.
pub open spec fn forest(recs: Seq<OrgRecord>, p: int, k: int) -> Seq<int>
    decreases recs.len() - p, k,
{
    if 0 <= p && p + 1 < k && k <= recs.len() {
        forest(recs, p, k - 1) + (if is_child(recs, p, k - 1) {
            subtree(recs, k - 1)
        } else {
            seq![]
        })
    } else {
        seq![]
    }
}

/// A path cut or padded with blanks to exactly `LEVELS` columns.
pub open spec fn padded(path: Seq<Seq<char>>) -> Seq<Seq<char>> {
    Seq::new(LEVELS as nat, |i: int| if i < path.len() { path[i] } else { Seq::empty() })
}

/// The rows for the given nodes, in the same order.
pub open spec fn rows_for(recs: Seq<OrgRecord>, nodes: Seq<int>) -> Seq<Seq<Seq<char>>> {
    nodes.map_values(|n: int| padded(path_of(recs, n)))
}

/// The flattened hierarchy: one row per node under the first record, in
/// pre-order.
pub open spec fn hierarchy_rows(recs: Seq<OrgRecord>) -> Seq<Seq<Seq<char>>> {
    if recs.len() == 0 {
        seq![]
    } else {
        rows_for(recs, subtree(recs, 0))
    }
}

pub open spec fn rows_view(rows: Seq<Vec<String>>) -> Seq<Seq<Seq<char>>> {
    rows.map_values(|r: Vec<String>| names_of(r@))
}

proof fn lemma_path_nonempty(recs: Seq<OrgRecord>, n: int)
    requires
        0 <= n < recs.len(),
    ensures
        path_of(recs, n).len() >= 1,
        path_of(recs, n).last() == recs[n].name@,
{
}

proof fn lemma_child_path(recs: Seq<OrgRecord>, p: int, c: int)
    requires
        ids_unique(recs),
        is_child(recs, p, c),
    ensures
        path_of(recs, c) == path_of(recs, p).push(recs[c].name@),
{
    let q = parent_of(recs, c);
    assert(is_child(recs, q, c));
    assert(q == p);
}

/// The row for a path of names: cut or padded with blanks to `LEVELS` columns.
fn padded_row(path: &Vec<String>) -> (row: Vec<String>)
    ensures
        names_of(row@) == padded(names_of(path@)),
{
    let mut row: Vec<String> = Vec::new();
    let mut i: usize = 0;
    while i < LEVELS
        invariant
            i <= LEVELS,
            row@.len() == i,
            forall|j: int| 0 <= j < i ==> #[trigger] row@[j]@ == padded(names_of(path@))[j],
        decreases LEVELS - i,
    {
        if i < path.len() {
            row.push(path[i].clone());
        } else {
            row.push(String::new());
        }
        i += 1;
    }
    assert(names_of(row@) =~= padded(names_of(path@)));
    row
}

/// Names from `top` down to `n`, following parent links up from `n`.
pub open spec fn rel_path(recs: Seq<OrgRecord>, top: int, n: int) -> Seq<Seq<char>>
    decreases n,
    when 0 <= n < recs.len()
{
    if n == top || !has_parent(recs, n) {
        seq![recs[n].name@]
    } else {
        rel_path(recs, top, parent_of(recs, n)).push(recs[n].name@)
    }
}

/// The rows for the given nodes below `top`, each the names in `prefix`
/// followed by those from `top` down to the node.
pub open spec fn rows_below(
    recs: Seq<OrgRecord>,
    prefix: Seq<Seq<char>>,
    top: int,
    nodes: Seq<int>,
) -> Seq<Seq<Seq<char>>> {
    nodes.map_values(|n: int| padded(prefix + rel_path(recs, top, n)))
}

proof fn lemma_rel_path_child(recs: Seq<OrgRecord>, p: int, c: int, m: int)
    requires
        ids_unique(recs),
        is_child(recs, p, c),
        descends(recs, m, c),
    ensures
        rel_path(recs, p, m) == seq![recs[p].name@] + rel_path(recs, c, m),
    decreases m,
{
    lemma_descends_ge(recs, m, c);
    if m == c {
        lemma_child_path(recs, p, c);
        let q = parent_of(recs, c);
        assert(is_child(recs, q, c));
        assert(q == p);
        assert(has_parent(recs, c));
        assert(rel_path(recs, p, p) == seq![recs[p].name@]);
        assert(rel_path(recs, c, c) == seq![recs[c].name@]);
        assert(rel_path(recs, p, c) == rel_path(recs, p, p).push(recs[c].name@));
        assert(rel_path(recs, p, c) =~= seq![recs[p].name@] + rel_path(recs, c, m));
    } else {
        let q = parent_of(recs, m);
        lemma_parent_below(recs, m);
        lemma_rel_path_child(recs, p, c, q);
        assert(rel_path(recs, p, m) =~= seq![recs[p].name@] + rel_path(recs, c, m));
    }
}

proof fn lemma_rel_path_from_first(recs: Seq<OrgRecord>, n: int)
    requires
        descends(recs, n, 0),
    ensures
        rel_path(recs, 0, n) == path_of(recs, n),
    decreases n,
{
    if n != 0 {
        lemma_rel_path_from_first(recs, parent_of(recs, n));
    }
}

/// Emits the rows of `node`'s subtree in pre-order, each led by the names
/// in `state`; `state` is given back as it came.
fn build_hierarchy(
    records: &Vec<OrgRecord>,
    node: usize,
    state: &mut Vec<String>,
    rows: &mut Vec<Vec<String>>,
)
    requires
        ids_unique(records@),
        node < records@.len(),
    ensures
        final(state)@ == old(state)@,
        rows_view(final(rows)@) == rows_view(old(rows)@) + rows_below(
            records@,
            names_of(old(state)@),
            node as int,
            subtree(records@, node as int),
        ),
    decreases records@.len() - node,
{
    let ghost recs = records@;
    let ghost start = state@;
    let ghost prefix = names_of(state@);
    let ghost first = rows@;
    state.push(records[node].name.clone());
    assert(names_of(state@) =~= prefix + rel_path(recs, node as int, node as int));
    let row = padded_row(state);
    rows.push(row);
    assert(rows_view(rows@) =~= rows_view(first) + rows_below(recs, prefix, node as int, seq![node as int]));
    let len = records.len();
    let mut k: usize = node + 1;
    while k < records.len()
        invariant
            recs == records@,
            ids_unique(recs),
            node < k <= recs.len(),
            state@ == start.push(records@[node as int].name),
            prefix == names_of(start),
            names_of(state@) == prefix.push(recs[node as int].name@),
            rows_view(rows@) == rows_view(first) + rows_below(
                recs,
                prefix,
                node as int,
                seq![node as int] + forest(recs, node as int, k as int),
            ),
        decreases recs.len() - k,
    {
        if records[k].parent_id == records[node].id {
            let ghost before = rows@;
            build_hierarchy(records, k, state, rows);
            let ghost done = seq![node as int] + forest(recs, node as int, k as int);
            let ghost sub = subtree(recs, k as int);
            assert(seq![node as int] + forest(recs, node as int, k + 1) =~= done + sub);
            assert forall|i: int| 0 <= i < sub.len() implies #[trigger] rows_below(
                recs,
                names_of(state@),
                k as int,
                sub,
            )[i] == rows_below(recs, prefix, node as int, sub)[i] by {
                assert(sub.contains(sub[i]));
                lemma_subtree_is_descendants(recs, k as int, sub[i]);
                lemma_rel_path_child(recs, node as int, k as int, sub[i]);
                assert(names_of(state@) + rel_path(recs, k as int, sub[i]) =~= prefix + rel_path(
                    recs,
                    node as int,
                    sub[i],
                ));
            }
            assert(rows_below(recs, names_of(state@), k as int, sub) =~= rows_below(
                recs,
                prefix,
                node as int,
                sub,
            ));
            assert(rows_below(recs, prefix, node as int, done + sub) =~= rows_below(
                recs,
                prefix,
                node as int,
                done,
            ) + rows_below(recs, prefix, node as int, sub));
        } else {
            assert(forest(recs, node as int, k + 1) =~= forest(recs, node as int, k as int));
        }
        k += 1;
    }
    state.pop();
    assert(state@ =~= start);
    assert(subtree(recs, node as int) == seq![node as int] + forest(
        recs,
        node as int,
        recs.len() as int,
    ));
}

/// Flattens the roster into hierarchy rows: the first record is the top of
/// the tree, each node's row holds the names on its path from the top, cut or
/// padded to `LEVELS` columns, and nodes come in pre-order with children in
/// file order. A record whose parent comes later in the file, or not at all,
/// is no one's child.
pub fn flatten_hierarchy(records: &Vec<OrgRecord>) -> (rows: Vec<Vec<String>>)
    requires
        ids_unique(records@),
    ensures
        rows_view(rows@) == hierarchy_rows(records@),
{
    let mut rows: Vec<Vec<String>> = Vec::new();
    if records.len() == 0 {
        assert(rows_view(rows@) =~= hierarchy_rows(records@));
        return rows;
    }
    let mut state: Vec<String> = Vec::new();
    build_hierarchy(records, 0, &mut state, &mut rows);
    proof {
        let recs = records@;
        let sub = subtree(recs, 0);
        assert(names_of(Seq::<String>::empty()) =~= Seq::<Seq<char>>::empty());
        assert forall|i: int| 0 <= i < sub.len() implies #[trigger] rows_below(
            recs,
            Seq::<Seq<char>>::empty(),
            0,
            sub,
        )[i] == rows_for(recs, sub)[i] by {
            assert(sub.contains(sub[i]));
            lemma_subtree_is_descendants(recs, 0, sub[i]);
            lemma_rel_path_from_first(recs, sub[i]);
            assert(Seq::<Seq<char>>::empty() + rel_path(recs, 0, sub[i]) =~= path_of(recs, sub[i]));
        }
        assert(rows_below(recs, Seq::<Seq<char>>::empty(), 0, sub) =~= rows_for(recs, sub));
    }
    assert(rows_view(rows@) =~= hierarchy_rows(records@));
    rows
}

/// Whether no two records of the roster share an id.
pub fn has_unique_ids(records: &Vec<OrgRecord>) -> (r: bool)
    ensures
        r == ids_unique(records@),
{
    let n = records.len();
    let mut i: usize = 0;
    while i < n
        invariant
            n == records@.len(),
            i <= n,
            forall|a: int, b: int| 0 <= a < i && 0 <= b < n && a != b ==> records@[a].id@ != records@[b].id@,
        decreases n - i,
    {
        let mut j: usize = 0;
        while j < n
            invariant
                n == records@.len(),
                i < n,
                j <= n,
                forall|a: int, b: int| 0 <= a < i && 0 <= b < n && a != b ==> records@[a].id@ != records@[b].id@,
                forall|b: int| 0 <= b < j && i != b ==> records@[i as int].id@ != records@[b].id@,
            decreases n - j,
        {
            if i != j && records[i].id == records[j].id {
                return false;
            }
            j += 1;
        }
        i += 1;
    }
    true
}

proof fn lemma_subtree_above(recs: Seq<OrgRecord>, n: int)
    ensures
        forall|i: int| 0 <= i < subtree(recs, n).len() ==> n <= #[trigger] subtree(recs, n)[i] < recs.len(),
    decreases recs.len() - n, recs.len() + 1,
{
    if 0 <= n < recs.len() {
        let f = forest(recs, n, recs.len() as int);
        lemma_forest_above(recs, n, recs.len() as int);
        assert forall|i: int| 0 <= i < subtree(recs, n).len() implies n <= #[trigger] subtree(
            recs,
            n,
        )[i] < recs.len() by {
            if i > 0 {
                assert(subtree(recs, n)[i] == f[i - 1]);
            }
        }
    }
}

proof fn lemma_forest_above(recs: Seq<OrgRecord>, p: int, k: int)
    ensures
        forall|i: int| 0 <= i < forest(recs, p, k).len() ==> p < #[trigger] forest(recs, p, k)[i] < recs.len(),
    decreases recs.len() - p, k,
{
    if 0 <= p && p + 1 < k && k <= recs.len() {
        lemma_forest_above(recs, p, k - 1);
        if is_child(recs, p, k - 1) {
            lemma_subtree_above(recs, k - 1);
        }
        let f = forest(recs, p, k - 1);
        let t = if is_child(recs, p, k - 1) { subtree(recs, k - 1) } else { seq![] };
        assert forall|i: int| 0 <= i < forest(recs, p, k).len() implies p < #[trigger] forest(recs, p, k)[i] < recs.len() by {
            if i < f.len() {
                assert(forest(recs, p, k)[i] == f[i]);
            } else {
                assert(forest(recs, p, k)[i] == t[i - f.len()]);
            }
        }
    }
}

/// A record whose parent comes later in the file is not placed below that
/// parent: it is neither in the parent's subtree nor among its children.
pub proof fn lemma_later_parent_excluded(recs: Seq<OrgRecord>, p: int, c: int)
    requires
        0 <= c < p < recs.len(),
        recs[p].id@ == recs[c].parent_id@,
    ensures
        !is_child(recs, p, c),
        !subtree(recs, p).contains(c),
{
    lemma_subtree_above(recs, p);
}

/// Every hierarchy row has exactly `LEVELS` columns: the first names of the
/// node's path, as many as fit, then blanks. A deeper path is cut, not
/// refused.
pub proof fn lemma_rows_have_fixed_width(recs: Seq<OrgRecord>)
    ensures
        forall|k: int| 0 <= k < hierarchy_rows(recs).len() ==> {
            let row = #[trigger] hierarchy_rows(recs)[k];
            let path = path_of(recs, subtree(recs, 0)[k]);
            &&& row.len() == LEVELS
            &&& forall|i: int| 0 <= i < LEVELS ==> #[trigger] row[i] == if i < path.len() {
                path[i]
            } else {
                Seq::<char>::empty()
            }
        },
{
}

/// Node `x` lies in the tree below `r`: walking up from `x` through parents
/// reaches `r`.
pub open spec fn descends(recs: Seq<OrgRecord>, x: int, r: int) -> bool
    decreases x,
{
    0 <= x < recs.len() && (x == r || (has_parent(recs, x) && 0 <= parent_of(recs, x) < x
        && descends(recs, parent_of(recs, x), r)))
}

proof fn lemma_parent_below(recs: Seq<OrgRecord>, x: int)
    requires
        has_parent(recs, x),
    ensures
        is_child(recs, parent_of(recs, x), x),
        0 <= parent_of(recs, x) < x,
{
}

proof fn lemma_descends_ge(recs: Seq<OrgRecord>, x: int, r: int)
    requires
        descends(recs, x, r),
    ensures
        r <= x,
    decreases x,
{
    if x != r {
        lemma_descends_ge(recs, parent_of(recs, x), r);
    }
}

proof fn lemma_descends_through_child(recs: Seq<OrgRecord>, x: int, p: int, c: int)
    requires
        ids_unique(recs),
        is_child(recs, p, c),
        descends(recs, x, c),
    ensures
        descends(recs, x, p),
    decreases x,
{
    lemma_child_path(recs, p, c);
    lemma_parent_below(recs, c);
    assert(parent_of(recs, c) == p) by {
        let q = parent_of(recs, c);
        assert(is_child(recs, q, c));
    }
    if x == c {
        assert(descends(recs, p, p));
    } else {
        lemma_descends_through_child(recs, parent_of(recs, x), p, c);
    }
}

proof fn lemma_descends_chain(recs: Seq<OrgRecord>, x: int, a: int, b: int)
    requires
        descends(recs, x, a),
        descends(recs, x, b),
        a < b,
    ensures
        descends(recs, b, a),
    decreases x,
{
    if x == a {
        lemma_descends_ge(recs, x, b);
    } else if x != b {
        lemma_descends_chain(recs, parent_of(recs, x), a, b);
    }
}

proof fn lemma_child_on_way(recs: Seq<OrgRecord>, x: int, r: int)
    requires
        ids_unique(recs),
        descends(recs, x, r),
        x != r,
    ensures
        exists|c: int| is_child(recs, r, c) && descends(recs, x, c),
    decreases x,
{
    let q = parent_of(recs, x);
    lemma_parent_below(recs, x);
    if q == r {
        assert(is_child(recs, r, x) && descends(recs, x, x));
    } else {
        lemma_child_on_way(recs, q, r);
        let c = choose|c: int| is_child(recs, r, c) && descends(recs, q, c);
        lemma_descends_ge(recs, q, c);
        assert(descends(recs, x, c));
    }
}

proof fn lemma_forest_members(recs: Seq<OrgRecord>, p: int, k: int, x: int)
    requires
        forest(recs, p, k).contains(x),
    ensures
        exists|c: int| c < k && is_child(recs, p, c) && #[trigger] subtree(recs, c).contains(x),
    decreases k,
{
    if 0 <= p && p + 1 < k && k <= recs.len() {
        let f = forest(recs, p, k - 1);
        let i = choose|i: int| 0 <= i < forest(recs, p, k).len() && forest(recs, p, k)[i] == x;
        if i < f.len() {
            assert(f[i] == x);
            lemma_forest_members(recs, p, k - 1, x);
        } else {
            assert(is_child(recs, p, k - 1));
            assert(subtree(recs, k - 1)[i - f.len()] == x);
            assert(subtree(recs, k - 1).contains(x));
        }
    }
}

proof fn lemma_forest_holds_child(recs: Seq<OrgRecord>, p: int, k: int, c: int, x: int)
    requires
        is_child(recs, p, c),
        c < k <= recs.len(),
        subtree(recs, c).contains(x),
    ensures
        forest(recs, p, k).contains(x),
    decreases k,
{
    let f = forest(recs, p, k - 1);
    let t = subtree(recs, k - 1);
    if c == k - 1 {
        let i = choose|i: int| 0 <= i < t.len() && t[i] == x;
        assert(forest(recs, p, k)[f.len() + i] == x);
    } else {
        lemma_forest_holds_child(recs, p, k - 1, c, x);
        let i = choose|i: int| 0 <= i < f.len() && f[i] == x;
        assert(forest(recs, p, k)[i] == x);
    }
}

proof fn lemma_subtree_is_descendants(recs: Seq<OrgRecord>, r: int, x: int)
    requires
        ids_unique(recs),
        0 <= r < recs.len(),
    ensures
        subtree(recs, r).contains(x) <==> descends(recs, x, r),
    decreases recs.len() - r,
{
    let f = forest(recs, r, recs.len() as int);
    if subtree(recs, r).contains(x) {
        if x != r {
            let i = choose|i: int| 0 <= i < subtree(recs, r).len() && subtree(recs, r)[i] == x;
            assert(f[i - 1] == x);
            lemma_forest_members(recs, r, recs.len() as int, x);
            let c = choose|c: int|
                c < recs.len() && is_child(recs, r, c) && #[trigger] subtree(recs, c).contains(x);
            lemma_subtree_is_descendants(recs, c, x);
            lemma_descends_through_child(recs, x, r, c);
        }
    }
    if descends(recs, x, r) {
        if x == r {
            assert(subtree(recs, r)[0] == r);
        } else {
            lemma_child_on_way(recs, x, r);
            let c = choose|c: int| is_child(recs, r, c) && descends(recs, x, c);
            lemma_subtree_is_descendants(recs, c, x);
            lemma_forest_holds_child(recs, r, recs.len() as int, c, x);
            let i = choose|i: int| 0 <= i < f.len() && f[i] == x;
            assert(subtree(recs, r)[i + 1] == x);
        }
    }
}

proof fn lemma_subtree_distinct(recs: Seq<OrgRecord>, r: int)
    requires
        ids_unique(recs),
    ensures
        subtree(recs, r).no_duplicates(),
    decreases recs.len() - r, recs.len() + 1,
{
    if 0 <= r < recs.len() {
        let f = forest(recs, r, recs.len() as int);
        lemma_forest_distinct(recs, r, recs.len() as int);
        lemma_forest_above(recs, r, recs.len() as int);
        let t = subtree(recs, r);
        assert forall|i: int, j: int| 0 <= i < t.len() && 0 <= j < t.len() && i != j implies t[i] != t[j] by {
            if i > 0 && j > 0 {
                assert(t[i] == f[i - 1] && t[j] == f[j - 1]);
            } else if i > 0 {
                assert(t[i] == f[i - 1]);
            } else {
                assert(t[j] == f[j - 1]);
            }
        }
    }
}

proof fn lemma_forest_distinct(recs: Seq<OrgRecord>, p: int, k: int)
    requires
        ids_unique(recs),
    ensures
        forest(recs, p, k).no_duplicates(),
    decreases recs.len() - p, k,
{
    if 0 <= p && p + 1 < k && k <= recs.len() {
        let f = forest(recs, p, k - 1);
        lemma_forest_distinct(recs, p, k - 1);
        if is_child(recs, p, k - 1) {
            let t = subtree(recs, k - 1);
            lemma_subtree_distinct(recs, k - 1);
            let all = forest(recs, p, k);
            assert(all == f + t);
            assert forall|i: int, j: int| 0 <= i < f.len() && 0 <= j < t.len() implies f[i] != t[j] by {
                if f[i] == t[j] {
                    let x = f[i];
                    assert(f.contains(x));
                    assert(t.contains(x));
                    lemma_forest_members(recs, p, k - 1, x);
                    let c = choose|c: int|
                        c < k - 1 && is_child(recs, p, c) && #[trigger] subtree(recs, c).contains(x);
                    lemma_subtree_is_descendants(recs, c, x);
                    lemma_subtree_is_descendants(recs, k - 1, x);
                    lemma_descends_chain(recs, x, c, k - 1);
                    lemma_child_path(recs, p, k - 1);
                    let q = parent_of(recs, k - 1);
                    assert(is_child(recs, q, k - 1));
                    assert(q == p);
                    lemma_descends_ge(recs, p, c);
                }
            }
            assert forall|i: int, j: int| 0 <= i < all.len() && 0 <= j < all.len() && i != j implies all[i] != all[j] by {
                if i < f.len() && j >= f.len() {
                    assert(all[i] == f[i] && all[j] == t[j - f.len()]);
                } else if j < f.len() && i >= f.len() {
                    assert(all[j] == f[j] && all[i] == t[i - f.len()]);
                } else if i < f.len() {
                    assert(all[i] == f[i] && all[j] == f[j]);
                } else {
                    assert(all[i] == t[i - f.len()] && all[j] == t[j - f.len()]);
                }
            }
        } else {
            assert(forest(recs, p, k) =~= f);
        }
    }
}

/// On a roster with unique ids, the hierarchy holds exactly one row for each
/// node below the first record, and no other: the rows' nodes are distinct,
/// and each row begins with the names on its node's path, from the first
/// record's name down to the node's own.
pub proof fn lemma_one_row_per_reachable_node(recs: Seq<OrgRecord>)
    requires
        ids_unique(recs),
        recs.len() > 0,
    ensures
        hierarchy_rows(recs).len() == subtree(recs, 0).len(),
        subtree(recs, 0).no_duplicates(),
        forall|x: int| #[trigger] subtree(recs, 0).contains(x) <==> descends(recs, x, 0),
        forall|k: int|
            0 <= k < subtree(recs, 0).len() ==> {
                let path = path_of(recs, #[trigger] subtree(recs, 0)[k]);
                &&& hierarchy_rows(recs)[k] == padded(path)
                &&& path[0] == recs[0].name@
                &&& path.last() == recs[subtree(recs, 0)[k]].name@
            },
{
    lemma_subtree_distinct(recs, 0);
    assert forall|x: int| #[trigger] subtree(recs, 0).contains(x) <==> descends(recs, x, 0) by {
        lemma_subtree_is_descendants(recs, 0, x);
    }
    assert forall|k: int| 0 <= k < subtree(recs, 0).len() implies {
        let path = path_of(recs, #[trigger] subtree(recs, 0)[k]);
        &&& hierarchy_rows(recs)[k] == padded(path)
        &&& path[0] == recs[0].name@
        &&& path.last() == recs[subtree(recs, 0)[k]].name@
    } by {
        let x = subtree(recs, 0)[k];
        assert(subtree(recs, 0).contains(x));
        lemma_subtree_is_descendants(recs, 0, x);
        lemma_path_starts_at(recs, x, 0);
        lemma_subtree_above(recs, 0);
        lemma_path_nonempty(recs, x);
    }
}

proof fn lemma_path_starts_at(recs: Seq<OrgRecord>, x: int, r: int)
    requires
        descends(recs, x, r),
        !has_parent(recs, r),
    ensures
        path_of(recs, x)[0] == recs[r].name@,
    decreases x,
{
    if x != r {
        let q = parent_of(recs, x);
        lemma_path_starts_at(recs, q, r);
        lemma_path_nonempty(recs, q);
    }
}

} // verus!
