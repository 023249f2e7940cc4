use vstd::prelude::*;
use crate::roster::Publication;

verus! {

/// Most identifiers sent in one query, and most results asked back.
pub const BATCH_SIZE: usize = 50;

/// Indices, in file order, of the first `n` records whose identifier is not
/// empty: those are the records that go to the lookup service.
pub open spec fn pending(pubs: Seq<Publication>, n: int) -> Seq<usize>
    decreases n,
{
    if n <= 0 {
        seq![]
    } else if pubs[n - 1].uid@.len() > 0 {
        pending(pubs, n - 1).push((n - 1) as usize)
    } else {
        pending(pubs, n - 1)
    }
}

/// The batches laid end to end.
pub open spec fn joined(batches: Seq<Vec<usize>>) -> Seq<usize>
    decreases batches.len(),
{
    if batches.len() == 0 {
        seq![]
    } else {
        joined(batches.drop_last()) + batches.last()@
    }
}

/// Every batch holds between one and `BATCH_SIZE` indices, and all but the
/// last are full.
pub open spec fn well_cut(batches: Seq<Vec<usize>>) -> bool {
    &&& forall|b: int| 0 <= b < batches.len() ==> 0 < #[trigger] batches[b]@.len() <= BATCH_SIZE
    &&& forall|b: int| 0 <= b < batches.len() - 1 ==> #[trigger] batches[b]@.len() == BATCH_SIZE
}

/// Groups the records with a non-empty identifier into batches of
/// `BATCH_SIZE`, keeping file order; records with an empty identifier are
/// left out and never looked up.
pub fn lookup_batches(pubs: &Vec<Publication>) -> (batches: Vec<Vec<usize>>)
    ensures
        joined(batches@) == pending(pubs@, pubs@.len() as int),
        well_cut(batches@),
        forall|b: int, k: int|
            0 <= b < batches@.len() && 0 <= k < batches@[b]@.len() ==> {
                let i = #[trigger] batches@[b]@[k];
                i < pubs@.len() && pubs@[i as int].uid@.len() > 0
            },
{
    let mut batches: Vec<Vec<usize>> = Vec::new();
    let mut current: Vec<usize> = Vec::new();
    let mut i: usize = 0;
    while i < pubs.len()
        invariant
            i <= pubs@.len(),
            joined(batches@) + current@ == pending(pubs@, i as int),
            current@.len() < BATCH_SIZE,
            forall|b: int| 0 <= b < batches@.len() ==> #[trigger] batches@[b]@.len() == BATCH_SIZE,
            forall|b: int, k: int|
                0 <= b < batches@.len() && 0 <= k < batches@[b]@.len() ==> {
                    let j = #[trigger] batches@[b]@[k];
                    j < pubs@.len() && pubs@[j as int].uid@.len() > 0
                },
            forall|k: int|
                0 <= k < current@.len() ==> {
                    let j = #[trigger] current@[k];
                    j < pubs@.len() && pubs@[j as int].uid@.len() > 0
                },
        decreases pubs@.len() - i,
    {
        if !pubs[i].uid.as_str().is_empty() {
            current.push(i);
            if current.len() == BATCH_SIZE {
                let ghost before = batches@;
                batches.push(current);
                current = Vec::new();
                assert(batches@.drop_last() == before);
                assert(joined(batches@) + current@ =~= joined(before) + batches@.last()@);
            }
        }
        i += 1;
    }
    if current.len() > 0 {
        let ghost before = batches@;
        batches.push(current);
        assert(batches@.drop_last() == before);
    } else {
        assert(joined(batches@) + current@ =~= joined(batches@));
    }
    batches
}

/// The records that go to the lookup service, in file order.
pub open spec fn pending_records(pubs: Seq<Publication>, n: int) -> Seq<Publication> {
    pending(pubs, n).map_values(|i: usize| pubs[i as int])
}

proof fn lemma_pending_records_step(pubs: Seq<Publication>, n: int)
    requires
        0 < n <= pubs.len() <= usize::MAX,
    ensures
        pending_records(pubs, n) == if pubs[n - 1].uid@.len() > 0 {
            pending_records(pubs, n - 1).push(pubs[n - 1])
        } else {
            pending_records(pubs, n - 1)
        },
{
    if pubs[n - 1].uid@.len() > 0 {
        assert(pending(pubs, n) == pending(pubs, n - 1).push((n - 1) as usize));
        assert(pending_records(pubs, n) =~= pending_records(pubs, n - 1).push(pubs[n - 1]));
    } else {
        assert(pending_records(pubs, n) =~= pending_records(pubs, n - 1));
    }
}

proof fn lemma_drop_empty_prefix(pubs: Seq<Publication>, j: int, n: int)
    requires
        0 <= j < pubs.len(),
        pubs[j].uid@.len() == 0,
        0 <= n <= pubs.len() <= usize::MAX,
    ensures
        n <= j ==> pending_records(pubs, n) == pending_records(pubs.remove(j), n),
        n > j ==> pending_records(pubs, n) == pending_records(pubs.remove(j), n - 1),
    decreases n,
{
    let rest = pubs.remove(j);
    if n > 0 {
        lemma_drop_empty_prefix(pubs, j, n - 1);
        lemma_pending_records_step(pubs, n);
        if n <= j {
            lemma_pending_records_step(rest, n);
            assert(rest[n - 1] == pubs[n - 1]);
        } else if n > j + 1 {
            lemma_pending_records_step(rest, n - 1);
            assert(rest[n - 2] == pubs[n - 1]);
        }
    }
}

/// A record with an empty identifier changes nothing that is looked up:
/// without it, the same records go to the lookup service, in the same order.
pub proof fn lemma_empty_identifier_changes_no_lookup(pubs: Seq<Publication>, j: int)
    requires
        0 <= j < pubs.len() <= usize::MAX,
        pubs[j].uid@.len() == 0,
    ensures
        pending_records(pubs, pubs.len() as int) == pending_records(
            pubs.remove(j),
            pubs.remove(j).len() as int,
        ),
{
    lemma_drop_empty_prefix(pubs, j, pubs.len() as int);
}

} // verus!
