use vstd::prelude::*;
use crate::lookup::opt_view;
use crate::roster::{OrgLookup, Publication};

verus! {

/// One line of the publication report.
pub struct ReportRow {
    pub author: String,
    pub email: String,
    pub department: String,
    pub doi: String,
}

/// A row of the report as plain text: author, email, department, DOI.
pub type RowText = (Seq<char>, Seq<char>, Seq<char>, Seq<char>);

pub open spec fn row_text(r: ReportRow) -> RowText {
    (r.author@, r.email@, r.department@, r.doi@)
}

/// A publication names a department that the organisation roster lacks.
pub enum ReportError {
    UnknownDepartment(String),
}

/// `Last, First`.
pub open spec fn author_of(p: Publication) -> Seq<char> {
    p.last_name@ + ", "@ + p.first_name@
}

/// The identifiers of the records of a batch, in the batch's order.
pub open spec fn batch_ids(pubs: Seq<Publication>, batch: Seq<usize>) -> Seq<Seq<char>> {
    batch.map_values(|i: usize| pubs[i as int].uid@)
}

/// Every index of the batch names a record.
pub open spec fn batch_in(pubs: Seq<Publication>, batch: Seq<usize>) -> bool {
    forall|k: int| 0 <= k < batch.len() ==> #[trigger] batch[k] < pubs.len()
}

/// The identifiers of the records of a batch, in the batch's order.
pub fn batch_identifiers(pubs: &Vec<Publication>, batch: &Vec<usize>) -> (ids: Vec<String>)
    requires
        batch_in(pubs@, batch@),
    ensures
        ids@.map_values(|s: String| s@) == batch_ids(pubs@, batch@),
{
    let mut ids: Vec<String> = Vec::new();
    let mut k: usize = 0;
    while k < batch.len()
        invariant
            batch_in(pubs@, batch@),
            k <= batch@.len(),
            ids@.len() == k,
            forall|m: int| 0 <= m < k ==> #[trigger] ids@[m]@ == pubs@[batch@[m] as int].uid@,
        decreases batch@.len() - k,
    {
        ids.push(pubs[batch[k]].uid.clone());
        k += 1;
    }
    assert(ids@.map_values(|s: String| s@) =~= batch_ids(pubs@, batch@));
    ids
}

/// The report row of a publication whose DOI was found, or the error for a
/// department that the lookup table lacks.
pub fn make_row(p: &Publication, orgs: &OrgLookup, doi: &String) -> (r: Result<ReportRow, ReportError>)
    ensures
        r is Ok <==> orgs@.contains_key(p.department_id@),
        r is Ok ==> row_text(r->Ok_0) == (author_of(*p), p.email@, orgs@[p.department_id@], doi@),
        r is Err ==> r->Err_0->UnknownDepartment_0@ == p.department_id@,
{
    match orgs.get(&p.department_id) {
        None => Err(ReportError::UnknownDepartment(p.department_id.clone())),
        Some(name) => {
            let mut author = p.last_name.clone();
            author.append(", ");
            author.append(p.first_name.as_str());
            Ok(
                ReportRow {
                    author,
                    email: p.email.clone(),
                    department: name.clone(),
                    doi: doi.clone(),
                },
            )
        },
    }
}

/// The report for the first `n` records of a batch: a row for each record
/// with a DOI, in the batch's order; the first such record whose department
/// is unknown ends it with that department's id.
pub open spec fn batch_report(
    pubs: Seq<Publication>,
    batch: Seq<usize>,
    dois: Seq<Option<Seq<char>>>,
    orgs: Map<Seq<char>, Seq<char>>,
    n: int,
) -> Result<Seq<RowText>, Seq<char>>
    decreases n,
{
    if n <= 0 {
        Ok(seq![])
    } else {
        match batch_report(pubs, batch, dois, orgs, n - 1) {
            Err(e) => Err(e),
            Ok(rows) => {
                let p = pubs[batch[n - 1] as int];
                match dois[n - 1] {
                    None => Ok(rows),
                    Some(d) => if orgs.contains_key(p.department_id@) {
                        Ok(rows.push((author_of(p), p.email@, orgs[p.department_id@], d)))
                    } else {
                        Err(p.department_id@)
                    },
                }
            },
        }
    }
}

pub open spec fn rows_text(rows: Seq<ReportRow>) -> Seq<RowText> {
    rows.map_values(|r: ReportRow| row_text(r))
}

/// The rows of a batch, and what stopped it, if anything.
pub struct BatchRows {
    pub rows: Vec<ReportRow>,
    pub failure: Option<ReportError>,
}

/// Joins a batch with its DOIs (`dois[k]` for `batch[k]`) and the
/// organisation lookup: one row per record that has a DOI, in order. A
/// record with a DOI whose department is unknown stops the batch: the rows
/// of the records before it are kept, and the failure names the department.
pub fn report_rows(
    pubs: &Vec<Publication>,
    batch: &Vec<usize>,
    dois: &Vec<Option<String>>,
    orgs: &OrgLookup,
) -> (r: BatchRows)
    requires
        batch_in(pubs@, batch@),
        dois@.len() == batch@.len(),
    ensures
        ({
            let found = dois@.map_values(|d: Option<String>| opt_view(d));
            match batch_report(pubs@, batch@, found, orgs@, batch@.len() as int) {
                Ok(rows) => r.failure is None && rows_text(r.rows@) == rows,
                Err(id) => r.failure is Some && r.failure->Some_0->UnknownDepartment_0@ == id
                    && exists|f: int|
                    0 <= f < batch@.len() && batch_report(pubs@, batch@, found, orgs@, f) == Ok::<
                        Seq<RowText>,
                        Seq<char>,
                    >(rows_text(r.rows@)) && #[trigger] batch_report(
                        pubs@,
                        batch@,
                        found,
                        orgs@,
                        f + 1,
                    ) is Err,
            }
        }),
{
    let ghost found = dois@.map_values(|d: Option<String>| opt_view(d));
    let mut rows: Vec<ReportRow> = Vec::new();
    let mut k: usize = 0;
    assert(rows_text(rows@) =~= seq![]);
    while k < batch.len()
        invariant
            batch_in(pubs@, batch@),
            dois@.len() == batch@.len(),
            found == dois@.map_values(|d: Option<String>| opt_view(d)),
            k <= batch@.len(),
            batch_report(pubs@, batch@, found, orgs@, k as int) == Ok::<Seq<RowText>, Seq<char>>(
                rows_text(rows@),
            ),
        decreases batch@.len() - k,
    {
        let p = &pubs[batch[k]];
        assert(found[k as int] == opt_view(dois@[k as int]));
        match &dois[k] {
            None => {},
            Some(doi) => {
                match make_row(p, orgs, doi) {
                    Err(e) => {
                        assert(batch_report(pubs@, batch@, found, orgs@, k + 1) is Err);
                        proof {
                            lemma_report_stays_err(pubs@, batch@, found, orgs@, k + 1, batch@.len() as int);
                        }
                        return BatchRows { rows, failure: Some(e) };
                    },
                    Ok(row) => {
                        let ghost before = rows@;
                        rows.push(row);
                        assert(rows_text(rows@) =~= rows_text(before).push(row_text(row)));
                    },
                }
            },
        }
        k += 1;
    }
    BatchRows { rows, failure: None }
}

proof fn lemma_report_stays_err(
    pubs: Seq<Publication>,
    batch: Seq<usize>,
    dois: Seq<Option<Seq<char>>>,
    orgs: Map<Seq<char>, Seq<char>>,
    m: int,
    n: int,
)
    requires
        0 < m <= n,
        batch_report(pubs, batch, dois, orgs, m) is Err,
    ensures
        batch_report(pubs, batch, dois, orgs, n) == batch_report(pubs, batch, dois, orgs, m),
    decreases n - m,
{
    if n > m {
        lemma_report_stays_err(pubs, batch, dois, orgs, m, n - 1);
    }
}

} // verus!
