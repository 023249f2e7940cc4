use vstd::prelude::*;
use crate::hierarchy::OrgRecord;

verus! {

/// Fewest fields a publication row must have: its email stands at index 6.
pub const PUBLICATION_FIELDS: usize = 7;

/// Fewest fields an organisation row must have: `id, name, parent_id`.
pub const ORG_FIELDS: usize = 3;

/// The fields of a publication row that the reports read.
pub struct Publication {
    pub last_name: String,
    pub first_name: String,
    pub department_id: String,
    pub uid: String,
    pub email: String,
}

/// A roster row with fewer fields than its kind of row needs.
#[derive(Debug, PartialEq, Eq, Structural)]
pub struct ShortRow {
    pub found: usize,
    pub needed: usize,
}

impl Publication {
    /// Reads a publication row: last name at index 1, first name at 2,
    /// department id at 3, identifier at 4 and email at 6.
    pub fn from_fields(fields: &Vec<String>) -> (r: Result<Publication, ShortRow>)
        ensures
            fields@.len() < PUBLICATION_FIELDS ==> r == Err::<Publication, ShortRow>(
                ShortRow { found: fields@.len() as usize, needed: PUBLICATION_FIELDS },
            ),
            fields@.len() >= PUBLICATION_FIELDS ==> r is Ok && r->Ok_0.last_name@ == fields@[1]@
                && r->Ok_0.first_name@ == fields@[2]@ && r->Ok_0.department_id@ == fields@[3]@
                && r->Ok_0.uid@ == fields@[4]@ && r->Ok_0.email@ == fields@[6]@,
    {
        if fields.len() < PUBLICATION_FIELDS {
            return Err(ShortRow { found: fields.len(), needed: PUBLICATION_FIELDS });
        }
        Ok(
            Publication {
                last_name: fields[1].clone(),
                first_name: fields[2].clone(),
                department_id: fields[3].clone(),
                uid: fields[4].clone(),
                email: fields[6].clone(),
            },
        )
    }
}

impl OrgRecord {
    /// Reads an organisation row: id, name and parent id, in that order.
    pub fn from_fields(fields: &Vec<String>) -> (r: Result<OrgRecord, ShortRow>)
        ensures
            fields@.len() < ORG_FIELDS ==> r == Err::<OrgRecord, ShortRow>(
                ShortRow { found: fields@.len() as usize, needed: ORG_FIELDS },
            ),
            fields@.len() >= ORG_FIELDS ==> r is Ok && r->Ok_0.id@ == fields@[0]@
                && r->Ok_0.name@ == fields@[1]@ && r->Ok_0.parent_id@ == fields@[2]@,
    {
        if fields.len() < ORG_FIELDS {
            return Err(ShortRow { found: fields.len(), needed: ORG_FIELDS });
        }
        Ok(
            OrgRecord {
                id: fields[0].clone(),
                name: fields[1].clone(),
                parent_id: fields[2].clone(),
            },
        )
    }
}

/// Map from organisation id to name: where an id comes twice, the later
/// record's name stands.
pub open spec fn org_map(recs: Seq<OrgRecord>) -> Map<Seq<char>, Seq<char>>
    decreases recs.len(),
{
    if recs.len() == 0 {
        Map::empty()
    } else {
        org_map(recs.drop_last()).insert(recs.last().id@, recs.last().name@)
    }
}

/// The organisation lookup table: id to name, built once from the roster.
pub struct OrgLookup {
    records: Vec<OrgRecord>,
}

impl View for OrgLookup {
    type V = Map<Seq<char>, Seq<char>>;

    closed spec fn view(&self) -> Map<Seq<char>, Seq<char>> {
        org_map(self.records@)
    }
}

proof fn lemma_org_map_skip(recs: Seq<OrgRecord>, m: int, id: Seq<char>)
    requires
        0 <= m <= recs.len(),
        forall|j: int| m <= j < recs.len() ==> recs[j].id@ != id,
    ensures
        org_map(recs).contains_key(id) == org_map(recs.subrange(0, m)).contains_key(id),
        org_map(recs).contains_key(id) ==> org_map(recs)[id] == org_map(recs.subrange(0, m))[id],
    decreases recs.len(),
{
    if recs.len() > m {
        lemma_org_map_skip(recs.drop_last(), m, id);
        assert(recs.drop_last().subrange(0, m) =~= recs.subrange(0, m));
    } else {
        assert(recs.subrange(0, m) =~= recs);
    }
}

/// Builds the lookup table from the organisation roster.
pub fn build_org_lookup(records: Vec<OrgRecord>) -> (r: OrgLookup)
    ensures
        r@ == org_map(records@),
{
    OrgLookup { records }
}

impl OrgLookup {
    /// The name recorded for `id`, if any.
    pub fn get(&self, id: &String) -> (r: Option<&String>)
        ensures
            r is Some <==> self@.contains_key(id@),
            r is Some ==> r->Some_0@ == self@[id@],
    {
        let ghost recs = self.records@;
        let mut i: usize = self.records.len();
        while i > 0
            invariant
                recs == self.records@,
                i <= recs.len(),
                forall|j: int| i <= j < recs.len() ==> recs[j].id@ != id@,
            decreases i,
        {
            if self.records[i - 1].id == *id {
                proof {
                    lemma_org_map_skip(recs, i as int, id@);
                    assert(recs.subrange(0, i as int).drop_last() =~= recs.subrange(
                        0,
                        i - 1,
                    ));
                }
                return Some(&self.records[i - 1].name);
            }
            i -= 1;
        }
        proof {
            lemma_org_map_skip(recs, 0, id@);
        }
        None
    }
}

} // verus!
