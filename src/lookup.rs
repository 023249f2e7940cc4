use vstd::prelude::*;
use crate::hierarchy::names_of;
use vstd::string::StringSliceAdditionalSpecFns;

verus! {

#[verifier::external_type_specification]
#[verifier::external_body]
pub struct ExJsonValue(json::JsonValue);

/// A JSON value held as plain values.
pub enum Json {
    Null,
    Bool(bool),
    /// Sign (true for positive), mantissa and decimal exponent.
    Number(bool, u64, i16),
    Str(String),
    Array(Vec<Json>),
    /// Members in document order, each key once.
    Object(Vec<(String, Json)>),
}

/// Longest run of consecutive digits that a text handed to the JSON reader
/// may hold: its decimal exponent counter is an `i16`.
pub const MAX_DIGIT_RUN: usize = 32767;

pub open spec fn is_digit(b: u8) -> bool {
    48 <= b <= 57
}

/// How many digits stand right before position `i`.
pub open spec fn run_before(bytes: Seq<u8>, i: int) -> nat
    decreases i,
{
    if i <= 0 || i > bytes.len() || !is_digit(bytes[i - 1]) {
        0
    } else {
        run_before(bytes, i - 1) + 1
    }
}

/// No run of digits in the bytes is longer than `MAX_DIGIT_RUN`.
pub open spec fn digit_runs_short(bytes: Seq<u8>) -> bool {
    forall|i: int| 0 <= i <= bytes.len() ==> #[trigger] run_before(bytes, i) <= MAX_DIGIT_RUN
}

/// Whether no run of digits in the bytes is longer than `MAX_DIGIT_RUN`.
pub fn has_short_digit_runs(bytes: &[u8]) -> (r: bool)
    ensures
        r == digit_runs_short(bytes@),
{
    let mut run: usize = 0;
    let mut i: usize = 0;
    while i < bytes.len()
        invariant
            i <= bytes@.len(),
            run == run_before(bytes@, i as int),
            forall|j: int| 0 <= j <= i ==> #[trigger] run_before(bytes@, j) <= MAX_DIGIT_RUN,
        decreases bytes@.len() - i,
    {
        let b = bytes[i];
        if 48 <= b && b <= 57 {
            run = run + 1;
        } else {
            run = 0;
        }
        i += 1;
        assert(run == run_before(bytes@, i as int));
        if run > MAX_DIGIT_RUN {
            return false;
        }
    }
    true
}

/// Whether `json::parse` accepts the text: decided by the text alone.
pub uninterp spec fn is_json(text: Seq<char>) -> bool;

/// The document that `json::parse` reads from the text, where it accepts it.
pub uninterp spec fn json_of(text: Seq<char>) -> Json;

/// A search answer that cannot be read.
#[derive(Debug, PartialEq, Eq, Structural)]
pub enum AnswerError {
    /// A run of digits longer than `MAX_DIGIT_RUN`.
    DigitRunTooLong,
    /// Not a JSON document.
    NotJson,
}

/// Relies on json::JsonValue's variants, `Number::as_parts` and
/// `Object::iter`: the same value, taken over one for one.
#[verifier::external_body]
fn json_from(v: &json::JsonValue) -> Json {
    match v {
        json::JsonValue::Null => Json::Null,
        json::JsonValue::Boolean(b) => Json::Bool(*b),
        json::JsonValue::Number(n) => {
            let (positive, mantissa, exponent) = n.as_parts();
            Json::Number(positive, mantissa, exponent)
        },
        json::JsonValue::Short(t) => Json::Str(t.as_str().to_owned()),
        json::JsonValue::String(t) => Json::Str(t.clone()),
        json::JsonValue::Array(items) => Json::Array(items.iter().map(json_from).collect()),
        json::JsonValue::Object(o) => Json::Object(o.iter().map(|(k, x)| (k.to_owned(), json_from(x))).collect()),
    }
}

/// Relies on json::parse: reads a JSON document from text, and fails exactly
/// where it does not accept the text. It panics on a run of digits longer
/// than `MAX_DIGIT_RUN` in a number, which `requires` leaves out.
#[verifier::external_body]
fn parse_json(text: &str) -> (r: Result<Json, AnswerError>)
    requires
        digit_runs_short(text.spec_bytes()),
    ensures
        r is Ok <==> is_json(text@),
        r is Ok ==> r->Ok_0 == json_of(text@),
        r is Err ==> r->Err_0 == AnswerError::NotJson,
{
    match json::parse(text) {
        Ok(v) => Ok(json_from(&v)),
        Err(_) => Err(AnswerError::NotJson),
    }
}

/// `items` with `sep` between each two.
pub open spec fn joined_with(items: Seq<Seq<char>>, sep: Seq<char>) -> Seq<char>
    decreases items.len(),
{
    if items.len() == 0 {
        seq![]
    } else if items.len() == 1 {
        items[0]
    } else {
        joined_with(items.drop_last(), sep) + sep + items.last()
    }
}

/// Relies on itertools::join: each item's text, with `sep` between each two.
#[verifier::external_body]
fn join_strings(items: &Vec<String>, sep: &str) -> (r: String)
    ensures
        r@ == joined_with(names_of(items@), sep@),
{
    itertools::join(items, sep)
}

/// The search term that matches a record whose identifier is any of `ids`.
pub open spec fn query_for(ids: Seq<Seq<char>>) -> Seq<char> {
    "UT=("@ + joined_with(ids, " OR "@) + ")"@
}

/// The search term of one batch: the identifiers, joined by `OR`.
pub fn batch_query(ids: &Vec<String>) -> (q: String)
    ensures
        q@ == query_for(names_of(ids@)),
{
    let joined = join_strings(ids, " OR ");
    let mut q = String::from_str("UT=(");
    q.append(joined.as_str());
    q.append(")");
    q
}

/// One hit of a search answer: its identifier and DOI, where present.
pub struct Hit {
    pub uid: Option<String>,
    pub doi: Option<String>,
}

/// A hit as plain text.
pub type HitText = (Option<Seq<char>>, Option<Seq<char>>);

pub open spec fn hits_view(hits: Seq<Hit>) -> Seq<HitText> {
    hits.map_values(|h: Hit| (opt_view(h.uid), opt_view(h.doi)))
}

/// The value under `key` among an object's members: the first that has it.
pub open spec fn field(entries: Seq<(String, Json)>, key: Seq<char>) -> Option<Json>
    decreases entries.len(),
{
    if entries.len() == 0 {
        None
    } else if entries[0].0@ == key {
        Some(entries[0].1)
    } else {
        field(entries.drop_first(), key)
    }
}

/// The member of an object under `key`; nothing for any other value.
pub open spec fn member_of(v: Json, key: Seq<char>) -> Option<Json> {
    match v {
        Json::Object(entries) => field(entries@, key),
        _ => None,
    }
}

pub open spec fn text_in(v: Option<Json>) -> Option<Seq<char>> {
    match v {
        Some(Json::Str(s)) => Some(s@),
        _ => None,
    }
}

/// A hit's `uid` and `identifiers.doi`, where they are strings.
pub open spec fn hit_in(v: Json) -> HitText {
    (
        text_in(member_of(v, "uid"@)),
        text_in(
            match member_of(v, "identifiers"@) {
                Some(ids) => member_of(ids, "doi"@),
                None => None,
            },
        ),
    )
}

/// The hits of a search answer: one for each element of its `hits` array;
/// none where there is no such array.
pub open spec fn spec_hits(doc: Json) -> Seq<HitText> {
    match member_of(doc, "hits"@) {
        Some(Json::Array(items)) => items@.map_values(|h: Json| hit_in(h)),
        _ => seq![],
    }
}

fn member<'a>(v: &'a Json, key: &str) -> (r: Option<&'a Json>)
    ensures
        r is Some <==> member_of(*v, key@) is Some,
        r is Some ==> *r->Some_0 == member_of(*v, key@)->Some_0,
{
    match v {
        Json::Object(entries) => {
            assert(member_of(*v, key@) == field(entries@, key@));
            let k = String::from_str(key);
            let mut i: usize = 0;
            assert(entries@.subrange(0, entries@.len() as int) =~= entries@);
            while i < entries.len()
                invariant
                    i <= entries@.len(),
                    k@ == key@,
                    member_of(*v, key@) == field(entries@, key@),
                    field(entries@, key@) == field(entries@.subrange(i as int, entries@.len() as int), key@),
                decreases entries@.len() - i,
            {
                let ghost rest = entries@.subrange(i as int, entries@.len() as int);
                assert(rest[0] == entries@[i as int]);
                assert(rest.drop_first() =~= entries@.subrange(i + 1, entries@.len() as int));
                if entries[i].0 == k {
                    assert(field(rest, key@) == Some(rest[0].1));
                    return Some(&entries[i].1);
                }
                i += 1;
            }
            None
        },
        _ => None,
    }
}

fn text_of(v: Option<&Json>) -> (r: Option<String>)
    ensures
        opt_view(r) == text_in(
            match v {
                Some(x) => Some(*x),
                None => None,
            },
        ),
{
    match v {
        Some(Json::Str(s)) => Some(s.clone()),
        _ => None,
    }
}

fn hit_of(v: &Json) -> (h: Hit)
    ensures
        (opt_view(h.uid), opt_view(h.doi)) == hit_in(*v),
{
    let uid = text_of(member(v, "uid"));
    let doi = match member(v, "identifiers") {
        Some(ids) => text_of(member(ids, "doi")),
        None => None,
    };
    Hit { uid, doi }
}

/// The hits of a search answer, in the order of its `hits` array.
pub fn hits_of(doc: &Json) -> (hits: Vec<Hit>)
    ensures
        hits_view(hits@) == spec_hits(*doc),
{
    let mut hits: Vec<Hit> = Vec::new();
    match member(doc, "hits") {
        Some(Json::Array(items)) => {
            let mut i: usize = 0;
            while i < items.len()
                invariant
                    i <= items@.len(),
                    hits@.len() == i,
                    forall|j: int|
                        0 <= j < i ==> (opt_view(#[trigger] hits@[j].uid), opt_view(hits@[j].doi))
                            == hit_in(items@[j]),
                decreases items@.len() - i,
            {
                let h = hit_of(&items[i]);
                hits.push(h);
                i += 1;
            }
            assert(hits_view(hits@) =~= spec_hits(*doc));
        },
        _ => {
            assert(hits_view(hits@) =~= spec_hits(*doc));
        },
    }
    hits
}

/// Reads the hits of a search answer. An answer with a run of digits longer
/// than `MAX_DIGIT_RUN` is refused unread; one that is no JSON document is
/// refused; otherwise the hits are those of the document read.
pub fn parse_hits(text: &str) -> (r: Result<Vec<Hit>, AnswerError>)
    ensures
        !digit_runs_short(text.spec_bytes()) ==> r == Err::<Vec<Hit>, AnswerError>(
            AnswerError::DigitRunTooLong,
        ),
        digit_runs_short(text.spec_bytes()) ==> (r is Ok <==> is_json(text@)),
        digit_runs_short(text.spec_bytes()) && !is_json(text@) ==> r == Err::<Vec<Hit>, AnswerError>(
            AnswerError::NotJson,
        ),
        r is Ok ==> hits_view(r->Ok_0@) == spec_hits(json_of(text@)),
{
    if !has_short_digit_runs(text.as_bytes()) {
        return Err(AnswerError::DigitRunTooLong);
    }
    match parse_json(text) {
        Err(e) => Err(e),
        Ok(doc) => Ok(hits_of(&doc)),
    }
}

/// The hit names `id` and carries a DOI.
pub open spec fn resolves(h: Hit, id: Seq<char>) -> bool {
    h.uid is Some && h.uid->Some_0@ == id && h.doi is Some
}

/// Some hit of the answer gives a DOI for `id`.
pub open spec fn has_doi_for(hits: Seq<Hit>, id: Seq<char>) -> bool {
    exists|j: int| 0 <= j < hits.len() && resolves(#[trigger] hits[j], id)
}

/// The DOI that the answer gives for `id`: that of the last hit that names it
/// with a DOI.
pub open spec fn doi_for(hits: Seq<Hit>, id: Seq<char>) -> Option<Seq<char>>
    decreases hits.len(),
{
    if hits.len() == 0 {
        None
    } else if resolves(hits.last(), id) {
        Some(hits.last().doi->Some_0@)
    } else {
        doi_for(hits.drop_last(), id)
    }
}

pub open spec fn opt_view(o: Option<String>) -> Option<Seq<char>> {
    match o {
        Some(s) => Some(s@),
        None => None,
    }
}

proof fn lemma_doi_for_some(hits: Seq<Hit>, id: Seq<char>)
    ensures
        doi_for(hits, id) is Some <==> has_doi_for(hits, id),
    decreases hits.len(),
{
    if hits.len() > 0 {
        lemma_doi_for_some(hits.drop_last(), id);
        if has_doi_for(hits, id) && !resolves(hits.last(), id) {
            let j = choose|j: int| 0 <= j < hits.len() && resolves(#[trigger] hits[j], id);
            assert(resolves(hits.drop_last()[j], id));
        }
        if has_doi_for(hits.drop_last(), id) {
            let j = choose|j: int|
                0 <= j < hits.drop_last().len() && resolves(#[trigger] hits.drop_last()[j], id);
            assert(resolves(hits[j], id));
        }
        if resolves(hits.last(), id) {
            assert(resolves(hits[hits.len() - 1], id));
        }
    }
}

fn find_doi(hits: &Vec<Hit>, id: &String) -> (r: Option<String>)
    ensures
        opt_view(r) == doi_for(hits@, id@),
{
    let ghost all = hits@;
    let mut j: usize = hits.len();
    assert(all.subrange(0, j as int) =~= all);
    while j > 0
        invariant
            all == hits@,
            j <= all.len(),
            doi_for(all, id@) == doi_for(all.subrange(0, j as int), id@),
        decreases j,
    {
        let ghost part = all.subrange(0, j as int);
        assert(part.last() == all[j - 1]);
        assert(part.drop_last() =~= all.subrange(0, j - 1));
        match (&hits[j - 1].uid, &hits[j - 1].doi) {
            (Some(u), Some(d)) => {
                if *u == *id {
                    return Some(d.clone());
                }
            },
            _ => {},
        }
        j -= 1;
    }
    None
}

/// The DOI found for each identifier of a batch, in the batch's order: where
/// several hits name an identifier, the last one with a DOI stands, and an
/// identifier that no hit resolves gets none.
pub fn resolve_batch(ids: &Vec<String>, hits: &Vec<Hit>) -> (dois: Vec<Option<String>>)
    ensures
        dois@.len() == ids@.len(),
        forall|k: int| 0 <= k < ids@.len() ==> opt_view(#[trigger] dois@[k]) == doi_for(hits@, ids@[k]@),
        forall|k: int| 0 <= k < ids@.len() ==> (#[trigger] dois@[k] is Some <==> has_doi_for(hits@, ids@[k]@)),
{
    let mut dois: Vec<Option<String>> = Vec::new();
    let mut k: usize = 0;
    while k < ids.len()
        invariant
            k <= ids@.len(),
            dois@.len() == k,
            forall|m: int| 0 <= m < k ==> opt_view(#[trigger] dois@[m]) == doi_for(hits@, ids@[m]@),
        decreases ids@.len() - k,
    {
        dois.push(find_doi(hits, &ids[k]));
        k += 1;
    }
    assert forall|k: int| 0 <= k < ids@.len() implies (#[trigger] dois@[k] is Some <==> has_doi_for(hits@, ids@[k]@)) by {
        lemma_doi_for_some(hits@, ids@[k]@);
    }
    dois
}

} // verus!
