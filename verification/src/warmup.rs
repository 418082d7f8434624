//! Warm-up planning for the leaf search. A synchronous search over
//! remote storage may not miss the cache once it starts, so before
//! the collector runs, every posting list the query touches and
//! every fast-field slice the collector reads must be fetched. This
//! module plans those fetches: the index library performs them.

use vstd::prelude::*;
use crate::search::SearchError;

verus! {

/// One term of the query, on the field it addresses, and whether its
/// positions are needed too.
#[derive(Debug)]
pub struct TermRequest {
    /// The field the term addresses.
    pub field: u32,
    /// The term's bytes.
    pub term: Vec<u8>,
    /// Whether the position data must be fetched as well.
    pub needs_positions: bool,
}

/// One posting-list fetch: a term of one field in one segment.
#[derive(Debug)]
pub struct PostingsFetch {
    /// The field of the term.
    pub field: u32,
    /// The segment to read.
    pub segment: u32,
    /// The term's bytes.
    pub term: Vec<u8>,
    /// Whether position data is fetched too.
    pub needs_positions: bool,
}

/// One fast-field fetch: one field's column in one segment.
#[derive(Debug, Clone, Copy, PartialEq, Eq, Structural)]
pub struct FastFieldFetch {
    /// The fast field to read.
    pub field: u32,
    /// The segment to read it from.
    pub segment: u32,
}

/// One field of the schema, as the planner needs it.
#[derive(Debug)]
pub struct FieldEntry {
    /// The field's name.
    pub name: String,
    /// Whether the field is stored as a fast field.
    pub fast: bool,
}

/// The mathematical content of one term request.
pub open spec fn term_view(t: TermRequest) -> (u32, Seq<u8>, bool) {
    (t.field, t.term@, t.needs_positions)
}

/// The mathematical content of one posting-list fetch.
pub open spec fn fetch_view(f: PostingsFetch) -> (u32, u32, Seq<u8>, bool) {
    (f.field, f.segment, f.term@, f.needs_positions)
}

/// The mathematical content of a list of term requests.
pub open spec fn term_views(terms: Seq<TermRequest>) -> Seq<(u32, Seq<u8>, bool)> {
    terms.map_values(|t: TermRequest| term_view(t))
}

/// The mathematical content of a list of fetches.
pub open spec fn fetch_views(fetches: Seq<PostingsFetch>) -> Seq<(u32, u32, Seq<u8>, bool)> {
    fetches.map_values(|f: PostingsFetch| fetch_view(f))
}

/// The fetch planned for term `t` in segment `s`.
pub open spec fn postings_fetch_of(terms: Seq<(u32, Seq<u8>, bool)>, s: int, t: int) -> (
    u32,
    u32,
    Seq<u8>,
    bool,
) {
    (terms[t].0, s as u32, terms[t].1, terms[t].2)
}

/// The fetches of one segment, term by term.
pub open spec fn segment_postings_row(terms: Seq<(u32, Seq<u8>, bool)>, s: int, t: int) -> Seq<
    (u32, u32, Seq<u8>, bool),
>
    decreases t,
{
    if t <= 0 {
        Seq::empty()
    } else {
        segment_postings_row(terms, s, t - 1).push(postings_fetch_of(terms, s, t - 1))
    }
}

/// The whole plan: every term of every segment, segment by segment.
pub open spec fn postings_plan(terms: Seq<(u32, Seq<u8>, bool)>, s: int) -> Seq<
    (u32, u32, Seq<u8>, bool),
>
    decreases s,
{
    if s <= 0 {
        Seq::empty()
    } else {
        postings_plan(terms, s - 1) + segment_postings_row(terms, s - 1, terms.len() as int)
    }
}

/// Plans the terms warm-up: for every segment, the posting list of
/// every query term is fetched, with positions where the query needs
/// them. All fetches can then run concurrently, and nothing the
/// query touches is missing when the synchronous search starts.
pub fn plan_terms_warmup(terms: &Vec<TermRequest>, num_segments: u32) -> (r: Vec<PostingsFetch>)
    ensures
        fetch_views(r@) == postings_plan(term_views(terms@), num_segments as int),
{
    let ghost tv = term_views(terms@);
    let mut plan: Vec<PostingsFetch> = Vec::new();
    let mut s: u32 = 0;
    proof {
        assert(fetch_views(plan@) =~= postings_plan(tv, 0));
    }
    while s < num_segments
        invariant
            s <= num_segments,
            tv == term_views(terms@),
            fetch_views(plan@) == postings_plan(tv, s as int),
        decreases num_segments - s,
    {
        let n = terms.len();
        let mut t: usize = 0;
        proof {
            assert(fetch_views(plan@) + segment_postings_row(tv, s as int, 0) =~= fetch_views(
                plan@,
            ));
        }
        while t < n
            invariant
                n == terms@.len(),
                t <= n,
                tv == term_views(terms@),
                fetch_views(plan@) == postings_plan(tv, s as int) + segment_postings_row(
                    tv,
                    s as int,
                    t as int,
                ),
            decreases n - t,
        {
            let ghost before = plan@;
            plan.push(
                PostingsFetch {
                    field: terms[t].field,
                    segment: s,
                    term: clone_bytes(&terms[t].term),
                    needs_positions: terms[t].needs_positions,
                },
            );
            proof {
                assert(fetch_view(plan@[before.len() as int]) == postings_fetch_of(
                    tv,
                    s as int,
                    t as int,
                ));
                assert(segment_postings_row(tv, s as int, t as int + 1) == segment_postings_row(
                    tv,
                    s as int,
                    t as int,
                ).push(postings_fetch_of(tv, s as int, t as int)));
                assert(fetch_views(plan@) =~= fetch_views(before).push(
                    fetch_view(plan@[before.len() as int]),
                ));
                assert(fetch_views(plan@) =~= postings_plan(tv, s as int) + segment_postings_row(
                    tv,
                    s as int,
                    t as int + 1,
                ));
            }
            t = t + 1;
        }
        s = s + 1;
    }
    plan
}

/// Copies a term's bytes.
fn clone_bytes(v: &Vec<u8>) -> (r: Vec<u8>)
    ensures
        r@ == v@,
{
    let r = v.clone();
    proof {
        assert(r@ =~= v@);
    }
    r
}

/// Completeness of the plan: for every segment and every term, the
/// plan holds that term's fetch in that segment — nothing the query
/// touches is left cold.
pub proof fn lemma_terms_warmup_covers(terms: Seq<(u32, Seq<u8>, bool)>, num_segments: int, s: int, t: int)
    requires
        0 <= s < num_segments,
        0 <= t < terms.len(),
    ensures
        postings_plan(terms, num_segments).contains(postings_fetch_of(terms, s, t)),
    decreases num_segments,
{
    if s == num_segments - 1 {
        lemma_row_covers(terms, s, terms.len() as int, t);
        let row = segment_postings_row(terms, s, terms.len() as int);
        let k = choose|k: int| 0 <= k < row.len() && row[k] == postings_fetch_of(terms, s, t);
        assert(postings_plan(terms, num_segments)[postings_plan(terms, num_segments - 1).len()
            + k] == postings_fetch_of(terms, s, t));
    } else {
        lemma_terms_warmup_covers(terms, num_segments - 1, s, t);
        let sub = postings_plan(terms, num_segments - 1);
        let k = choose|k: int| 0 <= k < sub.len() && sub[k] == postings_fetch_of(terms, s, t);
        assert(postings_plan(terms, num_segments)[k] == postings_fetch_of(terms, s, t));
    }
}

proof fn lemma_row_covers(terms: Seq<(u32, Seq<u8>, bool)>, s: int, upto: int, t: int)
    requires
        0 <= t < upto,
    ensures
        segment_postings_row(terms, s, upto).contains(postings_fetch_of(terms, s, t)),
    decreases upto,
{
    if t == upto - 1 {
        let row = segment_postings_row(terms, s, upto);
        assert(row[row.len() - 1] == postings_fetch_of(terms, s, t));
    } else {
        lemma_row_covers(terms, s, upto - 1, t);
        let sub = segment_postings_row(terms, s, upto - 1);
        let k = choose|k: int| 0 <= k < sub.len() && sub[k] == postings_fetch_of(terms, s, t);
        assert(segment_postings_row(terms, s, upto)[k] == postings_fetch_of(terms, s, t));
    }
}

/// The position of the first field named `name`, from position `i`
/// on: the field a name resolves to.
pub open spec fn first_field_from(schema: Seq<FieldEntry>, name: Seq<char>, i: int) -> Option<int>
    decreases schema.len() - i,
{
    if i < 0 || i >= schema.len() {
        Option::None
    } else if schema[i].name@ == name {
        Option::Some(i)
    } else {
        first_field_from(schema, name, i + 1)
    }
}

/// Whether a collector-declared name resolves to a fast field.
pub open spec fn resolves_fast(schema: Seq<FieldEntry>, name: Seq<char>) -> bool {
    match first_field_from(schema, name, 0) {
        Option::Some(i) => schema[i].fast,
        Option::None => false,
    }
}

/// Resolves every fast-field name the collector declares against the
/// schema: each name resolves to the first field carrying it, and
/// that field must be fast. A name that misses the schema or hits a
/// field that is not fast refuses the whole warm-up, as an internal
/// error of the leaf.
pub fn resolve_fast_fields(schema: &Vec<FieldEntry>, names: &Vec<String>) -> (r: Result<
    Vec<u32>,
    SearchError,
>)
    requires
        schema@.len() <= u32::MAX,
    ensures
        match r {
            Ok(fields) => {
                &&& fields@.len() == names@.len()
                &&& forall|k: int|
                    0 <= k < names@.len() ==> first_field_from(schema@, names@[k]@, 0) == Some(
                        #[trigger] fields@[k] as int,
                    ) && schema@[fields@[k] as int].fast
            },
            Err(e) => {
                &&& e is InternalError
                &&& exists|k: int|
                    0 <= k < names@.len() && !resolves_fast(schema@, #[trigger] names@[k]@)
            },
        },
{
    let mut fields: Vec<u32> = Vec::new();
    let n = names.len();
    let mut k: usize = 0;
    while k < n
        invariant
            schema@.len() <= u32::MAX,
            n == names@.len(),
            k <= n,
            fields@.len() == k as int,
            forall|j: int|
                0 <= j < k as int ==> first_field_from(schema@, names@[j]@, 0) == Some(
                    #[trigger] fields@[j] as int,
                ) && schema@[fields@[j] as int].fast,
        decreases n - k,
    {
        match resolve_one(schema, &names[k]) {
            Ok(field) => {
                fields.push(field);
            },
            Err(e) => {
                return Err(e);
            },
        }
        k = k + 1;
    }
    Ok(fields)
}

/// Finds the first field named `name` and checks that it is fast.
fn resolve_one(schema: &Vec<FieldEntry>, name: &String) -> (r: Result<u32, SearchError>)
    requires
        schema@.len() <= u32::MAX,
    ensures
        match r {
            Ok(field) => first_field_from(schema@, name@, 0) == Some(field as int)
                && schema@[field as int].fast,
            Err(e) => e is InternalError && !resolves_fast(schema@, name@),
        },
{
    let n = schema.len();
    let mut i: usize = 0;
    while i < n
        invariant
            schema@.len() <= u32::MAX,
            n == schema@.len(),
            i <= n,
            first_field_from(schema@, name@, 0) == first_field_from(schema@, name@, i as int),
        decreases n - i,
    {
        if schema[i].name == *name {
            if schema[i].fast {
                return Ok(i as u32);
            }
            return Err(SearchError::InternalError(not_fast_message(name)));
        }
        i = i + 1;
    }
    Err(SearchError::InternalError(missing_field_message(name)))
}

/// The error text for a field that is not fast.
fn not_fast_message(name: &String) -> String {
    let mut message = String::new();
    message.append("field is not a fast field: ");
    message.append(name.as_str());
    message
}

/// The error text for a field the schema does not hold.
fn missing_field_message(name: &String) -> String {
    let mut message = String::new();
    message.append("field does not exist in the schema: ");
    message.append(name.as_str());
    message
}

/// Plans the fast-field warm-up: every resolved field's column is
/// fetched in every segment.
pub fn plan_fast_field_warmup(fields: &Vec<u32>, num_segments: u32) -> (r: Vec<FastFieldFetch>)
    ensures
        r@ == fast_field_plan(fields@, num_segments as int),
{
    let mut plan: Vec<FastFieldFetch> = Vec::new();
    let mut s: u32 = 0;
    proof {
        assert(plan@ =~= fast_field_plan(fields@, 0));
    }
    while s < num_segments
        invariant
            s <= num_segments,
            plan@ == fast_field_plan(fields@, s as int),
        decreases num_segments - s,
    {
        let n = fields.len();
        let mut f: usize = 0;
        proof {
            assert(plan@ + fast_field_row(fields@, s as int, 0) =~= plan@);
        }
        while f < n
            invariant
                n == fields@.len(),
                f <= n,
                plan@ == fast_field_plan(fields@, s as int) + fast_field_row(
                    fields@,
                    s as int,
                    f as int,
                ),
            decreases n - f,
        {
            plan.push(FastFieldFetch { field: fields[f], segment: s });
            proof {
                assert(plan@ =~= fast_field_plan(fields@, s as int) + fast_field_row(
                    fields@,
                    s as int,
                    f as int + 1,
                ));
            }
            f = f + 1;
        }
        s = s + 1;
    }
    plan
}

/// The fast-field fetches of one segment.
pub open spec fn fast_field_row(fields: Seq<u32>, s: int, f: int) -> Seq<FastFieldFetch>
    decreases f,
{
    if f <= 0 {
        Seq::empty()
    } else {
        fast_field_row(fields, s, f - 1).push(
            FastFieldFetch { field: fields[f - 1], segment: s as u32 },
        )
    }
}

/// The whole fast-field plan, segment by segment.
pub open spec fn fast_field_plan(fields: Seq<u32>, s: int) -> Seq<FastFieldFetch>
    decreases s,
{
    if s <= 0 {
        Seq::empty()
    } else {
        fast_field_plan(fields, s - 1) + fast_field_row(fields, s - 1, fields.len() as int)
    }
}

} // verus!
