use vstd::prelude::*;

use crate::form::{parse_form, spec_parse_form, FormData};

verus! {

/// One row of the subscriptions store: a fresh identifier, the two fields
/// stored verbatim, and the time of insertion in microseconds since the Unix
/// epoch.
pub struct Subscription {
    pub id: u128,
    pub email: String,
    pub name: String,
    pub subscribed_at: i64,
}

/// The mathematical shadow of a row: the strings as character sequences.
pub struct SubscriptionModel {
    pub id: u128,
    pub email: Seq<char>,
    pub name: Seq<char>,
    pub subscribed_at: i64,
}

impl View for Subscription {
    type V = SubscriptionModel;

    open spec fn view(&self) -> SubscriptionModel {
        SubscriptionModel {
            id: self.id,
            email: self.email@,
            name: self.name@,
            subscribed_at: self.subscribed_at,
        }
    }
}

/// A store-side failure, as the handler sees it: only a description for the
/// log. No detail of it ever reaches the response body.
pub struct StoreError {
    pub detail: String,
}

/// What the subscribe handler decides about one request before any
/// persistence is attempted: turn it away, or persist this row.
pub enum SubscribeDecision {
    Reject(u16),
    Persist(Subscription),
}

/// Relies on uuid's `Uuid::new_v4`: a freshly drawn random (version 4)
/// identifier, returned as its 128-bit value. The draw is random, so nothing
/// is promised of the result.
#[verifier::external_body]
fn fresh_id() -> u128 {
    uuid::Uuid::new_v4().as_u128()
}

/// Relies on chrono's `Utc::now`: the current time, converted by
/// `timestamp_micros` to microseconds since the Unix epoch. The clock moves,
/// so nothing is promised of the result.
#[verifier::external_body]
fn now_micros() -> i64 {
    chrono::Utc::now().timestamp_micros()
}

/// Builds the row a decoded request persists as: a fresh identifier, the
/// fields verbatim, the current time.
pub fn new_subscription(form: FormData) -> (s: Subscription)
    ensures
        s.name@ == form.name@,
        s.email@ == form.email@,
{
    let id = fresh_id();
    let subscribed_at = now_micros();
    Subscription { id, email: form.email, name: form.name, subscribed_at }
}

/// Decides one subscribe request from its raw body alone: a body that does
/// not decode into exactly the fields `name` and `email` is turned away as a
/// bad request before any persistence is attempted; a well-formed body
/// becomes the row to persist, fields stored as decoded.
pub fn decide_subscribe(body: &[u8]) -> (d: SubscribeDecision)
    ensures
        match spec_parse_form(body@) {
            None => d matches SubscribeDecision::Reject(status) && status == 400,
            Some(kv) => d matches SubscribeDecision::Persist(s) && s.name@ == kv.0 && s.email@
                == kv.1,
        },
{
    match parse_form(body) {
        None => SubscribeDecision::Reject(400),
        Some(form) => SubscribeDecision::Persist(new_subscription(form)),
    }
}

/// Maps the outcome of the persistence operation to the response status:
/// success is 200, any store failure is an opaque 500.
pub fn completion_status(outcome: &Result<(), StoreError>) -> (status: u16)
    ensures
        outcome is Ok <==> status == 200,
        outcome is Err <==> status == 500,
{
    match outcome {
        Ok(_) => 200,
        Err(_) => 500,
    }
}

/// One whole pass of the subscribe handler over the store.
/// `body` is the raw request body; `id` and `at` are the
/// identifier and timestamp the persistence operation would use; `insert_ok`
/// says whether the store accepted the insert. The result is the store
/// afterwards and the response status: 400 before any persistence when the
/// body does not decode, then 200 with exactly the one new row on success,
/// or 500 with the store unchanged on a store failure.
pub open spec fn spec_subscribe_step(
    store: Seq<SubscriptionModel>,
    body: Seq<u8>,
    id: u128,
    at: i64,
    insert_ok: bool,
) -> (Seq<SubscriptionModel>, u16) {
    match spec_parse_form(body) {
        None => (store, 400u16),
        Some(kv) => if insert_ok {
            (
                store.push(SubscriptionModel { id, email: kv.1, name: kv.0, subscribed_at: at }),
                200u16,
            )
        } else {
            (store, 500u16)
        },
    }
}

/// A successful subscribe call adds exactly one row: the status is 200, the
/// store grows by one, every old row stands unchanged, and the new row holds
/// the decoded name and email with the given identifier and timestamp.
pub proof fn lemma_subscribe_success(
    store: Seq<SubscriptionModel>,
    body: Seq<u8>,
    name: Seq<char>,
    email: Seq<char>,
    id: u128,
    at: i64,
)
    requires
        spec_parse_form(body) == Some((name, email)),
    ensures
        ({
            let (store2, status) = spec_subscribe_step(store, body, id, at, true);
            &&& status == 200
            &&& store2 == store.push(
                SubscriptionModel { id, email, name, subscribed_at: at },
            )
            &&& store2.len() == store.len() + 1
            &&& forall|i: int| 0 <= i < store.len() ==> store2[i] == store[i]
        }),
{
}

/// A malformed subscribe call changes nothing: when the body does not
/// decode into the two required fields, the status is 400 and the store is
/// exactly what it was, whatever the store would have said.
pub proof fn lemma_subscribe_rejects_malformed(
    store: Seq<SubscriptionModel>,
    body: Seq<u8>,
    id: u128,
    at: i64,
    insert_ok: bool,
)
    requires
        spec_parse_form(body) is None,
    ensures
        spec_subscribe_step(store, body, id, at, insert_ok) == (store, 400u16),
{
}

/// A store failure changes nothing either: the status is 500 and the store
/// is exactly what it was.
pub proof fn lemma_subscribe_store_failure(
    store: Seq<SubscriptionModel>,
    body: Seq<u8>,
    id: u128,
    at: i64,
)
    requires
        spec_parse_form(body) is Some,
    ensures
        spec_subscribe_step(store, body, id, at, false) == (store, 500u16),
{
}

/// Submitting the same pair twice is not deduplicated: both calls succeed,
/// and the store ends with two further rows that carry the same name and
/// email under distinct identifiers.
pub proof fn lemma_resubmission_adds_second_row(
    store: Seq<SubscriptionModel>,
    body: Seq<u8>,
    id1: u128,
    at1: i64,
    id2: u128,
    at2: i64,
)
    requires
        spec_parse_form(body) is Some,
        id1 != id2,
    ensures
        ({
            let (store1, status1) = spec_subscribe_step(store, body, id1, at1, true);
            let (store2, status2) = spec_subscribe_step(store1, body, id2, at2, true);
            &&& status1 == 200
            &&& status2 == 200
            &&& store2.len() == store.len() + 2
            &&& store2[store.len() as int].id != store2[store.len() as int + 1].id
            &&& store2[store.len() as int].name == store2[store.len() as int + 1].name
            &&& store2[store.len() as int].email == store2[store.len() as int + 1].email
        }),
{
}

/// One subscribe request as the store sees it: the body it arrived with and
/// the identifier and timestamp its insert would use.
pub struct SubscribeEvent {
    pub body: Seq<u8>,
    pub id: u128,
    pub at: i64,
}

pub open spec fn all_well_formed(reqs: Seq<SubscribeEvent>) -> bool {
    forall|i: int| 0 <= i < reqs.len() ==> spec_parse_form(#[trigger] reqs[i].body) is Some
}

/// The row one well-formed request persists as.
pub open spec fn row_of(e: SubscribeEvent) -> SubscriptionModel
    recommends
        spec_parse_form(e.body) is Some,
{
    match spec_parse_form(e.body) {
        Some(kv) => SubscriptionModel { id: e.id, email: kv.1, name: kv.0, subscribed_at: e.at },
        None => SubscriptionModel { id: e.id, email: Seq::empty(), name: Seq::empty(), subscribed_at: e.at },
    }
}

/// The store after a run of successful subscribe calls, one after the other.
/// Inserts are atomic and independent, so any interleaving of concurrent
/// calls lands in some such order.
pub open spec fn spec_subscribe_all(
    store: Seq<SubscriptionModel>,
    reqs: Seq<SubscribeEvent>,
) -> Seq<SubscriptionModel>
    decreases reqs.len(),
{
    if reqs.len() == 0 {
        store
    } else {
        spec_subscribe_all(
            spec_subscribe_step(store, reqs[0].body, reqs[0].id, reqs[0].at, true).0,
            reqs.skip(1),
        )
    }
}

/// Successful subscribe calls each produce their own row: a run of them
/// appends exactly the rows of the requests, in order, so the row count
/// grows by exactly the number of calls.
pub proof fn lemma_each_call_its_own_row(
    store: Seq<SubscriptionModel>,
    reqs: Seq<SubscribeEvent>,
)
    requires
        all_well_formed(reqs),
    ensures
        spec_subscribe_all(store, reqs) == store + reqs.map_values(|e: SubscribeEvent| row_of(e)),
        spec_subscribe_all(store, reqs).len() == store.len() + reqs.len(),
    decreases reqs.len(),
{
    let rows = reqs.map_values(|e: SubscribeEvent| row_of(e));
    if reqs.len() == 0 {
        assert(store + rows =~= store);
    } else {
        let step = spec_subscribe_step(store, reqs[0].body, reqs[0].id, reqs[0].at, true);
        assert(step.0 == store.push(row_of(reqs[0])));
        assert(forall|i: int|
            0 <= i < reqs.skip(1).len() ==> spec_parse_form(
                #[trigger] reqs.skip(1)[i].body,
            ) is Some);
        lemma_each_call_its_own_row(step.0, reqs.skip(1));
        let tail_rows = reqs.skip(1).map_values(|e: SubscribeEvent| row_of(e));
        assert(spec_subscribe_all(store, reqs) == store.push(row_of(reqs[0])) + tail_rows);
        assert(store.push(row_of(reqs[0])) + tail_rows =~= store + rows);
    }
}

} // verus!
