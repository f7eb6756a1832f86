use vstd::prelude::*;
use crate::request::ItemWrite;
use crate::error::Error;
use crate::seqs::{lemma_take_ends, lemma_take_front};
#[allow(unused_imports)]
use crate::error::unhandled_text;

verus! {

/// How many write requests one batch carries.
pub const TOTAL_REQUEST_COUNT: usize = 25;

/// A table's name with the write requests that concern it, as a plain pair.
pub type Entry = (Seq<char>, Seq<ItemWrite>);

/// The write requests that DynamoDB left unprocessed for one table.
pub struct TableRequests {
    pub table: String,
    pub requests: Vec<ItemWrite>,
}

/// What the library reads of a `BatchWriteItem` reply: its unprocessed items, by table.
pub struct BatchWriteOutput {
    pub unprocessed_items: Option<Vec<TableRequests>>,
}

impl BatchWriteOutput {
    /// How many requests the reply leaves unprocessed; `None` when the number does not fit
    /// a `usize`.
    pub fn unprocessed_request_count(&self) -> (n: Option<usize>)
        ensures
            match n {
                Some(k) => k == request_count(output_entries(*self)),
                None => request_count(output_entries(*self)) > usize::MAX,
            },
    {
        match &self.unprocessed_items {
            None => Some(0),
            Some(v) => {
                let ghost s = entries_of(v@);
                let mut total: usize = 0;
                let mut i: usize = 0;
                while i < v.len()
                    invariant
                        i <= v.len(),
                        s == entries_of(v@),
                        s == output_entries(*self),
                        total == request_count(s.take(i as int)),
                    decreases v.len() - i,
                {
                    assert(s.take(i + 1).drop_last() =~= s.take(i as int));
                    match total.checked_add(v[i].requests.len()) {
                        Some(t) => {
                            total = t;
                        },
                        None => {
                            proof {
                                lemma_request_count_prefix(s, i + 1);
                            }
                            return None;
                        },
                    }
                    i = i + 1;
                }
                assert(s.take(i as int) =~= s);
                Some(total)
            },
        }
    }
}

/// The entries of a vector of table requests, as plain pairs.
pub open spec fn entries_of(v: Seq<TableRequests>) -> Seq<Entry> {
    v.map_values(|t: TableRequests| (t.table@, t.requests@))
}

/// The unprocessed entries of a reply; none when it reports no unprocessed items.
pub open spec fn output_entries(o: BatchWriteOutput) -> Seq<Entry> {
    match o.unprocessed_items {
        Some(v) => entries_of(v@),
        None => Seq::empty(),
    }
}

/// The number of requests in all entries.
pub open spec fn request_count(s: Seq<Entry>) -> nat
    decreases s.len(),
{
    if s.len() == 0 {
        0
    } else {
        request_count(s.drop_last()) + s.last().1.len()
    }
}

/// All requests of the entries, entry after entry.
pub open spec fn flatten(s: Seq<Entry>) -> Seq<ItemWrite>
    decreases s.len(),
{
    if s.len() == 0 {
        Seq::empty()
    } else {
        flatten(s.drop_last()) + s.last().1
    }
}

/// Adds one entry to a map of requests by table: the table's requests are extended.
pub open spec fn add_entry(m: Map<Seq<char>, Seq<ItemWrite>>, e: Entry) -> Map<
    Seq<char>,
    Seq<ItemWrite>,
> {
    m.insert(e.0, if m.dom().contains(e.0) { m[e.0] + e.1 } else { e.1 })
}

/// Adds the entries one after the other.
pub open spec fn merge_entries(m: Map<Seq<char>, Seq<ItemWrite>>, s: Seq<Entry>) -> Map<
    Seq<char>,
    Seq<ItemWrite>,
>
    decreases s.len(),
{
    if s.len() == 0 {
        m
    } else {
        add_entry(merge_entries(m, s.drop_last()), s.last())
    }
}

/// Adds one entry to a sequence of entries with distinct tables: a table already there has
/// its requests extended in place, a new table is added at the end.
pub open spec fn insert_entry(s: Seq<Entry>, e: Entry) -> Seq<Entry> {
    if exists|j: int| 0 <= j < s.len() && s[j].0 == e.0 {
        let j = choose|j: int| 0 <= j < s.len() && s[j].0 == e.0;
        s.update(j, (e.0, s[j].1 + e.1))
    } else {
        s.push(e)
    }
}

/// Adds the entries `es` one after the other to the sequence `s`.
pub open spec fn insert_entries(s: Seq<Entry>, es: Seq<Entry>) -> Seq<Entry>
    decreases es.len(),
{
    if es.len() == 0 {
        s
    } else {
        insert_entry(insert_entries(s, es.drop_last()), es.last())
    }
}

/// The map from table to requests that a sequence of entries with distinct tables stands for.
pub open spec fn to_map(s: Seq<Entry>) -> Map<Seq<char>, Seq<ItemWrite>>
    decreases s.len(),
{
    if s.len() == 0 {
        Map::empty()
    } else {
        to_map(s.drop_last()).insert(s.last().0, s.last().1)
    }
}

/// No table occurs twice.
pub open spec fn distinct_tables(s: Seq<Entry>) -> bool {
    forall|i: int, j: int| 0 <= i < j < s.len() ==> s[i].0 != s[j].0
}

proof fn lemma_to_map_dom(s: Seq<Entry>, k: Seq<char>)
    ensures
        to_map(s).dom().contains(k) <==> exists|i: int| 0 <= i < s.len() && s[i].0 == k,
    decreases s.len(),
{
    if s.len() > 0 {
        lemma_to_map_dom(s.drop_last(), k);
        if to_map(s).dom().contains(k) && k != s.last().0 {
            let i = choose|i: int| 0 <= i < s.len() - 1 && s.drop_last()[i].0 == k;
            assert(s[i].0 == k);
        }
        if exists|i: int| 0 <= i < s.len() && s[i].0 == k {
            let i = choose|i: int| 0 <= i < s.len() && s[i].0 == k;
            if i < s.len() - 1 {
                assert(s.drop_last()[i].0 == k);
            }
        }
    }
}

proof fn lemma_to_map_value(s: Seq<Entry>, i: int)
    requires
        distinct_tables(s),
        0 <= i < s.len(),
    ensures
        to_map(s).dom().contains(s[i].0),
        to_map(s)[s[i].0] == s[i].1,
    decreases s.len(),
{
    if i < s.len() - 1 {
        assert(distinct_tables(s.drop_last()));
        lemma_to_map_value(s.drop_last(), i);
        assert(s.drop_last()[i] == s[i]);
    }
}

proof fn lemma_to_map_update(s: Seq<Entry>, j: int, v: Seq<ItemWrite>)
    requires
        distinct_tables(s),
        0 <= j < s.len(),
    ensures
        distinct_tables(s.update(j, (s[j].0, v))),
        to_map(s.update(j, (s[j].0, v))) == to_map(s).insert(s[j].0, v),
{
    let t = s.update(j, (s[j].0, v));
    assert(distinct_tables(t));
    assert forall|k: Seq<char>| #[trigger] to_map(t).dom().contains(k) <==> to_map(s).insert(
        s[j].0,
        v,
    ).dom().contains(k) by {
        lemma_to_map_dom(t, k);
        lemma_to_map_dom(s, k);
        if exists|i: int| 0 <= i < s.len() && s[i].0 == k {
            let i = choose|i: int| 0 <= i < s.len() && s[i].0 == k;
            assert(t[i].0 == k);
        }
        if exists|i: int| 0 <= i < t.len() && t[i].0 == k {
            let i = choose|i: int| 0 <= i < t.len() && t[i].0 == k;
            assert(s[i].0 == k);
        }
    }
    assert forall|k: Seq<char>| #[trigger] to_map(t).dom().contains(k) implies to_map(t)[k]
        == to_map(s).insert(s[j].0, v)[k] by {
        lemma_to_map_dom(t, k);
        let i = choose|i: int| 0 <= i < t.len() && t[i].0 == k;
        lemma_to_map_value(t, i);
        if i != j {
            lemma_to_map_value(s, i);
        }
    }
    assert(to_map(t) =~= to_map(s).insert(s[j].0, v));
}

proof fn lemma_to_map_push(s: Seq<Entry>, e: Entry)
    requires
        distinct_tables(s),
        !to_map(s).dom().contains(e.0),
    ensures
        distinct_tables(s.push(e)),
        to_map(s.push(e)) == to_map(s).insert(e.0, e.1),
{
    assert forall|i: int| 0 <= i < s.len() implies s[i].0 != e.0 by {
        lemma_to_map_value(s, i);
    }
    assert(s.push(e).drop_last() =~= s);
}

proof fn lemma_request_count_update(s: Seq<Entry>, j: int, v: Seq<ItemWrite>)
    requires
        0 <= j < s.len(),
    ensures
        request_count(s.update(j, (s[j].0, v))) == request_count(s) - s[j].1.len() + v.len(),
    decreases s.len(),
{
    let t = s.update(j, (s[j].0, v));
    if j < s.len() - 1 {
        assert(t.drop_last() =~= s.drop_last().update(j, (s[j].0, v)));
        lemma_request_count_update(s.drop_last(), j, v);
    } else {
        assert(t.drop_last() =~= s.drop_last());
    }
}

/// The requests of the entries, entry after entry, are as many as the entries count.
pub proof fn lemma_flatten_len(s: Seq<Entry>)
    ensures
        flatten(s).len() == request_count(s),
    decreases s.len(),
{
    if s.len() > 0 {
        lemma_flatten_len(s.drop_last());
    }
}

proof fn lemma_request_count_prefix(s: Seq<Entry>, k: int)
    requires
        0 <= k <= s.len(),
    ensures
        request_count(s.take(k)) <= request_count(s),
    decreases s.len(),
{
    if k < s.len() {
        assert(s.drop_last().take(k) =~= s.take(k));
        lemma_request_count_prefix(s.drop_last(), k);
    } else {
        assert(s.take(k) =~= s);
    }
}

/// The number of requests in the vector of table requests.
fn count_requests(v: &Vec<TableRequests>) -> (n: usize)
    requires
        request_count(entries_of(v@)) <= usize::MAX,
    ensures
        n == request_count(entries_of(v@)),
{
    let mut n: usize = 0;
    let mut i: usize = 0;
    while i < v.len()
        invariant
            i <= v.len(),
            request_count(entries_of(v@)) <= usize::MAX,
            n == request_count(entries_of(v@).take(i as int)),
        decreases v.len() - i,
    {
        proof {
            let s = entries_of(v@);
            assert(s.take(i + 1).drop_last() =~= s.take(i as int));
            lemma_request_count_prefix(s, i + 1);
        }
        n = n + v[i].requests.len();
        i = i + 1;
    }
    assert(entries_of(v@).take(i as int) =~= entries_of(v@));
    n
}

/// The position of `table` among the tables of `items`, if it is there.
fn find_table(items: &Vec<TableRequests>, table: &String) -> (r: Option<usize>)
    ensures
        r matches Some(j) ==> j < items@.len() && items@[j as int].table@ == table@,
        r is None ==> forall|i: int| 0 <= i < items@.len() ==> items@[i].table@ != table@,
{
    let mut j: usize = 0;
    while j < items.len()
        invariant
            j <= items.len(),
            forall|i: int| 0 <= i < j ==> items@[i].table@ != table@,
        decreases items.len() - j,
    {
        if items[j].table == *table {
            return Some(j);
        }
        j = j + 1;
    }
    None
}

/// Adds the requests of one table to a vector of table requests with distinct tables.
fn add_table_requests(items: &mut Vec<TableRequests>, table: String, requests: Vec<ItemWrite>)
    requires
        distinct_tables(entries_of(old(items)@)),
    ensures
        distinct_tables(entries_of(final(items)@)),
        to_map(entries_of(final(items)@)) == add_entry(
            to_map(entries_of(old(items)@)),
            (table@, requests@),
        ),
        request_count(entries_of(final(items)@)) == request_count(entries_of(old(items)@))
            + requests@.len(),
        entries_of(final(items)@) == insert_entry(entries_of(old(items)@), (table@, requests@)),
{
    let ghost s = entries_of(items@);
    let ghost before = items@;
    let found = find_table(items, &table);
    if let Some(j) = found {
        assert(s[j as int].0 == table@);
        let ghost added = requests@;
        let mut requests = requests;
        let mut entry = items.remove(j);
        let ghost old_requests = entry.requests@;
        entry.requests.append(&mut requests);
        let ghost updated = entry;
        items.insert(j, entry);
        proof {
            assert(items@ =~= before.update(j as int, updated));
            assert(entries_of(items@) =~= s.update(j as int, (table@, old_requests + added)));
            lemma_to_map_value(s, j as int);
            lemma_to_map_update(s, j as int, old_requests + added);
            lemma_request_count_update(s, j as int, old_requests + added);
            let jj = choose|jj: int| 0 <= jj < s.len() && s[jj].0 == table@;
            assert(jj == j as int);
        }
    } else {
        proof {
            lemma_to_map_dom(s, table@);
            assert(!exists|jj: int| 0 <= jj < s.len() && s[jj].0 == table@);
        }
        items.push(TableRequests { table, requests });
        proof {
            assert(entries_of(items@) =~= s.push((table@, requests@)));
            lemma_to_map_push(s, (table@, requests@));
            assert(s.push((table@, requests@)).drop_last() =~= s);
        }
    }
}
/// The plain state of an aggregate of batch results.
pub struct AggregateView {
    pub success_count: nat,
    pub unprocessed_count: nat,
    pub error_messages: Seq<Seq<char>>,
    /// The unprocessed requests, by table, each table once.
    pub unprocessed: Seq<Entry>,
    pub retry_success_count: nat,
    pub retry_error_messages: Seq<Seq<char>>,
}

impl AggregateView {
    /// The unprocessed requests as a map from table to requests.
    pub open spec fn unprocessed_map(self) -> Map<Seq<char>, Seq<ItemWrite>> {
        to_map(self.unprocessed)
    }
}

/// Requests of a reply counted as written: a full batch less those it left unprocessed.
pub open spec fn written_of(o: BatchWriteOutput) -> nat {
    (TOTAL_REQUEST_COUNT - request_count(output_entries(o))) as nat
}

/// A reply that leaves at most a full batch unprocessed.
pub open spec fn reply_valid(o: BatchWriteOutput) -> bool {
    request_count(output_entries(o)) <= TOTAL_REQUEST_COUNT
}

/// The aggregate once a reply is taken in with its unprocessed requests kept for retry.
pub open spec fn after_success(v: AggregateView, o: BatchWriteOutput) -> AggregateView {
    AggregateView {
        success_count: v.success_count + written_of(o),
        unprocessed_count: v.unprocessed_count + request_count(output_entries(o)),
        unprocessed: insert_entries(v.unprocessed, output_entries(o)),
        ..v
    }
}

/// The aggregate once a reply is taken in with its unprocessed requests dropped.
pub open spec fn after_output_success(v: AggregateView, o: BatchWriteOutput) -> AggregateView {
    AggregateView { success_count: v.success_count + written_of(o), ..v }
}

/// The aggregate once an error message is recorded.
pub open spec fn after_error(v: AggregateView, m: Seq<char>) -> AggregateView {
    AggregateView { error_messages: v.error_messages.push(m), ..v }
}

/// The aggregate once its unprocessed requests are handed out for retry.
pub open spec fn after_take(v: AggregateView) -> AggregateView {
    AggregateView { unprocessed: Seq::empty(), ..v }
}

/// The aggregate once a retried request succeeded (`None`) or failed with a message.
pub open spec fn after_retry(v: AggregateView, failure: Option<Seq<char>>) -> AggregateView {
    match failure {
        None => AggregateView { retry_success_count: v.retry_success_count + 1, ..v },
        Some(m) => AggregateView { retry_error_messages: v.retry_error_messages.push(m), ..v },
    }
}

/// The aggregate with nothing in it.
pub open spec fn empty_view() -> AggregateView {
    AggregateView {
        success_count: 0,
        unprocessed_count: 0,
        error_messages: Seq::empty(),
        unprocessed: Seq::empty(),
        retry_success_count: 0,
        retry_error_messages: Seq::empty(),
    }
}

/// One call on an aggregate, as plain values.
pub enum AggregateStep {
    /// `add_success` with a reply.
    Success(BatchWriteOutput),
    /// `add_success` with a failed request.
    FailedReply,
    /// `add_output_success`.
    OutputSuccess(BatchWriteOutput),
    /// `add_error`, `add_join_error` or `add_sdk_error`, by the message recorded.
    Error(Seq<char>),
    /// `take_unprocessed_requests`.
    TakeUnprocessed,
    /// `record_retry_result` with a success (`None`) or a failure.
    Retry(Option<Seq<char>>),
}

/// The aggregate after one call.
pub open spec fn apply_step(v: AggregateView, st: AggregateStep) -> AggregateView {
    match st {
        AggregateStep::Success(o) => after_success(v, o),
        AggregateStep::FailedReply => v,
        AggregateStep::OutputSuccess(o) => after_output_success(v, o),
        AggregateStep::Error(m) => after_error(v, m),
        AggregateStep::TakeUnprocessed => after_take(v),
        AggregateStep::Retry(f) => after_retry(v, f),
    }
}

/// The aggregate after the calls `s`, one after the other.
pub open spec fn apply_steps(v: AggregateView, s: Seq<AggregateStep>) -> AggregateView
    decreases s.len(),
{
    if s.len() == 0 {
        v
    } else {
        apply_step(apply_steps(v, s.drop_last()), s.last())
    }
}

/// Every reply among the calls leaves at most a full batch unprocessed.
pub open spec fn steps_valid(s: Seq<AggregateStep>) -> bool {
    forall|i: int|
        0 <= i < s.len() ==> match #[trigger] s[i] {
            AggregateStep::Success(o) => reply_valid(o),
            AggregateStep::OutputSuccess(o) => reply_valid(o),
            _ => true,
        }
}

/// The requests the calls account for: a full batch for each reply kept with
/// `add_success`, and the written ones of replies counted with `add_output_success`.
pub open spec fn accounted(s: Seq<AggregateStep>) -> nat
    decreases s.len(),
{
    if s.len() == 0 {
        0
    } else {
        accounted(s.drop_last()) + match s.last() {
            AggregateStep::Success(o) => TOTAL_REQUEST_COUNT as nat,
            AggregateStep::OutputSuccess(o) => written_of(o),
            _ => 0,
        }
    }
}

/// Whether any of the calls hands the unprocessed requests out.
pub open spec fn takes_unprocessed(s: Seq<AggregateStep>) -> bool {
    exists|i: int| 0 <= i < s.len() && #[trigger] s[i] is TakeUnprocessed
}

proof fn lemma_insert_entries_count(s: Seq<Entry>, es: Seq<Entry>)
    ensures
        request_count(insert_entries(s, es)) == request_count(s) + request_count(es),
    decreases es.len(),
{
    if es.len() > 0 {
        lemma_insert_entries_count(s, es.drop_last());
        let t = insert_entries(s, es.drop_last());
        let e = es.last();
        if exists|j: int| 0 <= j < t.len() && t[j].0 == e.0 {
            let j = choose|j: int| 0 <= j < t.len() && t[j].0 == e.0;
            lemma_request_count_update(t, j, t[j].1 + e.1);
        } else {
            assert(t.push(e).drop_last() =~= t);
        }
    }
}

/// Whatever calls are made on a fresh aggregate, every request it accounts for is counted
/// once: the written ones in the success count, the unprocessed ones kept for retry in the
/// unprocessed count. As long as the unprocessed requests are not handed out, they are
/// exactly as many as the unprocessed count says.
pub proof fn lemma_requests_accounted(s: Seq<AggregateStep>)
    requires
        steps_valid(s),
    ensures
        apply_steps(empty_view(), s).success_count + apply_steps(
            empty_view(),
            s,
        ).unprocessed_count == accounted(s),
        !takes_unprocessed(s) ==> request_count(apply_steps(empty_view(), s).unprocessed)
            == apply_steps(empty_view(), s).unprocessed_count,
    decreases s.len(),
{
    if s.len() > 0 {
        let t = s.drop_last();
        assert(steps_valid(t)) by {
            assert forall|i: int| 0 <= i < t.len() implies match #[trigger] t[i] {
                AggregateStep::Success(o) => reply_valid(o),
                AggregateStep::OutputSuccess(o) => reply_valid(o),
                _ => true,
            } by {
                assert(t[i] == s[i]);
            }
        }
        lemma_requests_accounted(t);
        assert(s[s.len() - 1] == s.last());
        if !takes_unprocessed(s) {
            assert(!takes_unprocessed(t)) by {
                if takes_unprocessed(t) {
                    let i = choose|i: int| 0 <= i < t.len() && #[trigger] t[i] is TakeUnprocessed;
                    assert(s[i] == t[i]);
                }
            }
            assert(!(s[s.len() - 1] is TakeUnprocessed));
        }
        let v = apply_steps(empty_view(), t);
        match s.last() {
            AggregateStep::Success(o) => {
                lemma_insert_entries_count(v.unprocessed, output_entries(o));
            },
            _ => {},
        }
    } else {
        assert(request_count(Seq::<Entry>::empty()) == 0);
    }
}

/// The messages of a vector of strings.
pub open spec fn messages_of(v: Seq<String>) -> Seq<Seq<char>> {
    v.map_values(|s: String| s@)
}

/// The counts and messages that batch writes have produced, and the requests left to retry.
pub struct AggregateResult {
    success_count: usize,
    unprocessed_count: usize,
    error_messages: Vec<String>,
    unprocessed_items: Vec<TableRequests>,
    retry_success_count: usize,
    retry_error_messages: Vec<String>,
}

impl View for AggregateResult {
    type V = AggregateView;

    closed spec fn view(&self) -> AggregateView {
        AggregateView {
            success_count: self.success_count as nat,
            unprocessed_count: self.unprocessed_count as nat,
            error_messages: messages_of(self.error_messages@),
            unprocessed: entries_of(self.unprocessed_items@),
            retry_success_count: self.retry_success_count as nat,
            retry_error_messages: messages_of(self.retry_error_messages@),
        }
    }
}

/// What a final report says of an aggregate.
pub struct FinalReport {
    /// Items written, at once or on retry.
    pub successful_items: usize,
    /// Items left unprocessed, when there are any.
    pub unprocessed_items: Option<usize>,
    /// The error messages, when there are any.
    pub error_messages: Option<Vec<String>>,
}

impl AggregateResult {
    /// Each table occurs once among the unprocessed requests.
    #[verifier::type_invariant]
    closed spec fn inv(self) -> bool {
        distinct_tables(entries_of(self.unprocessed_items@))
    }

    /// An aggregate with no results in it.
    pub fn new() -> (r: Self)
        ensures
            r@ == empty_view(),
    {
        let r = AggregateResult {
            success_count: 0,
            unprocessed_count: 0,
            error_messages: Vec::new(),
            unprocessed_items: Vec::new(),
            retry_success_count: 0,
            retry_error_messages: Vec::new(),
        };
        assert(messages_of(r.error_messages@) =~= Seq::empty());
        assert(messages_of(r.retry_error_messages@) =~= Seq::empty());
        assert(entries_of(r.unprocessed_items@) =~= Seq::empty());
        r
    }

    /// Counts the requests of a successful batch reply: those it leaves unprocessed are
    /// kept for retry (by table, each table extended in place or added at the end), and a
    /// full batch less those is counted as written. A failed reply is ignored.
    pub fn add_success<E>(&mut self, result: Result<BatchWriteOutput, E>)
        requires
            result matches Ok(o) ==> {
                &&& reply_valid(o)
                &&& old(self)@.unprocessed_count + request_count(output_entries(o)) <= usize::MAX
                &&& old(self)@.success_count + written_of(o) <= usize::MAX
            },
        ensures
            match result {
                Ok(o) => {
                    &&& final(self)@ == after_success(old(self)@, o)
                    &&& final(self)@.unprocessed_map() == merge_entries(
                        old(self)@.unprocessed_map(),
                        output_entries(o),
                    )
                },
                Err(_) => final(self)@ == old(self)@,
            },
    {
        proof {
            use_type_invariant(&*self);
        }
        if let Ok(output) = result {
            let mut stored: Vec<TableRequests> = Vec::new();
            std::mem::swap(&mut stored, &mut self.unprocessed_items);
            let mut items = match output.unprocessed_items {
                Some(v) => v,
                None => Vec::new(),
            };
            let ghost orig = items@;
            let ghost s = entries_of(orig);
            assert(s == output_entries(output)) by {
                if output.unprocessed_items is None {
                    assert(entries_of(items@) =~= Seq::<Entry>::empty());
                }
            }
            let unprocessed_count = count_requests(&items);
            let ghost m0 = to_map(entries_of(stored@));
            proof {
                lemma_take_ends(orig);
                lemma_take_ends(s);
            }
            let mut k: usize = 0;
            assert(orig.len() == items.len());
            while items.len() > 0
                invariant
                    k + items@.len() == orig.len(),
                    orig.len() <= usize::MAX,
                    items@ == orig.skip(k as int),
                    s == entries_of(orig),
                    distinct_tables(entries_of(stored@)),
                    to_map(entries_of(stored@)) == merge_entries(m0, s.take(k as int)),
                    entries_of(stored@) == insert_entries(
                        entries_of(old(self).unprocessed_items@),
                        s.take(k as int),
                    ),
                    self.unprocessed_items@.len() == 0,
                    self.success_count == old(self).success_count,
                    self.unprocessed_count == old(self).unprocessed_count,
                    self.error_messages == old(self).error_messages,
                    self.retry_success_count == old(self).retry_success_count,
                    self.retry_error_messages == old(self).retry_error_messages,
                decreases items.len(),
            {
                let ghost before = items@;
                let entry = items.remove(0);
                proof {
                    lemma_take_front(orig, before, items@, k as int);
                    lemma_take_front(s, s.skip(k as int), s.skip(k as int).remove(0), k as int);
                }
                add_table_requests(&mut stored, entry.table, entry.requests);
                k = k + 1;
            }
            proof {
                lemma_take_ends(s);
            }
            std::mem::swap(&mut stored, &mut self.unprocessed_items);
            self.unprocessed_count = self.unprocessed_count + unprocessed_count;
            self.success_count = self.success_count + (TOTAL_REQUEST_COUNT - unprocessed_count);
        }
    }

    /// Counts a full batch less the requests a successful reply leaves unprocessed as
    /// written; the unprocessed ones are neither counted nor kept.
    pub fn add_output_success(&mut self, output: BatchWriteOutput)
        requires
            reply_valid(output),
            old(self)@.success_count + written_of(output) <= usize::MAX,
        ensures
            final(self)@ == after_output_success(old(self)@, output),
    {
        proof {
            use_type_invariant(&*self);
        }
        let unprocessed_count = match &output.unprocessed_items {
            Some(v) => count_requests(v),
            None => 0,
        };
        self.success_count = self.success_count + (TOTAL_REQUEST_COUNT - unprocessed_count);
    }

    /// Records the failure of a task that did not finish, by its message.
    pub fn add_join_error(&mut self, message: String)
        ensures
            final(self)@ == after_error(old(self)@, message@),
    {
        self.push_error(message);
    }

    /// Records an error of the library, by the text it displays.
    pub fn add_error(&mut self, error: Error)
        ensures
            final(self)@ == after_error(old(self)@, unhandled_text()),
    {
        let message = error.display_text();
        self.push_error(message);
    }

    /// Records a failed request to DynamoDB, by its message.
    pub fn add_sdk_error(&mut self, message: String)
        ensures
            final(self)@ == after_error(old(self)@, message@),
    {
        self.push_error(message);
    }

    fn push_error(&mut self, message: String)
        ensures
            final(self)@ == after_error(old(self)@, message@),
    {
        proof {
            use_type_invariant(&*self);
        }
        let mut messages: Vec<String> = Vec::new();
        std::mem::swap(&mut messages, &mut self.error_messages);
        messages.push(message);
        std::mem::swap(&mut messages, &mut self.error_messages);
        assert(messages_of(self.error_messages@) =~= messages_of(old(self).error_messages@).push(
            message@,
        ));
    }

    /// Hands out the unprocessed requests, table after table, to be sent again; none are
    /// kept afterwards.
    pub fn take_unprocessed_requests(&mut self) -> (r: Vec<ItemWrite>)
        ensures
            r@ == flatten(old(self)@.unprocessed),
            r@.len() == request_count(old(self)@.unprocessed),
            final(self)@ == after_take(old(self)@),
    {
        proof {
            use_type_invariant(&*self);
        }
        let mut items: Vec<TableRequests> = Vec::new();
        std::mem::swap(&mut items, &mut self.unprocessed_items);
        let ghost orig = items@;
        let ghost s = entries_of(orig);
        let mut r: Vec<ItemWrite> = Vec::new();
        let mut k: usize = 0;
        proof {
            lemma_take_ends(orig);
            lemma_take_ends(s);
        }
        assert(orig.len() == items.len());
        while items.len() > 0
            invariant
                k + items@.len() == orig.len(),
                orig.len() <= usize::MAX,
                items@ == orig.skip(k as int),
                s == entries_of(orig),
                r@ == flatten(s.take(k as int)),
            decreases items.len(),
        {
            let ghost before = items@;
            let mut entry = items.remove(0);
            proof {
                lemma_take_front(orig, before, items@, k as int);
                lemma_take_front(s, s.skip(k as int), s.skip(k as int).remove(0), k as int);
            }
            r.append(&mut entry.requests);
            k = k + 1;
        }
        proof {
            lemma_take_ends(s);
            lemma_flatten_len(s);
        }
        assert(entries_of(self.unprocessed_items@) =~= Seq::<Entry>::empty());
        r
    }

    /// Records the outcome of one retried request: a success is counted, a failure is
    /// kept by its message. Either way the retried request is accounted for once.
    pub fn record_retry_result<T>(&mut self, result: Result<T, String>)
        requires
            result is Ok ==> old(self)@.retry_success_count < usize::MAX,
        ensures
            final(self)@ == after_retry(
                old(self)@,
                match result {
                    Ok(_) => None,
                    Err(m) => Some(m@),
                },
            ),
            final(self)@.retry_success_count + final(self)@.retry_error_messages.len()
                == old(self)@.retry_success_count + old(self)@.retry_error_messages.len() + 1,
    {
        proof {
            use_type_invariant(&*self);
        }
        match result {
            Ok(_) => {
                self.retry_success_count = self.retry_success_count + 1;
            },
            Err(message) => {
                let mut messages: Vec<String> = Vec::new();
                std::mem::swap(&mut messages, &mut self.retry_error_messages);
                messages.push(message);
                std::mem::swap(&mut messages, &mut self.retry_error_messages);
                assert(messages_of(self.retry_error_messages@) =~= messages_of(
                    old(self).retry_error_messages@,
                ).push(message@));
            },
        }
    }

    /// What the final report shows: the items written at once and on retry, the items
    /// left unprocessed when there are any, and the error messages when there are any.
    pub fn process_final_result(&self) -> (r: FinalReport)
        requires
            self@.success_count + self@.retry_success_count <= usize::MAX,
        ensures
            r.successful_items == self@.success_count + self@.retry_success_count,
            r.unprocessed_items == (if self@.unprocessed_count > 0 {
                Some(self@.unprocessed_count as usize)
            } else {
                None
            }),
            match r.error_messages {
                Some(v) => self@.error_messages.len() > 0 && messages_of(v@)
                    == self@.error_messages,
                None => self@.error_messages.len() == 0,
            },
    {
        let unprocessed_items = if self.unprocessed_count > 0 {
            Some(self.unprocessed_count)
        } else {
            None
        };
        let error_messages = if self.error_messages.len() == 0 {
            None
        } else {
            Some(copy_strings(&self.error_messages))
        };
        FinalReport {
            successful_items: self.success_count + self.retry_success_count,
            unprocessed_items,
            error_messages,
        }
    }

    /// Items written by batches at once.
    pub fn success_count(&self) -> (n: usize)
        ensures
            n == self@.success_count,
    {
        self.success_count
    }

    /// Items that batches left unprocessed.
    pub fn unprocessed_count(&self) -> (n: usize)
        ensures
            n == self@.unprocessed_count,
    {
        self.unprocessed_count
    }

    /// Items written on retry.
    pub fn retry_success_count(&self) -> (n: usize)
        ensures
            n == self@.retry_success_count,
    {
        self.retry_success_count
    }

    /// The error messages recorded for batches.
    pub fn error_messages(&self) -> (v: &Vec<String>)
        ensures
            messages_of(v@) == self@.error_messages,
    {
        &self.error_messages
    }

    /// The error messages recorded for retried requests.
    pub fn retry_error_messages(&self) -> (v: &Vec<String>)
        ensures
            messages_of(v@) == self@.retry_error_messages,
    {
        &self.retry_error_messages
    }
}

/// A copy of a vector of strings.
fn copy_strings(v: &Vec<String>) -> (r: Vec<String>)
    ensures
        messages_of(r@) == messages_of(v@),
{
    let mut r: Vec<String> = Vec::new();
    let mut i: usize = 0;
    while i < v.len()
        invariant
            i <= v.len(),
            messages_of(r@) =~= messages_of(v@.take(i as int)),
        decreases v.len() - i,
    {
        let ghost before = r@;
        let c = v[i].clone();
        r.push(c);
        assert(v@.take(i + 1) =~= v@.take(i as int).push(v@[i as int]));
        assert(messages_of(r@) =~= messages_of(before).push(c@));
        i = i + 1;
    }
    assert(v@.take(i as int) =~= v@);
    r
}

} // verus!
