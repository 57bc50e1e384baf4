//! What holds of the batches that a batch is sent as.
use crate::batch_ids::{
    a_metadata_part_belongs_to_its_batch, a_summary_part_belongs_to_its_batch, logical_id,
};
use crate::records::{
    ProviderAccount, SourceAccountAssignment, SourceLocation, Subscription, UsageSummary,
};
use crate::sync::{
    BatchModel, HTTP_ROLLUP_D1_QUERY_BUDGET, HTTP_ROLLUP_METADATA_RECORDS_PER_BATCH,
    HTTP_ROLLUP_SUMMARIES_PER_BATCH, MetadataKind, at_least_one, chunks_of, coarse_parts, fitted,
    fitted_all, fitted_upto, flat, half, kind_parts, lemma_chunk_sizes, lemma_chunks_flat,
    lemma_metadata_parts, lemma_summary_parts, metadata_parts, query_estimate, sent_as, split_spec,
    splitting_makes_smaller_batches, summary_parts,
};
use vstd::prelude::*;

verus! {

/// The records of one or more batches, events aside.
#[verifier::ext_equal]
pub struct Contents {
    pub sources: Seq<SourceLocation>,
    pub accounts: Seq<ProviderAccount>,
    pub assignments: Seq<SourceAccountAssignment>,
    pub subscriptions: Seq<Subscription>,
    pub summaries: Seq<UsageSummary>,
}

impl Contents {
    pub open spec fn nothing() -> Contents {
        Contents {
            sources: Seq::empty(),
            accounts: Seq::empty(),
            assignments: Seq::empty(),
            subscriptions: Seq::empty(),
            summaries: Seq::empty(),
        }
    }

    pub open spec fn of(m: BatchModel) -> Contents {
        Contents {
            sources: m.sources,
            accounts: m.accounts,
            assignments: m.assignments,
            subscriptions: m.subscriptions,
            summaries: m.summaries,
        }
    }

    /// These records followed by those.
    pub open spec fn then_all(self, o: Contents) -> Contents {
        Contents {
            sources: self.sources + o.sources,
            accounts: self.accounts + o.accounts,
            assignments: self.assignments + o.assignments,
            subscriptions: self.subscriptions + o.subscriptions,
            summaries: self.summaries + o.summaries,
        }
    }
}

/// The records of the batches, one batch after the other.
pub open spec fn gathered(parts: Seq<BatchModel>) -> Contents
    decreases parts.len(),
{
    if parts.len() == 0 {
        Contents::nothing()
    } else {
        Contents::of(parts[0]).then_all(gathered(parts.skip(1)))
    }
}

proof fn lemma_then_all(a: Contents, b: Contents, c: Contents)
    ensures
        a.then_all(b).then_all(c) == a.then_all(b.then_all(c)),
        Contents::nothing().then_all(a) == a,
        a.then_all(Contents::nothing()) == a,
{
    assert(a.then_all(b).then_all(c) =~= a.then_all(b.then_all(c)));
    assert(Contents::nothing().then_all(a) =~= a);
    assert(a.then_all(Contents::nothing()) =~= a);
}

pub proof fn lemma_gathered_concat(a: Seq<BatchModel>, b: Seq<BatchModel>)
    ensures
        gathered(a + b) == gathered(a).then_all(gathered(b)),
    decreases a.len(),
{
    if a.len() == 0 {
        assert(a + b =~= b);
        lemma_then_all(gathered(b), gathered(b), gathered(b));
    } else {
        assert((a + b).skip(1) =~= a.skip(1) + b);
        lemma_gathered_concat(a.skip(1), b);
        lemma_then_all(Contents::of(a[0]), gathered(a.skip(1)), gathered(b));
    }
}

pub proof fn lemma_gathered_one(m: BatchModel)
    ensures
        gathered(seq![m]) == Contents::of(m),
{
    assert(seq![m].skip(1) =~= Seq::empty());
    lemma_then_all(Contents::of(m), Contents::of(m), Contents::of(m));
    reveal_with_fuel(gathered, 2);
}

proof fn lemma_gathered_sources(parts: Seq<BatchModel>, c: Seq<Seq<SourceLocation>>)
    requires
        parts.len() == c.len(),
        forall|i: int|
            0 <= i < parts.len() ==> Contents::of(#[trigger] parts[i]) == (Contents {
                sources: c[i],
                ..Contents::nothing()
            }),
    ensures
        gathered(parts) == (Contents { sources: flat(c), ..Contents::nothing() }),
    decreases parts.len(),
{
    if parts.len() > 0 {
        assert forall|i: int| 0 <= i < parts.skip(1).len() implies Contents::of(
            #[trigger] parts.skip(1)[i],
        ) == (Contents { sources: c.skip(1)[i], ..Contents::nothing() }) by {
            assert(parts.skip(1)[i] == parts[i + 1]);
        }
        lemma_gathered_sources(parts.skip(1), c.skip(1));
    }
    assert(gathered(parts) =~= (Contents { sources: flat(c), ..Contents::nothing() }));
}

proof fn lemma_gathered_accounts(parts: Seq<BatchModel>, c: Seq<Seq<ProviderAccount>>)
    requires
        parts.len() == c.len(),
        forall|i: int|
            0 <= i < parts.len() ==> Contents::of(#[trigger] parts[i]) == (Contents {
                accounts: c[i],
                ..Contents::nothing()
            }),
    ensures
        gathered(parts) == (Contents { accounts: flat(c), ..Contents::nothing() }),
    decreases parts.len(),
{
    if parts.len() > 0 {
        assert forall|i: int| 0 <= i < parts.skip(1).len() implies Contents::of(
            #[trigger] parts.skip(1)[i],
        ) == (Contents { accounts: c.skip(1)[i], ..Contents::nothing() }) by {
            assert(parts.skip(1)[i] == parts[i + 1]);
        }
        lemma_gathered_accounts(parts.skip(1), c.skip(1));
    }
    assert(gathered(parts) =~= (Contents { accounts: flat(c), ..Contents::nothing() }));
}

proof fn lemma_gathered_assignments(
    parts: Seq<BatchModel>,
    c: Seq<Seq<SourceAccountAssignment>>,
)
    requires
        parts.len() == c.len(),
        forall|i: int|
            0 <= i < parts.len() ==> Contents::of(#[trigger] parts[i]) == (Contents {
                assignments: c[i],
                ..Contents::nothing()
            }),
    ensures
        gathered(parts) == (Contents { assignments: flat(c), ..Contents::nothing() }),
    decreases parts.len(),
{
    if parts.len() > 0 {
        assert forall|i: int| 0 <= i < parts.skip(1).len() implies Contents::of(
            #[trigger] parts.skip(1)[i],
        ) == (Contents { assignments: c.skip(1)[i], ..Contents::nothing() }) by {
            assert(parts.skip(1)[i] == parts[i + 1]);
        }
        lemma_gathered_assignments(parts.skip(1), c.skip(1));
    }
    assert(gathered(parts) =~= (Contents { assignments: flat(c), ..Contents::nothing() }));
}

proof fn lemma_gathered_subscriptions(parts: Seq<BatchModel>, c: Seq<Seq<Subscription>>)
    requires
        parts.len() == c.len(),
        forall|i: int|
            0 <= i < parts.len() ==> Contents::of(#[trigger] parts[i]) == (Contents {
                subscriptions: c[i],
                ..Contents::nothing()
            }),
    ensures
        gathered(parts) == (Contents { subscriptions: flat(c), ..Contents::nothing() }),
    decreases parts.len(),
{
    if parts.len() > 0 {
        assert forall|i: int| 0 <= i < parts.skip(1).len() implies Contents::of(
            #[trigger] parts.skip(1)[i],
        ) == (Contents { subscriptions: c.skip(1)[i], ..Contents::nothing() }) by {
            assert(parts.skip(1)[i] == parts[i + 1]);
        }
        lemma_gathered_subscriptions(parts.skip(1), c.skip(1));
    }
    assert(gathered(parts) =~= (Contents { subscriptions: flat(c), ..Contents::nothing() }));
}

proof fn lemma_gathered_summaries(parts: Seq<BatchModel>, c: Seq<Seq<UsageSummary>>)
    requires
        parts.len() == c.len(),
        forall|i: int|
            0 <= i < parts.len() ==> Contents::of(#[trigger] parts[i]) == (Contents {
                summaries: c[i],
                ..Contents::nothing()
            }),
    ensures
        gathered(parts) == (Contents { summaries: flat(c), ..Contents::nothing() }),
    decreases parts.len(),
{
    if parts.len() > 0 {
        assert forall|i: int| 0 <= i < parts.skip(1).len() implies Contents::of(
            #[trigger] parts.skip(1)[i],
        ) == (Contents { summaries: c.skip(1)[i], ..Contents::nothing() }) by {
            assert(parts.skip(1)[i] == parts[i + 1]);
        }
        lemma_gathered_summaries(parts.skip(1), c.skip(1));
    }
    assert(gathered(parts) =~= (Contents { summaries: flat(c), ..Contents::nothing() }));
}

proof fn lemma_metadata_parts_gathered(m: BatchModel, size: int)
    ensures
        gathered(metadata_parts(m, size)) == (Contents {
            summaries: Seq::empty(),
            ..Contents::of(m)
        }),
{
    let n = at_least_one(size);
    let a = kind_parts(m, MetadataKind::Sources, n);
    let b = kind_parts(m, MetadataKind::Accounts, n);
    let c = kind_parts(m, MetadataKind::Assignments, n);
    let d = kind_parts(m, MetadataKind::Subscriptions, n);
    lemma_chunks_flat(m.sources, n);
    lemma_chunks_flat(m.accounts, n);
    lemma_chunks_flat(m.assignments, n);
    lemma_chunks_flat(m.subscriptions, n);
    lemma_gathered_sources(a, chunks_of(m.sources, n));
    lemma_gathered_accounts(b, chunks_of(m.accounts, n));
    lemma_gathered_assignments(c, chunks_of(m.assignments, n));
    lemma_gathered_subscriptions(d, chunks_of(m.subscriptions, n));
    lemma_gathered_concat(a, b);
    lemma_gathered_concat(a + b, c);
    lemma_gathered_concat(a + b + c, d);
    assert(gathered(metadata_parts(m, size)) =~= (Contents {
        summaries: Seq::empty(),
        ..Contents::of(m)
    }));
}

proof fn lemma_summary_parts_gathered(m: BatchModel, size: int)
    ensures
        gathered(summary_parts(m, size)) == (Contents {
            summaries: m.summaries,
            ..Contents::nothing()
        }),
{
    let n = at_least_one(size);
    lemma_chunks_flat(m.summaries, n);
    lemma_gathered_summaries(summary_parts(m, size), chunks_of(m.summaries, n));
}

/// Splitting a batch after the server found it too expensive loses no record,
/// repeats none and keeps their order; events are not part of such batches.
pub proof fn splitting_keeps_every_record(m: BatchModel)
    ensures
        gathered(split_spec(m)) == Contents::of(m),
{
    if m.metadata() > 0 && m.summaries.len() > 0 {
        let size = HTTP_ROLLUP_METADATA_RECORDS_PER_BATCH as int;
        lemma_metadata_parts_gathered(m, size);
        lemma_summary_parts_gathered(m, m.summaries.len() as int);
        lemma_gathered_concat(
            metadata_parts(m, size),
            summary_parts(m, m.summaries.len() as int),
        );
    } else if m.summaries.len() > 1 {
        lemma_summary_parts_gathered(m, half(m.summaries.len() as int));
    } else if m.sources.len() > 1 {
        lemma_metadata_parts_gathered(m, half(m.sources.len() as int));
    } else if m.accounts.len() > 1 {
        lemma_metadata_parts_gathered(m, half(m.accounts.len() as int));
    } else if m.assignments.len() > 1 {
        lemma_metadata_parts_gathered(m, half(m.assignments.len() as int));
    } else if m.subscriptions.len() > 1 {
        lemma_metadata_parts_gathered(m, half(m.subscriptions.len() as int));
    } else {
        lemma_gathered_one(m);
    }
    assert(gathered(split_spec(m)) =~= Contents::of(m));
}

proof fn lemma_fitted_keeps(m: BatchModel)
    ensures
        gathered(fitted(m)) == Contents::of(m),
    decreases m.size(), 1int, 0int,
{
    if query_estimate(m) <= HTTP_ROLLUP_D1_QUERY_BUDGET || split_spec(m).len() <= 1 {
        lemma_gathered_one(m);
    } else {
        let parts = split_spec(m);
        assert forall|i: int| 0 <= i < parts.len() implies (#[trigger] parts[i]).size()
            < m.size() by {
            splitting_makes_smaller_batches(m, i);
        }
        lemma_fitted_upto_keeps(m.size(), parts, parts.len() as int);
        splitting_keeps_every_record(m);
        assert(parts.take(parts.len() as int) =~= parts);
    }
}

proof fn lemma_fitted_upto_keeps(bound: nat, parts: Seq<BatchModel>, n: int)
    requires
        0 <= n <= parts.len(),
        forall|i: int| 0 <= i < parts.len() ==> (#[trigger] parts[i]).size() < bound,
    ensures
        gathered(fitted_upto(bound, parts, n)) == gathered(parts.take(n)),
    decreases bound, 0int, n,
{
    if n > 0 {
        lemma_fitted_upto_keeps(bound, parts, n - 1);
        lemma_fitted_keeps(parts[n - 1]);
        lemma_gathered_concat(fitted_upto(bound, parts, n - 1), fitted(parts[n - 1]));
        assert(parts.take(n) =~= parts.take(n - 1) + seq![parts[n - 1]]);
        lemma_gathered_concat(parts.take(n - 1), seq![parts[n - 1]]);
        lemma_gathered_one(parts[n - 1]);
    }
}

proof fn lemma_fitted_all_keeps(parts: Seq<BatchModel>, n: int)
    requires
        0 <= n <= parts.len(),
    ensures
        gathered(fitted_all(parts, n)) == gathered(parts.take(n)),
    decreases n,
{
    if n > 0 {
        lemma_fitted_all_keeps(parts, n - 1);
        lemma_fitted_keeps(parts[n - 1]);
        lemma_gathered_concat(fitted_all(parts, n - 1), fitted(parts[n - 1]));
        assert(parts.take(n) =~= parts.take(n - 1) + seq![parts[n - 1]]);
        lemma_gathered_concat(parts.take(n - 1), seq![parts[n - 1]]);
        lemma_gathered_one(parts[n - 1]);
    } else {
        assert(parts.take(0) =~= Seq::empty());
    }
}

/// The batches that a batch is sent as hold its sources, accounts, assignments,
/// subscriptions and summaries, each once and in order.
pub proof fn sending_keeps_every_record(m: BatchModel)
    ensures
        gathered(sent_as(m)) == Contents::of(m),
{
    let parts = coarse_parts(m);
    lemma_fitted_all_keeps(parts, parts.len() as int);
    assert(parts.take(parts.len() as int) =~= parts);
    if m.summaries.len() <= HTTP_ROLLUP_SUMMARIES_PER_BATCH && m.metadata()
        <= HTTP_ROLLUP_METADATA_RECORDS_PER_BATCH {
        lemma_gathered_one(m);
    } else {
        let a = HTTP_ROLLUP_METADATA_RECORDS_PER_BATCH as int;
        let b = HTTP_ROLLUP_SUMMARIES_PER_BATCH as int;
        lemma_metadata_parts_gathered(m, a);
        lemma_summary_parts_gathered(m, b);
        lemma_gathered_concat(metadata_parts(m, a), summary_parts(m, b));
        assert(gathered(parts) =~= Contents::of(m));
    }
}

/// Whether a batch has at most twenty-five summaries and twenty other records.
pub open spec fn small(m: BatchModel) -> bool {
    &&& m.summaries.len() <= HTTP_ROLLUP_SUMMARIES_PER_BATCH
    &&& m.metadata() <= HTTP_ROLLUP_METADATA_RECORDS_PER_BATCH
}

/// Whether a batch is within the budget, or cannot be split.
pub open spec fn affordable(m: BatchModel) -> bool {
    query_estimate(m) <= HTTP_ROLLUP_D1_QUERY_BUDGET || split_spec(m).len() <= 1
}

/// Whether a batch is sent for `m`: recognised by its identifier, of the same
/// device, form and time, and without events unless it is `m` itself.
pub open spec fn part_of(p: BatchModel, m: BatchModel) -> bool {
    &&& logical_id(p.batch_id) == logical_id(m.batch_id)
    &&& p.device_id == m.device_id
    &&& p.schema_version == m.schema_version
    &&& p.created_at == m.created_at
    &&& p.events.len() == 0 || p == m
}

/// What holds of each batch that a batch is sent as.
pub open spec fn acceptable(p: BatchModel, m: BatchModel) -> bool {
    &&& small(p)
    &&& affordable(p)
    &&& part_of(p, m)
}

proof fn lemma_fitted_acceptable(m: BatchModel, whole: BatchModel, i: int)
    requires
        small(m),
        m.countable(),
        part_of(m, whole),
        0 <= i < fitted(m).len(),
    ensures
        acceptable(fitted(m)[i], whole),
    decreases m.size(), 1int, 0int,
{
    if query_estimate(m) <= HTTP_ROLLUP_D1_QUERY_BUDGET || split_spec(m).len() <= 1 {
    } else {
        let parts = split_spec(m);
        assert forall|k: int| 0 <= k < parts.len() implies (#[trigger] parts[k]).size() < m.size()
            && small(parts[k]) && parts[k].countable() && part_of(parts[k], whole) by {
            splitting_makes_smaller_batches(m, k);
            lemma_split_id(m, k);
        }
        lemma_fitted_upto_acceptable(m.size(), parts, parts.len() as int, whole, i);
    }
}

proof fn lemma_fitted_upto_acceptable(
    bound: nat,
    parts: Seq<BatchModel>,
    n: int,
    whole: BatchModel,
    i: int,
)
    requires
        0 <= n <= parts.len(),
        forall|k: int|
            0 <= k < parts.len() ==> (#[trigger] parts[k]).size() < bound && small(parts[k])
                && parts[k].countable() && part_of(parts[k], whole),
        0 <= i < fitted_upto(bound, parts, n).len(),
    ensures
        acceptable(fitted_upto(bound, parts, n)[i], whole),
    decreases bound, 0int, n,
{
    if n > 0 {
        let before = fitted_upto(bound, parts, n - 1);
        if i < before.len() {
            lemma_fitted_upto_acceptable(bound, parts, n - 1, whole, i);
        } else {
            lemma_fitted_acceptable(parts[n - 1], whole, i - before.len());
        }
    }
}

proof fn lemma_kind_part_id(m: BatchModel, kind: MetadataKind, size: int, i: int)
    requires
        size > 0,
        m.countable(),
        0 <= i < kind_parts(m, kind, size).len(),
    ensures
        part_of(kind_parts(m, kind, size)[i], m),
{
    match kind {
        MetadataKind::Sources => lemma_chunk_sizes(m.sources, size, i),
        MetadataKind::Accounts => lemma_chunk_sizes(m.accounts, size, i),
        MetadataKind::Assignments => lemma_chunk_sizes(m.assignments, size, i),
        MetadataKind::Subscriptions => lemma_chunk_sizes(m.subscriptions, size, i),
    }
    a_metadata_part_belongs_to_its_batch(m.batch_id, kind, (i + 1) as nat);
}

proof fn lemma_metadata_part_id(m: BatchModel, size: int, i: int)
    requires
        m.countable(),
        0 <= i < metadata_parts(m, size).len(),
    ensures
        part_of(metadata_parts(m, size)[i], m),
{
    let n = at_least_one(size);
    let a = kind_parts(m, MetadataKind::Sources, n);
    let b = kind_parts(m, MetadataKind::Accounts, n);
    let c = kind_parts(m, MetadataKind::Assignments, n);
    let d = kind_parts(m, MetadataKind::Subscriptions, n);
    let all = metadata_parts(m, size);
    if i < a.len() {
        assert(all[i] == a[i]);
        lemma_kind_part_id(m, MetadataKind::Sources, n, i);
    } else if i < a.len() + b.len() {
        assert(all[i] == b[i - a.len()]);
        lemma_kind_part_id(m, MetadataKind::Accounts, n, i - a.len());
    } else if i < a.len() + b.len() + c.len() {
        assert(all[i] == c[i - a.len() - b.len()]);
        lemma_kind_part_id(m, MetadataKind::Assignments, n, i - a.len() - b.len());
    } else {
        assert(all[i] == d[i - a.len() - b.len() - c.len()]);
        lemma_kind_part_id(m, MetadataKind::Subscriptions, n, i - a.len() - b.len() - c.len());
    }
}

proof fn lemma_chunk_count<T>(s: Seq<T>, size: int)
    requires
        size > 0,
    ensures
        chunks_of(s, size).len() <= s.len(),
    decreases s.len(),
{
    if s.len() > size {
        lemma_chunk_count(s.skip(size), size);
    }
}

proof fn lemma_summary_part_id(m: BatchModel, size: int, i: int)
    requires
        m.countable(),
        0 <= i < summary_parts(m, size).len(),
    ensures
        part_of(summary_parts(m, size)[i], m),
{
    let n = at_least_one(size);
    lemma_chunk_sizes(m.summaries, n, i);
    lemma_chunk_count(m.summaries, n);
    a_summary_part_belongs_to_its_batch(
        m.batch_id,
        (i + 1) as nat,
        chunks_of(m.summaries, n).len(),
    );
}

proof fn lemma_split_id(m: BatchModel, i: int)
    requires
        m.countable(),
        split_spec(m).len() > 1,
        0 <= i < split_spec(m).len(),
    ensures
        part_of(split_spec(m)[i], m),
{
    let parts = split_spec(m);
    if m.metadata() > 0 && m.summaries.len() > 0 {
        let size = HTTP_ROLLUP_METADATA_RECORDS_PER_BATCH as int;
        let a = metadata_parts(m, size);
        let b = summary_parts(m, m.summaries.len() as int);
        if i < a.len() {
            assert(parts[i] == a[i]);
            lemma_metadata_part_id(m, size, i);
        } else {
            assert(parts[i] == b[i - a.len()]);
            lemma_summary_part_id(m, m.summaries.len() as int, i - a.len());
        }
    } else if m.summaries.len() > 1 {
        lemma_summary_part_id(m, half(m.summaries.len() as int), i);
    } else if m.sources.len() > 1 {
        lemma_metadata_part_id(m, half(m.sources.len() as int), i);
    } else if m.accounts.len() > 1 {
        lemma_metadata_part_id(m, half(m.accounts.len() as int), i);
    } else if m.assignments.len() > 1 {
        lemma_metadata_part_id(m, half(m.assignments.len() as int), i);
    } else {
        lemma_metadata_part_id(m, half(m.subscriptions.len() as int), i);
    }
}

proof fn lemma_fitted_all_acceptable(
    parts: Seq<BatchModel>,
    n: int,
    whole: BatchModel,
    i: int,
)
    requires
        0 <= n <= parts.len(),
        forall|k: int|
            0 <= k < parts.len() ==> small(#[trigger] parts[k]) && parts[k].countable()
                && part_of(parts[k], whole),
        0 <= i < fitted_all(parts, n).len(),
    ensures
        acceptable(fitted_all(parts, n)[i], whole),
    decreases n,
{
    if n > 0 {
        let before = fitted_all(parts, n - 1);
        if i < before.len() {
            lemma_fitted_all_acceptable(parts, n - 1, whole, i);
        } else {
            lemma_fitted_acceptable(parts[n - 1], whole, i - before.len());
        }
    }
}

/// Each batch that a batch is sent as has at most twenty-five summaries and
/// twenty other records, is within the server's budget unless it cannot be split,
/// and is recognised as a part of the batch by its identifier. It is of the same
/// device, and holds events only where it is the whole batch.
pub proof fn every_sent_batch_is_acceptable(m: BatchModel, i: int)
    requires
        m.countable(),
        0 <= i < sent_as(m).len(),
    ensures
        acceptable(sent_as(m)[i], m),
{
    let parts = coarse_parts(m);
    if !(m.summaries.len() <= HTTP_ROLLUP_SUMMARIES_PER_BATCH && m.metadata()
        <= HTTP_ROLLUP_METADATA_RECORDS_PER_BATCH) {
        let a = HTTP_ROLLUP_METADATA_RECORDS_PER_BATCH as int;
        let b = HTTP_ROLLUP_SUMMARIES_PER_BATCH as int;
        let x = metadata_parts(m, a);
        let y = summary_parts(m, b);
        assert forall|k: int| 0 <= k < parts.len() implies small(#[trigger] parts[k])
            && parts[k].countable() && part_of(parts[k], m) by {
            if k < x.len() {
                assert(parts[k] == x[k]);
                lemma_metadata_parts(m, a, k);
                lemma_metadata_part_id(m, a, k);
            } else {
                assert(parts[k] == y[k - x.len()]);
                lemma_summary_parts(m, b, k - x.len());
                lemma_summary_part_id(m, b, k - x.len());
            }
        }
    }
    lemma_fitted_all_acceptable(parts, parts.len() as int, m, i);
}

} // verus!
