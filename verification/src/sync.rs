//! Sync batches: what leaves the device, and how a batch is split so that the
//! server accepts each part.
use crate::calendar::civil;
use crate::records::{
    ProviderAccount, SourceAccountAssignment, SourceLocation, Subscription, UsageEvent,
    UsageSummary,
};
use crate::sorted::{insert_text, texts_increase};
use crate::text::{
    concat2, concat3, decimal, decimal_text, lemma_text_lt_irreflexive, opt_text, text_lt, texts,
    trim, trimmed,
};
use crate::time::{Timestamp, civil_of, zero_padded, zero_padded_text};
use vstd::prelude::*;

verus! {

pub const SYNC_BATCH_SCHEMA_VERSION: &'static str = "sync_batch.v5";

pub const HTTP_ROLLUP_SUMMARIES_PER_BATCH: usize = 25;

pub const HTTP_ROLLUP_METADATA_RECORDS_PER_BATCH: usize = 20;

/// How many queries of its database the server grants to a batch.
pub const HTTP_ROLLUP_D1_QUERY_BUDGET: usize = 45;

pub const HTTP_ROLLUP_D1_QUERY_CHUNK_SIZE: usize = 90;

pub const HTTP_ROLLUP_DAILY_ROLLUP_ROWS_PER_QUERY: usize = 7;

/// The format of a summary that adds up a day.
pub const DAILY_ROLLUP_FORMAT: &'static str = "daily_rollup.v1";

#[derive(Debug, PartialEq, Eq)]
pub struct SyncBatch {
    pub schema_version: String,
    pub batch_id: String,
    pub device_id: String,
    pub sources: Vec<SourceLocation>,
    pub accounts: Vec<ProviderAccount>,
    pub source_account_assignments: Vec<SourceAccountAssignment>,
    pub subscriptions: Vec<Subscription>,
    pub events: Vec<UsageEvent>,
    pub summaries: Vec<UsageSummary>,
    pub created_at: Timestamp,
}

/// A batch as a value.
#[verifier::ext_equal]
pub struct BatchModel {
    pub schema_version: Seq<char>,
    pub batch_id: Seq<char>,
    pub device_id: Seq<char>,
    pub sources: Seq<SourceLocation>,
    pub accounts: Seq<ProviderAccount>,
    pub assignments: Seq<SourceAccountAssignment>,
    pub subscriptions: Seq<Subscription>,
    pub events: Seq<UsageEvent>,
    pub summaries: Seq<UsageSummary>,
    pub created_at: Timestamp,
}

impl SyncBatch {
    pub open spec fn model(self) -> BatchModel {
        BatchModel {
            schema_version: self.schema_version@,
            batch_id: self.batch_id@,
            device_id: self.device_id@,
            sources: self.sources@,
            accounts: self.accounts@,
            assignments: self.source_account_assignments@,
            subscriptions: self.subscriptions@,
            events: self.events@,
            summaries: self.summaries@,
            created_at: self.created_at,
        }
    }
}

pub open spec fn batch_models(v: Seq<SyncBatch>) -> Seq<BatchModel> {
    v.map_values(|b: SyncBatch| b.model())
}

impl BatchModel {
    /// How many records other than usage the batch holds.
    pub open spec fn metadata(self) -> nat {
        self.sources.len() + self.accounts.len() + self.assignments.len() + self.subscriptions.len()
    }

    /// How many records the batch holds, events aside.
    pub open spec fn size(self) -> nat {
        self.metadata() + self.summaries.len()
    }

    /// Whether the batch's records can be counted several times over.
    pub open spec fn countable(self) -> bool {
        8 * self.size() + 16 <= usize::MAX
    }

    /// The batch without its records, under another identifier.
    pub open spec fn emptied(self, id: Seq<char>) -> BatchModel {
        BatchModel {
            batch_id: id,
            sources: Seq::empty(),
            accounts: Seq::empty(),
            assignments: Seq::empty(),
            subscriptions: Seq::empty(),
            events: Seq::empty(),
            summaries: Seq::empty(),
            ..self
        }
    }
}

// ---------------------------------------------------------------------------
// Copies and chunks
// ---------------------------------------------------------------------------

/// A record of which a copy is the same record.
pub trait Copied: Sized {
    fn copied(&self) -> (r: Self)
        ensures
            r == *self,
    ;
}

impl Copied for SourceLocation {
    fn copied(&self) -> (r: Self) {
        self.clone()
    }
}

impl Copied for ProviderAccount {
    fn copied(&self) -> (r: Self) {
        self.clone()
    }
}

impl Copied for SourceAccountAssignment {
    fn copied(&self) -> (r: Self) {
        self.clone()
    }
}

impl Copied for Subscription {
    fn copied(&self) -> (r: Self) {
        self.clone()
    }
}

impl Copied for UsageEvent {
    fn copied(&self) -> (r: Self) {
        self.clone()
    }
}

impl Copied for UsageSummary {
    fn copied(&self) -> (r: Self) {
        self.clone()
    }
}

/// Copies of the records from `lo` up to `hi`.
pub fn copy_between<T: Copied>(v: &[T], lo: usize, hi: usize) -> (r: Vec<T>)
    requires
        lo <= hi <= v@.len(),
    ensures
        r@ == v@.subrange(lo as int, hi as int),
{
    let mut out: Vec<T> = Vec::new();
    let mut i: usize = lo;
    while i < hi
        invariant
            lo <= i <= hi <= v@.len(),
            out@ == v@.subrange(lo as int, i as int),
        decreases hi - i,
    {
        out.push(v[i].copied());
        i = i + 1;
        proof {
            assert(v@.subrange(lo as int, i as int) =~= v@.subrange(lo as int, i - 1).push(
                v@[i - 1],
            ));
        }
    }
    out
}

/// Copies of all records.
pub fn copy_all<T: Copied>(v: &[T]) -> (r: Vec<T>)
    ensures
        r@ == v@,
{
    proof {
        assert(v@.subrange(0, v@.len() as int) =~= v@);
    }
    copy_between(v, 0, v.len())
}

impl Clone for SyncBatch {
    fn clone(&self) -> (r: Self)
        ensures
            r.model() == self.model(),
    {
        SyncBatch {
            schema_version: self.schema_version.clone(),
            batch_id: self.batch_id.clone(),
            device_id: self.device_id.clone(),
            sources: copy_all(&self.sources),
            accounts: copy_all(&self.accounts),
            source_account_assignments: copy_all(&self.source_account_assignments),
            subscriptions: copy_all(&self.subscriptions),
            events: copy_all(&self.events),
            summaries: copy_all(&self.summaries),
            created_at: self.created_at,
        }
    }
}

/// The records in chunks of `size`, the last one as large as is left.
pub open spec fn chunks_of<T>(s: Seq<T>, size: int) -> Seq<Seq<T>>
    decreases s.len(),
{
    if s.len() == 0 || size <= 0 {
        Seq::empty()
    } else if s.len() <= size {
        seq![s]
    } else {
        seq![s.take(size)] + chunks_of(s.skip(size), size)
    }
}

/// A size of at least one.
pub open spec fn at_least_one(n: int) -> int {
    if n <= 0 {
        1
    } else {
        n
    }
}

pub proof fn lemma_chunk_sizes<T>(s: Seq<T>, size: int, i: int)
    requires
        size > 0,
        0 <= i < chunks_of(s, size).len(),
    ensures
        0 < chunks_of(s, size)[i].len() <= size,
        chunks_of(s, size)[i].len() <= s.len(),
        i < s.len(),
    decreases s.len(),
{
    if s.len() > size {
        if i > 0 {
            lemma_chunk_sizes(s.skip(size), size, i - 1);
            assert(chunks_of(s, size)[i] == chunks_of(s.skip(size), size)[i - 1]);
        }
    }
}

/// All chunks one after the other.
pub open spec fn flat<T>(chunks: Seq<Seq<T>>) -> Seq<T>
    decreases chunks.len(),
{
    if chunks.len() == 0 {
        Seq::empty()
    } else {
        chunks[0] + flat(chunks.skip(1))
    }
}

pub proof fn lemma_chunks_flat<T>(s: Seq<T>, size: int)
    requires
        size > 0,
    ensures
        flat(chunks_of(s, size)) == s,
    decreases s.len(),
{
    if s.len() == 0 {
        assert(flat(chunks_of(s, size)) =~= s);
    } else if s.len() <= size {
        let c = chunks_of(s, size);
        assert(c.skip(1) =~= Seq::empty());
        assert(flat(c.skip(1)) =~= Seq::<T>::empty());
        assert(flat(c) =~= s);
    } else {
        let c = chunks_of(s, size);
        lemma_chunks_flat(s.skip(size), size);
        assert(c.skip(1) =~= chunks_of(s.skip(size), size));
        assert(s.take(size) + s.skip(size) =~= s);
    }
}

fn chunk_list<T: Copied>(v: &[T], size: usize) -> (r: Vec<Vec<T>>)
    requires
        size > 0,
    ensures
        r@.len() == chunks_of(v@, size as int).len(),
        forall|i: int|
            0 <= i < r@.len() ==> (#[trigger] r@[i])@ == chunks_of(v@, size as int)[i],
{
    let mut out: Vec<Vec<T>> = Vec::new();
    let mut lo: usize = 0;
    let ghost all = chunks_of(v@, size as int);
    proof {
        assert(v@.skip(0) =~= v@);
        assert(all.skip(0) =~= all);
    }
    while lo < v.len()
        invariant
            size > 0,
            all == chunks_of(v@, size as int),
            lo <= v@.len(),
            out@.len() <= all.len(),
            all.skip(out@.len() as int) == chunks_of(v@.skip(lo as int), size as int),
            forall|i: int| 0 <= i < out@.len() ==> (#[trigger] out@[i])@ == all[i],
        decreases v.len() - lo,
    {
        let hi: usize = if v.len() - lo <= size { v.len() } else { lo + size };
        let chunk = copy_between(v, lo, hi);
        let ghost rest = v@.skip(lo as int);
        let ghost n = out@.len() as int;
        proof {
            let c = chunks_of(rest, size as int);
            assert(c.len() > 0);
            assert(all.skip(n)[0] == all[n]);
            if rest.len() <= size {
                assert(rest =~= v@.subrange(lo as int, hi as int));
                assert(c[0] == rest);
                assert(all.skip(n + 1) =~= Seq::empty());
                assert(v@.skip(hi as int).len() == 0);
            } else {
                assert(rest.take(size as int) =~= v@.subrange(lo as int, hi as int));
                assert(c[0] == rest.take(size as int));
                assert(rest.skip(size as int) =~= v@.skip(hi as int));
                assert(all.skip(n + 1) =~= c.skip(1));
                assert(c.skip(1) =~= chunks_of(rest.skip(size as int), size as int));
            }
        }
        out.push(chunk);
        lo = hi;
    }
    out
}

// ---------------------------------------------------------------------------
// Splitting
// ---------------------------------------------------------------------------

/// The kinds of records other than usage.
#[derive(Debug, Clone, Copy, PartialEq, Eq, Structural)]
pub enum MetadataKind {
    Sources,
    Accounts,
    Assignments,
    Subscriptions,
}

impl MetadataKind {
    /// What marks a part of this kind in its batch's identifier.
    pub open spec fn marker_spec(self) -> Seq<char> {
        match self {
            MetadataKind::Sources => "_sources_"@,
            MetadataKind::Accounts => "_accounts_"@,
            MetadataKind::Assignments => "_assignments_"@,
            MetadataKind::Subscriptions => "_subscriptions_"@,
        }
    }

    fn marker(self) -> (r: &'static str)
        ensures
            r@ == self.marker_spec(),
    {
        match self {
            MetadataKind::Sources => "_sources_",
            MetadataKind::Accounts => "_accounts_",
            MetadataKind::Assignments => "_assignments_",
            MetadataKind::Subscriptions => "_subscriptions_",
        }
    }
}

/// The identifier of a batch's part number `i + 1` of a kind.
pub open spec fn part_id(id: Seq<char>, kind: MetadataKind, i: int) -> Seq<char> {
    id + kind.marker_spec() + decimal((i + 1) as nat)
}

/// The identifier of a batch's part number `i + 1` of `n` with summaries.
pub open spec fn summary_part_id(id: Seq<char>, i: int, n: int) -> Seq<char> {
    id + "_part_"@ + decimal((i + 1) as nat) + "_of_"@ + decimal(n as nat)
}

/// The parts of a batch with its records of one kind, `size` to a part.
pub open spec fn kind_parts(m: BatchModel, kind: MetadataKind, size: int) -> Seq<BatchModel> {
    match kind {
        MetadataKind::Sources => {
            let c = chunks_of(m.sources, size);
            Seq::new(
                c.len(),
                |i: int| BatchModel { sources: c[i], ..m.emptied(part_id(m.batch_id, kind, i)) },
            )
        },
        MetadataKind::Accounts => {
            let c = chunks_of(m.accounts, size);
            Seq::new(
                c.len(),
                |i: int| BatchModel { accounts: c[i], ..m.emptied(part_id(m.batch_id, kind, i)) },
            )
        },
        MetadataKind::Assignments => {
            let c = chunks_of(m.assignments, size);
            Seq::new(
                c.len(),
                |i: int|
                    BatchModel { assignments: c[i], ..m.emptied(part_id(m.batch_id, kind, i)) },
            )
        },
        MetadataKind::Subscriptions => {
            let c = chunks_of(m.subscriptions, size);
            Seq::new(
                c.len(),
                |i: int|
                    BatchModel { subscriptions: c[i], ..m.emptied(part_id(m.batch_id, kind, i)) },
            )
        },
    }
}

/// The parts of a batch with its records other than usage, one kind to a part.
pub open spec fn metadata_parts(m: BatchModel, size: int) -> Seq<BatchModel> {
    let n = at_least_one(size);
    kind_parts(m, MetadataKind::Sources, n) + kind_parts(m, MetadataKind::Accounts, n) + kind_parts(
        m,
        MetadataKind::Assignments,
        n,
    ) + kind_parts(m, MetadataKind::Subscriptions, n)
}

/// The parts of a batch with its summaries.
pub open spec fn summary_parts(m: BatchModel, size: int) -> Seq<BatchModel> {
    let c = chunks_of(m.summaries, at_least_one(size));
    Seq::new(
        c.len(),
        |i: int|
            BatchModel {
                summaries: c[i],
                ..m.emptied(summary_part_id(m.batch_id, i, c.len() as int))
            },
    )
}

/// Half of a number, rounded up.
pub open spec fn half(n: int) -> int {
    (n + 1) / 2
}

/// The smaller batches that a batch is split into when the server finds it too
/// expensive: first usage apart from the rest, then halves.
pub open spec fn split_spec(m: BatchModel) -> Seq<BatchModel> {
    if m.metadata() > 0 && m.summaries.len() > 0 {
        metadata_parts(m, HTTP_ROLLUP_METADATA_RECORDS_PER_BATCH as int) + summary_parts(
            m,
            m.summaries.len() as int,
        )
    } else if m.summaries.len() > 1 {
        summary_parts(m, half(m.summaries.len() as int))
    } else if m.sources.len() > 1 {
        metadata_parts(m, half(m.sources.len() as int))
    } else if m.accounts.len() > 1 {
        metadata_parts(m, half(m.accounts.len() as int))
    } else if m.assignments.len() > 1 {
        metadata_parts(m, half(m.assignments.len() as int))
    } else if m.subscriptions.len() > 1 {
        metadata_parts(m, half(m.subscriptions.len() as int))
    } else {
        seq![m]
    }
}

fn empty_http_rollup_chunk(batch: &SyncBatch, id: String) -> (r: SyncBatch)
    ensures
        r.model() == batch.model().emptied(id@),
{
    let r = SyncBatch {
        schema_version: batch.schema_version.clone(),
        batch_id: id,
        device_id: batch.device_id.clone(),
        sources: Vec::new(),
        accounts: Vec::new(),
        source_account_assignments: Vec::new(),
        subscriptions: Vec::new(),
        events: Vec::new(),
        summaries: Vec::new(),
        created_at: batch.created_at,
    };
    proof {
        assert(r.model() =~= batch.model().emptied(id@));
    }
    r
}

fn part_text(id: &str, kind: MetadataKind, i: usize) -> (r: String)
    requires
        i < usize::MAX,
    ensures
        r@ == part_id(id@, kind, i as int),
{
    let n = decimal_text((i + 1) as u64);
    concat3(id, kind.marker(), n.as_str())
}

fn split_http_rollup_single_metadata_kind(batch: &SyncBatch, kind: MetadataKind, size: usize) -> (r:
    Vec<SyncBatch>)
    requires
        size > 0,
        batch.model().countable(),
    ensures
        batch_models(r@) == kind_parts(batch.model(), kind, size as int),
{
    let ghost m = batch.model();
    let ghost want = kind_parts(m, kind, size as int);
    let mut out: Vec<SyncBatch> = Vec::new();
    match kind {
        MetadataKind::Sources => {
            let chunks = chunk_list(&batch.sources, size);
            let mut i: usize = 0;
            while i < chunks.len()
                invariant
                    m == batch.model(),
                    m.countable(),
                    kind == MetadataKind::Sources,
                    size > 0,
                    chunks@.len() == chunks_of(m.sources, size as int).len(),
                    forall|k: int|
                        0 <= k < chunks@.len() ==> (#[trigger] chunks@[k])@ == chunks_of(
                            m.sources,
                            size as int,
                        )[k],
                    want == kind_parts(m, kind, size as int),
                    i <= chunks.len(),
                    out@.len() == i,
                    forall|k: int| 0 <= k < i ==> (#[trigger] out@[k]).model() == want[k],
                decreases chunks.len() - i,
            {
                proof {
                    lemma_chunk_sizes(m.sources, size as int, i as int);
                }
                let mut chunk = empty_http_rollup_chunk(
                    batch,
                    part_text(batch.batch_id.as_str(), kind, i),
                );
                chunk.sources = copy_all(&chunks[i]);
                proof {
                    assert(chunk.model() =~= want[i as int]);
                }
                out.push(chunk);
                i = i + 1;
            }
        },
        MetadataKind::Accounts => {
            let chunks = chunk_list(&batch.accounts, size);
            let mut i: usize = 0;
            while i < chunks.len()
                invariant
                    m == batch.model(),
                    m.countable(),
                    kind == MetadataKind::Accounts,
                    size > 0,
                    chunks@.len() == chunks_of(m.accounts, size as int).len(),
                    forall|k: int|
                        0 <= k < chunks@.len() ==> (#[trigger] chunks@[k])@ == chunks_of(
                            m.accounts,
                            size as int,
                        )[k],
                    want == kind_parts(m, kind, size as int),
                    i <= chunks.len(),
                    out@.len() == i,
                    forall|k: int| 0 <= k < i ==> (#[trigger] out@[k]).model() == want[k],
                decreases chunks.len() - i,
            {
                proof {
                    lemma_chunk_sizes(m.accounts, size as int, i as int);
                }
                let mut chunk = empty_http_rollup_chunk(
                    batch,
                    part_text(batch.batch_id.as_str(), kind, i),
                );
                chunk.accounts = copy_all(&chunks[i]);
                proof {
                    assert(chunk.model() =~= want[i as int]);
                }
                out.push(chunk);
                i = i + 1;
            }
        },
        MetadataKind::Assignments => {
            let chunks = chunk_list(&batch.source_account_assignments, size);
            let mut i: usize = 0;
            while i < chunks.len()
                invariant
                    m == batch.model(),
                    m.countable(),
                    kind == MetadataKind::Assignments,
                    size > 0,
                    chunks@.len() == chunks_of(m.assignments, size as int).len(),
                    forall|k: int|
                        0 <= k < chunks@.len() ==> (#[trigger] chunks@[k])@ == chunks_of(
                            m.assignments,
                            size as int,
                        )[k],
                    want == kind_parts(m, kind, size as int),
                    i <= chunks.len(),
                    out@.len() == i,
                    forall|k: int| 0 <= k < i ==> (#[trigger] out@[k]).model() == want[k],
                decreases chunks.len() - i,
            {
                proof {
                    lemma_chunk_sizes(m.assignments, size as int, i as int);
                }
                let mut chunk = empty_http_rollup_chunk(
                    batch,
                    part_text(batch.batch_id.as_str(), kind, i),
                );
                chunk.source_account_assignments = copy_all(&chunks[i]);
                proof {
                    assert(chunk.model() =~= want[i as int]);
                }
                out.push(chunk);
                i = i + 1;
            }
        },
        MetadataKind::Subscriptions => {
            let chunks = chunk_list(&batch.subscriptions, size);
            let mut i: usize = 0;
            while i < chunks.len()
                invariant
                    m == batch.model(),
                    m.countable(),
                    kind == MetadataKind::Subscriptions,
                    size > 0,
                    chunks@.len() == chunks_of(m.subscriptions, size as int).len(),
                    forall|k: int|
                        0 <= k < chunks@.len() ==> (#[trigger] chunks@[k])@ == chunks_of(
                            m.subscriptions,
                            size as int,
                        )[k],
                    want == kind_parts(m, kind, size as int),
                    i <= chunks.len(),
                    out@.len() == i,
                    forall|k: int| 0 <= k < i ==> (#[trigger] out@[k]).model() == want[k],
                decreases chunks.len() - i,
            {
                proof {
                    lemma_chunk_sizes(m.subscriptions, size as int, i as int);
                }
                let mut chunk = empty_http_rollup_chunk(
                    batch,
                    part_text(batch.batch_id.as_str(), kind, i),
                );
                chunk.subscriptions = copy_all(&chunks[i]);
                proof {
                    assert(chunk.model() =~= want[i as int]);
                }
                out.push(chunk);
                i = i + 1;
            }
        },
    }
    proof {
        assert(batch_models(out@) =~= want);
    }
    out
}

fn extend_batches(out: &mut Vec<SyncBatch>, more: Vec<SyncBatch>)
    ensures
        batch_models(final(out)@) == batch_models(old(out)@) + batch_models(more@),
{
    let ghost before = batch_models(out@);
    let ghost added = batch_models(more@);
    let mut rest = more;
    out.append(&mut rest);
    proof {
        assert(batch_models(out@) =~= before + added);
    }
}

fn split_http_rollup_metadata_chunks(batch: &SyncBatch, chunk_size: usize) -> (r: Vec<SyncBatch>)
    requires
        batch.model().countable(),
    ensures
        batch_models(r@) == metadata_parts(batch.model(), chunk_size as int),
{
    let size: usize = if chunk_size == 0 { 1 } else { chunk_size };
    let mut out = split_http_rollup_single_metadata_kind(batch, MetadataKind::Sources, size);
    let accounts = split_http_rollup_single_metadata_kind(batch, MetadataKind::Accounts, size);
    extend_batches(&mut out, accounts);
    let assignments = split_http_rollup_single_metadata_kind(
        batch,
        MetadataKind::Assignments,
        size,
    );
    extend_batches(&mut out, assignments);
    let subscriptions = split_http_rollup_single_metadata_kind(
        batch,
        MetadataKind::Subscriptions,
        size,
    );
    extend_batches(&mut out, subscriptions);
    out
}

fn split_http_rollup_summary_chunks(batch: &SyncBatch, chunk_size: usize) -> (r: Vec<SyncBatch>)
    requires
        batch.model().countable(),
    ensures
        batch_models(r@) == summary_parts(batch.model(), chunk_size as int),
{
    let size: usize = if chunk_size == 0 { 1 } else { chunk_size };
    let ghost m = batch.model();
    let ghost want = summary_parts(m, size as int);
    let chunks = chunk_list(&batch.summaries, size);
    let total = decimal_text(chunks.len() as u64);
    let mut out: Vec<SyncBatch> = Vec::new();
    let mut i: usize = 0;
    while i < chunks.len()
        invariant
            m == batch.model(),
            m.countable(),
            size > 0,
            total@ == decimal(chunks@.len()),
            chunks@.len() == chunks_of(m.summaries, size as int).len(),
            forall|k: int|
                0 <= k < chunks@.len() ==> (#[trigger] chunks@[k])@ == chunks_of(
                    m.summaries,
                    size as int,
                )[k],
            want == summary_parts(m, size as int),
            i <= chunks.len(),
            out@.len() == i,
            forall|k: int| 0 <= k < i ==> (#[trigger] out@[k]).model() == want[k],
        decreases chunks.len() - i,
    {
        proof {
            lemma_chunk_sizes(m.summaries, size as int, i as int);
        }
        let number = decimal_text((i + 1) as u64);
        let mut id = concat3(batch.batch_id.as_str(), "_part_", number.as_str());
        id.append("_of_");
        id.append(total.as_str());
        let mut chunk = empty_http_rollup_chunk(batch, id);
        chunk.summaries = copy_all(&chunks[i]);
        proof {
            assert(chunk.model() =~= want[i as int]);
        }
        out.push(chunk);
        i = i + 1;
    }
    proof {
        assert(batch_models(out@) =~= want);
    }
    out
}

pub fn http_rollup_metadata_count(batch: &SyncBatch) -> (r: usize)
    requires
        batch.model().countable(),
    ensures
        r == batch.model().metadata(),
{
    batch.sources.len() + batch.accounts.len() + batch.source_account_assignments.len()
        + batch.subscriptions.len()
}

pub fn one_batch(batch: &SyncBatch) -> (r: Vec<SyncBatch>)
    ensures
        batch_models(r@) == seq![batch.model()],
{
    let mut out: Vec<SyncBatch> = Vec::new();
    out.push(batch.clone());
    proof {
        assert(batch_models(out@) =~= seq![batch.model()]);
    }
    out
}

/// The smaller batches to send in place of one that the server found too
/// expensive; the batch itself where it cannot be split.
pub fn split_http_rollup_sync_batch_after_budget_error(batch: &SyncBatch) -> (r: Vec<SyncBatch>)
    requires
        batch.model().countable(),
    ensures
        batch_models(r@) == split_spec(batch.model()),
{
    let metadata: usize = http_rollup_metadata_count(batch);
    if metadata > 0 && batch.summaries.len() > 0 {
        let mut chunks = split_http_rollup_metadata_chunks(
            batch,
            HTTP_ROLLUP_METADATA_RECORDS_PER_BATCH,
        );
        let summaries = split_http_rollup_summary_chunks(batch, batch.summaries.len());
        extend_batches(&mut chunks, summaries);
        return chunks;
    }
    if batch.summaries.len() > 1 {
        return split_http_rollup_summary_chunks(batch, (batch.summaries.len() + 1) / 2);
    }
    if batch.sources.len() > 1 {
        return split_http_rollup_metadata_chunks(batch, (batch.sources.len() + 1) / 2);
    }
    if batch.accounts.len() > 1 {
        return split_http_rollup_metadata_chunks(batch, (batch.accounts.len() + 1) / 2);
    }
    if batch.source_account_assignments.len() > 1 {
        return split_http_rollup_metadata_chunks(
            batch,
            (batch.source_account_assignments.len() + 1) / 2,
        );
    }
    if batch.subscriptions.len() > 1 {
        return split_http_rollup_metadata_chunks(batch, (batch.subscriptions.len() + 1) / 2);
    }
    one_batch(batch)
}

// ---------------------------------------------------------------------------
// Cost
// ---------------------------------------------------------------------------

/// How many queries `items` take at `size` to a query.
pub open spec fn queries_for(items: int, size: int) -> int {
    if items <= 0 {
        0
    } else {
        (items + at_least_one(size) - 1) / at_least_one(size)
    }
}

pub fn http_rollup_query_chunks(item_count: usize, chunk_size: usize) -> (r: usize)
    ensures
        r == queries_for(item_count as int, chunk_size as int),
        r <= item_count,
{
    if item_count == 0 {
        return 0;
    }
    let size: usize = if chunk_size == 0 { 1 } else { chunk_size };
    let r: usize = (item_count - 1) / size + 1;
    proof {
        let a = item_count as int;
        let s = size as int;
        assert((a + s - 1) / s == (a - 1) / s + 1) by (nonlinear_arith)
            requires
                s > 0,
        ;
        assert((a - 1) / s <= a - 1) by (nonlinear_arith)
            requires
                s > 0,
                a >= 1,
        ;
    }
    r
}

/// The texts without white space around them, blank ones left out.
pub open spec fn trimmed_nonempty(v: Seq<Seq<char>>) -> Seq<Seq<char>>
    decreases v.len(),
{
    if v.len() == 0 {
        Seq::empty()
    } else {
        let before = trimmed_nonempty(v.drop_last());
        let t = trimmed(v.last());
        if t.len() == 0 {
            before
        } else {
            before.push(t)
        }
    }
}

/// How many different texts there are.
pub open spec fn distinct(v: Seq<Seq<char>>) -> nat {
    v.to_set().len()
}

/// How many different texts a list holds.
pub fn count_distinct(v: &[String]) -> (r: usize)
    ensures
        r == distinct(texts(v@)),
        r <= v@.len(),
{
    let ghost all = texts(v@);
    let mut seen: Vec<String> = Vec::new();
    let mut i: usize = 0;
    proof {
        assert(texts(seen@) =~= Seq::empty());
        assert(all.take(0) =~= Seq::empty());
    }
    while i < v.len()
        invariant
            all == texts(v@),
            i <= v.len(),
            texts_increase(texts(seen@)),
            forall|x: Seq<char>| texts(seen@).contains(x) == all.take(i as int).contains(x),
        decreases v.len() - i,
    {
        insert_text(&mut seen, v[i].as_str());
        proof {
            let now = all.take(i as int);
            let next = all.take(i + 1);
            assert(next =~= now.push(all[i as int]));
            assert(all[i as int] == v@[i as int]@);
            assert forall|x: Seq<char>| texts(seen@).contains(x) == next.contains(x) by {
                if now.contains(x) {
                    let k = choose|k: int| 0 <= k < now.len() && now[k] == x;
                    assert(next[k] == x);
                }
                if x == all[i as int] {
                    assert(next[i as int] == x);
                }
                if next.contains(x) {
                    let k = choose|k: int| 0 <= k < next.len() && next[k] == x;
                    if k < i {
                        assert(now[k] == x);
                    }
                }
            }
        }
        i = i + 1;
    }
    proof {
        assert(all.take(i as int) =~= all);
        let s = texts(seen@);
        assert(s.no_duplicates()) by {
            assert forall|a: int, b: int| 0 <= a < s.len() && 0 <= b < s.len() && a != b implies s[a]
                != s[b] by {
                lemma_text_lt_irreflexive(s[a]);
                if a < b {
                    assert(text_lt(s[a], s[b]));
                } else {
                    assert(text_lt(s[b], s[a]));
                }
            }
        }
        s.unique_seq_to_set();
        assert(s.to_set() =~= all.to_set());
        all.lemma_cardinality_of_set();
    }
    seen.len()
}

/// How many different accounts are named, blank names aside.
pub open spec fn distinct_accounts(ids: Seq<Seq<char>>) -> nat {
    distinct(trimmed_nonempty(ids))
}

fn count_distinct_accounts(ids: &[String]) -> (r: usize)
    ensures
        r == distinct_accounts(texts(ids@)),
        r <= ids@.len(),
{
    let ghost all = texts(ids@);
    let mut out: Vec<String> = Vec::new();
    let mut i: usize = 0;
    proof {
        assert(all.take(0) =~= Seq::empty());
        assert(texts(out@) =~= Seq::empty());
    }
    while i < ids.len()
        invariant
            all == texts(ids@),
            i <= ids.len(),
            out@.len() <= i,
            texts(out@) == trimmed_nonempty(all.take(i as int)),
        decreases ids.len() - i,
    {
        let ghost before = texts(out@);
        proof {
            assert(all.take(i + 1).drop_last() =~= all.take(i as int));
            assert(all.take(i + 1).last() == ids@[i as int]@);
        }
        let t = trim(ids[i].as_str());
        if !t.as_str().is_empty() {
            out.push(t);
            proof {
                assert(texts(out@) =~= before.push(t@));
            }
        }
        i = i + 1;
    }
    proof {
        assert(all.take(i as int) =~= all);
    }
    count_distinct(&out)
}

pub open spec fn assignment_accounts(v: Seq<SourceAccountAssignment>) -> Seq<Seq<char>> {
    v.map_values(|a: SourceAccountAssignment| a.provider_account_id.0@)
}

pub open spec fn subscription_accounts(v: Seq<Subscription>) -> Seq<Seq<char>> {
    v.map_values(|a: Subscription| a.provider_account_id.0@)
}

/// The accounts that the first `n` summaries name.
pub open spec fn summary_accounts(v: Seq<UsageSummary>, n: int) -> Seq<Seq<char>>
    decreases n,
{
    if n <= 0 {
        Seq::empty()
    } else {
        let before = summary_accounts(v, n - 1);
        match v[n - 1].provider_account_id {
            Some(id) => before.push(id.0@),
            None => before,
        }
    }
}

/// The instant that dates a summary.
pub open spec fn anchor_of(s: UsageSummary) -> Timestamp {
    match s.period_start {
        Some(t) => t,
        None => match s.period_end {
            Some(t) => t,
            None => s.observed_at,
        },
    }
}

/// A year and month as a key.
pub open spec fn month_text(year: int, month: int) -> Seq<char> {
    (if year >= 0 {
        zero_padded(year as nat, 4)
    } else {
        seq!['-'] + zero_padded((-year) as nat, 3)
    }) + seq!['-'] + zero_padded(month as nat, 2)
}

pub open spec fn month_key(s: UsageSummary) -> Seq<char> {
    let c = civil(anchor_of(s).day_spec());
    month_text(c.0, c.1)
}

/// What identifies a summary's project: its repository, else its path, else its
/// identifier.
pub open spec fn project_key(s: UsageSummary) -> Option<Seq<char>> {
    match s.project {
        None => None,
        Some(p) => match p.repo_remote_hash {
            Some(h) => Some("repo:"@ + h@),
            None => match p.path_hash {
                Some(h) => Some("path:"@ + h@),
                None => Some("project:"@ + p.project_id@),
            },
        },
    }
}

/// What identifies the place of a summary's project: its path, else its
/// repository and identifier, else its identifier.
pub open spec fn location_key(s: UsageSummary) -> Option<Seq<char>> {
    match s.project {
        None => None,
        Some(p) => match p.path_hash {
            Some(h) => Some("path:"@ + h@),
            None => match p.repo_remote_hash {
                Some(h) => Some("repo:"@ + h@ + ":"@ + p.project_id@),
                None => Some("project:"@ + p.project_id@),
            },
        },
    }
}

pub open spec fn month_keys(v: Seq<UsageSummary>) -> Seq<Seq<char>> {
    v.map_values(|s: UsageSummary| month_key(s))
}

pub open spec fn project_keys(v: Seq<UsageSummary>, n: int) -> Seq<Seq<char>>
    decreases n,
{
    if n <= 0 {
        Seq::empty()
    } else {
        let before = project_keys(v, n - 1);
        match project_key(v[n - 1]) {
            Some(k) => before.push(k),
            None => before,
        }
    }
}

pub open spec fn location_keys(v: Seq<UsageSummary>, n: int) -> Seq<Seq<char>>
    decreases n,
{
    if n <= 0 {
        Seq::empty()
    } else {
        let before = location_keys(v, n - 1);
        match location_key(v[n - 1]) {
            Some(k) => before.push(k),
            None => before,
        }
    }
}

pub open spec fn one_if(b: bool) -> int {
    if b {
        1
    } else {
        0
    }
}

/// How many queries of its database the server needs for a batch: three to
/// recognise device and batch and two to close the books; one for accounts'
/// other names; lookups of accounts, summaries and places in chunks; one for
/// each record, project and place written; daily rows in chunks; one for each
/// month; one for the dashboard.
pub open spec fn query_estimate(m: BatchModel) -> int {
    let n = m.summaries.len() as int;
    let chunk = HTTP_ROLLUP_D1_QUERY_CHUNK_SIZE as int;
    let places = distinct(location_keys(m.summaries, n)) as int;
    let projects = distinct(project_keys(m.summaries, n)) as int;
    5 + one_if(m.accounts.len() > 0) + queries_for(
        distinct_accounts(assignment_accounts(m.assignments)) as int,
        chunk,
    ) + queries_for(distinct_accounts(subscription_accounts(m.subscriptions)) as int, chunk)
        + queries_for(distinct_accounts(summary_accounts(m.summaries, n)) as int, chunk)
        + queries_for(n, chunk) + queries_for(places, chunk) + m.metadata() + projects + places
        + queries_for(n, HTTP_ROLLUP_DAILY_ROLLUP_ROWS_PER_QUERY as int) + distinct(
        month_keys(m.summaries),
    ) + one_if(n > 0)
}

/// Whether all instants that date the summaries lie on the time line.
pub open spec fn summaries_wf(v: Seq<UsageSummary>) -> bool {
    forall|i: int| 0 <= i < v.len() ==> anchor_of(#[trigger] v[i]).wf()
}

/// A year and month as a key.
pub fn format_month(year: i32, month: u32) -> (r: String)
    requires
        year > i32::MIN,
    ensures
        r@ == month_text(year as int, month as int),
{
    let mut out = if year >= 0 {
        zero_padded_text(year as u64, 4)
    } else {
        let digits = zero_padded_text((-year) as u64, 3);
        let mut t = String::new();
        t.push('-');
        t.append(digits.as_str());
        proof {
            assert(t@ =~= seq!['-'] + digits@);
        }
        t
    };
    out.push('-');
    out.append(zero_padded_text(month as u64, 2).as_str());
    proof {
        assert(out@ =~= month_text(year as int, month as int));
    }
    out
}

pub fn http_rollup_summary_month_key(summary: &UsageSummary) -> (r: String)
    requires
        anchor_of(*summary).wf(),
    ensures
        r@ == month_key(*summary),
{
    let anchor = match summary.period_start {
        Some(t) => t,
        None => match summary.period_end {
            Some(t) => t,
            None => summary.observed_at,
        },
    };
    let (year, month, _) = civil_of(anchor.day());
    format_month(year, month)
}

pub fn http_rollup_summary_project_key(summary: &UsageSummary) -> (r: Option<String>)
    ensures
        opt_text(r) == project_key(*summary),
{
    match &summary.project {
        None => None,
        Some(p) => match &p.repo_remote_hash {
            Some(h) => Some(concat2("repo:", h.as_str())),
            None => match &p.path_hash {
                Some(h) => Some(concat2("path:", h.as_str())),
                None => Some(concat2("project:", p.project_id.as_str())),
            },
        },
    }
}

pub fn http_rollup_summary_project_location_key(summary: &UsageSummary) -> (r: Option<String>)
    ensures
        opt_text(r) == location_key(*summary),
{
    match &summary.project {
        None => None,
        Some(p) => match &p.path_hash {
            Some(h) => Some(concat2("path:", h.as_str())),
            None => match &p.repo_remote_hash {
                Some(h) => {
                    let mut out = concat3("repo:", h.as_str(), ":");
                    out.append(p.project_id.as_str());
                    Some(out)
                },
                None => Some(concat2("project:", p.project_id.as_str())),
            },
        },
    }
}

struct SummaryKeys {
    accounts: Vec<String>,
    months: Vec<String>,
    projects: Vec<String>,
    places: Vec<String>,
}

fn summary_keys(v: &[UsageSummary]) -> (r: SummaryKeys)
    requires
        summaries_wf(v@),
    ensures
        texts(r.accounts@) == summary_accounts(v@, v@.len() as int),
        texts(r.months@) == month_keys(v@),
        texts(r.projects@) == project_keys(v@, v@.len() as int),
        texts(r.places@) == location_keys(v@, v@.len() as int),
        r.accounts@.len() <= v@.len(),
        r.months@.len() <= v@.len(),
        r.projects@.len() <= v@.len(),
        r.places@.len() <= v@.len(),
{
    let mut accounts: Vec<String> = Vec::new();
    let mut months: Vec<String> = Vec::new();
    let mut projects: Vec<String> = Vec::new();
    let mut places: Vec<String> = Vec::new();
    let mut i: usize = 0;
    proof {
        assert(texts(accounts@) =~= Seq::empty());
        assert(texts(projects@) =~= Seq::empty());
        assert(texts(places@) =~= Seq::empty());
    }
    while i < v.len()
        invariant
            summaries_wf(v@),
            i <= v.len(),
            accounts@.len() <= i,
            months@.len() == i,
            projects@.len() <= i,
            places@.len() <= i,
            texts(accounts@) == summary_accounts(v@, i as int),
            forall|k: int| 0 <= k < i ==> (#[trigger] months@[k])@ == month_key(v@[k]),
            texts(projects@) == project_keys(v@, i as int),
            texts(places@) == location_keys(v@, i as int),
        decreases v.len() - i,
    {
        let s = &v[i];
        let ghost a = texts(accounts@);
        let ghost p = texts(projects@);
        let ghost l = texts(places@);
        match &s.provider_account_id {
            Some(id) => {
                accounts.push(id.0.clone());
                proof {
                    assert(texts(accounts@) =~= a.push(id.0@));
                }
            },
            None => {},
        }
        months.push(http_rollup_summary_month_key(s));
        match http_rollup_summary_project_key(s) {
            Some(k) => {
                projects.push(k);
                proof {
                    assert(texts(projects@) =~= p.push(k@));
                }
            },
            None => {},
        }
        match http_rollup_summary_project_location_key(s) {
            Some(k) => {
                places.push(k);
                proof {
                    assert(texts(places@) =~= l.push(k@));
                }
            },
            None => {},
        }
        i = i + 1;
    }
    proof {
        assert(texts(months@) =~= month_keys(v@));
    }
    SummaryKeys { accounts, months, projects, places }
}

fn assignment_account_list(v: &[SourceAccountAssignment]) -> (r: Vec<String>)
    ensures
        texts(r@) == assignment_accounts(v@),
        r@.len() == v@.len(),
{
    let mut out: Vec<String> = Vec::new();
    let mut i: usize = 0;
    while i < v.len()
        invariant
            i <= v.len(),
            out@.len() == i,
            forall|k: int| 0 <= k < i ==> (#[trigger] out@[k])@ == v@[k].provider_account_id.0@,
        decreases v.len() - i,
    {
        out.push(v[i].provider_account_id.0.clone());
        i = i + 1;
    }
    proof {
        assert(texts(out@) =~= assignment_accounts(v@));
    }
    out
}

fn subscription_account_list(v: &[Subscription]) -> (r: Vec<String>)
    ensures
        texts(r@) == subscription_accounts(v@),
        r@.len() == v@.len(),
{
    let mut out: Vec<String> = Vec::new();
    let mut i: usize = 0;
    while i < v.len()
        invariant
            i <= v.len(),
            out@.len() == i,
            forall|k: int| 0 <= k < i ==> (#[trigger] out@[k])@ == v@[k].provider_account_id.0@,
        decreases v.len() - i,
    {
        out.push(v[i].provider_account_id.0.clone());
        i = i + 1;
    }
    proof {
        assert(texts(out@) =~= subscription_accounts(v@));
    }
    out
}

/// How many different accounts, places, projects and months a batch names.
struct DistinctCounts {
    assigned: usize,
    subscribed: usize,
    summarized: usize,
    places: usize,
    projects: usize,
    months: usize,
}

fn distinct_counts(batch: &SyncBatch) -> (r: DistinctCounts)
    requires
        summaries_wf(batch.summaries@),
    ensures
        ({
            let m = batch.model();
            let n = m.summaries.len() as int;
            &&& r.assigned == distinct_accounts(assignment_accounts(m.assignments))
            &&& r.subscribed == distinct_accounts(subscription_accounts(m.subscriptions))
            &&& r.summarized == distinct_accounts(summary_accounts(m.summaries, n))
            &&& r.places == distinct(location_keys(m.summaries, n))
            &&& r.projects == distinct(project_keys(m.summaries, n))
            &&& r.months == distinct(month_keys(m.summaries))
        }),
        r.assigned <= batch.source_account_assignments@.len(),
        r.subscribed <= batch.subscriptions@.len(),
        r.summarized <= batch.summaries@.len(),
        r.places <= batch.summaries@.len(),
        r.projects <= batch.summaries@.len(),
        r.months <= batch.summaries@.len(),
{
    let keys = summary_keys(&batch.summaries);
    let assigned = assignment_account_list(&batch.source_account_assignments);
    let subscribed = subscription_account_list(&batch.subscriptions);
    DistinctCounts {
        assigned: count_distinct_accounts(&assigned),
        subscribed: count_distinct_accounts(&subscribed),
        summarized: count_distinct_accounts(&keys.accounts),
        places: count_distinct(&keys.places),
        projects: count_distinct(&keys.projects),
        months: count_distinct(&keys.months),
    }
}

/// How many queries of its database the server needs for a batch.
#[verifier::rlimit(50)]
#[verifier::spinoff_prover]
pub fn estimate_http_rollup_d1_queries(batch: &SyncBatch) -> (r: usize)
    requires
        batch.model().countable(),
        summaries_wf(batch.summaries@),
    ensures
        r == query_estimate(batch.model()),
{
    let n: usize = batch.summaries.len();
    let chunk: usize = HTTP_ROLLUP_D1_QUERY_CHUNK_SIZE;
    let counts = distinct_counts(batch);
    let alias_queries: usize = if batch.accounts.len() > 0 { 1 } else { 0 };
    let a: usize = http_rollup_query_chunks(counts.assigned, chunk);
    let b: usize = http_rollup_query_chunks(counts.subscribed, chunk);
    let c: usize = http_rollup_query_chunks(counts.summarized, chunk);
    let existing: usize = http_rollup_query_chunks(n, chunk);
    let place_lookups: usize = http_rollup_query_chunks(counts.places, chunk);
    let metadata: usize = http_rollup_metadata_count(batch);
    let daily: usize = http_rollup_query_chunks(n, HTTP_ROLLUP_DAILY_ROLLUP_ROWS_PER_QUERY);
    let dashboard: usize = if n > 0 { 1 } else { 0 };
    let lookups: usize = a + b + c + existing + place_lookups;
    let writes: usize = metadata + counts.projects + counts.places + daily + counts.months;
    5 + alias_queries + lookups + writes + dashboard
}

// ---------------------------------------------------------------------------
// Fitting the budget
// ---------------------------------------------------------------------------

/// The batches to send for a batch so that each is within the budget, or cannot
/// be split any further.
pub open spec fn fitted(m: BatchModel) -> Seq<BatchModel>
    decreases m.size(), 1int, 0int,
{
    if query_estimate(m) <= HTTP_ROLLUP_D1_QUERY_BUDGET {
        seq![m]
    } else if split_spec(m).len() <= 1 {
        seq![m]
    } else {
        fitted_upto(m.size(), split_spec(m), split_spec(m).len() as int)
    }
}

/// The fitted batches of the first `n` parts of a batch with `bound` records.
pub open spec fn fitted_upto(bound: nat, parts: Seq<BatchModel>, n: int) -> Seq<BatchModel>
    decreases bound, 0int, n,
{
    if n <= 0 || n > parts.len() {
        Seq::empty()
    } else {
        let before = fitted_upto(bound, parts, n - 1);
        if parts[n - 1].size() < bound {
            before + fitted(parts[n - 1])
        } else {
            before
        }
    }
}

/// The fitted batches of the first `n` batches.
pub open spec fn fitted_all(batches: Seq<BatchModel>, n: int) -> Seq<BatchModel>
    decreases n,
{
    if n <= 0 {
        Seq::empty()
    } else {
        fitted_all(batches, n - 1) + fitted(batches[n - 1])
    }
}

/// Whether a part holds no more than its batch, of one kind of records only, and
/// its instants are those of the batch.
pub open spec fn lesser(part: BatchModel, m: BatchModel) -> bool {
    &&& part.size() < m.size()
    &&& summaries_wf(m.summaries) ==> summaries_wf(part.summaries)
    &&& part.events.len() == 0
    &&& part.summaries.len() <= m.summaries.len()
    &&& part.metadata() <= m.metadata()
    &&& part.size() > 0
}

proof fn lemma_chunk_members<T>(s: Seq<T>, size: int, i: int, k: int) -> (at: int)
    requires
        size > 0,
        0 <= i < chunks_of(s, size).len(),
        0 <= k < chunks_of(s, size)[i].len(),
    ensures
        0 <= at < s.len(),
        chunks_of(s, size)[i][k] == s[at],
    decreases s.len(),
{
    if s.len() <= size {
        k
    } else if i == 0 {
        k
    } else {
        assert(chunks_of(s, size)[i] == chunks_of(s.skip(size), size)[i - 1]);
        let at = lemma_chunk_members(s.skip(size), size, i - 1, k);
        at + size
    }
}

pub proof fn lemma_summary_parts(m: BatchModel, size: int, i: int)
    requires
        0 <= i < summary_parts(m, size).len(),
    ensures
        ({
            let p = summary_parts(m, size)[i];
            &&& 0 < p.summaries.len() <= at_least_one(size)
            &&& p.summaries.len() <= m.summaries.len()
            &&& p.metadata() == 0
            &&& p.events.len() == 0
            &&& summaries_wf(m.summaries) ==> summaries_wf(p.summaries)
        }),
{
    let n = at_least_one(size);
    lemma_chunk_sizes(m.summaries, n, i);
    let p = summary_parts(m, size)[i];
    let c = chunks_of(m.summaries, n);
    if summaries_wf(m.summaries) {
        assert forall|k: int| 0 <= k < p.summaries.len() implies anchor_of(
            #[trigger] p.summaries[k],
        ).wf() by {
            let at = lemma_chunk_members(m.summaries, n, i, k);
            assert(anchor_of(m.summaries[at]).wf());
        }
    }
}

/// Whether a part holds between one and `size` records of one kind other than
/// usage.
pub open spec fn single_kind(p: BatchModel, m: BatchModel, size: int) -> bool {
    &&& p.summaries.len() == 0
    &&& p.events.len() == 0
    &&& 0 < p.metadata() <= size
    &&& p.sources.len() <= m.sources.len() && p.accounts.len() <= m.accounts.len()
        && p.assignments.len() <= m.assignments.len() && p.subscriptions.len()
        <= m.subscriptions.len()
    &&& p.metadata() == p.sources.len() || p.metadata() == p.accounts.len() || p.metadata()
        == p.assignments.len() || p.metadata() == p.subscriptions.len()
}

proof fn lemma_kind_parts(m: BatchModel, kind: MetadataKind, size: int, i: int)
    requires
        size > 0,
        0 <= i < kind_parts(m, kind, size).len(),
    ensures
        single_kind(kind_parts(m, kind, size)[i], m, size),
{
    match kind {
        MetadataKind::Sources => lemma_chunk_sizes(m.sources, size, i),
        MetadataKind::Accounts => lemma_chunk_sizes(m.accounts, size, i),
        MetadataKind::Assignments => lemma_chunk_sizes(m.assignments, size, i),
        MetadataKind::Subscriptions => lemma_chunk_sizes(m.subscriptions, size, i),
    }
}

pub proof fn lemma_metadata_parts(m: BatchModel, size: int, i: int)
    requires
        0 <= i < metadata_parts(m, size).len(),
    ensures
        single_kind(metadata_parts(m, size)[i], m, at_least_one(size)),
{
    let n = at_least_one(size);
    let a = kind_parts(m, MetadataKind::Sources, n);
    let b = kind_parts(m, MetadataKind::Accounts, n);
    let c = kind_parts(m, MetadataKind::Assignments, n);
    let d = kind_parts(m, MetadataKind::Subscriptions, n);
    let all = metadata_parts(m, size);
    if i < a.len() {
        assert(all[i] == a[i]);
        lemma_kind_parts(m, MetadataKind::Sources, n, i);
    } else if i < a.len() + b.len() {
        assert(all[i] == b[i - a.len()]);
        lemma_kind_parts(m, MetadataKind::Accounts, n, i - a.len());
    } else if i < a.len() + b.len() + c.len() {
        assert(all[i] == c[i - a.len() - b.len()]);
        lemma_kind_parts(m, MetadataKind::Assignments, n, i - a.len() - b.len());
    } else {
        assert(all[i] == d[i - a.len() - b.len() - c.len()]);
        lemma_kind_parts(m, MetadataKind::Subscriptions, n, i - a.len() - b.len() - c.len());
    }
}

/// Each part that a batch is split into is smaller than the batch.
pub proof fn splitting_makes_smaller_batches(m: BatchModel, i: int)
    requires
        split_spec(m).len() > 1,
        0 <= i < split_spec(m).len(),
    ensures
        lesser(split_spec(m)[i], m),
{
    let parts = split_spec(m);
    if m.metadata() > 0 && m.summaries.len() > 0 {
        let a = metadata_parts(m, HTTP_ROLLUP_METADATA_RECORDS_PER_BATCH as int);
        let b = summary_parts(m, m.summaries.len() as int);
        if i < a.len() {
            assert(parts[i] == a[i]);
            lemma_metadata_parts(m, HTTP_ROLLUP_METADATA_RECORDS_PER_BATCH as int, i);
        } else {
            assert(parts[i] == b[i - a.len()]);
            lemma_summary_parts(m, m.summaries.len() as int, i - a.len());
        }
    } else if m.summaries.len() > 1 {
        lemma_summary_parts(m, half(m.summaries.len() as int), i);
    } else if m.sources.len() > 1 {
        lemma_metadata_parts(m, half(m.sources.len() as int), i);
    } else if m.accounts.len() > 1 {
        lemma_metadata_parts(m, half(m.accounts.len() as int), i);
    } else if m.assignments.len() > 1 {
        lemma_metadata_parts(m, half(m.assignments.len() as int), i);
    } else if m.subscriptions.len() > 1 {
        lemma_metadata_parts(m, half(m.subscriptions.len() as int), i);
    }
}

fn fit_parts(bound: Ghost<nat>, parts: &[SyncBatch]) -> (r: Vec<SyncBatch>)
    requires
        forall|i: int|
            0 <= i < parts@.len() ==> (#[trigger] parts@[i]).model().size() < bound@
                && parts@[i].model().countable() && summaries_wf(parts@[i].summaries@),
    ensures
        batch_models(r@) == fitted_upto(bound@, batch_models(parts@), parts@.len() as int),
    decreases bound@, 0int, 0int,
{
    let ghost all = batch_models(parts@);
    let mut out: Vec<SyncBatch> = Vec::new();
    let mut i: usize = 0;
    proof {
        assert(batch_models(out@) =~= Seq::empty());
    }
    while i < parts.len()
        invariant
            all == batch_models(parts@),
            forall|k: int|
                0 <= k < parts@.len() ==> (#[trigger] parts@[k]).model().size() < bound@
                    && parts@[k].model().countable() && summaries_wf(parts@[k].summaries@),
            i <= parts.len(),
            batch_models(out@) == fitted_upto(bound@, all, i as int),
        decreases parts.len() - i,
    {
        proof {
            assert(all[i as int] == parts@[i as int].model());
        }
        let more = fit_http_rollup_batch_to_d1_budget(&parts[i]);
        extend_batches(&mut out, more);
        i = i + 1;
    }
    out
}

/// The batches to send for a batch so that each is within the budget, or cannot
/// be split any further.
pub fn fit_http_rollup_batch_to_d1_budget(batch: &SyncBatch) -> (r: Vec<SyncBatch>)
    requires
        batch.model().countable(),
        summaries_wf(batch.summaries@),
    ensures
        batch_models(r@) == fitted(batch.model()),
    decreases batch.model().size(), 1int, 0int,
{
    if estimate_http_rollup_d1_queries(batch) <= HTTP_ROLLUP_D1_QUERY_BUDGET {
        return one_batch(batch);
    }
    let smaller = split_http_rollup_sync_batch_after_budget_error(batch);
    let ghost parts = split_spec(batch.model());
    proof {
        assert(parts.len() == smaller@.len());
    }
    if smaller.len() <= 1 {
        return one_batch(batch);
    }
    proof {
        assert forall|i: int| 0 <= i < smaller@.len() implies (
        #[trigger] smaller@[i]).model().size() < batch.model().size() && smaller@[i].model().countable()
            && summaries_wf(smaller@[i].summaries@) by {
            splitting_makes_smaller_batches(batch.model(), i);
            assert(parts[i] == smaller@[i].model());
        }
    }
    fit_parts(Ghost(batch.model().size()), &smaller)
}

pub fn fit_http_rollup_batches_to_d1_budget(chunks: &[SyncBatch]) -> (r: Vec<SyncBatch>)
    requires
        forall|i: int|
            0 <= i < chunks@.len() ==> (#[trigger] chunks@[i]).model().countable() && summaries_wf(
                chunks@[i].summaries@,
            ),
    ensures
        batch_models(r@) == fitted_all(batch_models(chunks@), chunks@.len() as int),
{
    let ghost all = batch_models(chunks@);
    let mut out: Vec<SyncBatch> = Vec::new();
    let mut i: usize = 0;
    proof {
        assert(batch_models(out@) =~= Seq::empty());
    }
    while i < chunks.len()
        invariant
            all == batch_models(chunks@),
            forall|k: int|
                0 <= k < chunks@.len() ==> (#[trigger] chunks@[k]).model().countable()
                    && summaries_wf(chunks@[k].summaries@),
            i <= chunks.len(),
            batch_models(out@) == fitted_all(all, i as int),
        decreases chunks.len() - i,
    {
        proof {
            assert(all[i as int] == chunks@[i as int].model());
        }
        let more = fit_http_rollup_batch_to_d1_budget(&chunks[i]);
        extend_batches(&mut out, more);
        i = i + 1;
    }
    out
}

/// The parts of a batch before they are fitted to the budget: the batch itself
/// where it is small, else its records by kind and its summaries in chunks.
pub open spec fn coarse_parts(m: BatchModel) -> Seq<BatchModel> {
    if m.summaries.len() <= HTTP_ROLLUP_SUMMARIES_PER_BATCH && m.metadata()
        <= HTTP_ROLLUP_METADATA_RECORDS_PER_BATCH {
        seq![m]
    } else {
        metadata_parts(m, HTTP_ROLLUP_METADATA_RECORDS_PER_BATCH as int) + summary_parts(
            m,
            HTTP_ROLLUP_SUMMARIES_PER_BATCH as int,
        )
    }
}

/// The batches that a batch is sent as.
pub open spec fn sent_as(m: BatchModel) -> Seq<BatchModel> {
    fitted_all(coarse_parts(m), coarse_parts(m).len() as int)
}

pub fn split_http_rollup_sync_batches(batch: &SyncBatch) -> (r: Vec<SyncBatch>)
    requires
        batch.model().countable(),
        summaries_wf(batch.summaries@),
    ensures
        batch_models(r@) == sent_as(batch.model()),
{
    let ghost m = batch.model();
    let metadata: usize = http_rollup_metadata_count(batch);
    if batch.summaries.len() <= HTTP_ROLLUP_SUMMARIES_PER_BATCH && metadata
        <= HTTP_ROLLUP_METADATA_RECORDS_PER_BATCH {
        let one = one_batch(batch);
        proof {
            assert(one@.len() == batch_models(one@).len());
            assert(batch_models(one@)[0] == one@[0].model());
        }
        return fit_http_rollup_batches_to_d1_budget(&one);
    }
    let mut chunks = split_http_rollup_metadata_chunks(
        batch,
        HTTP_ROLLUP_METADATA_RECORDS_PER_BATCH,
    );
    let summaries = split_http_rollup_summary_chunks(batch, HTTP_ROLLUP_SUMMARIES_PER_BATCH);
    extend_batches(&mut chunks, summaries);
    proof {
        let a = metadata_parts(m, HTTP_ROLLUP_METADATA_RECORDS_PER_BATCH as int);
        let b = summary_parts(m, HTTP_ROLLUP_SUMMARIES_PER_BATCH as int);
        assert(batch_models(chunks@) == a + b);
        assert forall|i: int| 0 <= i < chunks@.len() implies (
        #[trigger] chunks@[i]).model().countable() && summaries_wf(chunks@[i].summaries@) by {
            assert((a + b)[i] == chunks@[i].model());
            if i < a.len() {
                lemma_metadata_parts(m, HTTP_ROLLUP_METADATA_RECORDS_PER_BATCH as int, i);
            } else {
                lemma_summary_parts(m, HTTP_ROLLUP_SUMMARIES_PER_BATCH as int, i - a.len());
            }
        }
    }
    fit_http_rollup_batches_to_d1_budget(&chunks)
}

} // verus!
