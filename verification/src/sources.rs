//! Which places are scanned, and what a scan does with what it finds.
use crate::accounts::{
    CLAUDE_CODE, CODEX, claude_first_word, first_word, provider_matches, same_provider,
};
use crate::ids::SourceKind;
use crate::matching::{ResolvedPath, known_as, look_up};
use crate::paths::{
    file_name, file_name_of, is_base, join_path, parent_of, parent_path, path_join,
    path_starts_with, paths_equal, same_path,
};
use crate::records::{
    LocationOrigin, SourceLocation, SourceVerificationMode, UsageEvent, UsageSummary,
};
use crate::report::{abbreviate_home, shortened};
use crate::sorted::{
    Keyed, has_key, key_at, key_lt, key_place, keys_increase, lemma_insert_keeps_order,
    lemma_key_found, lemma_key_lt_irreflexive,
};
use crate::text::{
    ascii_lowercase, concat2, concat3, lowered, opt_str, opt_text, same_text, texts, trim, trimmed,
};
use crate::time::Timestamp;
use crate::usage::UsageTotals;
use vstd::prelude::*;

verus! {

// ---------------------------------------------------------------------------
// Places
// ---------------------------------------------------------------------------

pub open spec fn origin_text(origin: LocationOrigin) -> Seq<char> {
    match origin {
        LocationOrigin::Default => "default"@,
        LocationOrigin::Configured => "configured"@,
        LocationOrigin::Env => "env"@,
        LocationOrigin::Discovered => "discovered"@,
    }
}

pub fn location_origin_label(origin: &LocationOrigin) -> (r: &'static str)
    ensures
        r@ == origin_text(*origin),
{
    match origin {
        LocationOrigin::Default => "default",
        LocationOrigin::Configured => "configured",
        LocationOrigin::Env => "env",
        LocationOrigin::Discovered => "discovered",
    }
}

/// How much a place weighs against another: what the user chose most.
pub open spec fn preference(o: LocationOrigin) -> u8 {
    match o {
        LocationOrigin::Configured => 3,
        LocationOrigin::Env => 3,
        LocationOrigin::Discovered => 2,
        LocationOrigin::Default => 1,
    }
}

pub fn source_preference_rank(source: &SourceLocation) -> (r: u8)
    ensures
        r == preference(source.location_origin),
{
    match source.location_origin {
        LocationOrigin::Configured => 3,
        LocationOrigin::Env => 3,
        LocationOrigin::Discovered => 2,
        LocationOrigin::Default => 1,
    }
}

/// The path shown for a source, with the home directory shortened.
pub open spec fn preview_label(s: SourceLocation, home: Option<Seq<char>>) -> Seq<char> {
    match s.path_label {
        Some(p) => shortened(p@, home),
        None => "unknown"@,
    }
}

pub fn preview_path_label(source: &SourceLocation, home: Option<&str>) -> (r: String)
    ensures
        r@ == preview_label(*source, opt_str(home)),
{
    match &source.path_label {
        Some(p) => abbreviate_home(p.as_str(), home),
        None => "unknown".to_owned(),
    }
}

/// The path that sources are compared by: where the label's path really lies, as
/// far as that is known.
pub open spec fn comparable_path(s: SourceLocation, known: Seq<ResolvedPath>) -> Option<Seq<char>> {
    match s.path_label {
        Some(p) => Some(
            match known_as(known, p@) {
                Some(c) => c,
                None => p@,
            },
        ),
        None => None,
    }
}

fn comparable_source_path(source: &SourceLocation, known: &[ResolvedPath]) -> (r: Option<String>)
    ensures
        opt_text(r) == comparable_path(*source, known@),
{
    match &source.path_label {
        Some(p) => match look_up(known, p.as_str()) {
            Some(c) => Some(c),
            None => Some(p.clone()),
        },
        None => None,
    }
}

/// Whether `other` already covers `s`: a source of the same provider at a
/// directory above, that weighs no less.
pub open spec fn covers(other: SourceLocation, s: SourceLocation, known: Seq<ResolvedPath>) -> bool {
    &&& same_provider(s.provider@, other.provider@)
    &&& comparable_path(s, known) matches Some(p) && comparable_path(other, known) matches Some(q)
        && !same_path(q, p) && is_base(q, p) && preference(other.location_origin) >= preference(
        s.location_origin,
    )
}

pub open spec fn shadowed(v: Seq<SourceLocation>, i: int, known: Seq<ResolvedPath>) -> bool {
    exists|k: int| 0 <= k < v.len() && k != i && covers(#[trigger] v[k], v[i], known)
}

/// The sources among the first `n` that no other covers.
pub open spec fn uncovered(v: Seq<SourceLocation>, known: Seq<ResolvedPath>, n: int) -> Seq<SourceLocation>
    decreases n,
{
    if n <= 0 {
        Seq::empty()
    } else if shadowed(v, n - 1, known) {
        uncovered(v, known, n - 1)
    } else {
        uncovered(v, known, n - 1).push(v[n - 1])
    }
}

fn is_shadowed(v: &[SourceLocation], i: usize, known: &[ResolvedPath]) -> (r: bool)
    requires
        i < v@.len(),
    ensures
        r == shadowed(v@, i as int, known@),
{
    let path = match comparable_source_path(&v[i], known) {
        Some(p) => p,
        None => return false,
    };
    let mut k: usize = 0;
    while k < v.len()
        invariant
            i < v@.len(),
            k <= v.len(),
            comparable_path(v@[i as int], known@) == Some(path@),
            forall|j: int| 0 <= j < k && j != i ==> !covers(#[trigger] v@[j], v@[i as int], known@),
        decreases v.len() - k,
    {
        if k != i && provider_matches(v[i].provider.as_str(), v[k].provider.as_str()) {
            match comparable_source_path(&v[k], known) {
                Some(other) => {
                    if !paths_equal(other.as_str(), path.as_str()) && path_starts_with(
                        path.as_str(),
                        other.as_str(),
                    ) && source_preference_rank(&v[k]) >= source_preference_rank(&v[i]) {
                        proof {
                            assert(covers(v@[k as int], v@[i as int], known@));
                        }
                        return true;
                    }
                },
                None => {},
            }
        }
        k = k + 1;
    }
    false
}

/// The sources that no other source covers, in order.
pub fn dedupe_overlapping_sources(sources: &[SourceLocation], known: &[ResolvedPath]) -> (r: Vec<
    SourceLocation,
>)
    ensures
        r@ == uncovered(sources@, known@, sources@.len() as int),
{
    let mut out: Vec<SourceLocation> = Vec::new();
    let mut i: usize = 0;
    while i < sources.len()
        invariant
            i <= sources.len(),
            out@ == uncovered(sources@, known@, i as int),
        decreases sources.len() - i,
    {
        if !is_shadowed(sources, i, known) {
            out.push(sources[i].clone());
        }
        i = i + 1;
    }
    out
}

/// A path that sources lie at by default, and its hash.
#[derive(Debug, Clone, PartialEq, Eq)]
pub struct DefaultPath {
    pub path: String,
    pub hash: String,
}

/// Where a provider's sources lie by default.
pub open spec fn default_places(provider: Seq<char>, home: Seq<char>) -> Seq<Seq<char>> {
    if provider == CLAUDE_CODE@ {
        seq![
            path_join(home, ".config/"@ + first_word() + "/projects"@),
            path_join(home, "."@ + first_word() + "/projects"@),
        ]
    } else if provider == CODEX@ {
        seq![path_join(home, ".codex"@)]
    } else {
        Seq::empty()
    }
}

pub fn default_source_paths(provider: &str, home: &str) -> (r: Vec<String>)
    ensures
        texts(r@) == default_places(provider@, home@),
{
    let mut out: Vec<String> = Vec::new();
    if same_text(provider, CLAUDE_CODE) {
        let word = claude_first_word();
        let configured = concat3(".config/", word.as_str(), "/projects");
        let hidden = concat3(".", word.as_str(), "/projects");
        out.push(join_path(home, configured.as_str()));
        out.push(join_path(home, hidden.as_str()));
    } else if same_text(provider, CODEX) {
        out.push(join_path(home, ".codex"));
    }
    proof {
        assert(texts(out@) =~= default_places(provider@, home@));
    }
    out
}

/// The first path with the hash.
pub open spec fn path_with_hash(v: Seq<DefaultPath>, hash: Seq<char>) -> Option<Seq<char>>
    decreases v.len(),
{
    if v.len() == 0 {
        None
    } else if v[0].hash@ == hash {
        Some(v[0].path@)
    } else {
        path_with_hash(v.skip(1), hash)
    }
}

/// The path of a source at a default place, found by its hash.
pub open spec fn default_label(s: SourceLocation, candidates: Seq<DefaultPath>) -> Option<Seq<char>> {
    match s.path_hash {
        Some(h) => if s.location_origin == LocationOrigin::Default && (s.provider@
            == CLAUDE_CODE@ || s.provider@ == CODEX@) {
            path_with_hash(candidates, h@)
        } else {
            None
        },
        None => None,
    }
}

/// The path of a source at a default place. `candidates` are the default places
/// of its provider.
pub fn path_label_from_hashless_source(source: &SourceLocation, candidates: &[DefaultPath]) -> (r:
    Option<String>)
    ensures
        opt_text(r) == default_label(*source, candidates@),
{
    let hash = match &source.path_hash {
        Some(h) => h,
        None => return None,
    };
    if source.location_origin != LocationOrigin::Default || !(same_text(
        source.provider.as_str(),
        CLAUDE_CODE,
    ) || same_text(source.provider.as_str(), CODEX)) {
        return None;
    }
    let mut i: usize = 0;
    proof {
        assert(candidates@.skip(0) =~= candidates@);
    }
    while i < candidates.len()
        invariant
            i <= candidates.len(),
            path_with_hash(candidates@, hash@) == path_with_hash(
                candidates@.skip(i as int),
                hash@,
            ),
            default_label(*source, candidates@) == path_with_hash(candidates@, hash@),
        decreases candidates.len() - i,
    {
        if same_text(candidates[i].hash.as_str(), hash.as_str()) {
            return Some(candidates[i].path.clone());
        }
        proof {
            assert(candidates@.skip(i as int).skip(1) =~= candidates@.skip(i + 1));
        }
        i = i + 1;
    }
    None
}

/// A configured path as it is stored: for `CLAUDE_CODE` the directory above
/// `projects`.
pub open spec fn config_root(provider: Seq<char>, path: Seq<char>) -> Seq<char> {
    if same_provider(provider, CLAUDE_CODE@) && file_name_of(path) == Some("projects"@) {
        match parent_of(path) {
            Some(p) => p,
            None => path,
        }
    } else {
        path
    }
}

/// The directory to store for a configured path, before links are resolved.
pub fn configured_source_root(provider: &str, path: &str) -> (r: String)
    ensures
        r@ == config_root(provider@, path@),
{
    let named_projects = match file_name(path) {
        Some(n) => same_text(n.as_str(), "projects"),
        None => false,
    };
    if provider_matches(provider, CLAUDE_CODE) && named_projects {
        match parent_path(path) {
            Some(p) => p,
            None => path.to_owned(),
        }
    } else {
        path.to_owned()
    }
}

// ---------------------------------------------------------------------------
// Sources of an adapter
// ---------------------------------------------------------------------------

impl Keyed for SourceLocation {
    open spec fn key(&self) -> Seq<Seq<char>> {
        seq![self.source_id.0@]
    }

    fn key_texts(&self) -> (r: Vec<String>) {
        let mut out: Vec<String> = Vec::new();
        out.push(self.source_id.0.clone());
        proof {
            assert(texts(out@) =~= self.key());
        }
        out
    }
}

/// Whether a configured source is scanned by the provider's adapter.
pub open spec fn scanned_by(s: SourceLocation, provider: Seq<char>) -> bool {
    s.enabled && same_provider(s.provider@, provider) && s.source_kind == SourceKind::LocalAdapter
}

/// A source with the label of its default place, where it has none of its own.
pub open spec fn is_labelled(
    r: SourceLocation,
    s: SourceLocation,
    candidates: Seq<DefaultPath>,
) -> bool {
    if s.path_label is Some {
        r == s
    } else {
        &&& r == (SourceLocation { path_label: r.path_label, ..s })
        &&& opt_text(r.path_label) == default_label(s, candidates)
    }
}

fn labelled_source(source: &SourceLocation, candidates: &[DefaultPath]) -> (r: SourceLocation)
    ensures
        is_labelled(r, *source, candidates@),
        r.key() == source.key(),
{
    let mut r = source.clone();
    if r.path_label.is_none() {
        r.path_label = path_label_from_hashless_source(source, candidates);
    }
    r
}

/// The source among the first `n` with the identifier that comes last.
pub open spec fn last_with_key(v: Seq<SourceLocation>, key: Seq<Seq<char>>, n: int) -> Option<int>
    decreases n,
{
    if n <= 0 {
        None
    } else if v[n - 1].key() == key {
        Some(n - 1)
    } else {
        last_with_key(v, key, n - 1)
    }
}

/// The configured sources among the first `n` that the adapter scans.
pub open spec fn scanned_of(v: Seq<SourceLocation>, provider: Seq<char>, n: int) -> Seq<SourceLocation>
    decreases n,
{
    if n <= 0 {
        Seq::empty()
    } else if scanned_by(v[n - 1], provider) {
        scanned_of(v, provider, n - 1).push(v[n - 1])
    } else {
        scanned_of(v, provider, n - 1)
    }
}

/// Whether `x` is the last of the first `n` sources with its identifier, labelled.
pub open spec fn is_last(
    x: SourceLocation,
    all: Seq<SourceLocation>,
    candidates: Seq<DefaultPath>,
    n: int,
) -> bool {
    last_with_key(all, x.key(), n) matches Some(k) && is_labelled(x, all[k], candidates)
}

/// Whether `r` holds, by identifier and each once, the last of the sources with
/// each identifier, labelled.
pub open spec fn are_merged(
    r: Seq<SourceLocation>,
    all: Seq<SourceLocation>,
    candidates: Seq<DefaultPath>,
    n: int,
) -> bool {
    &&& keys_increase(r)
    &&& forall|i: int| 0 <= i < r.len() ==> is_last(#[trigger] r[i], all, candidates, n)
    &&& forall|k: int| 0 <= k < n ==> has_key(r, (#[trigger] all[k]).key())
}

fn merge_source(
    merged: Vec<SourceLocation>,
    source: &SourceLocation,
    candidates: &[DefaultPath],
    Ghost(all): Ghost<Seq<SourceLocation>>,
    Ghost(n): Ghost<int>,
) -> (r: Vec<SourceLocation>)
    requires
        0 <= n < all.len(),
        all[n] == *source,
        are_merged(merged@, all, candidates@, n),
    ensures
        are_merged(r@, all, candidates@, n + 1),
{
    let mut out = merged;
    let ghost was = out@;
    let key = source.key_texts();
    let ghost k = source.key();
    let p: usize = key_place(&out, &key);
    let there = key_at(&out, &key, p);
    proof {
        lemma_key_found(out@, k, p as int);
    }
    let labelled = labelled_source(source, candidates);
    if there {
        out.remove(p);
        out.insert(p, labelled);
        proof {
            assert(out@ =~= was.update(p as int, labelled));
            assert forall|i: int| 0 <= i < was.len() implies (#[trigger] out@[i]).key()
                == was[i].key() by {
                if i != p {
                    assert(out@[i] == was[i]);
                }
            }
            assert forall|i: int, j: int| 0 <= i < j < out@.len() implies key_lt(
                (#[trigger] out@[i]).key(),
                (#[trigger] out@[j]).key(),
            ) by {
                assert(key_lt(was[i].key(), was[j].key()));
            }
            assert forall|i: int| 0 <= i < out@.len() implies is_last(
                #[trigger] out@[i],
                all,
                candidates@,
                n + 1,
            ) by {
                if i != p {
                    assert(out@[i] == was[i]);
                    lemma_key_lt_irreflexive(k);
                    if i < p {
                        assert(key_lt(was[i].key(), was[p as int].key()));
                    } else {
                        assert(key_lt(was[p as int].key(), was[i].key()));
                    }
                }
            }
            assert forall|m: int| 0 <= m < n + 1 implies has_key(out@, (#[trigger] all[m]).key()) by {
                if m < n {
                    assert(has_key(was, all[m].key()));
                    let i = choose|i: int|
                        0 <= i < was.len() && (#[trigger] was[i]).key() == all[m].key();
                    assert(out@[i].key() == all[m].key());
                } else {
                    assert(out@[p as int].key() == k);
                }
            }
        }
    } else {
        proof {
            lemma_insert_keeps_order(out@, labelled, p as int);
        }
        out.insert(p, labelled);
        proof {
            assert forall|i: int| 0 <= i < out@.len() implies is_last(
                #[trigger] out@[i],
                all,
                candidates@,
                n + 1,
            ) by {
                if i != p {
                    let a = if i < p { i } else { i - 1 };
                    assert(out@[i] == was[a]);
                    assert(was[a].key() != k);
                }
            }
            assert forall|m: int| 0 <= m < n + 1 implies has_key(out@, (#[trigger] all[m]).key()) by {
                if m < n {
                    assert(has_key(was, all[m].key()));
                }
            }
        }
    }
    out
}

/// The sources that a provider's adapter scans: those it discovers and those that
/// are configured, a configured one in place of a discovered one with the same
/// identifier, without those that another covers.
pub fn scan_sources_for_adapter(
    provider: &str,
    discovered: &[SourceLocation],
    configured: &[SourceLocation],
    candidates: &[DefaultPath],
    known: &[ResolvedPath],
) -> (r: Vec<SourceLocation>)
    ensures
        ({
            let all = discovered@ + scanned_of(configured@, provider@, configured@.len() as int);
            exists|merged: Seq<SourceLocation>|
                are_merged(merged, all, candidates@, all.len() as int) && r@ == #[trigger] uncovered(
                    merged,
                    known@,
                    merged.len() as int,
                )
        }),
{
    let mut usable: Vec<SourceLocation> = Vec::new();
    let mut i: usize = 0;
    while i < configured.len()
        invariant
            i <= configured.len(),
            usable@ == scanned_of(configured@, provider@, i as int),
        decreases configured.len() - i,
    {
        let s = &configured[i];
        if s.enabled && provider_matches(s.provider.as_str(), provider) && s.source_kind
            == SourceKind::LocalAdapter {
            usable.push(s.clone());
        }
        i = i + 1;
    }
    let ghost all = discovered@ + usable@;
    let mut merged: Vec<SourceLocation> = Vec::new();
    let mut n: usize = 0;
    while n < discovered.len()
        invariant
            all == discovered@ + usable@,
            n <= discovered.len(),
            are_merged(merged@, all, candidates@, n as int),
        decreases discovered.len() - n,
    {
        proof {
            assert(all[n as int] == discovered@[n as int]);
        }
        merged = merge_source(merged, &discovered[n], candidates, Ghost(all), Ghost(n as int));
        n = n + 1;
    }
    let mut m: usize = 0;
    while m < usable.len()
        invariant
            all == discovered@ + usable@,
            m <= usable.len(),
            are_merged(merged@, all, candidates@, discovered@.len() + m),
        decreases usable.len() - m,
    {
        proof {
            assert(all[discovered@.len() + m] == usable@[m as int]);
        }
        merged =
        merge_source(
            merged,
            &usable[m],
            candidates,
            Ghost(all),
            Ghost(discovered@.len() + m),
        );
        m = m + 1;
    }
    let r = dedupe_overlapping_sources(&merged, known);
    proof {
        assert(are_merged(merged@, all, candidates@, all.len() as int));
        assert(r@ == uncovered(merged@, known@, merged@.len() as int));
    }
    r
}

proof fn lemma_uncovered_members(
    v: Seq<SourceLocation>,
    known: Seq<ResolvedPath>,
    n: int,
    x: SourceLocation,
)
    requires
        0 <= n <= v.len(),
        uncovered(v, known, n).contains(x),
    ensures
        exists|i: int| 0 <= i < n && #[trigger] v[i] == x && !shadowed(v, i, known),
    decreases n,
{
    if n > 0 {
        let before = uncovered(v, known, n - 1);
        let k = choose|k: int| 0 <= k < uncovered(v, known, n).len() && uncovered(v, known, n)[k] == x;
        if k < before.len() {
            assert(before[k] == x);
            lemma_uncovered_members(v, known, n - 1, x);
        } else {
            assert(v[n - 1] == x);
        }
    }
}

/// No source that is scanned lies below another source of the same provider that
/// weighs no less.
pub proof fn scanned_sources_are_not_covered(
    v: Seq<SourceLocation>,
    known: Seq<ResolvedPath>,
    x: SourceLocation,
    k: int,
)
    requires
        uncovered(v, known, v.len() as int).contains(x),
        0 <= k < v.len(),
        v[k] != x,
    ensures
        exists|i: int| 0 <= i < v.len() && #[trigger] v[i] == x && (k != i ==> !covers(v[k], v[i], known)),
{
    lemma_uncovered_members(v, known, v.len() as int, x);
}

/// The source that a reference names: by identifier, or by the hash of a path.
/// Exactly one of the two has to be given. `path` is the path and its hash.
pub fn resolve_source_reference(
    sources: &[SourceLocation],
    source_id: Option<&str>,
    path: Option<(&str, &str)>,
) -> (r: Result<SourceLocation, String>)
    ensures
        match (source_id, path) {
            (Some(_), Some(_)) => r matches Err(e) && e@
                == "pass either --source-id or --path, not both"@,
            (None, None) => r matches Err(e) && e@ == "pass either --source-id or --path"@,
            (Some(id), None) => match first_source(sources@, id@, 0) {
                Some(k) => r matches Ok(s) && s == sources@[k],
                None => r matches Err(e) && e@ == "source "@ + id@ + " not found"@,
            },
            (None, Some(p)) => match first_at(sources@, p.1@, 0) {
                None => r matches Err(e) && e@ == "no source found for path "@ + p.0@,
                Some(k) => match r {
                    Ok(s) => s == sources@[k] && first_at(sources@, p.1@, k + 1) is None,
                    Err(e) => first_at(sources@, p.1@, k + 1) is Some && e@
                        == "multiple sources match path "@ + p.0@ + "; use --source-id instead"@,
                },
            },
        },
{
    match (source_id, path) {
        (Some(_), Some(_)) => Err("pass either --source-id or --path, not both".to_owned()),
        (None, None) => Err("pass either --source-id or --path".to_owned()),
        (Some(id), None) => match find_by_id(sources, id) {
            Some(k) => Ok(sources[k].clone()),
            None => Err(concat3("source ", id, " not found")),
        },
        (None, Some((text, hash))) => match find_at(sources, hash, 0) {
            None => Err(concat2("no source found for path ", text)),
            Some(k) => match find_at(sources, hash, k + 1) {
                Some(_) => Err(
                    concat3("multiple sources match path ", text, "; use --source-id instead"),
                ),
                None => Ok(sources[k].clone()),
            },
        },
    }
}

pub open spec fn first_source(v: Seq<SourceLocation>, id: Seq<char>, i: int) -> Option<int>
    decreases v.len() - i,
{
    if i < 0 || i >= v.len() {
        None
    } else if v[i].source_id.0@ == id {
        Some(i)
    } else {
        first_source(v, id, i + 1)
    }
}

pub open spec fn first_at(v: Seq<SourceLocation>, hash: Seq<char>, i: int) -> Option<int>
    decreases v.len() - i,
{
    if i < 0 || i >= v.len() {
        None
    } else if opt_text(v[i].path_hash) == Some(hash) {
        Some(i)
    } else {
        first_at(v, hash, i + 1)
    }
}

fn find_by_id(v: &[SourceLocation], id: &str) -> (r: Option<usize>)
    ensures
        match r {
            Some(k) => k < v@.len() && first_source(v@, id@, 0) == Some(k as int),
            None => first_source(v@, id@, 0) is None,
        },
{
    let mut i: usize = 0;
    while i < v.len()
        invariant
            i <= v.len(),
            first_source(v@, id@, 0) == first_source(v@, id@, i as int),
        decreases v.len() - i,
    {
        if same_text(v[i].source_id.0.as_str(), id) {
            return Some(i);
        }
        i = i + 1;
    }
    None
}

fn find_at(v: &[SourceLocation], hash: &str, from: usize) -> (r: Option<usize>)
    requires
        from <= v@.len(),
    ensures
        match r {
            Some(k) => k < v@.len() && k < usize::MAX && first_at(v@, hash@, from as int) == Some(
                k as int,
            ),
            None => first_at(v@, hash@, from as int) is None,
        },
{
    let mut i: usize = from;
    while i < v.len()
        invariant
            from <= i <= v.len(),
            first_at(v@, hash@, from as int) == first_at(v@, hash@, i as int),
        decreases v.len() - i,
    {
        let at = match &v[i].path_hash {
            Some(h) => same_text(h.as_str(), hash),
            None => false,
        };
        if at {
            return Some(i);
        }
        i = i + 1;
    }
    None
}

// ---------------------------------------------------------------------------
// Verification
// ---------------------------------------------------------------------------

pub open spec fn mode_named(value: Seq<char>) -> Option<SourceVerificationMode> {
    let v = lowered(trimmed(value));
    if v == "auto"@ {
        Some(SourceVerificationMode::Auto)
    } else if v == "manual_only"@ || v == "manual-only"@ {
        Some(SourceVerificationMode::ManualOnly)
    } else if v == "disabled"@ {
        Some(SourceVerificationMode::Disabled)
    } else {
        None
    }
}

pub fn parse_source_verification_mode(value: &str) -> (r: Result<SourceVerificationMode, String>)
    ensures
        match r {
            Ok(m) => mode_named(value@) == Some(m),
            Err(e) => mode_named(value@) is None && e@ == "unsupported verification mode "@ + value@
                + "; use auto, manual_only, or disabled"@,
        },
{
    let t = trim(value);
    let v = ascii_lowercase(t.as_str());
    if same_text(v.as_str(), "auto") {
        Ok(SourceVerificationMode::Auto)
    } else if same_text(v.as_str(), "manual_only") || same_text(v.as_str(), "manual-only") {
        Ok(SourceVerificationMode::ManualOnly)
    } else if same_text(v.as_str(), "disabled") {
        Ok(SourceVerificationMode::Disabled)
    } else {
        Err(
            concat3(
                "unsupported verification mode ",
                value,
                "; use auto, manual_only, or disabled",
            ),
        )
    }
}

/// A source in another mode; what its login last looked like is only remembered
/// in the automatic one.
pub fn set_verification_mode(
    source: SourceLocation,
    mode: SourceVerificationMode,
    now: Timestamp,
) -> (r: SourceLocation)
    ensures
        r == (SourceLocation {
            verification_mode: mode,
            verified_state_hash: if mode == SourceVerificationMode::Auto {
                source.verified_state_hash
            } else {
                None
            },
            updated_at: now,
            ..source
        }),
{
    let mut r = source;
    r.verification_mode = mode;
    if mode != SourceVerificationMode::Auto {
        r.verified_state_hash = None;
    }
    r.updated_at = now;
    r
}

// ---------------------------------------------------------------------------
// Scanning one source
// ---------------------------------------------------------------------------

/// What is remembered of a file to see whether it changed.
#[derive(Debug, Clone, PartialEq, Eq)]
pub struct ScanFileStateEntry {
    pub cache_key: String,
    pub cache_signature: String,
}

fn copy_entry(e: &ScanFileStateEntry) -> (r: ScanFileStateEntry)
    ensures
        r == *e,
{
    ScanFileStateEntry {
        cache_key: e.cache_key.clone(),
        cache_signature: e.cache_signature.clone(),
    }
}

fn copy_entries(v: &[ScanFileStateEntry]) -> (r: Vec<ScanFileStateEntry>)
    ensures
        r@ == v@,
{
    let mut out: Vec<ScanFileStateEntry> = Vec::new();
    let mut i: usize = 0;
    while i < v.len()
        invariant
            i <= v.len(),
            out@ == v@.take(i as int),
        decreases v.len() - i,
    {
        out.push(copy_entry(&v[i]));
        i = i + 1;
        proof {
            assert(v@.take(i as int) =~= v@.take(i - 1).push(v@[i - 1]));
        }
    }
    proof {
        assert(v@.take(i as int) =~= v@);
    }
    out
}

/// The files to read: all of them where the user asks for it, else those that
/// changed.
pub fn select_scan_file_entries(
    entries: &[ScanFileStateEntry],
    changed: &[ScanFileStateEntry],
    replace: bool,
    no_cache: bool,
) -> (r: Vec<ScanFileStateEntry>)
    ensures
        r@ == if replace || no_cache {
            entries@
        } else {
            changed@
        },
{
    if replace || no_cache {
        copy_entries(entries)
    } else {
        copy_entries(changed)
    }
}

/// The files that are remembered as read once a source was stored: all of them
/// where its records were replaced or every file was read anyway, else those that
/// were read.
pub fn entries_to_record(
    entries: &[ScanFileStateEntry],
    pending: &[ScanFileStateEntry],
    replaces: bool,
    no_cache: bool,
) -> (r: Vec<ScanFileStateEntry>)
    ensures
        r@ == if replaces || no_cache {
            entries@
        } else {
            pending@
        },
{
    if replaces || no_cache {
        copy_entries(entries)
    } else {
        copy_entries(pending)
    }
}

/// Whether a scan replaces what is stored of a source: where the user asks for
/// it, or where every file was read anew.
pub fn should_replace_source_records_for_scan(
    explicit_replace: bool,
    ran_scan: bool,
    candidate_count: usize,
    pending_count: usize,
) -> (r: bool)
    ensures
        r == (explicit_replace || (ran_scan && candidate_count > 0 && pending_count
            == candidate_count)),
{
    explicit_replace || (ran_scan && candidate_count > 0 && pending_count == candidate_count)
}

/// What is known of a source before it is scanned.
pub struct SourceProbe<'a> {
    pub mode: SourceVerificationMode,
    /// What the login last looked like.
    pub stored_state: Option<&'a str>,
    /// What the login looks like now.
    pub next_state: Option<&'a str>,
    /// Whether no login was found now.
    pub state_missing: bool,
    /// Whether an assignment that a login vouched for holds.
    pub has_verified_assignment: bool,
    pub candidates: usize,
    pub pending: usize,
    pub replace: bool,
    pub no_cache: bool,
}

/// What is done about a source.
#[derive(Debug, Clone, Copy, PartialEq, Eq, Structural)]
pub struct SourceScanPlan {
    /// Whether the login looks different from before.
    pub verified_state_changed: bool,
    /// Whether an assignment has to be closed that is older than the memory of
    /// logins.
    pub legacy_reconciliation: bool,
    /// Whether files are read.
    pub full_scan: bool,
}

pub open spec fn plan_of(p: SourceProbe<'_>) -> SourceScanPlan {
    let auto = p.mode == SourceVerificationMode::Auto;
    SourceScanPlan {
        verified_state_changed: auto && opt_str(p.stored_state) != opt_str(p.next_state),
        legacy_reconciliation: auto && p.stored_state is None && p.next_state is None
            && p.state_missing && p.has_verified_assignment,
        full_scan: p.no_cache || p.replace || p.pending > 0,
    }
}

pub fn plan_source_scan(probe: &SourceProbe<'_>) -> (r: SourceScanPlan)
    ensures
        r == plan_of(*probe),
{
    let auto = probe.mode == SourceVerificationMode::Auto;
    let same_state = match (probe.stored_state, probe.next_state) {
        (Some(a), Some(b)) => same_text(a, b),
        (None, None) => true,
        _ => false,
    };
    SourceScanPlan {
        verified_state_changed: auto && !same_state,
        legacy_reconciliation: auto && probe.stored_state.is_none() && probe.next_state.is_none()
            && probe.state_missing && probe.has_verified_assignment,
        full_scan: probe.no_cache || probe.replace || probe.pending > 0,
    }
}

/// What a scan counted.
#[derive(Debug, Clone, Copy, PartialEq, Eq, Structural)]
pub struct ScanDiagnostics {
    pub files_scanned: u64,
    pub files_skipped_unchanged: u64,
    pub raw_rows: u64,
    pub candidate_usage_rows: u64,
    pub accepted_events: u64,
    pub duplicate_events: u64,
    pub skipped_zero_events: u64,
    pub invalid_rows: u64,
    pub timestamp_fallbacks: u64,
    pub model_fallbacks: u64,
}

impl ScanDiagnostics {
    pub open spec fn zero() -> ScanDiagnostics {
        ScanDiagnostics {
            files_scanned: 0,
            files_skipped_unchanged: 0,
            raw_rows: 0,
            candidate_usage_rows: 0,
            accepted_events: 0,
            duplicate_events: 0,
            skipped_zero_events: 0,
            invalid_rows: 0,
            timestamp_fallbacks: 0,
            model_fallbacks: 0,
        }
    }

    /// Whether the counts of two scans can be added.
    pub open spec fn fits(self, o: ScanDiagnostics) -> bool {
        &&& self.files_scanned + o.files_scanned <= u64::MAX
        &&& self.files_skipped_unchanged + o.files_skipped_unchanged <= u64::MAX
        &&& self.raw_rows + o.raw_rows <= u64::MAX
        &&& self.candidate_usage_rows + o.candidate_usage_rows <= u64::MAX
        &&& self.accepted_events + o.accepted_events <= u64::MAX
        &&& self.duplicate_events + o.duplicate_events <= u64::MAX
        &&& self.skipped_zero_events + o.skipped_zero_events <= u64::MAX
        &&& self.invalid_rows + o.invalid_rows <= u64::MAX
        &&& self.timestamp_fallbacks + o.timestamp_fallbacks <= u64::MAX
        &&& self.model_fallbacks + o.model_fallbacks <= u64::MAX
    }

    pub open spec fn plus(self, o: ScanDiagnostics) -> ScanDiagnostics {
        ScanDiagnostics {
            files_scanned: (self.files_scanned + o.files_scanned) as u64,
            files_skipped_unchanged: (self.files_skipped_unchanged + o.files_skipped_unchanged) as u64,
            raw_rows: (self.raw_rows + o.raw_rows) as u64,
            candidate_usage_rows: (self.candidate_usage_rows + o.candidate_usage_rows) as u64,
            accepted_events: (self.accepted_events + o.accepted_events) as u64,
            duplicate_events: (self.duplicate_events + o.duplicate_events) as u64,
            skipped_zero_events: (self.skipped_zero_events + o.skipped_zero_events) as u64,
            invalid_rows: (self.invalid_rows + o.invalid_rows) as u64,
            timestamp_fallbacks: (self.timestamp_fallbacks + o.timestamp_fallbacks) as u64,
            model_fallbacks: (self.model_fallbacks + o.model_fallbacks) as u64,
        }
    }
}

impl Default for ScanDiagnostics {
    fn default() -> (r: Self)
        ensures
            r == ScanDiagnostics::zero(),
    {
        ScanDiagnostics {
            files_scanned: 0,
            files_skipped_unchanged: 0,
            raw_rows: 0,
            candidate_usage_rows: 0,
            accepted_events: 0,
            duplicate_events: 0,
            skipped_zero_events: 0,
            invalid_rows: 0,
            timestamp_fallbacks: 0,
            model_fallbacks: 0,
        }
    }
}

pub fn add_diagnostics(target: &mut ScanDiagnostics, source: &ScanDiagnostics)
    requires
        old(target).fits(*source),
    ensures
        *final(target) == old(target).plus(*source),
{
    target.files_scanned = target.files_scanned + source.files_scanned;
    target.files_skipped_unchanged = target.files_skipped_unchanged + source.files_skipped_unchanged;
    target.raw_rows = target.raw_rows + source.raw_rows;
    target.candidate_usage_rows = target.candidate_usage_rows + source.candidate_usage_rows;
    target.accepted_events = target.accepted_events + source.accepted_events;
    target.duplicate_events = target.duplicate_events + source.duplicate_events;
    target.skipped_zero_events = target.skipped_zero_events + source.skipped_zero_events;
    target.invalid_rows = target.invalid_rows + source.invalid_rows;
    target.timestamp_fallbacks = target.timestamp_fallbacks + source.timestamp_fallbacks;
    target.model_fallbacks = target.model_fallbacks + source.model_fallbacks;
}

/// What is done with what a scan of a source found.
#[derive(Debug, Clone, Copy, PartialEq, Eq, Structural)]
pub enum SourceOutcome {
    /// Nothing was there: the source is not even counted.
    Ignored,
    /// Nothing is new: the source is counted.
    Counted,
    /// What was found is shown.
    Previewed,
    /// What was found is stored.
    Stored,
}

/// What a scan of a source found.
#[derive(Debug, Clone, Copy, PartialEq, Eq, Structural)]
pub struct SourceFindings {
    pub events: u64,
    pub summaries: u64,
    pub pending: usize,
    pub diagnostics: ScanDiagnostics,
}

pub open spec fn any_activity(f: SourceFindings, plan: SourceScanPlan) -> bool {
    ||| f.events > 0
    ||| f.summaries > 0
    ||| f.diagnostics.files_scanned > 0
    ||| f.diagnostics.files_skipped_unchanged > 0
    ||| f.diagnostics.raw_rows > 0
    ||| plan.verified_state_changed
    ||| plan.legacy_reconciliation
}

/// Whether nothing about a source is new.
pub open spec fn nothing_new(f: SourceFindings, plan: SourceScanPlan) -> bool {
    &&& f.events == 0
    &&& f.summaries == 0
    &&& f.pending == 0
    &&& !plan.verified_state_changed
    &&& !plan.legacy_reconciliation
}

pub open spec fn outcome_spec(
    f: SourceFindings,
    plan: SourceScanPlan,
    detailed: bool,
    preview: bool,
) -> SourceOutcome {
    if !any_activity(f, plan) {
        SourceOutcome::Ignored
    } else if !detailed && nothing_new(f, plan) {
        SourceOutcome::Counted
    } else if preview {
        SourceOutcome::Previewed
    } else {
        SourceOutcome::Stored
    }
}

/// What is done with what a scan of a source found. `detailed` is whether the
/// user asks for details.
pub fn source_outcome(
    findings: &SourceFindings,
    plan: &SourceScanPlan,
    detailed: bool,
    preview: bool,
) -> (r: SourceOutcome)
    ensures
        r == outcome_spec(*findings, *plan, detailed, preview),
{
    let activity = findings.events > 0 || findings.summaries > 0
        || findings.diagnostics.files_scanned > 0 || findings.diagnostics.files_skipped_unchanged > 0
        || findings.diagnostics.raw_rows > 0 || plan.verified_state_changed
        || plan.legacy_reconciliation;
    if !activity {
        return SourceOutcome::Ignored;
    }
    let unchanged = findings.events == 0 && findings.summaries == 0 && findings.pending == 0
        && !plan.verified_state_changed && !plan.legacy_reconciliation;
    if !detailed && unchanged {
        return SourceOutcome::Counted;
    }
    if preview {
        SourceOutcome::Previewed
    } else {
        SourceOutcome::Stored
    }
}

/// A preview stores nothing, whatever was found.
pub proof fn a_preview_stores_nothing(f: SourceFindings, plan: SourceScanPlan, detailed: bool)
    ensures
        outcome_spec(f, plan, detailed, true) != SourceOutcome::Stored,
{
}

/// A changed login is never passed over, even where no file changed.
pub proof fn a_changed_login_is_always_stored(f: SourceFindings, plan: SourceScanPlan, detailed: bool)
    requires
        plan.verified_state_changed || plan.legacy_reconciliation,
    ensures
        outcome_spec(f, plan, detailed, false) == SourceOutcome::Stored,
{
}

/// What a whole scan adds up to.
#[derive(Debug, Clone, Copy, PartialEq, Eq, Structural)]
pub struct ScanTotals {
    pub sources: u64,
    pub log_rows: u64,
    pub events: u64,
    pub summaries: u64,
    pub inserted: u64,
    pub summaries_written: u64,
    pub replaced_events: u64,
    pub replaced_summaries: u64,
    pub diagnostics: ScanDiagnostics,
    pub usage: UsageTotals,
    pub summary_usage: UsageTotals,
}

impl Default for ScanTotals {
    fn default() -> (r: Self)
        ensures
            r == ScanTotals::zero(),
    {
        ScanTotals {
            sources: 0,
            log_rows: 0,
            events: 0,
            summaries: 0,
            inserted: 0,
            summaries_written: 0,
            replaced_events: 0,
            replaced_summaries: 0,
            diagnostics: ScanDiagnostics::default(),
            usage: UsageTotals::default(),
            summary_usage: UsageTotals::default(),
        }
    }
}

impl ScanTotals {
    pub open spec fn zero() -> ScanTotals {
        ScanTotals {
            sources: 0,
            log_rows: 0,
            events: 0,
            summaries: 0,
            inserted: 0,
            summaries_written: 0,
            replaced_events: 0,
            replaced_summaries: 0,
            diagnostics: ScanDiagnostics::zero(),
            usage: UsageTotals::zero(),
            summary_usage: UsageTotals::zero(),
        }
    }

    /// Counts a source in.
    pub fn add_source(
        &mut self,
        findings: &SourceFindings,
        usage: &UsageTotals,
        summary_usage: &UsageTotals,
    )
        requires
            old(self).sources < u64::MAX,
            old(self).log_rows + findings.diagnostics.raw_rows <= u64::MAX,
            old(self).events + findings.events <= u64::MAX,
            old(self).summaries + findings.summaries <= u64::MAX,
            old(self).diagnostics.fits(findings.diagnostics),
        ensures
            *final(self) == (ScanTotals {
                sources: (old(self).sources + 1) as u64,
                log_rows: (old(self).log_rows + findings.diagnostics.raw_rows) as u64,
                events: (old(self).events + findings.events) as u64,
                summaries: (old(self).summaries + findings.summaries) as u64,
                diagnostics: old(self).diagnostics.plus(findings.diagnostics),
                usage: old(self).usage.plus_totals(*usage),
                summary_usage: old(self).summary_usage.plus_totals(*summary_usage),
                ..*old(self)
            }),
    {
        self.sources = self.sources + 1;
        self.log_rows = self.log_rows + findings.diagnostics.raw_rows;
        self.events = self.events + findings.events;
        self.summaries = self.summaries + findings.summaries;
        self.usage.add_totals(usage);
        self.summary_usage.add_totals(summary_usage);
        add_diagnostics(&mut self.diagnostics, &findings.diagnostics);
    }

    /// Counts what was stored of a source.
    pub fn add_stored(
        &mut self,
        inserted: u64,
        summaries_written: u64,
        replaced_events: u64,
        replaced_summaries: u64,
    )
        requires
            old(self).inserted + inserted <= u64::MAX,
            old(self).summaries_written + summaries_written <= u64::MAX,
            old(self).replaced_events + replaced_events <= u64::MAX,
            old(self).replaced_summaries + replaced_summaries <= u64::MAX,
        ensures
            *final(self) == (ScanTotals {
                inserted: (old(self).inserted + inserted) as u64,
                summaries_written: (old(self).summaries_written + summaries_written) as u64,
                replaced_events: (old(self).replaced_events + replaced_events) as u64,
                replaced_summaries: (old(self).replaced_summaries + replaced_summaries) as u64,
                ..*old(self)
            }),
    {
        self.inserted = self.inserted + inserted;
        self.summaries_written = self.summaries_written + summaries_written;
        self.replaced_events = self.replaced_events + replaced_events;
        self.replaced_summaries = self.replaced_summaries + replaced_summaries;
    }
}

/// The totals of the first `n` events.
pub open spec fn events_total(v: Seq<UsageEvent>, n: int) -> UsageTotals
    decreases n,
{
    if n <= 0 {
        UsageTotals::zero()
    } else {
        events_total(v, n - 1).plus_event(v[n - 1])
    }
}

/// The totals of the first `n` summaries.
pub open spec fn summaries_total(v: Seq<UsageSummary>, n: int) -> UsageTotals
    decreases n,
{
    if n <= 0 {
        UsageTotals::zero()
    } else {
        summaries_total(v, n - 1).plus_summary(v[n - 1])
    }
}

pub fn total_of_events(events: &[UsageEvent]) -> (r: UsageTotals)
    ensures
        r == events_total(events@, events@.len() as int),
{
    let mut t = UsageTotals::default();
    let mut i: usize = 0;
    while i < events.len()
        invariant
            i <= events.len(),
            t == events_total(events@, i as int),
        decreases events.len() - i,
    {
        t.add_event(&events[i]);
        i = i + 1;
    }
    t
}

pub fn total_of_summaries(summaries: &[UsageSummary]) -> (r: UsageTotals)
    ensures
        r == summaries_total(summaries@, summaries@.len() as int),
{
    let mut t = UsageTotals::default();
    let mut i: usize = 0;
    while i < summaries.len()
        invariant
            i <= summaries.len(),
            t == summaries_total(summaries@, i as int),
        decreases summaries.len() - i,
    {
        t.add_summary(&summaries[i]);
        i = i + 1;
    }
    t
}

} // verus!
