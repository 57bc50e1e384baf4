//! Which sources and paths the rows of a report name, and how a patch names files.
use crate::patch::{PatchLine, PatchPathStyle, cleaned_path, patch_line, unquoted};
use crate::periods::ReportPeriod;
use crate::records::{ProviderAccount, SourceLocation, Subscription, UsageEvent, UsageSummary};
use crate::report::{
    UsageReport, UsageReportRow, are_rows, counts_in, find_account, find_source, identity_label,
    is_report, path_label_spec, report_context, row_path, row_right, row_source, shortened,
    shown_path,
};
use crate::report_row_laws::{belongs_to, lemma_ranked_contains, lemma_two_texts};
use crate::sorted::{Keyed, has_key, key_lt, lemma_key_lt_irreflexive, ranked, texts_increase};
use crate::source_laws::the_last_source_of_an_identifier_counts;
use crate::sources::{DefaultPath, are_merged, is_labelled, is_last, last_with_key};
use crate::text::{starts, texts, trim_back_char, trim_front_char, trimmed, white};
use crate::time::Timestamp;
use vstd::prelude::*;

verus! {

/// A row names each source of its events, once and in order, and no other; and for
/// each of these that is known its path.
pub proof fn a_row_names_the_sources_of_its_events(
    r: UsageReport,
    events: Seq<UsageEvent>,
    summaries: Seq<UsageSummary>,
    sources: Seq<SourceLocation>,
    accounts: Seq<ProviderAccount>,
    subs: Seq<Subscription>,
    period: ReportPeriod,
    now: Timestamp,
    home: Option<Seq<char>>,
    k: int,
    x: Seq<char>,
)
    requires
        is_report(
            r,
            events,
            summaries,
            subs,
            report_context(accounts, sources, home, period, now),
            period,
            now,
        ),
        0 <= k < r.rows@.len(),
    ensures
        ({
            let row = r.rows@[k];
            let w = period.window_spec(now);
            &&& texts_increase(texts(row.sources@))
            &&& texts(row.sources@).contains(x) == exists|i: int|
                0 <= i < events.len() && belongs_to(#[trigger] events[i], row, accounts, w)
                    && events[i].source_id.0@ == x
            &&& texts_increase(texts(row.paths@))
            &&& texts(row.paths@).contains(x) == exists|i: int|
                0 <= i < events.len() && belongs_to(#[trigger] events[i], row, accounts, w)
                    && find_source(sources, events[i].source_id.0@) is Some && path_label_spec(
                    find_source(sources, events[i].source_id.0@)->0,
                    home,
                ) == x
        }),
{
    let c = report_context(accounts, sources, home, period, now);
    let n = events.len() as int;
    let w = period.window_spec(now);
    let rows = choose|rows: Seq<UsageReportRow>|
        are_rows(rows, events, c, n) && r.rows@ == #[trigger] ranked(rows);
    let at = lemma_ranked_contains(rows, k);
    let row = r.rows@[k];
    assert(row_right(rows[at], events, c, n));
    let key = row.key();
    assert forall|e: UsageEvent| #[trigger] counts_in(e, c, key) == belongs_to(e, row, accounts, w) by {
        lemma_two_texts(
            e.provider@,
            identity_label(e.provider_account_id, accounts),
            row.provider@,
            row.account@,
        );
    }
    assert(texts(row.sources@).contains(x) == row_source(events, c, key, n, x));
    assert(texts(row.paths@).contains(x) == row_path(events, c, key, n, x));
    if row_source(events, c, key, n, x) {
        let i = choose|i: int|
            0 <= i < n && counts_in(#[trigger] events[i], c, key) && events[i].source_id.0@ == x;
        assert(belongs_to(events[i], row, accounts, w));
    }
    if row_path(events, c, key, n, x) {
        let i = choose|i: int|
            0 <= i < n && counts_in(#[trigger] events[i], c, key) && shown_path(
                events[i].source_id.0@,
                c,
            ) == Some(x);
        assert(belongs_to(events[i], row, accounts, w));
    }
    if exists|i: int|
        0 <= i < n && belongs_to(#[trigger] events[i], row, accounts, w) && events[i].source_id.0@
            == x {
        let i = choose|i: int|
            0 <= i < n && belongs_to(#[trigger] events[i], row, accounts, w)
                && events[i].source_id.0@ == x;
        assert(counts_in(events[i], c, key));
    }
    if exists|i: int|
        0 <= i < n && belongs_to(#[trigger] events[i], row, accounts, w) && find_source(
            sources,
            events[i].source_id.0@,
        ) is Some && path_label_spec(find_source(sources, events[i].source_id.0@)->0, home) == x {
        let i = choose|i: int|
            0 <= i < n && belongs_to(#[trigger] events[i], row, accounts, w) && find_source(
                sources,
                events[i].source_id.0@,
            ) is Some && path_label_spec(find_source(sources, events[i].source_id.0@)->0, home) == x;
        assert(counts_in(events[i], c, key));
        assert(shown_path(events[i].source_id.0@, c) == Some(x));
    }
}

/// A known source or account is the last with its identifier.
pub proof fn the_last_with_an_identifier_is_meant(
    sources: Seq<SourceLocation>,
    accounts: Seq<ProviderAccount>,
    id: Seq<char>,
    n: int,
)
    ensures
        0 <= n < sources.len() && sources[n].source_id.0@ == id && (forall|k: int|
            n < k < sources.len() ==> (#[trigger] sources[k]).source_id.0@ != id) ==> find_source(
            sources,
            id,
        ) == Some(sources[n]),
        (forall|k: int| 0 <= k < sources.len() ==> (#[trigger] sources[k]).source_id.0@ != id)
            ==> find_source(sources, id) is None,
        0 <= n < accounts.len() && accounts[n].provider_account_id.0@ == id && (forall|k: int|
            n < k < accounts.len() ==> (#[trigger] accounts[k]).provider_account_id.0@ != id)
            ==> find_account(accounts, id) == Some(accounts[n]),
        (forall|k: int|
            0 <= k < accounts.len() ==> (#[trigger] accounts[k]).provider_account_id.0@ != id)
            ==> find_account(accounts, id) is None,
    decreases sources.len() + accounts.len(),
{
    if sources.len() > 0 && sources.last().source_id.0@ != id {
        let less = sources.drop_last();
        the_last_with_an_identifier_is_meant(less, accounts, id, n);
        assert(forall|k: int| 0 <= k < less.len() ==> #[trigger] less[k] == sources[k]);
        if forall|k: int| 0 <= k < sources.len() ==> (#[trigger] sources[k]).source_id.0@ != id {
            assert(find_source(less, id) is None);
        }
    } else {
        if sources.len() > 0 {
            assert(sources[sources.len() - 1].source_id.0@ == id);
        }
        if accounts.len() > 0 && accounts.last().provider_account_id.0@ != id {
            let less = accounts.drop_last();
            the_last_with_an_identifier_is_meant(sources, less, id, n);
            assert(forall|k: int| 0 <= k < less.len() ==> #[trigger] less[k] == accounts[k]);
        } else if accounts.len() > 0 {
            assert(accounts[accounts.len() - 1].provider_account_id.0@ == id);
        }
    }
}

/// A path below the home directory is shown below the home sign; any other as it is,
/// and a source without a path as unknown.
pub proof fn paths_below_home_are_shown_short(
    home: Seq<char>,
    rest: Seq<char>,
    other: Seq<char>,
    s: SourceLocation,
)
    requires
        !(home.len() <= other.len() && other.take(home.len() as int) == home),
    ensures
        shortened(home + rest, Some(home)) == seq!['~'] + rest,
        shortened(other, Some(home)) == other,
        shortened(other, None) == other,
        s.path_label is Some && s.path_label->0@ == home + rest ==> path_label_spec(s, Some(home))
            == seq!['~'] + rest,
        s.path_label is None ==> path_label_spec(s, None) == "unknown"@,
{
    reveal_strlit("~");
    assert("~"@ =~= seq!['~']);
    assert((home + rest).take(home.len() as int) =~= home);
    assert((home + rest).skip(home.len() as int) =~= rest);
}

/// A path in a patch's header is named as it stands, but for quotes and white space
/// around it and the letter that the tool puts before it.
pub proof fn a_header_names_the_path(path: Seq<char>)
    requires
        path.len() > 0,
        forall|k: int| 0 <= k < path.len() ==> !white(#[trigger] path[k]) && path[k] != '"',
        !(path.len() >= 2 && path[1] == '/'),
        path != "/dev/null"@,
    ensures
        cleaned_path(path, PatchPathStyle::Literal) == Some(path),
        cleaned_path(path, PatchPathStyle::GitDestination) == Some(path),
        cleaned_path(path, PatchPathStyle::GitSource) == Some(path),
        cleaned_path(seq!['b', '/'] + path, PatchPathStyle::GitDestination) == Some(path),
        cleaned_path(seq!['a', '/'] + path, PatchPathStyle::GitSource) == Some(path),
        cleaned_path(seq!['a', '/'] + path, PatchPathStyle::GitDestination) == Some(
            seq!['a', '/'] + path,
        ),
        cleaned_path("/dev/null"@, PatchPathStyle::GitDestination) is None,
        cleaned_path("/dev/null"@, PatchPathStyle::GitSource) is None,
        cleaned_path("/dev/null"@, PatchPathStyle::Literal) is None,
        cleaned_path(seq!['"'] + path + seq!['"'], PatchPathStyle::Literal) == Some(path),
{
    reveal_strlit("b/");
    reveal_strlit("a/");
    reveal_strlit("/dev/null");
    assert("b/"@ =~= seq!['b', '/']);
    assert("a/"@ =~= seq!['a', '/']);
    lemma_unquoted(path);
    let b = seq!['b', '/'] + path;
    let a = seq!['a', '/'] + path;
    assert forall|k: int| 0 <= k < b.len() implies !white(#[trigger] b[k]) && b[k] != '"' by {
        if k >= 2 {
            assert(b[k] == path[k - 2]);
        }
    }
    assert forall|k: int| 0 <= k < a.len() implies !white(#[trigger] a[k]) && a[k] != '"' by {
        if k >= 2 {
            assert(a[k] == path[k - 2]);
        }
    }
    lemma_unquoted(b);
    lemma_unquoted(a);
    lemma_unquoted("/dev/null"@);
    assert(a[0] != "/dev/null"@[0] && b[0] != "/dev/null"@[0]);
    assert(b.take(2) =~= "b/"@ && b.skip(2) =~= path);
    assert(a.take(2) =~= "a/"@ && a.skip(2) =~= path);
    assert(a.take(2)[0] != "b/"@[0]);
    if starts(path, "b/"@) {
        assert(path.take(2)[1] == '/');
    }
    if starts(path, "a/"@) {
        assert(path.take(2)[1] == '/');
    }
    let q = seq!['"'] + path + seq!['"'];
    assert(!white(q[0]) && !white(q[q.len() - 1]));
    assert(trimmed(q) == q);
    assert(q.skip(1) =~= path + seq!['"']);
    assert((path + seq!['"'])[0] == path[0]);
    assert(trim_front_char(q, '"') == trim_front_char(q.skip(1), '"'));
    assert(trim_front_char(q.skip(1), '"') == q.skip(1));
    let t = path + seq!['"'];
    assert(t.last() == '"');
    assert(t.drop_last() =~= path);
    assert(path.last() == path[path.len() - 1]);
    assert(trim_back_char(path, '"') == path);
    assert(trim_back_char(t, '"') == trim_back_char(t.drop_last(), '"'));
}

proof fn lemma_unquoted(s: Seq<char>)
    requires
        s.len() > 0,
        forall|k: int| 0 <= k < s.len() ==> !white(#[trigger] s[k]) && s[k] != '"',
    ensures
        unquoted(s) == s,
{
    assert(!white(s[0]) && s[0] != '"');
    assert(!white(s[s.len() - 1]) && s[s.len() - 1] != '"');
}

/// Lines of a hunk are those that begin with a sign, without the sign.
pub proof fn hunk_lines_lose_their_sign(rest: Seq<char>, next: Option<Seq<char>>)
    requires
        !(rest.len() >= 3 && rest.take(3) == seq!['-', '-', ' ']),
    ensures
        patch_line(seq!['+'] + rest, next, true) == PatchLine::Added(rest),
        patch_line(seq!['-'] + rest, next, true) == PatchLine::Deleted(rest),
        patch_line(seq![' '] + rest, next, true) == PatchLine::Other,
        patch_line(seq!['-'] + rest, next, false) == PatchLine::Other,
        patch_line(seq!['@', '@'] + rest, next, true) == PatchLine::Hunk,
        patch_line(seq!['@', '@'] + rest, next, false) == PatchLine::Hunk,
{
    reveal_strlit("*** Add File: ");
    reveal_strlit("*** Update File: ");
    reveal_strlit("*** Delete File: ");
    reveal_strlit("*** Move to: ");
    reveal_strlit("diff --git ");
    reveal_strlit("--- ");
    reveal_strlit("+++ ");
    reveal_strlit("@@");
    reveal_strlit("*** End Patch");
    reveal_strlit("*** End of File");
    reveal_strlit("+");
    reveal_strlit("-");
    let plus = seq!['+'] + rest;
    let minus = seq!['-'] + rest;
    let space = seq![' '] + rest;
    let hunk = seq!['@', '@'] + rest;
    lemma_first_differs(plus);
    lemma_first_differs(minus);
    lemma_first_differs(space);
    lemma_first_differs(hunk);
    assert(plus.take(1) =~= "+"@ && plus.skip(1) =~= rest);
    assert(minus.take(1) =~= "-"@ && minus.skip(1) =~= rest);
    assert(hunk.take(2) =~= "@@"@);
    if starts(minus, "--- "@) {
        assert(minus.take(4) =~= "--- "@);
        assert(rest.take(3) =~= seq!['-', '-', ' ']) by {
            assert(minus.take(4)[1] == '-' && minus.take(4)[2] == '-' && minus.take(4)[3] == ' ');
        }
    }
    if starts(minus, "@@"@) {
        assert(minus.take(2)[0] == '@');
    }
    if starts(plus, "@@"@) {
        assert(plus.take(2)[0] == '@');
    }
    if starts(space, "@@"@) {
        assert(space.take(2)[0] == '@');
    }
    if starts(minus, "+"@) {
        assert(minus.take(1)[0] == '+');
    }
    if starts(space, "+"@) {
        assert(space.take(1)[0] == '+');
    }
    if starts(space, "-"@) {
        assert(space.take(1)[0] == '-');
    }
    if starts(plus, "--- "@) {
        assert(plus.take(4)[0] == '-');
    }
    if starts(space, "--- "@) {
        assert(space.take(4)[0] == '-');
    }
    if starts(hunk, "--- "@) {
        assert(hunk.take(4)[0] == '-');
    }
    if starts(hunk, "+++ "@) {
        assert(hunk.take(4)[0] == '+');
    }
    if starts(minus, "+++ "@) {
        assert(minus.take(4)[0] == '+');
    }
}

proof fn lemma_first_differs(line: Seq<char>)
    requires
        line.len() > 0,
        line[0] != '*',
        line[0] != 'd',
    ensures
        !starts(line, "*** Add File: "@),
        !starts(line, "*** Update File: "@),
        !starts(line, "*** Delete File: "@),
        !starts(line, "*** Move to: "@),
        !starts(line, "diff --git "@),
        !starts(line, "*** End Patch"@),
        !starts(line, "*** End of File"@),
{
    reveal_strlit("*** Add File: ");
    reveal_strlit("*** Update File: ");
    reveal_strlit("*** Delete File: ");
    reveal_strlit("*** Move to: ");
    reveal_strlit("diff --git ");
    reveal_strlit("*** End Patch");
    reveal_strlit("*** End of File");
    if line.len() >= 14 {
        assert(line.take(14)[0] == line[0]);
    }
    if line.len() >= 17 {
        assert(line.take(17)[0] == line[0]);
    }
    if line.len() >= 13 {
        assert(line.take(13)[0] == line[0]);
    }
    if line.len() >= 11 {
        assert(line.take(11)[0] == line[0]);
    }
    if line.len() >= 15 {
        assert(line.take(15)[0] == line[0]);
    }
}

/// Merged sources have each identifier once, in order, and each is the last given
/// with its identifier, with no more than its label added.
pub proof fn merged_sources_are_the_last_of_each_identifier(
    r: Seq<SourceLocation>,
    all: Seq<SourceLocation>,
    candidates: Seq<DefaultPath>,
    i: int,
)
    requires
        are_merged(r, all, candidates, all.len() as int),
    ensures
        0 <= i < r.len() ==> exists|k: int|
            0 <= k < all.len() && #[trigger] all[k] == (SourceLocation {
                path_label: all[k].path_label,
                ..r[i]
            }) && (all[k].path_label is Some ==> all[k] == r[i]) && forall|j: int|
                k < j < all.len() ==> (#[trigger] all[j]).source_id.0@ != r[i].source_id.0@,
        0 <= i < all.len() ==> exists|k: int|
            0 <= k < r.len() && (#[trigger] r[k]).source_id.0@ == all[i].source_id.0@,
        forall|a: int, b: int|
            0 <= a < b < r.len() ==> (#[trigger] r[a]).source_id.0@ != (
            #[trigger] r[b]).source_id.0@,
{
    let n = all.len() as int;
    if 0 <= i < r.len() {
        assert(is_last(r[i], all, candidates, n));
        the_last_source_of_an_identifier_counts(all, r[i].key(), n);
        let k = last_with_key(all, r[i].key(), n)->0;
        assert(is_labelled(r[i], all[k], candidates));
        assert forall|j: int| k < j < all.len() implies (#[trigger] all[j]).source_id.0@
            != r[i].source_id.0@ by {
            assert(all[j].key() != r[i].key());
            if all[j].source_id.0@ == r[i].source_id.0@ {
                assert(all[j].key() =~= r[i].key());
            }
        }
        assert(all[k] == (SourceLocation { path_label: all[k].path_label, ..r[i] }));
    }
    if 0 <= i < all.len() {
        assert(has_key(r, all[i].key()));
        let k = choose|k: int| 0 <= k < r.len() && (#[trigger] r[k]).key() == all[i].key();
        assert(r[k].key()[0] == all[i].key()[0]);
        assert(r[k].source_id.0@ == all[i].source_id.0@);
    }
    assert forall|a: int, b: int| 0 <= a < b < r.len() implies (#[trigger] r[a]).source_id.0@ != (
    #[trigger] r[b]).source_id.0@ by {
        assert(key_lt(r[a].key(), r[b].key()));
        if r[a].source_id.0@ == r[b].source_id.0@ {
            assert(r[a].key() =~= r[b].key());
            lemma_key_lt_irreflexive(r[a].key());
        }
    }
}

} // verus!
