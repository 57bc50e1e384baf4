//! Providers and accounts: naming, finding, merging and removing them.
use crate::ids::ProviderAccountId;
use crate::records::{
    ProviderAccount, SourceAccountAssignment, Subscription, UsageEvent, UsageSummary, account_name,
    account_text, display_account_identity, is_account,
};
use crate::sync_flow::{given, non_blank_text};
use crate::text::{
    ascii_lowercase, chars_of, concat2, concat3, decimal, lowered, opt_str, opt_text, push_decimal,
    replace_char, replaced, same_text, slice_string, trim, trimmed,
};
use vstd::prelude::*;

verus! {

// ---------------------------------------------------------------------------
// Providers
// ---------------------------------------------------------------------------

pub const CLAUDE_CODE: &'static str = "claude_code";

pub const CODEX: &'static str = "codex";

/// The first word of `CLAUDE_CODE`, by which that provider is known too.
pub open spec fn first_word() -> Seq<char> {
    CLAUDE_CODE@.take(6)
}

pub fn claude_first_word() -> (r: String)
    ensures
        r@ == first_word(),
{
    proof {
        reveal_strlit("claude_code");
        assert(CLAUDE_CODE@.subrange(0, 6) =~= CLAUDE_CODE@.take(6));
    }
    let cs = chars_of(CLAUDE_CODE);
    slice_string(&cs, 0, 6)
}

/// The one name of a provider that may be written in several ways: with a hyphen
/// for the underscore, or by its first word.
pub open spec fn canonical_name(provider: Seq<char>) -> Option<Seq<char>> {
    if provider == CLAUDE_CODE@ || provider == replaced(CLAUDE_CODE@, '_', '-') || provider
        == first_word() {
        Some(CLAUDE_CODE@)
    } else if provider == CODEX@ {
        Some(CODEX@)
    } else {
        None
    }
}

pub fn canonical_provider_name(provider: &str) -> (r: Option<&'static str>)
    ensures
        opt_str(r) == canonical_name(provider@),
{
    let hyphenated = replace_char(CLAUDE_CODE, '_', '-');
    let word = claude_first_word();
    if same_text(provider, CLAUDE_CODE) || same_text(provider, hyphenated.as_str()) || same_text(
        provider,
        word.as_str(),
    ) {
        Some(CLAUDE_CODE)
    } else if same_text(provider, CODEX) {
        Some(CODEX)
    } else {
        None
    }
}

pub fn canonical_provider(provider: &str) -> (r: Result<String, String>)
    ensures
        match r {
            Ok(p) => canonical_name(provider@) == Some(p@),
            Err(e) => canonical_name(provider@) is None && e@ == "unsupported provider "@ + provider@,
        },
{
    match canonical_provider_name(provider) {
        Some(p) => Ok(p.to_owned()),
        None => Err(concat2("unsupported provider ", provider)),
    }
}

/// Whether two names are of one provider. Names that are not known are compared
/// with hyphens and underscores taken for each other.
pub open spec fn same_provider(left: Seq<char>, right: Seq<char>) -> bool {
    match (canonical_name(left), canonical_name(right)) {
        (Some(a), Some(b)) => a == b,
        _ => left == right || replaced(left, '-', '_') == right || replaced(left, '_', '-') == right,
    }
}

pub fn provider_matches(left: &str, right: &str) -> (r: bool)
    ensures
        r == same_provider(left@, right@),
{
    match (canonical_provider_name(left), canonical_provider_name(right)) {
        (Some(a), Some(b)) => same_text(a, b),
        _ => {
            let underscored = replace_char(left, '-', '_');
            let hyphenated = replace_char(left, '_', '-');
            same_text(left, right) || same_text(underscored.as_str(), right) || same_text(
                hyphenated.as_str(),
                right,
            )
        },
    }
}

/// Every name is of its own provider, and names with a canonical form are of one
/// provider whichever is given first.
pub proof fn provider_names_agree(a: Seq<char>, b: Seq<char>)
    ensures
        same_provider(a, a),
        canonical_name(a) is Some && canonical_name(b) is Some ==> same_provider(a, b)
            == same_provider(b, a),
        canonical_name(a) matches Some(c) ==> canonical_name(c) == Some(c),
{
    reveal_strlit("claude_code");
    reveal_strlit("codex");
}

// ---------------------------------------------------------------------------
// Finding an account
// ---------------------------------------------------------------------------

/// An address as addresses are compared.
pub fn normalize_email(email: &str) -> (r: String)
    ensures
        r@ == lowered(trimmed(email@)),
{
    let t = trim(email);
    ascii_lowercase(t.as_str())
}

/// A provider's own name for an account as such names are compared.
pub fn normalize_provider_user_id(id: &str) -> (r: String)
    ensures
        r@ == trimmed(id@),
{
    trim(id)
}

/// Whether an account is named by its identifier, address, provider's name or
/// label.
pub open spec fn named_by(a: ProviderAccount, selector: Seq<char>) -> bool {
    ||| a.provider_account_id.0@ == selector
    ||| (a.email matches Some(e) && lowered(trimmed(e@)) == lowered(trimmed(selector)))
    ||| (a.provider_user_id matches Some(u) && trimmed(u@) == trimmed(selector))
    ||| (a.account_label matches Some(l) && lowered(trimmed(l@)) == lowered(selector))
}

/// The places of the provider's accounts among the first `n` that are named.
pub open spec fn named_places(
    v: Seq<ProviderAccount>,
    provider: Seq<char>,
    selector: Seq<char>,
    n: int,
) -> Seq<int>
    decreases n,
{
    if n <= 0 {
        Seq::empty()
    } else {
        let before = named_places(v, provider, selector, n - 1);
        if v[n - 1].provider@ == provider && named_by(v[n - 1], selector) {
            before.push(n - 1)
        } else {
            before
        }
    }
}

fn is_named_by(a: &ProviderAccount, selector: &str) -> (r: bool)
    ensures
        r == named_by(*a, selector@),
{
    let email = normalize_email(selector);
    let user = normalize_provider_user_id(selector);
    let label = ascii_lowercase(selector);
    let by_email = match &a.email {
        Some(e) => {
            let x = normalize_email(e.as_str());
            same_text(x.as_str(), email.as_str())
        },
        None => false,
    };
    let by_user = match &a.provider_user_id {
        Some(u) => {
            let x = normalize_provider_user_id(u.as_str());
            same_text(x.as_str(), user.as_str())
        },
        None => false,
    };
    let by_label = match &a.account_label {
        Some(l) => {
            let t = trim(l.as_str());
            let x = ascii_lowercase(t.as_str());
            same_text(x.as_str(), label.as_str())
        },
        None => false,
    };
    same_text(a.provider_account_id.0.as_str(), selector) || by_email || by_user || by_label
}

/// The one account of the provider that a selector names.
pub open spec fn selection(
    accounts: Seq<ProviderAccount>,
    provider: Seq<char>,
    selector: Seq<char>,
) -> Option<ProviderAccount> {
    let s = trimmed(selector);
    let found = named_places(accounts, provider, s, accounts.len() as int);
    if s.len() > 0 && found.len() == 1 {
        Some(accounts[found[0]])
    } else {
        None
    }
}

/// Why a selector names no single account.
pub open spec fn selection_error(
    accounts: Seq<ProviderAccount>,
    provider: Seq<char>,
    selector: Seq<char>,
) -> Seq<char> {
    let s = trimmed(selector);
    if s.len() == 0 {
        "account selector cannot be empty"@
    } else if named_places(accounts, provider, s, accounts.len() as int).len() == 0 {
        "no "@ + provider + " account matched '"@ + s + "'"@
    } else {
        "multiple "@ + provider + " accounts matched '"@ + s + "'"@
    }
}

/// The one account of a provider that a selector names. Fails on a blank
/// selector, where no account is named and where several are.
pub fn resolve_existing_provider_account_selector(
    accounts: &[ProviderAccount],
    provider: &str,
    selector: &str,
) -> (r: Result<ProviderAccount, String>)
    ensures
        match r {
            Ok(a) => selection(accounts@, provider@, selector@) == Some(a),
            Err(e) => selection(accounts@, provider@, selector@) is None && e@ == selection_error(
                accounts@,
                provider@,
                selector@,
            ),
        },
{
    let s = trim(selector);
    if s.as_str().is_empty() {
        return Err("account selector cannot be empty".to_owned());
    }
    let mut found: Option<usize> = None;
    let mut several = false;
    let mut i: usize = 0;
    while i < accounts.len()
        invariant
            i <= accounts.len(),
            s@ == trimmed(selector@),
            ({
                let places = named_places(accounts@, provider@, s@, i as int);
                &&& match found {
                    Some(k) => k < accounts@.len() && places.len() > 0 && places[0] == k,
                    None => places.len() == 0,
                }
                &&& several == (places.len() > 1)
            }),
        decreases accounts.len() - i,
    {
        let a = &accounts[i];
        if same_text(a.provider.as_str(), provider) && is_named_by(a, s.as_str()) {
            match found {
                Some(_) => {
                    several = true;
                },
                None => {
                    found = Some(i);
                },
            }
        }
        i = i + 1;
    }
    match found {
        None => {
            let mut message = concat3("no ", provider, " account matched '");
            message.append(s.as_str());
            message.append("'");
            Err(message)
        },
        Some(k) => {
            if several {
                let mut message = concat3("multiple ", provider, " accounts matched '");
                message.append(s.as_str());
                message.append("'");
                return Err(message);
            }
            Ok(accounts[k].clone())
        },
    }
}

pub fn ensure_account_matches_provider(account: &ProviderAccount, provider: &str) -> (r: Result<
    (),
    String,
>)
    ensures
        match r {
            Ok(_) => account.provider@ == provider@,
            Err(e) => account.provider@ != provider@ && e@ == "provider account "@
                + account.provider_account_id.0@ + " belongs to "@ + account.provider@ + ", not "@
                + provider@,
        },
{
    if same_text(account.provider.as_str(), provider) {
        return Ok(());
    }
    let mut message = concat3(
        "provider account ",
        account.provider_account_id.0.as_str(),
        " belongs to ",
    );
    message.append(account.provider.as_str());
    message.append(", not ");
    message.append(provider);
    Err(message)
}

pub open spec fn wrong_provider_text(a: ProviderAccount, provider: Seq<char>) -> Seq<char> {
    "provider account "@ + a.provider_account_id.0@ + " belongs to "@ + a.provider@ + ", not "@
        + provider
}

/// The first account of the provider from `i` on with the label.
pub open spec fn first_labelled(
    v: Seq<ProviderAccount>,
    provider: Seq<char>,
    label: Seq<char>,
    i: int,
) -> Option<int>
    decreases v.len() - i,
{
    if i < 0 || i >= v.len() {
        None
    } else if v[i].provider@ == provider && opt_text(v[i].account_label) == Some(label) {
        Some(i)
    } else {
        first_labelled(v, provider, label, i + 1)
    }
}

fn find_labelled(v: &[ProviderAccount], provider: &str, label: &str, from: usize) -> (r: Option<
    usize,
>)
    requires
        from <= v@.len(),
    ensures
        match r {
            Some(k) => k < v@.len() && k < usize::MAX && first_labelled(
                v@,
                provider@,
                label@,
                from as int,
            ) == Some(k as int),
            None => first_labelled(v@, provider@, label@, from as int) is None,
        },
{
    let mut i: usize = from;
    while i < v.len()
        invariant
            from <= i <= v.len(),
            first_labelled(v@, provider@, label@, from as int) == first_labelled(
                v@,
                provider@,
                label@,
                i as int,
            ),
        decreases v.len() - i,
    {
        let labelled = match &v[i].account_label {
            Some(l) => same_text(l.as_str(), label),
            None => false,
        };
        if same_text(v[i].provider.as_str(), provider) && labelled {
            return Some(i);
        }
        i = i + 1;
    }
    None
}

/// The account that options name: by identifier where one is given, else by the
/// identity that was found for the options, else by a label that names one alone.
/// `by_id` and `by_identity` are what the store holds under them.
pub fn resolve_existing_provider_account(
    accounts: &[ProviderAccount],
    provider: &str,
    provider_account_id: Option<&str>,
    by_id: Option<&ProviderAccount>,
    by_identity: Option<&ProviderAccount>,
    label: Option<&str>,
) -> (r: Result<ProviderAccount, String>)
    ensures
        match provider_account_id {
            Some(id) => match by_id {
                Some(a) => match r {
                    Ok(x) => a.provider@ == provider@ && x == *a,
                    Err(e) => a.provider@ != provider@ && e@ == wrong_provider_text(*a, provider@),
                },
                None => r matches Err(e) && e@ == "unknown provider account "@ + id@,
            },
            None => match by_identity {
                Some(a) => r matches Ok(x) && x == *a,
                None => match given(opt_str(label)) {
                    None => r matches Err(e) && e@ == "unknown provider account selector for "@
                        + provider@,
                    Some(l) => match first_labelled(accounts@, provider@, l, 0) {
                        None => r matches Err(e) && e@ == "unknown provider account label "@ + l
                            + " for "@ + provider@,
                        Some(k) => match r {
                            Ok(x) => x == accounts@[k] && first_labelled(
                                accounts@,
                                provider@,
                                l,
                                k + 1,
                            ) is None,
                            Err(e) => first_labelled(accounts@, provider@, l, k + 1) is Some && e@
                                == "provider account label "@ + l + " is ambiguous for "@
                                + provider@,
                        },
                    },
                },
            },
        },
{
    match provider_account_id {
        Some(id) => {
            match by_id {
                Some(a) => {
                    match ensure_account_matches_provider(a, provider) {
                        Ok(_) => Ok(a.clone()),
                        Err(e) => Err(e),
                    }
                },
                None => Err(concat2("unknown provider account ", id)),
            }
        },
        None => {
            match by_identity {
                Some(a) => return Ok(a.clone()),
                None => {},
            }
            match non_blank_text(label) {
                None => Err(concat2("unknown provider account selector for ", provider)),
                Some(l) => match find_labelled(accounts, provider, l.as_str(), 0) {
                    None => {
                        let mut message = concat3(
                            "unknown provider account label ",
                            l.as_str(),
                            " for ",
                        );
                        message.append(provider);
                        Err(message)
                    },
                    Some(k) => match find_labelled(accounts, provider, l.as_str(), k + 1) {
                        Some(_) => {
                            let mut message = concat3(
                                "provider account label ",
                                l.as_str(),
                                " is ambiguous for ",
                            );
                            message.append(provider);
                            Err(message)
                        },
                        None => Ok(accounts[k].clone()),
                    },
                },
            }
        },
    }
}

/// What to do about an account that options name.
#[derive(Debug, Clone, PartialEq, Eq)]
pub enum AccountResolution {
    Existing(ProviderAccount),
    /// Find or create it by provider, provider's name, address and label.
    Upsert,
}

/// An account given by identifier has to exist, or be described otherwise; an
/// existing one has to be the provider's.
pub fn account_resolution(
    provider: &str,
    provider_account_id: Option<&str>,
    by_id: Option<&ProviderAccount>,
    has_provider_user_id: bool,
    has_email: bool,
) -> (r: Result<AccountResolution, String>)
    ensures
        match (provider_account_id, by_id) {
            (Some(_), Some(a)) => match r {
                Ok(x) => a.provider@ == provider@ && x == AccountResolution::Existing(*a),
                Err(e) => a.provider@ != provider@ && e@ == wrong_provider_text(*a, provider@),
            },
            (Some(id), None) => if has_provider_user_id || has_email {
                r == Ok::<AccountResolution, String>(AccountResolution::Upsert)
            } else {
                r matches Err(e) && e@ == "unknown provider account "@ + id@
            },
            (None, _) => r == Ok::<AccountResolution, String>(AccountResolution::Upsert),
        },
{
    match provider_account_id {
        Some(id) => match by_id {
            Some(a) => match ensure_account_matches_provider(a, provider) {
                Ok(_) => Ok(AccountResolution::Existing(a.clone())),
                Err(e) => Err(e),
            },
            None => if has_provider_user_id || has_email {
                Ok(AccountResolution::Upsert)
            } else {
                Err(concat2("unknown provider account ", id))
            },
        },
        None => Ok(AccountResolution::Upsert),
    }
}

// ---------------------------------------------------------------------------
// References
// ---------------------------------------------------------------------------

/// How many records refer to an account.
#[derive(Debug, Clone, Copy, PartialEq, Eq, Structural)]
pub struct AccountReferenceCounts {
    pub source_account_assignments: usize,
    pub subscriptions: usize,
    pub events: usize,
    pub summaries: usize,
}

impl AccountReferenceCounts {
    pub open spec fn total_spec(self) -> int {
        self.source_account_assignments + self.subscriptions + self.events + self.summaries
    }

    pub fn total(&self) -> (r: usize)
        requires
            self.total_spec() <= usize::MAX,
        ensures
            r == self.total_spec(),
    {
        self.source_account_assignments + self.subscriptions + self.events + self.summaries
    }

    /// Whether nothing refers to the account.
    pub fn none(&self) -> (r: bool)
        ensures
            r == (self.total_spec() == 0),
    {
        self.source_account_assignments == 0 && self.subscriptions == 0 && self.events == 0
            && self.summaries == 0
    }
}

pub open spec fn provider_is(row: Seq<char>, provider: Option<Seq<char>>) -> bool {
    provider matches Some(p) ==> row == p
}

pub(crate) fn is_provider(row: &str, provider: Option<&str>) -> (r: bool)
    ensures
        r == provider_is(row@, opt_str(provider)),
{
    match provider {
        Some(p) => same_text(row, p),
        None => true,
    }
}

/// The assignments among the first `n` to the account.
pub open spec fn assignments_to(
    v: Seq<SourceAccountAssignment>,
    account: Seq<char>,
    provider: Option<Seq<char>>,
    n: int,
) -> Seq<SourceAccountAssignment>
    decreases n,
{
    if n <= 0 {
        Seq::empty()
    } else {
        let before = assignments_to(v, account, provider, n - 1);
        if v[n - 1].provider_account_id.0@ == account && provider_is(v[n - 1].provider@, provider) {
            before.push(v[n - 1])
        } else {
            before
        }
    }
}

pub open spec fn subscriptions_of(
    v: Seq<Subscription>,
    account: Seq<char>,
    provider: Option<Seq<char>>,
    n: int,
) -> Seq<Subscription>
    decreases n,
{
    if n <= 0 {
        Seq::empty()
    } else {
        let before = subscriptions_of(v, account, provider, n - 1);
        if v[n - 1].provider_account_id.0@ == account && provider_is(v[n - 1].provider@, provider) {
            before.push(v[n - 1])
        } else {
            before
        }
    }
}

pub open spec fn events_of(
    v: Seq<UsageEvent>,
    account: Seq<char>,
    provider: Option<Seq<char>>,
    n: int,
) -> Seq<UsageEvent>
    decreases n,
{
    if n <= 0 {
        Seq::empty()
    } else {
        let before = events_of(v, account, provider, n - 1);
        if account_text(v[n - 1].provider_account_id) == Some(account) && provider_is(
            v[n - 1].provider@,
            provider,
        ) {
            before.push(v[n - 1])
        } else {
            before
        }
    }
}

pub open spec fn summaries_of(
    v: Seq<UsageSummary>,
    account: Seq<char>,
    provider: Option<Seq<char>>,
    n: int,
) -> Seq<UsageSummary>
    decreases n,
{
    if n <= 0 {
        Seq::empty()
    } else {
        let before = summaries_of(v, account, provider, n - 1);
        if account_text(v[n - 1].provider_account_id) == Some(account) && provider_is(
            v[n - 1].provider@,
            provider,
        ) {
            before.push(v[n - 1])
        } else {
            before
        }
    }
}

pub fn account_assignments(
    v: &[SourceAccountAssignment],
    account: &ProviderAccountId,
    provider: Option<&str>,
) -> (r: Vec<SourceAccountAssignment>)
    ensures
        r@ == assignments_to(v@, account.0@, opt_str(provider), v@.len() as int),
        r@.len() <= v@.len(),
{
    let mut out: Vec<SourceAccountAssignment> = Vec::new();
    let mut i: usize = 0;
    while i < v.len()
        invariant
            i <= v.len(),
            out@.len() <= i,
            out@ == assignments_to(v@, account.0@, opt_str(provider), i as int),
        decreases v.len() - i,
    {
        if same_text(v[i].provider_account_id.0.as_str(), account.0.as_str()) && is_provider(
            v[i].provider.as_str(),
            provider,
        ) {
            out.push(v[i].clone());
        }
        i = i + 1;
    }
    out
}

pub fn account_subscriptions(
    v: &[Subscription],
    account: &ProviderAccountId,
    provider: Option<&str>,
) -> (r: Vec<Subscription>)
    ensures
        r@ == subscriptions_of(v@, account.0@, opt_str(provider), v@.len() as int),
        r@.len() <= v@.len(),
{
    let mut out: Vec<Subscription> = Vec::new();
    let mut i: usize = 0;
    while i < v.len()
        invariant
            i <= v.len(),
            out@.len() <= i,
            out@ == subscriptions_of(v@, account.0@, opt_str(provider), i as int),
        decreases v.len() - i,
    {
        if same_text(v[i].provider_account_id.0.as_str(), account.0.as_str()) && is_provider(
            v[i].provider.as_str(),
            provider,
        ) {
            out.push(v[i].clone());
        }
        i = i + 1;
    }
    out
}

pub fn account_events(v: &[UsageEvent], account: &ProviderAccountId, provider: Option<&str>) -> (r:
    Vec<UsageEvent>)
    ensures
        r@ == events_of(v@, account.0@, opt_str(provider), v@.len() as int),
        r@.len() <= v@.len(),
{
    let mut out: Vec<UsageEvent> = Vec::new();
    let mut i: usize = 0;
    while i < v.len()
        invariant
            i <= v.len(),
            out@.len() <= i,
            out@ == events_of(v@, account.0@, opt_str(provider), i as int),
        decreases v.len() - i,
    {
        if is_account(&v[i].provider_account_id, account) && is_provider(
            v[i].provider.as_str(),
            provider,
        ) {
            out.push(v[i].clone());
        }
        i = i + 1;
    }
    out
}

pub fn account_summaries(
    v: &[UsageSummary],
    account: &ProviderAccountId,
    provider: Option<&str>,
) -> (r: Vec<UsageSummary>)
    ensures
        r@ == summaries_of(v@, account.0@, opt_str(provider), v@.len() as int),
        r@.len() <= v@.len(),
{
    let mut out: Vec<UsageSummary> = Vec::new();
    let mut i: usize = 0;
    while i < v.len()
        invariant
            i <= v.len(),
            out@.len() <= i,
            out@ == summaries_of(v@, account.0@, opt_str(provider), i as int),
        decreases v.len() - i,
    {
        if is_account(&v[i].provider_account_id, account) && is_provider(
            v[i].provider.as_str(),
            provider,
        ) {
            out.push(v[i].clone());
        }
        i = i + 1;
    }
    out
}

/// How many records refer to an account, of one provider where it is named.
pub fn account_reference_counts(
    assignments: &[SourceAccountAssignment],
    subscriptions: &[Subscription],
    events: &[UsageEvent],
    summaries: &[UsageSummary],
    account: &ProviderAccountId,
    provider: Option<&str>,
) -> (r: AccountReferenceCounts)
    ensures
        r.source_account_assignments == assignments_to(
            assignments@,
            account.0@,
            opt_str(provider),
            assignments@.len() as int,
        ).len(),
        r.subscriptions == subscriptions_of(
            subscriptions@,
            account.0@,
            opt_str(provider),
            subscriptions@.len() as int,
        ).len(),
        r.events == events_of(events@, account.0@, opt_str(provider), events@.len() as int).len(),
        r.summaries == summaries_of(
            summaries@,
            account.0@,
            opt_str(provider),
            summaries@.len() as int,
        ).len(),
{
    AccountReferenceCounts {
        source_account_assignments: account_assignments(assignments, account, provider).len(),
        subscriptions: account_subscriptions(subscriptions, account, provider).len(),
        events: account_events(events, account, provider).len(),
        summaries: account_summaries(summaries, account, provider).len(),
    }
}

/// Why an account cannot be removed.
pub open spec fn still_referenced_text(a: ProviderAccount, c: AccountReferenceCounts) -> Seq<char> {
    "account "@ + account_name(a) + " still has references: "@ + decimal(
        c.source_account_assignments as nat,
    ) + " source assignments, "@ + decimal(c.subscriptions as nat) + " subscriptions, "@ + decimal(
        c.events as nat,
    ) + " events, "@ + decimal(c.summaries as nat) + " summaries"@
}

/// Whether an account may be removed: only where nothing refers to it.
pub fn check_account_removal(account: &ProviderAccount, references: &AccountReferenceCounts) -> (r:
    Result<(), String>)
    ensures
        match r {
            Ok(_) => references.total_spec() == 0,
            Err(e) => references.total_spec() > 0 && e@ == still_referenced_text(
                *account,
                *references,
            ),
        },
{
    if references.none() {
        return Ok(());
    }
    let name = display_account_identity(account);
    let mut message = concat3("account ", name.as_str(), " still has references: ");
    push_decimal(&mut message, references.source_account_assignments as u64);
    message.append(" source assignments, ");
    push_decimal(&mut message, references.subscriptions as u64);
    message.append(" subscriptions, ");
    push_decimal(&mut message, references.events as u64);
    message.append(" events, ");
    push_decimal(&mut message, references.summaries as u64);
    message.append(" summaries");
    Err(message)
}

} // verus!
