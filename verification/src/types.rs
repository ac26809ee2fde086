//! Types shared across the proxy.

use vstd::prelude::*;

use crate::maps::TextMap;
use crate::order::{row_le, text_at_most, Ranked};
#[allow(unused_imports)]
use crate::text::opt_view;
use crate::text::{join3, text_eq};

verus! {

/// Runtime status of the proxy.
#[derive(Debug, Clone)]
pub struct ProxyStatus {
    pub running: bool,
    pub proxy_port: Option<u16>,
    pub backend_port: Option<u16>,
    pub backend_installed: bool,
}

/// Whether the backend is installed, and where.
#[derive(Debug, Clone)]
pub struct BackendStatus {
    pub installed: bool,
    pub path: Option<String>,
}

/// A provider account kept in an account file.
#[derive(Debug, Clone)]
pub struct ProviderAccount {
    /// Such as "codex" or "github-copilot".
    pub provider: String,
    /// The account file's name without `.json`.
    pub account_id: String,
    /// An email address or login name.
    pub display_name: String,
    /// The account file stands in the active directory.
    pub enabled: bool,
    /// The account's expiry lies in the past.
    pub expired: bool,
}

/// A named pool of models.
#[derive(Debug, Clone)]
pub struct ProxyModelGroup {
    pub name: String,
    pub models: Vec<ProxyModelGroupMember>,
    pub enabled: bool,
    /// `"round_robin"` or `"fill_first"`.
    pub strategy: String,
}

/// One model of a group.
#[derive(Debug, Clone)]
pub struct ProxyModelGroupMember {
    pub model: String,
    pub provider: String,
    pub enabled: bool,
}

/// Request counts.
#[derive(Debug)]
pub struct UsageStats {
    pub total_requests: u64,
    pub per_model: TextMap<u64>,
    pub per_provider: TextMap<u64>,
    pub per_account: TextMap<u64>,
    pub by_request: Vec<UsageRequestSummary>,
}

/// The number of requests of one provider, model and account.
#[derive(Debug, Clone)]
pub struct UsageRequestSummary {
    pub provider: String,
    pub model: String,
    pub account: String,
    pub requests: u64,
}

/// A model that the proxy or its backend offers.
#[derive(Debug, Clone, PartialEq, Eq)]
pub struct ProxyModelInfo {
    pub provider: String,
    pub model: String,
    /// `provider/model` where the provider is known, else the model.
    pub id: String,
}

/// The state of a login has changed.
#[derive(Debug, Clone)]
pub struct LoginStatusEvent {
    pub provider: String,
    /// `"started"`, `"completed"`, `"failed"` or `"timed_out"`.
    pub status: String,
}

/// A line that a login process has printed.
#[derive(Debug, Clone)]
pub struct LoginOutputEvent {
    pub provider: String,
    pub line: String,
}

impl Default for ProxyModelGroup {
    fn default() -> (r: Self)
        ensures
            r.name@ == Seq::<char>::empty(),
            r.models@ == Seq::<ProxyModelGroupMember>::empty(),
            !r.enabled,
            r.strategy@ == Seq::<char>::empty(),
    {
        ProxyModelGroup {
            name: String::new(),
            models: Vec::new(),
            enabled: false,
            strategy: String::new(),
        }
    }
}

impl Default for UsageStats {
    fn default() -> (r: Self)
        ensures
            r.total_requests == 0,
            r.per_model@ == Map::<Seq<char>, u64>::empty(),
            r.per_provider@ == Map::<Seq<char>, u64>::empty(),
            r.per_account@ == Map::<Seq<char>, u64>::empty(),
            r.by_request@ == Seq::<UsageRequestSummary>::empty(),
    {
        UsageStats {
            total_requests: 0,
            per_model: TextMap::new(),
            per_provider: TextMap::new(),
            per_account: TextMap::new(),
            by_request: Vec::new(),
        }
    }
}

impl Default for UsageRequestSummary {
    fn default() -> (r: Self)
        ensures
            r.provider@ == Seq::<char>::empty(),
            r.model@ == Seq::<char>::empty(),
            r.account@ == Seq::<char>::empty(),
            r.requests == 0,
    {
        UsageRequestSummary {
            provider: String::new(),
            model: String::new(),
            account: String::new(),
            requests: 0,
        }
    }
}

// ---------------------------------------------------------------------------
// Usage rows
// ---------------------------------------------------------------------------

/// Requests of one provider, model and account.
pub struct UsageRow {
    pub provider: Seq<char>,
    pub model: Seq<char>,
    pub account: Seq<char>,
    pub requests: nat,
}

impl UsageRow {
    /// What the row is ordered and found by.
    pub open spec fn key(self) -> Seq<Seq<char>> {
        seq![self.provider, self.model, self.account]
    }
}

impl View for UsageRequestSummary {
    type V = UsageRow;

    open spec fn view(&self) -> UsageRow {
        UsageRow {
            provider: self.provider@,
            model: self.model@,
            account: self.account@,
            requests: self.requests as nat,
        }
    }
}

/// The rows, in their order.
pub open spec fn usage_rows(s: Seq<UsageRequestSummary>) -> Seq<UsageRow> {
    Seq::new(s.len(), |i: int| s[i]@)
}

/// Rows ranked by provider, model and account.
impl Ranked for UsageRequestSummary {
    open spec fn ranks_by(&self, other: &Self) -> bool {
        row_le(self@.key(), other@.key())
    }

    proof fn ranks_total(a: &Self, b: &Self) {
        crate::order::row_le_total(a@.key(), b@.key());
    }

    proof fn ranks_transitive(a: &Self, b: &Self, c: &Self) {
        crate::order::row_le_transitive(a@.key(), b@.key(), c@.key());
    }

    fn at_most(&self, other: &Self) -> (r: bool) {
        triple_at_most(
            self.provider.as_str(),
            self.model.as_str(),
            self.account.as_str(),
            other.provider.as_str(),
            other.model.as_str(),
            other.account.as_str(),
        )
    }
}

/// The order on rows of three texts.
pub fn triple_at_most(a0: &str, a1: &str, a2: &str, b0: &str, b1: &str, b2: &str) -> (r: bool)
    ensures
        r == row_le(seq![a0@, a1@, a2@], seq![b0@, b1@, b2@]),
{
    proof {
        let a = seq![a0@, a1@, a2@];
        let b = seq![b0@, b1@, b2@];
        reveal_with_fuel(row_le, 4);
        assert(a.drop_first() =~= seq![a1@, a2@]);
        assert(b.drop_first() =~= seq![b1@, b2@]);
        assert(a.drop_first().drop_first() =~= seq![a2@]);
        assert(b.drop_first().drop_first() =~= seq![b2@]);
        crate::order::text_le_total(a2@, b2@);
    }
    if !text_eq(a0, b0) {
        text_at_most(a0, b0)
    } else if !text_eq(a1, b1) {
        text_at_most(a1, b1)
    } else {
        text_at_most(a2, b2)
    }
}

/// The order on rows of two texts.
pub fn pair_at_most(a0: &str, a1: &str, b0: &str, b1: &str) -> (r: bool)
    ensures
        r == row_le(seq![a0@, a1@], seq![b0@, b1@]),
{
    proof {
        let a = seq![a0@, a1@];
        let b = seq![b0@, b1@];
        reveal_with_fuel(row_le, 3);
        assert(a.drop_first() =~= seq![a1@]);
        assert(b.drop_first() =~= seq![b1@]);
        crate::order::text_le_total(a1@, b1@);
    }
    if !text_eq(a0, b0) {
        text_at_most(a0, b0)
    } else {
        text_at_most(a1, b1)
    }
}

// ---------------------------------------------------------------------------
// Providers
// ---------------------------------------------------------------------------

/// The known providers and the command line flags that start their logins. The
/// empty flag stands for a provider that takes an API key instead. `anthropic`
/// is the name that Anthropic goes by among the providers.
pub open spec fn login_flag(provider: Seq<char>, anthropic: Seq<char>) -> Option<Seq<char>> {
    if provider == anthropic {
        Some("--"@ + anthropic + "-login"@)
    } else if provider == "codex"@ {
        Some("--codex-login"@)
    } else if provider == "github-copilot"@ {
        Some("--github-copilot-login"@)
    } else if provider == "gemini"@ {
        Some("--login"@)
    } else if provider == "antigravity"@ {
        Some("--antigravity-login"@)
    } else if provider == "qwen"@ {
        Some("--qwen-login"@)
    } else if provider == "zai"@ {
        Some(""@)
    } else if provider == "kiro"@ {
        Some("--kiro-login"@)
    } else {
        None
    }
}

/// The login flag of a provider: `None` for an unknown provider, `Some("")`
/// for one that takes an API key.
pub fn login_flag_for_provider(provider: &str, anthropic: &str) -> (r: Option<String>)
    ensures
        opt_view(r) == login_flag(provider@, anthropic@),
{
    if text_eq(provider, anthropic) {
        Some(join3("--", anthropic, "-login"))
    } else if text_eq(provider, "codex") {
        Some("--codex-login".to_owned())
    } else if text_eq(provider, "github-copilot") {
        Some("--github-copilot-login".to_owned())
    } else if text_eq(provider, "gemini") {
        Some("--login".to_owned())
    } else if text_eq(provider, "antigravity") {
        Some("--antigravity-login".to_owned())
    } else if text_eq(provider, "qwen") {
        Some("--qwen-login".to_owned())
    } else if text_eq(provider, "zai") {
        Some("".to_owned())
    } else if text_eq(provider, "kiro") {
        Some("--kiro-login".to_owned())
    } else {
        None
    }
}

/// The known providers log in with a flag made of their name, but for Gemini,
/// whose flag is `--login`, and Z.AI, which has none; no other provider is
/// known.
pub proof fn login_flags_are_made_of_the_names(provider: Seq<char>, anthropic: Seq<char>)
    ensures
        provider == anthropic || provider == "codex"@ || provider == "github-copilot"@ || provider
            == "antigravity"@ || provider == "qwen"@ || provider == "kiro"@ ==> login_flag(
            provider,
            anthropic,
        ) == Some("--"@ + provider + "-login"@),
        provider == "gemini"@ && provider != anthropic ==> login_flag(provider, anthropic) == Some(
            "--login"@,
        ),
        provider == "zai"@ && provider != anthropic ==> login_flag(provider, anthropic) == Some(
            Seq::<char>::empty(),
        ),
        provider != anthropic && provider != "codex"@ && provider != "github-copilot"@ && provider
            != "antigravity"@ && provider != "qwen"@ && provider != "kiro"@ && provider
            != "gemini"@ && provider != "zai"@ ==> login_flag(provider, anthropic) is None,
{
    reveal_strlit("--");
    reveal_strlit("-login");
    reveal_strlit("codex");
    reveal_strlit("--codex-login");
    reveal_strlit("github-copilot");
    reveal_strlit("--github-copilot-login");
    reveal_strlit("antigravity");
    reveal_strlit("--antigravity-login");
    reveal_strlit("qwen");
    reveal_strlit("--qwen-login");
    reveal_strlit("kiro");
    reveal_strlit("--kiro-login");
    reveal_strlit("gemini");
    reveal_strlit("zai");
    reveal_strlit("");
    assert("--"@ + "codex"@ + "-login"@ =~= "--codex-login"@);
    assert("--"@ + "github-copilot"@ + "-login"@ =~= "--github-copilot-login"@);
    assert("--"@ + "antigravity"@ + "-login"@ =~= "--antigravity-login"@);
    assert("--"@ + "qwen"@ + "-login"@ =~= "--qwen-login"@);
    assert("--"@ + "kiro"@ + "-login"@ =~= "--kiro-login"@);
    assert(""@ =~= Seq::<char>::empty());
    assert("codex"@.len() == 5 && "github-copilot"@.len() == 14 && "antigravity"@.len() == 11);
    assert("gemini"@.len() == 6 && "zai"@.len() == 3);
    assert("qwen"@[0] == 'q' && "kiro"@[0] == 'k');
}

/// Rows stand by the name of their provider, those of one provider by the model,
/// and those of one model by the account.
pub proof fn rows_stand_by_provider_model_and_account(
    a: UsageRequestSummary,
    b: UsageRequestSummary,
)
    ensures
        a.provider@ != b.provider@ ==> (a.ranks_by(&b) <==> crate::order::text_le(
            a.provider@,
            b.provider@,
        )),
        a.provider@ == b.provider@ && a.model@ != b.model@ ==> (a.ranks_by(&b)
            <==> crate::order::text_le(a.model@, b.model@)),
        a.provider@ == b.provider@ && a.model@ == b.model@ ==> (a.ranks_by(&b)
            <==> crate::order::text_le(a.account@, b.account@)),
{
    reveal_with_fuel(row_le, 4);
    let x = a@.key();
    let y = b@.key();
    assert(x.drop_first() =~= seq![a.model@, a.account@]);
    assert(y.drop_first() =~= seq![b.model@, b.account@]);
    assert(x.drop_first().drop_first() =~= seq![a.account@]);
    assert(y.drop_first().drop_first() =~= seq![b.account@]);
    assert(x.drop_first().drop_first().drop_first() =~= Seq::empty());
    crate::order::text_le_total(a.account@, a.account@);
}

} // verus!
