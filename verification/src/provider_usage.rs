//! What the providers report of an account's usage.
//!
//! The numbers in the reports are handed on unread: what fraction of a window
//! has been used is worked out where they are shown.

use vstd::prelude::*;

use crate::catalog::field_array;
#[allow(unused_imports)]
use crate::catalog::array_field;
use crate::json::{Json, JsonView};
#[allow(unused_imports)]
use crate::json::{json_views, opt_json};
use crate::text::text_eq;
#[allow(unused_imports)]
use crate::text::opt_view;
use crate::timestamps::parse_rfc3339_epoch;
#[allow(unused_imports)]
use crate::timestamps::epoch_of;

verus! {

// ---------------------------------------------------------------------------
// Reports
// ---------------------------------------------------------------------------

/// How much of a window has been used, as the provider puts it.
#[derive(Debug)]
pub enum Measure {
    /// The percentages used and left, each as a percentage or a fraction.
    Percent { used: Option<Json>, left: Option<Json> },
    /// The percentage used, from zero to a hundred and never a fraction.
    Utilization(Option<Json>),
    /// The percentage left.
    RemainingPercent(Option<Json>),
    /// The number left, and the number there is.
    RemainingOf { remaining: Option<Json>, total: Option<Json> },
    /// The fraction left.
    RemainingFraction(Option<Json>),
}

/// A window of usage.
#[derive(Debug)]
pub struct UsageWindow {
    pub measure: Measure,
    /// The seconds until the window starts anew.
    pub reset_seconds: Option<i64>,
}

/// The usage of an account.
#[derive(Debug)]
pub struct UsageReport {
    pub account_id: String,
    pub provider: String,
    pub primary: UsageWindow,
    pub secondary: UsageWindow,
    pub plan_type: Option<String>,
    /// `"loaded"`, `"error"` or `"invalid_credentials"`.
    pub status: String,
}

/// A reply of a provider.
#[derive(Debug)]
pub enum ApiReply {
    /// The request could not be sent.
    Unsent,
    /// A status that is no success.
    Refused(u16),
    /// A body that is no JSON.
    Garbled,
    /// The document.
    Document(Json),
}

/// How much of a window has been used.
pub enum MeasureView {
    Percent { used: Option<JsonView>, left: Option<JsonView> },
    Utilization(Option<JsonView>),
    RemainingPercent(Option<JsonView>),
    RemainingOf { remaining: Option<JsonView>, total: Option<JsonView> },
    RemainingFraction(Option<JsonView>),
}

impl View for Measure {
    type V = MeasureView;

    open spec fn view(&self) -> MeasureView {
        match *self {
            Measure::Percent { used, left } => MeasureView::Percent {
                used: opt_json(used),
                left: opt_json(left),
            },
            Measure::Utilization(v) => MeasureView::Utilization(opt_json(v)),
            Measure::RemainingPercent(v) => MeasureView::RemainingPercent(opt_json(v)),
            Measure::RemainingOf { remaining, total } => MeasureView::RemainingOf {
                remaining: opt_json(remaining),
                total: opt_json(total),
            },
            Measure::RemainingFraction(v) => MeasureView::RemainingFraction(opt_json(v)),
        }
    }
}

/// A window of usage.
pub struct WindowView {
    pub measure: MeasureView,
    pub reset: Option<i64>,
}

impl View for UsageWindow {
    type V = WindowView;

    open spec fn view(&self) -> WindowView {
        WindowView { measure: self.measure@, reset: self.reset_seconds }
    }
}

/// The usage of an account.
pub struct ReportView {
    pub account: Seq<char>,
    pub provider: Seq<char>,
    pub primary: WindowView,
    pub secondary: WindowView,
    pub plan: Option<Seq<char>>,
    pub status: Seq<char>,
}

impl View for UsageReport {
    type V = ReportView;

    open spec fn view(&self) -> ReportView {
        ReportView {
            account: self.account_id@,
            provider: self.provider@,
            primary: self.primary@,
            secondary: self.secondary@,
            plan: opt_view(self.plan_type),
            status: self.status@,
        }
    }
}

/// A window of which nothing is known.
pub open spec fn no_window() -> WindowView {
    WindowView { measure: MeasureView::Percent { used: None, left: None }, reset: None }
}

/// A report without usage.
pub open spec fn empty_report(
    account: Seq<char>,
    provider: Seq<char>,
    status: Seq<char>,
) -> ReportView {
    ReportView {
        account,
        provider,
        primary: no_window(),
        secondary: no_window(),
        plan: None,
        status,
    }
}

/// What a refusal with this status says of the account.
pub open spec fn refusal_status(code: u16) -> Seq<char> {
    if code == 401 || code == 403 {
        "invalid_credentials"@
    } else {
        "error"@
    }
}

/// The status of a report that could not be had.
pub open spec fn failure_status(reply: ApiReply) -> Seq<char> {
    match reply {
        ApiReply::Refused(code) => refusal_status(code),
        _ => "error"@,
    }
}

/// The seconds from `now` until `then`, none where that has passed.
pub open spec fn seconds_until(then: int, now: int) -> int {
    if then <= now {
        0
    } else if then - now > i64::MAX {
        i64::MAX as int
    } else {
        then - now
    }
}

/// The seconds until the moment that a text spells.
pub open spec fn reset_in(text: Option<Seq<char>>, now: int) -> Option<i64> {
    match text {
        Some(t) => match epoch_of(t) {
            Some(then) => Some(seconds_until(then, now) as i64),
            None => None,
        },
        None => None,
    }
}

fn nothing_known() -> (r: UsageWindow)
    ensures
        r@ == no_window(),
{
    UsageWindow { measure: Measure::Percent { used: None, left: None }, reset_seconds: None }
}

/// A report without usage.
pub fn report_without_usage(account_id: &str, provider: &str, status: &str) -> (r: UsageReport)
    ensures
        r@ == empty_report(account_id@, provider@, status@),
{
    UsageReport {
        account_id: account_id.to_owned(),
        provider: provider.to_owned(),
        primary: nothing_known(),
        secondary: nothing_known(),
        plan_type: None,
        status: status.to_owned(),
    }
}

/// What a refusal with this status says of the account.
pub(crate) fn status_of_refusal(code: u16) -> (r: &'static str)
    ensures
        r@ == refusal_status(code),
{
    if code == 401 || code == 403 {
        "invalid_credentials"
    } else {
        "error"
    }
}

/// The seconds until the moment that a text spells.
pub(crate) fn read_reset(text: &Option<String>, now: i64) -> (r: Option<i64>)
    ensures
        r == reset_in(opt_view(*text), now as int),
{
    match text {
        Some(t) => match parse_rfc3339_epoch(t.as_str()) {
            Some(then) => {
                if then <= now {
                    Some(0)
                } else {
                    match then.checked_sub(now) {
                        Some(left) => Some(left),
                        None => Some(i64::MAX),
                    }
                }
            },
            None => None,
        },
        None => None,
    }
}

// ---------------------------------------------------------------------------
// Anthropic
// ---------------------------------------------------------------------------

/// The text of the field `inner` of the object in the field `outer`.
pub open spec fn nested_text(v: JsonView, outer: Seq<char>, inner: Seq<char>) -> Option<Seq<char>> {
    match v.nested(outer, inner) {
        Some(t) => t.text(),
        None => None,
    }
}

/// The number in the field `inner` of the object in the field `outer`.
pub open spec fn nested_number(v: JsonView, outer: Seq<char>, inner: Seq<char>) -> Option<JsonView> {
    match v.nested(outer, inner) {
        Some(n) => n.number(),
        None => None,
    }
}

/// A window of Anthropic's usage.
pub open spec fn anthropic_window(doc: JsonView, window: Seq<char>, now: int) -> WindowView {
    WindowView {
        measure: MeasureView::Utilization(nested_number(doc, window, "utilization"@)),
        reset: reset_in(nested_text(doc, window, "resets_at"@), now),
    }
}

/// The report that follows from Anthropic's reply.
pub open spec fn anthropic_view(
    account: Seq<char>,
    provider: Seq<char>,
    reply: ApiReply,
    now: int,
) -> ReportView {
    match reply {
        ApiReply::Document(doc) => ReportView {
            account,
            provider,
            primary: anthropic_window(doc@, "five_hour"@, now),
            secondary: anthropic_window(doc@, "seven_day"@, now),
            plan: doc@.text_field("plan_type"@),
            status: "loaded"@,
        },
        _ => empty_report(account, provider, failure_status(reply)),
    }
}

fn read_anthropic_window(doc: &Json, window: &str, now: i64) -> (r: UsageWindow)
    ensures
        r@ == anthropic_window(doc@, window@, now as int),
{
    let used = match doc.nested(window, "utilization") {
        Some(n) => n.as_number(),
        None => None,
    };
    let at: Option<String> = match doc.nested(window, "resets_at") {
        Some(t) => match t.as_text() {
            Some(s) => Some(s.clone()),
            None => None,
        },
        None => None,
    };
    UsageWindow {
        measure: Measure::Utilization(used),
        reset_seconds: read_reset(&at, now),
    }
}

/// The report that follows from Anthropic's reply: the five-hour window and
/// the seven-day window.
pub fn anthropic_report(account_id: &str, provider: &str, reply: &ApiReply, now: i64) -> (r:
    UsageReport)
    ensures
        r@ == anthropic_view(account_id@, provider@, *reply, now as int),
{
    match reply {
        ApiReply::Document(doc) => UsageReport {
            account_id: account_id.to_owned(),
            provider: provider.to_owned(),
            primary: read_anthropic_window(doc, "five_hour", now),
            secondary: read_anthropic_window(doc, "seven_day", now),
            plan_type: doc.text_field("plan_type"),
            status: "loaded".to_owned(),
        },
        ApiReply::Refused(code) => report_without_usage(
            account_id,
            provider,
            status_of_refusal(*code),
        ),
        _ => report_without_usage(account_id, provider, "error"),
    }
}

// ---------------------------------------------------------------------------
// Codex
// ---------------------------------------------------------------------------

/// The window that a value describes.
pub open spec fn codex_limit(v: JsonView) -> WindowView {
    WindowView {
        measure: MeasureView::Percent {
            used: v.number_field("used_percent"@),
            left: match v.number_field("left_percent"@) {
                Some(n) => Some(n),
                None => v.number_field("remaining_percent"@),
            },
        },
        reset: v.signed_field("reset_after_seconds"@),
    }
}

/// The first of the limits of that window type.
pub open spec fn limit_of_type(limits: Seq<JsonView>, kind: Seq<char>) -> Option<JsonView>
    decreases limits.len(),
{
    if limits.len() == 0 {
        None
    } else if limits[0].text_field("window_type"@) == Some(kind) {
        Some(limits[0])
    } else {
        limit_of_type(limits.drop_first(), kind)
    }
}

/// A window of Codex usage: under `rate_limit`, else in the list
/// `rate_limits`.
pub open spec fn codex_window(doc: JsonView, field: Seq<char>, kind: Seq<char>) -> WindowView {
    match doc.nested("rate_limit"@, field) {
        Some(v) => codex_limit(v),
        None => match array_field(doc, "rate_limits"@) {
            Some(limits) => match limit_of_type(limits, kind) {
                Some(v) => codex_limit(v),
                None => no_window(),
            },
            None => no_window(),
        },
    }
}

/// The report that follows from the reply for a Codex account.
pub open spec fn codex_view(account: Seq<char>, reply: ApiReply) -> ReportView {
    match reply {
        ApiReply::Document(doc) => ReportView {
            account,
            provider: "codex"@,
            primary: codex_window(doc@, "primary_window"@, "primary"@),
            secondary: codex_window(doc@, "secondary_window"@, "secondary"@),
            plan: doc@.text_field("plan_type"@),
            status: "loaded"@,
        },
        _ => empty_report(account, "codex"@, "error"@),
    }
}

fn read_codex_limit(v: &Json) -> (r: UsageWindow)
    ensures
        r@ == codex_limit(v@),
{
    let left = match v.number_field("left_percent") {
        Some(n) => Some(n),
        None => v.number_field("remaining_percent"),
    };
    UsageWindow {
        measure: Measure::Percent { used: v.number_field("used_percent"), left },
        reset_seconds: v.signed_field("reset_after_seconds"),
    }
}

fn read_codex_window(doc: &Json, field: &str, kind: &str) -> (r: UsageWindow)
    ensures
        r@ == codex_window(doc@, field@, kind@),
{
    match doc.nested("rate_limit", field) {
        Some(v) => {
            return read_codex_limit(v);
        },
        None => {},
    }
    match field_array(doc, "rate_limits") {
        Some(limits) => {
            let ghost all = json_views(limits@);
            let mut i: usize = 0;
            assert(all.skip(0) =~= all);
            while i < limits.len()
                invariant
                    i <= limits@.len(),
                    all == json_views(limits@),
                    doc@.nested("rate_limit"@, field@) is None,
                    array_field(doc@, "rate_limits"@) == Some(all),
                    limit_of_type(all, kind@) == limit_of_type(all.skip(i as int), kind@),
                decreases limits@.len() - i,
            {
                let limit = &limits[i];
                assert(all.skip(i as int)[0] == limit@);
                assert(all.skip(i as int).drop_first() =~= all.skip(i + 1));
                match limit.text_field("window_type") {
                    Some(t) => {
                        if text_eq(t.as_str(), kind) {
                            return read_codex_limit(limit);
                        }
                    },
                    None => {},
                }
                i = i + 1;
            }
            nothing_known()
        },
        None => nothing_known(),
    }
}

/// The report that follows from the reply for a Codex account: the primary
/// and the secondary window.
pub fn codex_report(account_id: &str, reply: &ApiReply) -> (r: UsageReport)
    ensures
        r@ == codex_view(account_id@, *reply),
{
    match reply {
        ApiReply::Document(doc) => UsageReport {
            account_id: account_id.to_owned(),
            provider: "codex".to_owned(),
            primary: read_codex_window(doc, "primary_window", "primary"),
            secondary: read_codex_window(doc, "secondary_window", "secondary"),
            plan_type: doc.text_field("plan_type"),
            status: "loaded".to_owned(),
        },
        _ => report_without_usage(account_id, "codex", "error"),
    }
}

// ---------------------------------------------------------------------------
// GitHub Copilot
// ---------------------------------------------------------------------------

/// What is left of a quota of a paid plan, in percent.
pub open spec fn paid_remaining(doc: JsonView, quota: Seq<char>) -> Option<JsonView> {
    match doc.nested("quota_snapshots"@, quota) {
        Some(v) => v.number_field("percent_remaining"@),
        None => None,
    }
}

/// The two windows of a Copilot account: those of a paid plan where one of
/// them is reported, else those of the free plan where both its quotas and
/// their sizes are.
pub open spec fn copilot_windows(doc: JsonView, now: int) -> (WindowView, WindowView) {
    let premium = paid_remaining(doc, "premium_interactions"@);
    let chat = paid_remaining(doc, "chat"@);
    let paid_reset = reset_in(doc.text_field("quota_reset_date"@), now);
    let free_reset = reset_in(doc.text_field("limited_user_reset_date"@), now);
    if premium is Some || chat is Some {
        (
            WindowView { measure: MeasureView::RemainingPercent(premium), reset: paid_reset },
            WindowView { measure: MeasureView::RemainingPercent(chat), reset: paid_reset },
        )
    } else if doc.get("limited_user_quotas"@) is Some && doc.get("monthly_quotas"@) is Some {
        let left = doc.get("limited_user_quotas"@)->0;
        let size = doc.get("monthly_quotas"@)->0;
        (
            WindowView {
                measure: MeasureView::RemainingOf {
                    remaining: left.number_field("chat"@),
                    total: size.number_field("chat"@),
                },
                reset: free_reset,
            },
            WindowView {
                measure: MeasureView::RemainingOf {
                    remaining: left.number_field("completions"@),
                    total: size.number_field("completions"@),
                },
                reset: free_reset,
            },
        )
    } else {
        (no_window(), no_window())
    }
}

/// The report that follows from the reply for a Copilot account.
pub open spec fn copilot_view(account: Seq<char>, reply: ApiReply, now: int) -> ReportView {
    match reply {
        ApiReply::Document(doc) => ReportView {
            account,
            provider: "github-copilot"@,
            primary: copilot_windows(doc@, now).0,
            secondary: copilot_windows(doc@, now).1,
            plan: doc@.text_field("copilot_plan"@),
            status: "loaded"@,
        },
        _ => empty_report(account, "github-copilot"@, failure_status(reply)),
    }
}

fn read_paid_remaining(doc: &Json, quota: &str) -> (r: Option<Json>)
    ensures
        opt_json(r) == paid_remaining(doc@, quota@),
{
    match doc.nested("quota_snapshots", quota) {
        Some(v) => v.number_field("percent_remaining"),
        None => None,
    }
}

fn read_copilot_windows(doc: &Json, now: i64) -> (r: (UsageWindow, UsageWindow))
    ensures
        (r.0@, r.1@) == copilot_windows(doc@, now as int),
{
    let premium = read_paid_remaining(doc, "premium_interactions");
    let chat = read_paid_remaining(doc, "chat");
    if premium.is_some() || chat.is_some() {
        let at = doc.text_field("quota_reset_date");
        let reset_seconds = read_reset(&at, now);
        return (
            UsageWindow { measure: Measure::RemainingPercent(premium), reset_seconds },
            UsageWindow { measure: Measure::RemainingPercent(chat), reset_seconds },
        );
    }
    match (doc.get("limited_user_quotas"), doc.get("monthly_quotas")) {
        (Some(left), Some(size)) => {
            let at = doc.text_field("limited_user_reset_date");
            let reset_seconds = read_reset(&at, now);
            (
                UsageWindow {
                    measure: Measure::RemainingOf {
                        remaining: left.number_field("chat"),
                        total: size.number_field("chat"),
                    },
                    reset_seconds,
                },
                UsageWindow {
                    measure: Measure::RemainingOf {
                        remaining: left.number_field("completions"),
                        total: size.number_field("completions"),
                    },
                    reset_seconds,
                },
            )
        },
        _ => (nothing_known(), nothing_known()),
    }
}

/// The report that follows from the reply for a Copilot account.
pub fn copilot_report(account_id: &str, reply: &ApiReply, now: i64) -> (r: UsageReport)
    ensures
        r@ == copilot_view(account_id@, *reply, now as int),
{
    match reply {
        ApiReply::Document(doc) => {
            let windows = read_copilot_windows(doc, now);
            UsageReport {
                account_id: account_id.to_owned(),
                provider: "github-copilot".to_owned(),
                primary: windows.0,
                secondary: windows.1,
                plan_type: doc.text_field("copilot_plan"),
                status: "loaded".to_owned(),
            }
        },
        ApiReply::Refused(code) => report_without_usage(
            account_id,
            "github-copilot",
            status_of_refusal(*code),
        ),
        _ => report_without_usage(account_id, "github-copilot", "error"),
    }
}

// ---------------------------------------------------------------------------
// Laws
// ---------------------------------------------------------------------------

/// A field that is there with a number has that number; anything else has none.
pub open spec fn number_at(v: JsonView, key: Seq<char>) -> Option<JsonView> {
    match v.get(key) {
        Some(JsonView::Unsigned(n)) => Some(JsonView::Unsigned(n)),
        Some(JsonView::Negative(n)) => Some(JsonView::Negative(n)),
        Some(JsonView::Fraction(n)) => Some(JsonView::Fraction(n)),
        _ => None,
    }
}

/// A field that is there with an integer in the range of `i64` has that
/// integer; anything else has none.
pub open spec fn integer_at(v: JsonView, key: Seq<char>) -> Option<int> {
    match v.get(key) {
        Some(JsonView::Unsigned(n)) => if n <= 0x7fff_ffff_ffff_ffff {
            Some(n as int)
        } else {
            None
        },
        Some(JsonView::Negative(n)) => Some(n as int),
        _ => None,
    }
}

/// The window has this measure of what is used and left, and starts anew after
/// this time.
pub open spec fn shows(
    w: WindowView,
    used: Option<JsonView>,
    left: Option<JsonView>,
    reset: Option<int>,
) -> bool {
    &&& w.measure == (MeasureView::Percent { used, left })
    &&& match (w.reset, reset) {
        (Some(a), Some(b)) => a == b,
        (None, None) => true,
        _ => false,
    }
}

/// The time to a moment is the difference, nothing where it has passed.
pub open spec fn waits(reset: Option<i64>, then: Option<int>, now: int) -> bool {
    match then {
        None => reset is None,
        Some(t) => reset matches Some(secs) && {
            &&& t <= now ==> secs == 0
            &&& t > now && t - now <= i64::MAX ==> secs == t - now
            &&& t - now > i64::MAX ==> secs == i64::MAX
        },
    }
}

/// A text field of an object that is there.
pub open spec fn text_at(v: JsonView, key: Seq<char>) -> Option<Seq<char>> {
    match v.get(key) {
        Some(JsonView::Text(t)) => Some(t),
        _ => None,
    }
}

/// The moment that a text field spells.
pub open spec fn moment_at(v: JsonView, key: Seq<char>) -> Option<int> {
    match text_at(v, key) {
        Some(t) => epoch_of(t),
        None => None,
    }
}

/// What Codex says of a limit is shown: the percentage used, the percentage
/// left (or remaining, where it is not said to be left), and the seconds until
/// it starts anew. The two windows are found under `rate_limit`, in
/// `primary_window` and `secondary_window`.
pub proof fn codex_windows_show_their_limits(
    account: Seq<char>,
    doc: Json,
    limits: JsonView,
    window: JsonView,
)
    requires
        doc@.get("rate_limit"@) == Some(limits),
    ensures
        ({
            let r = codex_view(account, ApiReply::Document(doc));
            let left = match number_at(window, "left_percent"@) {
                Some(n) => Some(n),
                None => number_at(window, "remaining_percent"@),
            };
            let used = number_at(window, "used_percent"@);
            let reset = integer_at(window, "reset_after_seconds"@);
            &&& limits.get("primary_window"@) == Some(window) ==> shows(
                r.primary,
                used,
                left,
                reset,
            )
            &&& limits.get("secondary_window"@) == Some(window) ==> shows(
                r.secondary,
                used,
                left,
                reset,
            )
        }),
{
}

/// Where `rate_limit` has no such window, the first of the list `rate_limits`
/// whose `window_type` is `primary` or `secondary` is shown, and nothing where
/// there is none.
pub proof fn codex_windows_are_found_in_the_list(
    account: Seq<char>,
    doc: Json,
    limits: Seq<JsonView>,
    i: int,
)
    requires
        doc@.get("rate_limits"@) == Some(JsonView::Array(limits)),
    ensures
        ({
            let r = codex_view(account, ApiReply::Document(doc));
            let listed = |w: WindowView, kind: Seq<char>|
                {
                    &&& 0 <= i < limits.len() && text_at(limits[i], "window_type"@) == Some(kind)
                        && (forall|k: int|
                        0 <= k < i ==> text_at(#[trigger] limits[k], "window_type"@) != Some(kind))
                        ==> shows(
                        w,
                        number_at(limits[i], "used_percent"@),
                        match number_at(limits[i], "left_percent"@) {
                            Some(n) => Some(n),
                            None => number_at(limits[i], "remaining_percent"@),
                        },
                        integer_at(limits[i], "reset_after_seconds"@),
                    )
                    &&& (forall|k: int|
                        0 <= k < limits.len() ==> text_at(#[trigger] limits[k], "window_type"@)
                            != Some(kind)) ==> shows(w, None, None, None)
                };
            &&& doc@.nested("rate_limit"@, "primary_window"@) is None ==> listed(
                r.primary,
                "primary"@,
            )
            &&& doc@.nested("rate_limit"@, "secondary_window"@) is None ==> listed(
                r.secondary,
                "secondary"@,
            )
        }),
{
    lemma_limit_of_type(limits, "primary"@, i);
    lemma_limit_of_type(limits, "secondary"@, i);
}

proof fn lemma_limit_of_type(limits: Seq<JsonView>, kind: Seq<char>, i: int)
    ensures
        0 <= i < limits.len() && text_at(limits[i], "window_type"@) == Some(kind) && (forall|k: int|
            0 <= k < i ==> text_at(#[trigger] limits[k], "window_type"@) != Some(kind))
            ==> limit_of_type(limits, kind) == Some(limits[i]),
        (forall|k: int|
            0 <= k < limits.len() ==> text_at(#[trigger] limits[k], "window_type"@) != Some(kind))
            ==> limit_of_type(limits, kind) is None,
    decreases limits.len(),
{
    if limits.len() > 0 {
        let rest = limits.drop_first();
        assert(text_at(limits[0], "window_type"@) == limits[0].text_field("window_type"@));
        lemma_limit_of_type(rest, kind, i - 1);
        if limits[0].text_field("window_type"@) != Some(kind) {
            if forall|k: int|
                0 <= k < i ==> text_at(#[trigger] limits[k], "window_type"@) != Some(kind) {
                assert forall|k: int| 0 <= k < i - 1 && k < rest.len() implies text_at(
                    #[trigger] rest[k],
                    "window_type"@,
                ) != Some(kind) by {
                    assert(rest[k] == limits[k + 1]);
                }
            }
            if forall|k: int|
                0 <= k < limits.len() ==> text_at(#[trigger] limits[k], "window_type"@) != Some(
                    kind,
                ) {
                assert forall|k: int| 0 <= k < rest.len() implies text_at(
                    #[trigger] rest[k],
                    "window_type"@,
                ) != Some(kind) by {
                    assert(rest[k] == limits[k + 1]);
                }
            }
        }
        if 0 < i < limits.len() {
            assert(rest[i - 1] == limits[i]);
        }
    }
}

/// What a report is about: the account, its provider, the plan that the
/// document names, and that it was loaded.
pub proof fn reports_name_account_and_plan(
    account: Seq<char>,
    provider: Seq<char>,
    doc: Json,
    now: int,
)
    ensures
        ({
            let a = anthropic_view(account, provider, ApiReply::Document(doc), now);
            &&& a.account == account && a.provider == provider && a.status == "loaded"@
            &&& a.plan == text_at(doc@, "plan_type"@)
        }),
        ({
            let c = codex_view(account, ApiReply::Document(doc));
            &&& c.account == account && c.provider == "codex"@ && c.status == "loaded"@
            &&& c.plan == text_at(doc@, "plan_type"@)
        }),
        ({
            let g = copilot_view(account, ApiReply::Document(doc), now);
            &&& g.account == account && g.provider == "github-copilot"@ && g.status == "loaded"@
            &&& g.plan == text_at(doc@, "copilot_plan"@)
        }),
{
}

/// A report that could not be had shows nothing and says why: the credentials
/// are at fault where the provider answered 401 or 403, except with Codex,
/// whose answers do not tell; else it is an error.
pub proof fn failed_reports_show_nothing(
    account: Seq<char>,
    provider: Seq<char>,
    reply: ApiReply,
    now: int,
)
    requires
        !(reply is Document),
    ensures
        ({
            let why = match reply {
                ApiReply::Refused(code) => if code == 401 || code == 403 {
                    "invalid_credentials"@
                } else {
                    "error"@
                },
                _ => "error"@,
            };
            let a = anthropic_view(account, provider, reply, now);
            let c = codex_view(account, reply);
            let g = copilot_view(account, reply, now);
            &&& a.status == why && c.status == "error"@ && g.status == why
            &&& a.account == account && c.account == account && g.account == account
            &&& a.provider == provider && c.provider == "codex"@ && g.provider
                == "github-copilot"@
            &&& a.plan is None && c.plan is None && g.plan is None
            &&& shows(a.primary, None, None, None) && shows(a.secondary, None, None, None)
            &&& shows(c.primary, None, None, None) && shows(c.secondary, None, None, None)
            &&& shows(g.primary, None, None, None) && shows(g.secondary, None, None, None)
        }),
{
}

/// Anthropic's windows are `five_hour` and `seven_day`: each shows the number in
/// `utilization` and the time to the moment in `resets_at`.
pub proof fn anthropic_windows_show_their_utilization(
    account: Seq<char>,
    provider: Seq<char>,
    doc: Json,
    window: JsonView,
    now: int,
)
    ensures
        ({
            let r = anthropic_view(account, provider, ApiReply::Document(doc), now);
            let shown = |w: WindowView|
                {
                    &&& w.measure == MeasureView::Utilization(number_at(window, "utilization"@))
                    &&& waits(w.reset, moment_at(window, "resets_at"@), now)
                };
            &&& doc@.get("five_hour"@) == Some(window) ==> shown(r.primary)
            &&& doc@.get("seven_day"@) == Some(window) ==> shown(r.secondary)
            &&& doc@.get("five_hour"@) is None ==> r.primary.measure == MeasureView::Utilization(
                None,
            ) && r.primary.reset is None
            &&& doc@.get("seven_day"@) is None ==> r.secondary.measure
                == MeasureView::Utilization(None) && r.secondary.reset is None
        }),
{
}

/// A paid Copilot plan shows what is left of the premium requests and of the
/// chat, in percent; a free one what is left of the chat and of the completions
/// out of what there is a month. Each waits for its own date.
pub proof fn copilot_windows_show_their_quotas(
    account: Seq<char>,
    doc: Json,
    left: JsonView,
    size: JsonView,
    now: int,
)
    ensures
        ({
            let r = copilot_view(account, ApiReply::Document(doc), now);
            let snapshots = doc@.get("quota_snapshots"@);
            let remaining = |quota: Seq<char>|
                match snapshots {
                    Some(s) => match s.get(quota) {
                        Some(q) => number_at(q, "percent_remaining"@),
                        None => None,
                    },
                    None => None,
                };
            let premium = remaining("premium_interactions"@);
            let chat = remaining("chat"@);
            let paid = premium is Some || chat is Some;
            &&& paid ==> {
                &&& r.primary.measure == MeasureView::RemainingPercent(premium)
                &&& r.secondary.measure == MeasureView::RemainingPercent(chat)
                &&& waits(r.primary.reset, moment_at(doc@, "quota_reset_date"@), now)
                &&& waits(r.secondary.reset, moment_at(doc@, "quota_reset_date"@), now)
            }
            &&& !paid && doc@.get("limited_user_quotas"@) == Some(left) && doc@.get(
                "monthly_quotas"@,
            ) == Some(size) ==> {
                &&& r.primary.measure == (MeasureView::RemainingOf {
                    remaining: number_at(left, "chat"@),
                    total: number_at(size, "chat"@),
                })
                &&& r.secondary.measure == (MeasureView::RemainingOf {
                    remaining: number_at(left, "completions"@),
                    total: number_at(size, "completions"@),
                })
                &&& waits(r.primary.reset, moment_at(doc@, "limited_user_reset_date"@), now)
                &&& waits(r.secondary.reset, moment_at(doc@, "limited_user_reset_date"@), now)
            }
            &&& !paid && (doc@.get("limited_user_quotas"@) is None || doc@.get("monthly_quotas"@)
                is None) ==> shows(r.primary, None, None, None) && shows(
                r.secondary,
                None,
                None,
                None,
            )
        }),
{
}

/// A window that Codex reports nowhere shows nothing: `rate_limit` does not have
/// it, and there is no list `rate_limits`.
pub proof fn unreported_codex_windows_show_nothing(account: Seq<char>, doc: Json)
    requires
        doc@.get("rate_limits"@) is None || !(doc@.get("rate_limits"@)->0 is Array),
    ensures
        ({
            let r = codex_view(account, ApiReply::Document(doc));
            &&& doc@.nested("rate_limit"@, "primary_window"@) is None ==> shows(
                r.primary,
                None,
                None,
                None,
            )
            &&& doc@.nested("rate_limit"@, "secondary_window"@) is None ==> shows(
                r.secondary,
                None,
                None,
                None,
            )
        }),
{
}

} // verus!
