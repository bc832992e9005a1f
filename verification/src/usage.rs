//! The plan quota: how it is queried, what a reply means, and when the chip
//! that shows it is refreshed or cleared.
use vstd::prelude::*;
use vstd::string::*;

use crate::model;
use crate::settings::Settings;
use crate::text;
use crate::wsl;
use crate::wsl::Invocation;

verus! {

/// How often the quota is queried again (seconds).
pub const USAGE_REFRESH_SECS: u64 = 300;

/// The unit code of the five-hour window.
pub const FIVE_HOUR_UNIT: i64 = 3;

/// The unit code of the weekly window.
pub const WEEKLY_UNIT: i64 = 6;

/// One quota window. `P` is the number type of the percentage.
#[derive(Debug, PartialEq)]
pub struct UsageLimit<P> {
    /// 0 to 100
    pub percentage: P,
    /// credits used in the window
    pub consumed: u64,
    /// credits of the whole window
    pub total: u64,
    pub remaining: u64,
    /// epoch milliseconds
    pub next_reset_ms: u64,
}

impl<P: Copy> Clone for UsageLimit<P> {
    fn clone(&self) -> (r: UsageLimit<P>)
        ensures
            r == *self,
    {
        *self
    }
}

impl<P: Copy> Copy for UsageLimit<P> {

}

/// The quota of a plan.
#[derive(Debug, PartialEq)]
pub struct UsageInfo<P> {
    pub five_hour: Option<UsageLimit<P>>,
    pub weekly: Option<UsageLimit<P>>,
    /// plan level, e.g. "pro"
    pub level: String,
}

/// The quota as the contracts see it.
pub struct UsageModel<P> {
    pub five_hour: Option<UsageLimit<P>>,
    pub weekly: Option<UsageLimit<P>>,
    pub level: Seq<char>,
}

impl<P> View for UsageInfo<P> {
    type V = UsageModel<P>;

    open spec fn view(&self) -> UsageModel<P> {
        UsageModel { five_hour: self.five_hour, weekly: self.weekly, level: self.level@ }
    }
}

impl<P: Copy> Clone for UsageInfo<P> {
    fn clone(&self) -> (r: UsageInfo<P>)
        ensures
            r == *self,
    {
        UsageInfo {
            five_hour: self.five_hour,
            weekly: self.weekly,
            level: self.level.clone(),
        }
    }
}

impl<P> Default for UsageInfo<P> {
    fn default() -> (r: UsageInfo<P>)
        ensures
            r@ == (UsageModel::<P> { five_hour: None, weekly: None, level: Seq::empty() }),
    {
        let level = String::new();
        proof {
            assert(level@ =~= Seq::empty());
        }
        UsageInfo { five_hour: None, weekly: None, level }
    }
}

/// One window as the provider spells it.
#[derive(Debug)]
pub struct RawLimit<P> {
    /// which window this is
    pub unit: i64,
    pub percentage: P,
    pub current_value: u64,
    pub usage: u64,
    pub remaining: u64,
    pub next_reset_ms: u64,
}

impl<P: Copy> Clone for RawLimit<P> {
    fn clone(&self) -> (r: RawLimit<P>)
        ensures
            r == *self,
    {
        *self
    }
}

impl<P: Copy> Copy for RawLimit<P> {

}

/// One reply of the query script.
#[derive(Debug)]
pub struct UsageReply<P> {
    pub error: Option<String>,
    pub limits: Vec<RawLimit<P>>,
    pub level: String,
}

/// A window in this library's terms.
pub open spec fn limit_of<P>(l: RawLimit<P>) -> UsageLimit<P> {
    UsageLimit {
        percentage: l.percentage,
        consumed: l.current_value,
        total: l.usage,
        remaining: l.remaining,
        next_reset_ms: l.next_reset_ms,
    }
}

/// The last window with a unit code.
pub open spec fn latest<P>(limits: Seq<RawLimit<P>>, unit: i64) -> Option<UsageLimit<P>>
    decreases limits.len(),
{
    if limits.len() == 0 {
        None
    } else if limits.last().unit == unit {
        Some(limit_of(limits.last()))
    } else {
        latest(limits.drop_last(), unit)
    }
}

/// What a reply means. `decoded` is the reply, or why it could not be read.
pub open spec fn reply_report<P>(decoded: Result<UsageReply<P>, String>) -> Result<
    UsageModel<P>,
    Seq<char>,
> {
    match decoded {
        Err(e) => Err("解析套餐用量失败: "@ + e@),
        Ok(reply) => match reply.error {
            Some(e) => Err(e@),
            None => Ok(
                UsageModel {
                    five_hour: latest(reply.limits@, FIVE_HOUR_UNIT),
                    weekly: latest(reply.limits@, WEEKLY_UNIT),
                    level: reply.level@,
                },
            ),
        },
    }
}

/// The quota in a decoded reply. Windows are told apart by their unit code
/// alone, windows with another code are passed over, and the script's own
/// errors are handed on word for word.
pub fn parse_usage<P: Copy>(decoded: Result<UsageReply<P>, String>) -> (r: Result<
    UsageInfo<P>,
    String,
>)
    ensures
        match reply_report(decoded) {
            Ok(m) => r matches Ok(i) && i@ == m,
            Err(m) => r matches Err(e) && e@ == m,
        },
{
    let reply = match decoded {
        Ok(reply) => reply,
        Err(e) => {
            return Err(text::cat("解析套餐用量失败: ", e.as_str()));
        },
    };
    if let Some(e) = reply.error {
        return Err(e);
    }
    let mut five_hour: Option<UsageLimit<P>> = None;
    let mut weekly: Option<UsageLimit<P>> = None;
    let mut i: usize = 0;
    while i < reply.limits.len()
        invariant
            i <= reply.limits@.len(),
            five_hour == latest(reply.limits@.take(i as int), FIVE_HOUR_UNIT),
            weekly == latest(reply.limits@.take(i as int), WEEKLY_UNIT),
        decreases reply.limits@.len() - i,
    {
        let l: RawLimit<P> = reply.limits[i];
        proof {
            model::lemma_take_step(reply.limits@, i as int);
        }
        let limit = UsageLimit {
            percentage: l.percentage,
            consumed: l.current_value,
            total: l.usage,
            remaining: l.remaining,
            next_reset_ms: l.next_reset_ms,
        };
        if l.unit == FIVE_HOUR_UNIT {
            five_hour = Some(limit);
        } else if l.unit == WEEKLY_UNIT {
            weekly = Some(limit);
        }
        i = i + 1;
    }
    proof {
        model::lemma_take_all(reply.limits@);
    }
    Ok(UsageInfo { five_hour, weekly, level: reply.level })
}

/// The query of the quota.
pub open spec fn quota_start(
    windows: bool,
    distro: Seq<char>,
    script: Seq<char>,
) -> wsl::InvocationModel {
    wsl::started(windows, distro, seq!["python3"@, "-"@], Some(script))
}

/// The program start that queries the quota: the script runs inside WSL, so
/// the token it reads never leaves that side.
pub fn query_usage(windows: bool, settings: &Settings, script: &str) -> (r: Invocation)
    ensures
        r@ == quota_start(windows, settings@.wsl_distro, script@),
{
    let line = ["python3", "-"];
    proof {
        assert(model::views(line@) =~= seq!["python3"@, "-"@]);
    }
    wsl::run_wsl_stdin(windows, settings.wsl_distro.as_str(), &line, script)
}

// ---- the refresh loop -----------------------------------------------------

/// What one turn of the refresh loop does.
#[derive(Debug, Clone, Copy, PartialEq, Eq, Structural)]
pub enum UsageStep {
    /// query the quota
    Query,
    /// the chip was switched off: take the last value off the screen, once
    Clear,
    Nothing,
}

/// One turn of the refresh loop as the contracts see it.
pub open spec fn step_of(enabled: bool, was_enabled: bool) -> (UsageStep, bool) {
    (
        if enabled {
            UsageStep::Query
        } else if was_enabled {
            UsageStep::Clear
        } else {
            UsageStep::Nothing
        },
        enabled,
    )
}

/// What one turn of the refresh loop does, given whether the chip is switched
/// on now and whether it was at the turn before; and what to remember of it.
pub fn usage_step(enabled: bool, was_enabled: bool) -> (r: (UsageStep, bool))
    ensures
        r == step_of(enabled, was_enabled),
{
    if enabled {
        (UsageStep::Query, true)
    } else if was_enabled {
        (UsageStep::Clear, false)
    } else {
        (UsageStep::Nothing, false)
    }
}

/// What the chip shows after a query: the new value, or the last good one
/// where the query failed.
pub open spec fn chip_after<P>(
    last: Option<UsageInfo<P>>,
    outcome: Result<UsageInfo<P>, String>,
) -> Option<UsageInfo<P>> {
    match outcome {
        Ok(info) => Some(info),
        Err(_) => last,
    }
}

/// What the chip shows after a query; see `chip_after`.
pub fn usage_shown<P>(last: Option<UsageInfo<P>>, outcome: Result<UsageInfo<P>, String>) -> (r:
    Option<UsageInfo<P>>)
    ensures
        r == chip_after(last, outcome),
{
    match outcome {
        Ok(info) => Some(info),
        Err(_) => last,
    }
}

/// Every window of a reply that carries a known code decides its chip unless a
/// later one with the same code follows; nothing else does.
pub proof fn law_windows_follow_their_unit<P>(limits: Seq<RawLimit<P>>, unit: i64)
    ensures
        match latest(limits, unit) {
            Some(shown) => exists|i: int|
                {
                    &&& 0 <= i < limits.len()
                    &&& (#[trigger] limits[i]).unit == unit
                    &&& shown == limit_of(limits[i])
                    &&& forall|j: int| i < j < limits.len() ==> (#[trigger] limits[j]).unit != unit
                },
            None => forall|j: int| 0 <= j < limits.len() ==> (#[trigger] limits[j]).unit != unit,
        },
    decreases limits.len(),
{
    if limits.len() > 0 {
        let front = limits.drop_last();
        law_windows_follow_their_unit(front, unit);
        assert forall|j: int| 0 <= j < front.len() implies #[trigger] limits[j] == front[j] by {}
        if limits.last().unit == unit {
            assert(limits[limits.len() - 1].unit == unit);
        } else if latest(front, unit) is Some {
            let i = choose|i: int|
                {
                    &&& 0 <= i < front.len()
                    &&& (#[trigger] front[i]).unit == unit
                    &&& latest(front, unit)->0 == limit_of(front[i])
                    &&& forall|j: int| i < j < front.len() ==> (#[trigger] front[j]).unit != unit
                };
            assert(limits[i].unit == unit);
            assert forall|j: int| i < j < limits.len() implies (#[trigger] limits[j]).unit != unit by {
                if j < front.len() {
                    assert(front[j].unit != unit);
                }
            }
        }
    }
}

/// Once the chip is switched off it is cleared once, and nothing is queried
/// until it is switched on again.
pub proof fn law_switched_off_clears_once(was_enabled: bool)
    ensures
        step_of(false, was_enabled).1 == false,
        step_of(false, was_enabled).0 != UsageStep::Query,
        step_of(false, step_of(false, was_enabled).1).0 == UsageStep::Nothing,
        step_of(false, step_of(true, was_enabled).1).0 == UsageStep::Clear,
{
}

/// The quota is queried in the configured distro, by the script on the input.
pub proof fn law_quota_is_queried_in_the_configured_distro(
    distro: Seq<char>,
    script: Seq<char>,
)
    ensures
        quota_start(true, distro, script).program == "wsl.exe"@,
        quota_start(true, distro, script).stdin == Some(script),
        quota_start(true, distro, script).timeout_secs == 25,
        distro.len() > 0 ==> quota_start(true, distro, script).args == seq![
            "-d"@,
            distro,
            "python3"@,
            "-"@,
        ],
        distro.len() == 0 ==> quota_start(true, distro, script).args == seq!["python3"@, "-"@],
        quota_start(false, distro, script).program == "python3"@,
        quota_start(false, distro, script).args == seq!["-"@],
        quota_start(false, distro, script).stdin == Some(script),
        quota_start(false, distro, script).timeout_secs == 25,
{
    let i = quota_start(true, distro, script);
    if distro.len() > 0 {
        assert(i.args =~= seq!["-d"@, distro, "python3"@, "-"@]);
    } else {
        assert(i.args =~= seq!["python3"@, "-"@]);
    }
    assert(quota_start(false, distro, script).args =~= seq!["-"@]);
}

/// What a readable reply without an error says: its level, and for each of the
/// two windows the numbers of the last entry with its code, field by field. The
/// five-hour window has code 3 and the weekly one code 6.
pub proof fn law_reply_is_told_field_by_field<P>(reply: UsageReply<P>)
    requires
        reply.error is None,
    ensures
        ({
            let r = reply_report(Ok::<UsageReply<P>, String>(reply));
            &&& r is Ok
            &&& r->Ok_0.level == reply.level@
            &&& tells(reply.limits@, 3, r->Ok_0.five_hour)
            &&& tells(reply.limits@, 6, r->Ok_0.weekly)
        }),
{
    law_windows_follow_their_unit(reply.limits@, 3);
    law_windows_follow_their_unit(reply.limits@, 6);
    lemma_tells(reply.limits@, 3);
    lemma_tells(reply.limits@, 6);
}

/// A window tells the numbers of the last entry with a code, or there is none.
pub open spec fn tells<P>(
    limits: Seq<RawLimit<P>>,
    unit: i64,
    window: Option<UsageLimit<P>>,
) -> bool {
    match window {
        Some(w) => exists|i: int|
            {
                &&& 0 <= i < limits.len()
                &&& (#[trigger] limits[i]).unit == unit
                &&& forall|j: int| i < j < limits.len() ==> (#[trigger] limits[j]).unit != unit
                &&& w.percentage == limits[i].percentage
                &&& w.consumed == limits[i].current_value
                &&& w.total == limits[i].usage
                &&& w.remaining == limits[i].remaining
                &&& w.next_reset_ms == limits[i].next_reset_ms
            },
        None => forall|j: int| 0 <= j < limits.len() ==> (#[trigger] limits[j]).unit != unit,
    }
}

proof fn lemma_tells<P>(limits: Seq<RawLimit<P>>, unit: i64)
    ensures
        tells(limits, unit, latest(limits, unit)),
{
    law_windows_follow_their_unit(limits, unit);
    if latest(limits, unit) is Some {
        let i = choose|i: int|
            {
                &&& 0 <= i < limits.len()
                &&& (#[trigger] limits[i]).unit == unit
                &&& latest(limits, unit)->0 == limit_of(limits[i])
                &&& forall|j: int| i < j < limits.len() ==> (#[trigger] limits[j]).unit != unit
            };
        assert(limits[i].unit == unit);
    }
}

/// An error of the script is passed on word for word, whatever else the reply
/// holds, and a reply that cannot be read is reported with the reason.
pub proof fn law_quota_errors_are_passed_on<P>(reply: UsageReply<P>, problem: String)
    ensures
        reply.error matches Some(e) ==> reply_report(Ok::<UsageReply<P>, String>(reply)) == Err::<
            UsageModel<P>,
            Seq<char>,
        >(e@),
        reply_report(Err::<UsageReply<P>, String>(problem)) == Err::<UsageModel<P>, Seq<char>>(
            "解析套餐用量失败: "@ + problem@,
        ),
{
}

/// The chip is queried for exactly while it is switched on, and cleared exactly
/// at the turn at which it goes off.
pub proof fn law_chip_follows_its_switch(enabled: bool, was_enabled: bool)
    ensures
        step_of(enabled, was_enabled).0 == UsageStep::Query <==> enabled,
        step_of(enabled, was_enabled).0 == UsageStep::Clear <==> !enabled && was_enabled,
        step_of(enabled, was_enabled).1 == enabled,
{
}

/// The chip shows the last value that was read: failed queries change nothing,
/// however many there are, and a new value replaces the old one.
pub proof fn law_chip_keeps_the_last_good_value<P>(
    last: Option<UsageInfo<P>>,
    info: UsageInfo<P>,
    first: String,
    second: String,
)
    ensures
        chip_after(last, Ok(info)) == Some(info),
        chip_after(last, Err(first)) == last,
        chip_after(chip_after(chip_after(last, Ok(info)), Err(first)), Err(second)) == Some(info),
{
}

} // verus!
