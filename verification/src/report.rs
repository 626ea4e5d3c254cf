//! Rendering the verdict.
//!
//! The dangerous state must not be silenceable: `render` gives an operator
//! line and `render_machine` a stable machine line; the caller routes
//! BLOCKED-INERT to an alert sink and exits non-zero.
use vstd::prelude::*;
use vstd::string::StringExecFns;

use crate::model::{Signals, Verdict};
use crate::text::string_push;

verus! {

/// The decimal digits of `n`, most significant first.
pub open spec fn decimal(n: nat) -> Seq<char>
    decreases n,
{
    if n < 10 {
        seq![(('0' as int) + n) as char]
    } else {
        decimal(n / 10) + seq![(('0' as int) + n % 10) as char]
    }
}

/// The operator-facing explanation of a verdict.
pub open spec fn spec_detail(v: Verdict) -> Seq<char> {
    match v {
        Verdict::OpenCovered => "lsass micropatches LIVE \u{2014} but LSA Protection is OFF, so credential-dump protection is forfeited (recorded as an accepted lsa-open enrolment)."@,
        Verdict::BlockedInert => "ALARM: lsass-targeted patches exist but the loader is blocked from lsass.exe. The host BELIEVES it is patched and is NOT. Raise a work-order."@,
        Verdict::Moot => "no outstanding lsass-targeted patches; conflict currently inert."@,
        Verdict::Indeterminate => "insufficient signal to decide \u{2014} investigate (agent state / console access)."@,
    }
}

fn detail(v: Verdict) -> (s: &'static str)
    ensures
        s@ == spec_detail(v),
{
    match v {
        Verdict::OpenCovered => "lsass micropatches LIVE \u{2014} but LSA Protection is OFF, so credential-dump protection is forfeited (recorded as an accepted lsa-open enrolment).",
        Verdict::BlockedInert => "ALARM: lsass-targeted patches exist but the loader is blocked from lsass.exe. The host BELIEVES it is patched and is NOT. Raise a work-order.",
        Verdict::Moot => "no outstanding lsass-targeted patches; conflict currently inert.",
        Verdict::Indeterminate => "insufficient signal to decide \u{2014} investigate (agent state / console access).",
    }
}

/// The human-facing report on one line: glyph, tag and explanation, then the signals.
pub open spec fn spec_render(signals: Signals, verdict: Verdict) -> Seq<char> {
    verdict.spec_glyph() + " "@ + verdict.spec_tag() + "  "@ + spec_detail(verdict)
        + "  signals: protection="@ + signals.protection.spec_name() + " loader="@
        + signals.loader.spec_name() + " patches="@ + signals.patches.spec_name()
}

/// Human-facing one-liner: glyph, tag, explanation and the signals.
pub fn render(signals: Signals, verdict: Verdict) -> (s: String)
    ensures
        s@ == spec_render(signals, verdict),
{
    let mut s = String::from_str(verdict.glyph());
    s.append(" ");
    s.append(verdict.tag());
    s.append("  ");
    s.append(detail(verdict));
    s.append("  signals: protection=");
    s.append(signals.protection.name());
    s.append(" loader=");
    s.append(signals.loader.name());
    s.append(" patches=");
    s.append(signals.patches.name());
    s
}

/// `s` holds no line break.
pub open spec fn is_one_line(s: Seq<char>) -> bool {
    forall|i: int| 0 <= i < s.len() ==> s[i] != '\n'
}

proof fn lemma_concat_one_line(a: Seq<char>, b: Seq<char>)
    requires
        is_one_line(a),
        is_one_line(b),
    ensures
        is_one_line(a + b),
{
    assert forall|i: int| 0 <= i < (a + b).len() implies (a + b)[i] != '\n' by {
        if i < a.len() {
            assert((a + b)[i] == a[i]);
        } else {
            assert((a + b)[i] == b[i - a.len()]);
        }
    }
}

/// The operator report is a single line, whatever the signals and verdict.
pub proof fn lemma_render_is_one_line(signals: Signals, verdict: Verdict)
    ensures
        is_one_line(spec_render(signals, verdict)),
{
    reveal_strlit("\u{1F7E2}");
    reveal_strlit("\u{1F534}");
    reveal_strlit("\u{26AA}");
    reveal_strlit("\u{1F7E0}");
    reveal_strlit(" ");
    reveal_strlit("OPEN-COVERED");
    reveal_strlit("BLOCKED-INERT");
    reveal_strlit("MOOT");
    reveal_strlit("INDETERMINATE");
    reveal_strlit("  ");
    reveal_strlit("lsass micropatches LIVE \u{2014} but LSA Protection is OFF, so credential-dump protection is forfeited (recorded as an accepted lsa-open enrolment).");
    reveal_strlit("ALARM: lsass-targeted patches exist but the loader is blocked from lsass.exe. The host BELIEVES it is patched and is NOT. Raise a work-order.");
    reveal_strlit("no outstanding lsass-targeted patches; conflict currently inert.");
    reveal_strlit("insufficient signal to decide \u{2014} investigate (agent state / console access).");
    reveal_strlit("  signals: protection=");
    reveal_strlit(" loader=");
    reveal_strlit(" patches=");
    reveal_strlit("Unknown");
    reveal_strlit("Off");
    reveal_strlit("On");
    reveal_strlit("Blocked");
    reveal_strlit("Loaded");
    reveal_strlit("Absent");
    reveal_strlit("Present");
    let p0 = verdict.spec_glyph();
    let p1 = p0 + " "@;
    let p2 = p1 + verdict.spec_tag();
    let p3 = p2 + "  "@;
    let p4 = p3 + spec_detail(verdict);
    let p5 = p4 + "  signals: protection="@;
    let p6 = p5 + signals.protection.spec_name();
    let p7 = p6 + " loader="@;
    let p8 = p7 + signals.loader.spec_name();
    let p9 = p8 + " patches="@;
    assert(is_one_line(p0));
    lemma_concat_one_line(p0, " "@);
    lemma_concat_one_line(p1, verdict.spec_tag());
    lemma_concat_one_line(p2, "  "@);
    lemma_concat_one_line(p3, spec_detail(verdict));
    lemma_concat_one_line(p4, "  signals: protection="@);
    lemma_concat_one_line(p5, signals.protection.spec_name());
    lemma_concat_one_line(p6, " loader="@);
    lemma_concat_one_line(p7, signals.loader.spec_name());
    lemma_concat_one_line(p8, " patches="@);
    lemma_concat_one_line(p9, signals.patches.spec_name());
}

/// The one-character decimal form of a digit.
fn digit(n: i32) -> (s: String)
    requires
        0 <= n <= 9,
    ensures
        s@ == decimal(n as nat),
{
    let c: char = ((n as u8) + 48) as char;
    let mut s = String::new();
    string_push(&mut s, c);
    assert(s@ =~= decimal(n as nat));
    s
}

/// The stable machine record: tag, the three signal codes and the exit code.
pub open spec fn spec_render_machine(signals: Signals, verdict: Verdict) -> Seq<char> {
    "lsa-sentinel verdict="@ + verdict.spec_tag() + " protection="@ + decimal(
        signals.protection.spec_code() as nat,
    ) + " loader="@ + decimal(signals.loader.spec_code() as nat) + " patches="@ + decimal(
        signals.patches.spec_code() as nat,
    ) + " exit="@ + decimal(verdict.spec_exit_code() as nat)
}

/// Stable single-line machine record (grep/alert-sink friendly).
pub fn render_machine(signals: Signals, verdict: Verdict) -> (s: String)
    ensures
        s@ == spec_render_machine(signals, verdict),
{
    let mut s = String::from_str("lsa-sentinel verdict=");
    s.append(verdict.tag());
    s.append(" protection=");
    s.append(digit(signals.protection.code()).as_str());
    s.append(" loader=");
    s.append(digit(signals.loader.code()).as_str());
    s.append(" patches=");
    s.append(digit(signals.patches.code()).as_str());
    s.append(" exit=");
    s.append(digit(verdict.exit_code()).as_str());
    s
}

} // verus!
