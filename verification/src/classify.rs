//! The classifier: is 0patch's lsass coverage live, silently inert, or moot?
use vstd::prelude::*;

use crate::model::{LoaderPresence, LsaProtection, PatchStatus, Signals, Verdict};

verus! {

/// The verdict for a signal triple, decided in priority order:
/// no outstanding patches is moot; protection off with the loader in and
/// patches present is covered; patches present with protection on or the
/// loader observed out is the silent failure; anything else is indeterminate.
pub open spec fn spec_classify(s: Signals) -> Verdict {
    if s.patches == PatchStatus::Absent {
        Verdict::Moot
    } else if s.protection == LsaProtection::Off && s.loader == LoaderPresence::Loaded
        && s.patches == PatchStatus::Present {
        Verdict::OpenCovered
    } else if s.patches == PatchStatus::Present && (s.protection == LsaProtection::On || s.loader
        == LoaderPresence::Blocked) {
        Verdict::BlockedInert
    } else {
        Verdict::Indeterminate
    }
}

/// Decide whether 0patch's lsass coverage is live, silently inert, or moot.
pub fn classify(s: Signals) -> (v: Verdict)
    ensures
        v == spec_classify(s),
{
    // 1. No lsass-targeted patches outstanding: the conflict is moot.
    if s.patches == PatchStatus::Absent {
        return Verdict::Moot;
    }
    // 2. Genuinely covered: protection off, loader in, patches positively present.
    if s.protection == LsaProtection::Off && s.loader == LoaderPresence::Loaded && s.patches
        == PatchStatus::Present {
        return Verdict::OpenCovered;
    }
    // 3. Silent failure: patches present, and LSA Protection on or the loader out.
    if s.patches == PatchStatus::Present && (s.protection == LsaProtection::On || s.loader
        == LoaderPresence::Blocked) {
        return Verdict::BlockedInert;
    }
    // 4. Not enough positive information.
    Verdict::Indeterminate
}

/// The verdict reported for a raw ABI code returned by an external classifier
/// core: the decoded verdict, and `Indeterminate` for an out-of-range code
/// (never a positive "covered").
pub open spec fn spec_verdict_from_core(raw: i32) -> Verdict {
    match Verdict::spec_from_code(raw) {
        Ok(v) => v,
        Err(_) => Verdict::Indeterminate,
    }
}

/// Map the raw result code of the external classifier core to a verdict,
/// failing safe to `Indeterminate` on a code that names no verdict.
pub fn verdict_from_core(raw: i32) -> (v: Verdict)
    ensures
        v == spec_verdict_from_core(raw),
        !(0 <= raw <= 3) ==> v == Verdict::Indeterminate,
{
    match Verdict::from_code(raw) {
        Ok(v) => v,
        Err(_) => Verdict::Indeterminate,
    }
}

/// The verdict is `Moot` if and only if no lsass-targeted patch is outstanding.
pub proof fn lemma_moot_iff_no_patches(s: Signals)
    ensures
        (spec_classify(s) == Verdict::Moot) <==> (s.patches == PatchStatus::Absent),
{
}

/// The verdict is `OpenCovered` exactly for a genuinely covered host:
/// protection off, loader loaded, patches present.
pub proof fn lemma_open_covered_iff_truly_covered(s: Signals)
    ensures
        (spec_classify(s) == Verdict::OpenCovered) <==> (s.protection == LsaProtection::Off
            && s.loader == LoaderPresence::Loaded && s.patches == PatchStatus::Present),
{
}

/// The verdict is `BlockedInert` exactly when patches are present and
/// something keeps the loader out (protection on, or the loader observed blocked).
pub proof fn lemma_blocked_inert_iff_silent_failure(s: Signals)
    ensures
        (spec_classify(s) == Verdict::BlockedInert) <==> (s.patches == PatchStatus::Present && (
        s.protection == LsaProtection::On || s.loader == LoaderPresence::Blocked)),
{
}

/// An unknown patch status never yields a positive result; the host is
/// reported `Indeterminate`.
pub proof fn lemma_unknown_patches_is_indeterminate(s: Signals)
    requires
        s.patches == PatchStatus::Unknown,
    ensures
        spec_classify(s) == Verdict::Indeterminate,
{
}

/// The process exits with the alarm code 2 exactly in the silent-failure
/// state, with 1 exactly when the verdict is `Indeterminate`, and with 0 otherwise.
pub proof fn lemma_exit_code_of_classify(s: Signals)
    ensures
        (spec_classify(s).spec_exit_code() == 2) <==> (s.patches == PatchStatus::Present && (
        s.protection == LsaProtection::On || s.loader == LoaderPresence::Blocked)),
        (spec_classify(s).spec_exit_code() == 1) <==> (spec_classify(s)
            == Verdict::Indeterminate),
        (spec_classify(s).spec_exit_code() == 0) <==> (spec_classify(s) == Verdict::Moot
            || spec_classify(s) == Verdict::OpenCovered),
{
}

/// Decoding the code of the verdict that `classify` gives returns that same
/// verdict, so a core that agrees with `classify` on codes agrees on verdicts.
pub proof fn lemma_core_code_roundtrip(s: Signals)
    ensures
        spec_verdict_from_core(spec_classify(s).spec_code()) == spec_classify(s),
{
}

} // verus!
