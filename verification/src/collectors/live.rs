//! What the live Windows collectors decide from what they read.
//!
//! The collectors run `reg.exe` and `wevtutil` and read the tail of the
//! 0patch agent log; these functions take what came back (or `None` when
//! nothing usable came back) and decide the signal, failing safe to `Unknown`.
use vstd::prelude::*;

use crate::collectors::parse::{
    eventlog_mentions_loader_block, loader_from_signals, parse_opatch_log,
    parse_runas_ppl, spec_loader_from_signals, spec_parse_opatch_log, spec_parse_runas_ppl,
};
use crate::classify::spec_classify;
use crate::model::{LoaderPresence, LsaProtection, PatchStatus, Signals, Verdict};
use crate::text::{contains, lower_seq};
use crate::utf16::{encode_utf16le, lemma_decode_encode_with_bom, spec_decode_utf16le};

verus! {

/// At most this many bytes are read from the end of the 0patch agent log.
pub const TAIL_CAP: u64 = 2097152;

/// LSA Protection from a `reg query ... /v RunAsPPL` run: `None` when the
/// command exited unsuccessfully (the value is absent, so protection is not
/// configured: `Off`), else its output parsed by `parse_runas_ppl`.
pub fn protection_from_reg_query(stdout: Option<&str>) -> (p: LsaProtection)
    ensures
        p == match stdout {
            Some(t) => spec_parse_runas_ppl(t@),
            None => LsaProtection::Off,
        },
{
    match stdout {
        Some(t) => parse_runas_ppl(t),
        None => LsaProtection::Off,
    }
}

/// Loader presence from protection and a CodeIntegrity 3033/3063 event query:
/// `Blocked` under protection `On` whatever the query gave (it need not run);
/// otherwise `Unknown` when the query failed (`None`), else decided by
/// `loader_from_signals` on whether the events mention the loader.
pub fn loader_from_event_query(protection: LsaProtection, events: Option<&str>) -> (l:
    LoaderPresence)
    ensures
        protection == LsaProtection::On ==> l == LoaderPresence::Blocked,
        protection != LsaProtection::On ==> l == match events {
            Some(t) => spec_loader_from_signals(
                protection,
                contains(lower_seq(t@), "0patchloader"@),
            ),
            None => LoaderPresence::Unknown,
        },
{
    if protection == LsaProtection::On {
        return LoaderPresence::Blocked;
    }
    match events {
        Some(t) => loader_from_signals(protection, eventlog_mentions_loader_block(t)),
        None => LoaderPresence::Unknown,
    }
}

/// Patch status from the decoded text of the agent log's tail.
pub open spec fn spec_patch_status_from_log_text(text: Option<Seq<char>>) -> PatchStatus {
    match text {
        Some(t) => spec_parse_opatch_log(t),
        None => PatchStatus::Unknown,
    }
}

/// Patch status from the bytes read from the end of the agent log: the
/// bytes decoded by `decode_utf16le`, then judged as their text is.
pub open spec fn spec_patch_status_from_log_tail(tail: Option<Seq<u8>>) -> PatchStatus {
    match tail {
        Some(b) => spec_patch_status_from_log_text(spec_decode_utf16le(b)),
        None => PatchStatus::Unknown,
    }
}

/// Outstanding lsass patch status from the decoded tail of the 0patch agent
/// log: `Unknown` when the log could not be read or did not decode as
/// UTF-16LE (`None`), else the text parsed by `parse_opatch_log`.
pub fn patch_status_from_log_text(text: Option<&str>) -> (s: PatchStatus)
    ensures
        s == spec_patch_status_from_log_text(
            match text {
                Some(t) => Some(t@),
                None => None,
            },
        ),
        text is None ==> s == PatchStatus::Unknown,
        text matches Some(t) ==> ((s == PatchStatus::Present) <==> contains(
            lower_seq(t@),
            "applied in application lsass.exe"@,
        )),
{
    match text {
        Some(t) => parse_opatch_log(t),
        None => PatchStatus::Unknown,
    }
}

/// The even offset at or after `len - cap` (or 0 when the file is no longer
/// than `cap`) from which to read at most the last `cap` bytes of a file of
/// `len` bytes, so that the window starts on a UTF-16 code-unit boundary;
/// never past the end of the file.
pub open spec fn spec_tail_window_start(len: u64, cap: u64) -> int {
    let d: int = if len > cap {
        len - cap
    } else {
        0
    };
    if d + d % 2 > len {
        len as int
    } else {
        d + d % 2
    }
}

/// Where to start reading a file of `len` bytes to get at most its last `cap`
/// bytes, moved up to an even offset so that the window starts on a UTF-16
/// code-unit boundary.
pub fn tail_window_start(len: u64, cap: u64) -> (start: u64)
    ensures
        start == spec_tail_window_start(len, cap),
        start <= len,
        len - start <= cap,
        start % 2 == 0 || start == len,
        len > cap ==> len - start + 1 >= cap,
{
    let d = if len > cap {
        len - cap
    } else {
        0
    };
    if d % 2 == 1 && d == len {
        len
    } else {
        d + d % 2
    }
}

/// A missing, unreadable or undecodable agent log never yields a positive
/// verdict; whatever the other two signals, the host is `Indeterminate`.
pub proof fn lemma_unreadable_log_is_indeterminate(
    tail: Option<Seq<u8>>,
    protection: LsaProtection,
    loader: LoaderPresence,
)
    requires
        tail matches Some(b) ==> spec_decode_utf16le(b) is None,
    ensures
        spec_classify(
            Signals { protection, loader, patches: spec_patch_status_from_log_tail(tail) },
        ) == Verdict::Indeterminate,
{
}

/// A log the agent wrote as UTF-16LE with a byte-order mark, read whole, is
/// judged as its text is.
pub proof fn lemma_agent_log_status(log: Seq<char>)
    ensures
        spec_patch_status_from_log_tail(Some(encode_utf16le(log, true))) == spec_parse_opatch_log(
            log,
        ),
{
    lemma_decode_encode_with_bom(log);
}

} // verus!
