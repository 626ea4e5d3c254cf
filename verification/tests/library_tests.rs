//! Scenarios and concrete instances of the library's laws.

use lib::classify::{classify, verdict_from_core};
use lib::collectors::live::{
    loader_from_event_query, patch_status_from_log_text, protection_from_reg_query,
    tail_window_start, TAIL_CAP,
};
use lib::collectors::parse::{decode_utf16le, parse_opatch_log, parse_runas_ppl};
use lib::collectors::snapshot::Snapshot;
use lib::collectors::SignalSource;
use lib::model::{LoaderPresence, LsaProtection, PatchStatus, Signals, Verdict};
use lib::report::{render, render_machine};

const ALL_VERDICTS: [Verdict; 4] =
    [Verdict::Indeterminate, Verdict::Moot, Verdict::OpenCovered, Verdict::BlockedInert];

fn utf16le(s: &str, bom: bool) -> Vec<u8> {
    let mut out = Vec::new();
    if bom {
        out.extend_from_slice(&[0xFF, 0xFE]);
    }
    for u in s.encode_utf16() {
        out.extend_from_slice(&u.to_le_bytes());
    }
    out
}

#[test]
fn verdict_codes_roundtrip() {
    for v in ALL_VERDICTS {
        let code: i32 = i32::from(v);
        assert_eq!(Verdict::try_from(code), Ok(v));
        assert_eq!(verdict_from_core(code), v);
    }
    assert_eq!(i32::from(Verdict::Indeterminate), 0);
    assert_eq!(i32::from(Verdict::Moot), 1);
    assert_eq!(i32::from(Verdict::OpenCovered), 2);
    assert_eq!(i32::from(Verdict::BlockedInert), 3);
}

#[test]
fn out_of_range_codes_are_rejected_and_fail_safe() {
    assert_eq!(Verdict::try_from(4), Err(4));
    assert_eq!(Verdict::try_from(-1), Err(-1));
    assert_eq!(verdict_from_core(4), Verdict::Indeterminate);
    assert_eq!(verdict_from_core(i32::MIN), Verdict::Indeterminate);
}

#[test]
fn signal_codes() {
    assert_eq!(LsaProtection::On.code(), 2);
    assert_eq!(LoaderPresence::Blocked.code(), 1);
    assert_eq!(PatchStatus::Absent.code(), 1);
}

#[test]
fn exit_codes_glyphs_and_tags() {
    assert_eq!(Verdict::BlockedInert.exit_code(), 2);
    assert_eq!(Verdict::Indeterminate.exit_code(), 1);
    assert_eq!(Verdict::OpenCovered.exit_code(), 0);
    assert_eq!(Verdict::Moot.exit_code(), 0);
    assert_eq!(Verdict::OpenCovered.glyph(), "\u{1F7E2}");
    assert_eq!(Verdict::BlockedInert.glyph(), "\u{1F534}");
    assert_eq!(Verdict::Moot.glyph(), "\u{26AA}");
    assert_eq!(Verdict::Indeterminate.glyph(), "\u{1F7E0}");
    assert_eq!(Verdict::BlockedInert.tag(), "BLOCKED-INERT");
    assert_eq!(Verdict::Indeterminate.tag(), "INDETERMINATE");
}

#[test]
fn protected_host_with_patches_alarms_whatever_the_loader() {
    for l in [LoaderPresence::Unknown, LoaderPresence::Blocked, LoaderPresence::Loaded] {
        let s = Signals::new(LsaProtection::On, l, PatchStatus::Present);
        assert_eq!(classify(s), Verdict::BlockedInert);
    }
}

#[test]
fn unknown_patches_are_indeterminate() {
    for p in [LsaProtection::Unknown, LsaProtection::Off, LsaProtection::On] {
        for l in [LoaderPresence::Unknown, LoaderPresence::Blocked, LoaderPresence::Loaded] {
            assert_eq!(classify(Signals::new(p, l, PatchStatus::Unknown)), Verdict::Indeterminate);
        }
    }
}

#[test]
fn render_machine_line() {
    let s = Signals::new(LsaProtection::On, LoaderPresence::Blocked, PatchStatus::Present);
    assert_eq!(
        render_machine(s, classify(s)),
        "lsa-sentinel verdict=BLOCKED-INERT protection=2 loader=1 patches=2 exit=2"
    );
    let s = Signals::new(LsaProtection::Unknown, LoaderPresence::Unknown, PatchStatus::Unknown);
    assert_eq!(
        render_machine(s, classify(s)),
        "lsa-sentinel verdict=INDETERMINATE protection=0 loader=0 patches=0 exit=1"
    );
}

#[test]
fn render_operator_line() {
    let s = Signals::new(LsaProtection::Off, LoaderPresence::Loaded, PatchStatus::Absent);
    assert_eq!(
        render(s, Verdict::Moot),
        "\u{26AA} MOOT  no outstanding lsass-targeted patches; conflict currently inert.  signals: protection=Off loader=Loaded patches=Absent"
    );
    let s = Signals::new(LsaProtection::On, LoaderPresence::Blocked, PatchStatus::Present);
    let line = render(s, Verdict::BlockedInert);
    assert!(line.starts_with("\u{1F534} BLOCKED-INERT  ALARM: lsass-targeted patches exist but the loader is blocked from lsass.exe."));
    assert!(line.ends_with("signals: protection=On loader=Blocked patches=Present"));
    assert!(!line.contains('\n'));
}

#[test]
fn snapshot_parses_keys_values_and_comments() {
    let snap = Snapshot::from_str(
        "# one host's observed state\nprotection = on        # on | off | unknown\r\nLoader     = BLOCKED\npatches    = present\n",
    );
    assert_eq!(
        snap.collect(),
        Ok(Signals::new(LsaProtection::On, LoaderPresence::Blocked, PatchStatus::Present))
    );
}

#[test]
fn snapshot_unrecognised_or_missing_values_are_unknown() {
    let snap = Snapshot::from_str("protection = maybe\n# loader = loaded\npatches absent\n");
    assert_eq!(
        snap.collect(),
        Ok(Signals::new(LsaProtection::Unknown, LoaderPresence::Unknown, PatchStatus::Unknown))
    );
    let first_wins = Snapshot::from_str("patches = absent\npatches = present\nloader=loaded\nprotection=off");
    assert_eq!(
        first_wins.collect(),
        Ok(Signals::new(LsaProtection::Off, LoaderPresence::Loaded, PatchStatus::Absent))
    );
}

#[test]
fn runas_ppl_edge_cases() {
    // The first line that names RunAsPPL and holds 0x decides.
    assert_eq!(parse_runas_ppl("runasppl REG_DWORD\nRUNASPPL 0x0\n"), LsaProtection::Off);
    // No digits after 0x.
    assert_eq!(parse_runas_ppl("RunAsPPL REG_DWORD 0xZ"), LsaProtection::Unknown);
    // Leading zeros and upper-case digits.
    assert_eq!(parse_runas_ppl("RunAsPPL REG_DWORD 0x0000000A"), LsaProtection::On);
    assert_eq!(parse_runas_ppl("RunAsPPL REG_DWORD 0x00000000"), LsaProtection::Off);
    // Larger than a u32.
    assert_eq!(parse_runas_ppl("RunAsPPL REG_DWORD 0x100000000"), LsaProtection::Unknown);
    assert_eq!(parse_runas_ppl("RunAsPPL REG_DWORD 0xFFFFFFFF"), LsaProtection::On);
    assert_eq!(parse_runas_ppl(""), LsaProtection::Unknown);
}

#[test]
fn opatch_log_is_case_insensitive_and_unicode_blank_is_unknown() {
    assert_eq!(
        parse_opatch_log("Patch 1 APPLIED IN APPLICATION LSASS.EXE"),
        PatchStatus::Present
    );
    assert_eq!(parse_opatch_log("\u{3000}\u{a0}\t\r\n"), PatchStatus::Unknown);
}

#[test]
fn decode_utf16le_surrogate_pairs_and_bom() {
    let text = "lsass \u{1F534} ok \u{10FFFF}";
    assert_eq!(decode_utf16le(&utf16le(text, true)).as_deref(), Some(text));
    assert_eq!(decode_utf16le(&utf16le(text, false)).as_deref(), Some(text));
    assert_eq!(decode_utf16le(&[]).as_deref(), Some(""));
    assert_eq!(decode_utf16le(&[0xFF, 0xFE]).as_deref(), Some(""));
    // A lone low surrogate inside the text is rejected.
    let mut bytes = utf16le("a", false);
    bytes.extend_from_slice(&0xDC00u16.to_le_bytes());
    bytes.extend(utf16le("b", false));
    assert_eq!(decode_utf16le(&bytes), None);
}

#[test]
fn live_collector_decisions() {
    assert_eq!(protection_from_reg_query(None), LsaProtection::Off);
    assert_eq!(
        protection_from_reg_query(Some("    RunAsPPL    REG_DWORD    0x1")),
        LsaProtection::On
    );
    assert_eq!(
        loader_from_event_query(LsaProtection::On, None),
        LoaderPresence::Blocked
    );
    assert_eq!(loader_from_event_query(LsaProtection::Off, None), LoaderPresence::Unknown);
    assert_eq!(
        loader_from_event_query(LsaProtection::Off, Some("... 0PATCHLOADERx64.dll ...")),
        LoaderPresence::Blocked
    );
    assert_eq!(
        loader_from_event_query(LsaProtection::Off, Some("nothing relevant")),
        LoaderPresence::Loaded
    );
    assert_eq!(
        loader_from_event_query(LsaProtection::Unknown, Some("nothing relevant")),
        LoaderPresence::Unknown
    );
}

#[test]
fn unreadable_log_is_indeterminate() {
    assert_eq!(patch_status_from_log_text(None), PatchStatus::Unknown);
    let odd = decode_utf16le(&[0x41, 0x00, 0x42]);
    assert_eq!(patch_status_from_log_text(odd.as_deref()), PatchStatus::Unknown);
    let log = utf16le("2026/07/01 21:42:00 Patch 2101 applied in application lsass.exe\n", true);
    let text = decode_utf16le(&log);
    assert_eq!(patch_status_from_log_text(text.as_deref()), PatchStatus::Present);
    assert_eq!(patch_status_from_log_text(Some("  \n")), PatchStatus::Unknown);
    let s = Signals::new(LsaProtection::On, LoaderPresence::Blocked, patch_status_from_log_text(None));
    assert_eq!(classify(s), Verdict::Indeterminate);
}

#[test]
fn tail_window_is_even_and_bounded() {
    assert_eq!(tail_window_start(10, 100), 0);
    assert_eq!(tail_window_start(100, 100), 0);
    // An odd excess moves the start up: 104 bytes are read, never 101.
    assert_eq!(tail_window_start(105, 100), 6);
    assert_eq!(tail_window_start(106, 100), 6);
    assert_eq!(tail_window_start(10_000_001, TAIL_CAP), 10_000_001 - TAIL_CAP + 1);
    // A zero cap reads nothing.
    assert_eq!(tail_window_start(7, 0), 7);
    assert_eq!(tail_window_start(8, 0), 8);
}
