//! Tests of the pure parsers; fixtures are modelled on real tool output.

use lib::collectors::parse::{
    decode_utf16le, eventlog_mentions_loader_block, loader_from_signals, parse_opatch_log,
    parse_runas_ppl,
};
use lib::model::{LoaderPresence, LsaProtection, PatchStatus};

#[test]
fn runas_ppl_enabled() {
    let out = "\r\nHKEY_LOCAL_MACHINE\\SYSTEM\\CurrentControlSet\\Control\\Lsa\r\n    RunAsPPL    REG_DWORD    0x1\r\n";
    assert_eq!(parse_runas_ppl(out), LsaProtection::On);
}

#[test]
fn runas_ppl_uefi_locked() {
    let out = "    RunAsPPL    REG_DWORD    0x2";
    assert_eq!(parse_runas_ppl(out), LsaProtection::On);
}

#[test]
fn runas_ppl_disabled() {
    let out = "    RunAsPPL    REG_DWORD    0x0";
    assert_eq!(parse_runas_ppl(out), LsaProtection::Off);
}

#[test]
fn runas_ppl_garbage_is_unknown() {
    assert_eq!(parse_runas_ppl("totally unrelated output"), LsaProtection::Unknown);
}

#[test]
fn eventlog_detects_loader_block() {
    // Modelled on a CodeIntegrity 3033 message.
    let ev = "Event[0]:\n  Log Name: Microsoft-Windows-CodeIntegrity/Operational\n  Id: 3033\n  Description: Code Integrity determined that a process \\Device\\HarddiskVolume3\\Windows\\System32\\lsass.exe attempted to load \\Device\\HarddiskVolume3\\Program Files (x86)\\0patch\\Agent\\0patchLoaderX64.dll that did not meet the Protected Process signing level requirements.";
    assert!(eventlog_mentions_loader_block(ev));
}

#[test]
fn eventlog_ignores_unrelated_block() {
    let ev = "Event[0]: ... attempted to load some_other_driver.sys ...";
    assert!(!eventlog_mentions_loader_block(ev));
}

#[test]
fn loader_blocked_when_protected() {
    assert_eq!(loader_from_signals(LsaProtection::On, false), LoaderPresence::Blocked);
}

#[test]
fn loader_loaded_when_off_and_no_block() {
    assert_eq!(loader_from_signals(LsaProtection::Off, false), LoaderPresence::Loaded);
}

#[test]
fn loader_blocked_when_off_but_block_seen() {
    assert_eq!(loader_from_signals(LsaProtection::Off, true), LoaderPresence::Blocked);
}

/// Real (field-captured) log lines, no lsass patch outstanding.
const REAL_LOG_NO_LSASS: &str = "\
2026/07/01 21:41:35 Patch 2088 applied in application wevtutil.exe\n\
2026/07/01 21:41:35 Patch 1999 applied in application conhost.exe\n";

#[test]
fn opatch_log_present_on_lsass_application() {
    let log = format!(
        "{REAL_LOG_NO_LSASS}2026/07/01 21:42:00 Patch 2101 applied in application lsass.exe\n"
    );
    assert_eq!(parse_opatch_log(&log), PatchStatus::Present);
}

#[test]
fn opatch_log_absent_when_no_lsass_line() {
    assert_eq!(parse_opatch_log(REAL_LOG_NO_LSASS), PatchStatus::Absent);
}

#[test]
fn opatch_log_unknown_on_empty() {
    assert_eq!(parse_opatch_log(""), PatchStatus::Unknown);
    assert_eq!(parse_opatch_log("   \n  "), PatchStatus::Unknown);
}

#[test]
fn opatch_log_bare_lsass_mention_is_not_present() {
    // Only the exact "applied in application lsass.exe" phrase counts.
    assert_eq!(
        parse_opatch_log("2026/07/01 21:41:35 Scanning lsass.exe modules\n"),
        PatchStatus::Absent
    );
}

fn utf16le(s: &str, bom: bool) -> Vec<u8> {
    let mut out = Vec::new();
    if bom {
        out.extend_from_slice(&[0xFF, 0xFE]);
    }
    for u in s.encode_utf16() {
        out.extend_from_slice(&u.to_le_bytes());
    }
    out
}

#[test]
fn decode_utf16le_with_bom_roundtrips_real_line() {
    let line = "2026/07/01 21:41:35 Patch 2088 applied in application wevtutil.exe";
    assert_eq!(decode_utf16le(&utf16le(line, true)).as_deref(), Some(line));
}

#[test]
fn decode_utf16le_without_bom_roundtrips() {
    let line = "Patch 1999 applied in application conhost.exe";
    assert_eq!(decode_utf16le(&utf16le(line, false)).as_deref(), Some(line));
}

#[test]
fn decode_utf16le_rejects_odd_length() {
    assert_eq!(decode_utf16le(&[0x50, 0x00, 0x61]), None);
}

#[test]
fn decode_utf16le_tolerates_tail_cut_surrogates() {
    // A tail read whose window starts on the low half of one surrogate pair
    // and ends on the high half of another.
    let mut bytes = 0xDC01u16.to_le_bytes().to_vec(); // lone low surrogate
    bytes.extend(utf16le("Patch 7 applied in application lsass.exe", false));
    bytes.extend_from_slice(&0xD801u16.to_le_bytes()); // lone high surrogate
    assert_eq!(
        decode_utf16le(&bytes).as_deref(),
        Some("Patch 7 applied in application lsass.exe")
    );
}

#[test]
fn decode_utf16le_rejects_interior_lone_surrogate() {
    let mut bytes = utf16le("ok ", false);
    bytes.extend_from_slice(&0xD800u16.to_le_bytes()); // high surrogate...
    bytes.extend(utf16le(" not ok", false)); // ...followed by a non-low unit
    assert_eq!(decode_utf16le(&bytes), None);
}

#[test]
fn decode_then_parse_end_to_end() {
    let bytes = utf16le(REAL_LOG_NO_LSASS, true);
    let text = decode_utf16le(&bytes).expect("decodes");
    assert_eq!(parse_opatch_log(&text), PatchStatus::Absent);
}
