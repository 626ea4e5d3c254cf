//! Pure parsers for the live collectors: `reg query` output, CodeIntegrity
//! event text, the 0patch agent log, and UTF-16LE decoding of that log.
//!
//! Nothing here does I/O; the collectors hand these functions the raw text
//! or bytes they obtained.
use vstd::prelude::*;

use crate::model::{LoaderPresence, LsaProtection, PatchStatus};
use crate::text::{
    all_whitespace, chars_of, contains, contains_chars, find, find_chars, hex_digit_value,
    hex_run, hex_value, is_hex_digit, is_whitespace, lines, lines_view, lower_chars, lower_seq,
    split_lines, string_of,
};
use crate::utf16::{
    char_from_u32, decode_units, is_high_surrogate, is_low_surrogate, le_units, pair_value, prepend,
    spec_decode_utf16le, strip_bom, strip_leading_low, strip_trailing_high, tail_units,
};

verus! {

/// Protection state spelled by the hexadecimal digits `d` of a `RunAsPPL`
/// value, as `u32::from_str_radix(d, 16)` decides it: no digits or a value
/// beyond `u32::MAX` cannot be parsed (`Unknown`); 0 is `Off`; anything else `On`.
pub open spec fn hex_protection(d: Seq<char>) -> LsaProtection {
    if d.len() == 0 || hex_value(d) > u32::MAX {
        LsaProtection::Unknown
    } else if hex_value(d) == 0 {
        LsaProtection::Off
    } else {
        LsaProtection::On
    }
}

/// What one line of `reg query` output says about `RunAsPPL`: nothing unless
/// it mentions `runasppl` (any ASCII case) and holds `0x`; otherwise the
/// protection state spelled by the hexadecimal digits after the first `0x`.
pub open spec fn runas_line(line: Seq<char>) -> Option<LsaProtection> {
    if contains(lower_seq(line), "runasppl"@) {
        match find(line, "0x"@) {
            Some(idx) => Some(hex_protection(hex_run(line.skip(idx + 2)))),
            None => None,
        }
    } else {
        None
    }
}

/// The state given by the first line that says anything, `Unknown` if none does.
pub open spec fn runas_first(ls: Seq<Seq<char>>) -> LsaProtection
    decreases ls.len(),
{
    if ls.len() == 0 {
        LsaProtection::Unknown
    } else {
        match runas_line(ls[0]) {
            Some(p) => p,
            None => runas_first(ls.drop_first()),
        }
    }
}

/// `RunAsPPL` state read from `reg query` output.
pub open spec fn spec_parse_runas_ppl(stdout: Seq<char>) -> LsaProtection {
    runas_first(lines(stdout))
}

proof fn lemma_hex_value_nonneg(d: Seq<char>)
    requires
        forall|i: int| 0 <= i < d.len() ==> is_hex_digit(#[trigger] d[i]),
    ensures
        hex_value(d) >= 0,
    decreases d.len(),
{
    if d.len() > 0 {
        lemma_hex_value_nonneg(d.drop_last());
    }
}

/// What a first-deciding line gives: if line `j` of the output mentions
/// `runasppl` and holds `0x`, and no line before it does, the result is the
/// state that line `j` spells; later lines do not matter.
pub proof fn lemma_runas_first_deciding_line(stdout: Seq<char>, j: int)
    requires
        0 <= j < lines(stdout).len(),
        runas_line(lines(stdout)[j]) is Some,
        forall|i: int| 0 <= i < j ==> runas_line(#[trigger] lines(stdout)[i]) is None,
    ensures
        spec_parse_runas_ppl(stdout) == runas_line(lines(stdout)[j])->0,
{
    lemma_runas_first_at(lines(stdout), j);
}

/// What one `reg query` line says: a line that mentions `runasppl` in any
/// ASCII case and is `pre + "0x" + t`, with no `0x` in `pre`, gives the state
/// spelled by the hexadecimal digits at the start of `t`; a line without
/// `0x`, or one that does not mention `runasppl`, says nothing.
pub proof fn lemma_runas_line(pre: Seq<char>, t: Seq<char>, line: Seq<char>)
    ensures
        line == pre + "0x"@ + t && contains(lower_seq(line), "runasppl"@) && !contains(
            pre,
            "0x"@,
        ) ==> runas_line(line) == Some(hex_protection(hex_run(t))),
        !contains(line, "0x"@) ==> runas_line(line) is None,
        !contains(lower_seq(line), "runasppl"@) ==> runas_line(line) is None,
{
    reveal_strlit("0x");
    crate::text::lemma_find_contains(line, "0x"@);
    if line == pre + "0x"@ + t && !contains(pre, "0x"@) {
        let n = pre.len() as int;
        crate::text::lemma_find_from(line, "0x"@, 0);
        assert(line.subrange(n, n + 2) =~= "0x"@);
        assert(crate::text::matches_at(line, "0x"@, n));
        if let Some(j) = find(line, "0x"@) {
            if j < n {
                if j + 1 < n {
                    assert(pre.subrange(j, j + 2) =~= line.subrange(j, j + 2));
                    assert(crate::text::matches_at(pre, "0x"@, j));
                } else {
                    assert(line.subrange(j, j + 2)[1] == line[n]);
                }
            }
        }
        assert(find(line, "0x"@) == Some(n));
        assert(line.skip(n + 2) =~= t);
    }
}

/// Output in which no line mentions `runasppl` together with `0x` reads as
/// `Unknown`.
pub proof fn lemma_runas_no_deciding_line(stdout: Seq<char>)
    requires
        forall|i: int| 0 <= i < lines(stdout).len() ==> runas_line(#[trigger] lines(stdout)[i]) is None,
    ensures
        spec_parse_runas_ppl(stdout) == LsaProtection::Unknown,
{
    lemma_runas_first_none(lines(stdout));
}

proof fn lemma_runas_first_at(ls: Seq<Seq<char>>, j: int)
    requires
        0 <= j < ls.len(),
        runas_line(ls[j]) is Some,
        forall|i: int| 0 <= i < j ==> runas_line(#[trigger] ls[i]) is None,
    ensures
        runas_first(ls) == runas_line(ls[j])->0,
    decreases j,
{
    if j > 0 {
        assert(runas_line(ls[0]) is None);
        let rest = ls.drop_first();
        assert forall|i: int| 0 <= i < j - 1 implies runas_line(#[trigger] rest[i]) is None by {
            assert(rest[i] == ls[i + 1]);
        }
        assert(rest[j - 1] == ls[j]);
        lemma_runas_first_at(rest, j - 1);
    }
}

proof fn lemma_runas_first_none(ls: Seq<Seq<char>>)
    requires
        forall|i: int| 0 <= i < ls.len() ==> runas_line(#[trigger] ls[i]) is None,
    ensures
        runas_first(ls) == LsaProtection::Unknown,
    decreases ls.len(),
{
    if ls.len() > 0 {
        assert(runas_line(ls[0]) is None);
        let rest = ls.drop_first();
        assert forall|i: int| 0 <= i < rest.len() implies runas_line(#[trigger] rest[i]) is None by {
            assert(rest[i] == ls[i + 1]);
        }
        lemma_runas_first_none(rest);
    }
}

/// The digits read after `0x`: all of the leading hexadecimal digits of `t`
/// and nothing after them.
pub proof fn lemma_hex_run(t: Seq<char>)
    ensures
        hex_run(t).len() <= t.len(),
        hex_run(t) == t.take(hex_run(t).len() as int),
        forall|i: int| 0 <= i < hex_run(t).len() ==> is_hex_digit(#[trigger] hex_run(t)[i]),
        hex_run(t).len() < t.len() ==> !is_hex_digit(t[hex_run(t).len() as int]),
    decreases t.len(),
{
    if t.len() > 0 && is_hex_digit(t[0]) {
        lemma_hex_run(t.drop_first());
        let r = hex_run(t.drop_first());
        assert(hex_run(t) == seq![t[0]] + r);
        assert(seq![t[0]] + r =~= t.take(r.len() + 1 as int));
        assert forall|i: int| 0 <= i < hex_run(t).len() implies is_hex_digit(
            #[trigger] hex_run(t)[i],
        ) by {
            if i > 0 {
                assert(hex_run(t)[i] == r[i - 1]);
            }
        }
        if r.len() + 1 < t.len() {
            assert(t[r.len() + 1 as int] == t.drop_first()[r.len() as int]);
        }
    } else {
        assert(t.take(0) =~= Seq::<char>::empty());
    }
}

/// The value read from hexadecimal digits (such as `hex_run` gives): `Off` exactly for a non-empty
/// run spelling zero, `On` exactly for a non-empty run spelling a non-zero
/// `u32`, `Unknown` for no digits or a value beyond `u32::MAX`.
pub proof fn lemma_hex_protection(d: Seq<char>)
    requires
        forall|i: int| 0 <= i < d.len() ==> is_hex_digit(#[trigger] d[i]),
    ensures
        (hex_protection(d) == LsaProtection::Off) <==> (d.len() > 0 && hex_value(d) == 0),
        (hex_protection(d) == LsaProtection::On) <==> (d.len() > 0 && 0 < hex_value(d)
            <= u32::MAX),
        (hex_protection(d) == LsaProtection::Unknown) <==> (d.len() == 0 || hex_value(d)
            > u32::MAX),
{
    lemma_hex_value_nonneg(d);
}

/// The number that hexadecimal digits spell: appending a digit multiplies
/// by sixteen and adds the digit's value, and no digits spell zero.
pub proof fn lemma_hex_value_digits(d: Seq<char>, c: char)
    ensures
        hex_value(Seq::<char>::empty()) == 0,
        hex_value(d.push(c)) == 16 * hex_value(d) + hex_digit_value(c),
{
    assert(d.push(c).drop_last() =~= d);
}

/// The status judged from agent log text: `Present` exactly when the text,
/// lowered, contains `applied in application lsass.exe`; `Unknown` exactly
/// when it does not and the text is whitespace only; `Absent` otherwise.
pub proof fn lemma_opatch_log_status(log: Seq<char>)
    ensures
        (spec_parse_opatch_log(log) == PatchStatus::Present) <==> contains(
            lower_seq(log),
            "applied in application lsass.exe"@,
        ),
        (spec_parse_opatch_log(log) == PatchStatus::Unknown) <==> (!contains(
            lower_seq(log),
            "applied in application lsass.exe"@,
        ) && forall|i: int| 0 <= i < log.len() ==> is_whitespace(#[trigger] log[i])),
        (spec_parse_opatch_log(log) == PatchStatus::Absent) <==> (!contains(
            lower_seq(log),
            "applied in application lsass.exe"@,
        ) && exists|i: int| 0 <= i < log.len() && !is_whitespace(#[trigger] log[i])),
{
}

/// Exec form of `is_hex_digit`.
fn is_hex_digit_char(c: char) -> (r: bool)
    ensures
        r == is_hex_digit(c),
{
    ('0' <= c && c <= '9') || ('a' <= c && c <= 'f') || ('A' <= c && c <= 'F')
}

/// Value of the hexadecimal digit `c`.
fn hex_digit_value_of(c: char) -> (r: u64)
    requires
        is_hex_digit(c),
    ensures
        r == hex_digit_value(c),
        r < 16,
{
    if '0' <= c && c <= '9' {
        (c as u64) - ('0' as u64)
    } else if 'a' <= c && c <= 'f' {
        (c as u64) - ('a' as u64) + 10
    } else {
        (c as u64) - ('A' as u64) + 10
    }
}

/// The protection state spelled by the hexadecimal digits starting at `k` in `line`.
fn hex_protection_at(line: &Vec<char>, k: usize) -> (r: LsaProtection)
    requires
        k <= line@.len(),
    ensures
        r == hex_protection(hex_run(line@.skip(k as int))),
{
    let n = line.len();
    let mut j: usize = k;
    let mut acc: u64 = 0;
    let mut over = false;
    assert(line@.subrange(k as int, k as int) =~= Seq::<char>::empty());
    assert(Seq::<char>::empty() + hex_run(line@.skip(k as int)) =~= hex_run(line@.skip(k as int)));
    while j < n && is_hex_digit_char(line[j])
        invariant
            n == line@.len(),
            k <= j <= n,
            hex_run(line@.skip(k as int)) == line@.subrange(k as int, j as int) + hex_run(
                line@.skip(j as int),
            ),
            forall|i: int| k <= i < j ==> is_hex_digit(#[trigger] line@[i]),
            !over ==> acc == hex_value(line@.subrange(k as int, j as int)) && acc <= u32::MAX,
            over ==> hex_value(line@.subrange(k as int, j as int)) > u32::MAX,
        decreases n - j,
    {
        let ghost prefix = line@.subrange(k as int, j as int);
        let ghost next = line@.subrange(k as int, j + 1);
        assert(line@.skip(j as int).drop_first() =~= line@.skip(j + 1));
        assert(line@.skip(j as int)[0] == line@[j as int]);
        assert(prefix + (seq![line@[j as int]] + hex_run(line@.skip(j + 1))) =~= next + hex_run(
            line@.skip(j + 1),
        ));
        assert(next.drop_last() =~= prefix);
        assert(next.last() == line@[j as int]);
        let d = hex_digit_value_of(line[j]);
        if !over {
            let v = acc * 16 + d;
            if v > 0xFFFF_FFFF {
                over = true;
            } else {
                acc = v;
            }
        } else {
            proof {
                lemma_hex_value_nonneg(prefix);
            }
        }
        j = j + 1;
    }
    assert(hex_run(line@.skip(j as int)) =~= Seq::<char>::empty());
    assert(line@.subrange(k as int, j as int) + Seq::<char>::empty() =~= line@.subrange(
        k as int,
        j as int,
    ));
    if j == k {
        LsaProtection::Unknown
    } else if over {
        LsaProtection::Unknown
    } else if acc == 0 {
        LsaProtection::Off
    } else {
        LsaProtection::On
    }
}

/// What one line says about `RunAsPPL` (see `runas_line`).
fn runas_line_exec(line: &Vec<char>, key: &Vec<char>, prefix: &Vec<char>) -> (r: Option<
    LsaProtection,
>)
    requires
        key@ == "runasppl"@,
        prefix@ == "0x"@,
    ensures
        r == runas_line(line@),
{
    let lowered = lower_chars(line);
    if contains_chars(&lowered, key) {
        match find_chars(line, prefix) {
            Some(idx) => {
                proof {
                    crate::text::lemma_find_contains(line@, prefix@);
                    reveal_strlit("0x");
                    assert(idx + 2 <= line.len());
                }
                Some(hex_protection_at(line, idx + 2))
            },
            None => None,
        }
    } else {
        None
    }
}

/// Parse `RunAsPPL` from `reg query HKLM\...\Lsa /v RunAsPPL` output.
///
/// The value line looks like `    RunAsPPL    REG_DWORD    0x1`: `0` is off,
/// `1` enabled, `2` enabled with UEFI lock. The first line that mentions
/// `RunAsPPL` (any ASCII case) and holds `0x` decides: its hexadecimal digits
/// after that `0x` give `Off` for 0, `On` for any other `u32`, and `Unknown`
/// when there are none or they overflow a `u32`. Without such a line the
/// result is `Unknown`, never a false `Off`.
pub fn parse_runas_ppl(stdout: &str) -> (p: LsaProtection)
    ensures
        p == spec_parse_runas_ppl(stdout@),
        p == LsaProtection::Off ==> exists|i: int|
            0 <= i < lines(stdout@).len() && runas_line(#[trigger] lines(stdout@)[i]) == Some(
                LsaProtection::Off,
            ),
{
    let text = chars_of(stdout);
    let ls = split_lines(&text);
    let key = chars_of("runasppl");
    let prefix = chars_of("0x");
    let mut i: usize = 0;
    assert(lines(stdout@).skip(0) =~= lines(stdout@));
    while i < ls.len()
        invariant
            i <= ls@.len(),
            lines_view(ls@) == lines(stdout@),
            key@ == "runasppl"@,
            prefix@ == "0x"@,
            spec_parse_runas_ppl(stdout@) == runas_first(lines(stdout@).skip(i as int)),
            forall|j: int| 0 <= j < i ==> runas_line(#[trigger] lines(stdout@)[j]) is None,
        decreases ls@.len() - i,
    {
        let ghost rest = lines(stdout@).skip(i as int);
        assert(rest[0] == ls@[i as int]@);
        assert(rest.drop_first() =~= lines(stdout@).skip(i + 1));
        match runas_line_exec(&ls[i], &key, &prefix) {
            Some(p) => {
                return p;
            },
            None => {},
        }
        i = i + 1;
    }
    assert(lines(stdout@).skip(i as int).len() == 0);
    LsaProtection::Unknown
}

/// Whether CodeIntegrity event text mentions `0patchLoader` (any ASCII case).
pub fn eventlog_mentions_loader_block(event_text: &str) -> (r: bool)
    ensures
        r == contains(lower_seq(event_text@), "0patchloader"@),
{
    let lowered = lower_chars(&chars_of(event_text));
    contains_chars(&lowered, &chars_of("0patchloader"))
}

/// Loader presence from protection state and event evidence.
pub open spec fn spec_loader_from_signals(protection: LsaProtection, recent_block: bool)
    -> LoaderPresence {
    match protection {
        LsaProtection::On => LoaderPresence::Blocked,
        LsaProtection::Off => if recent_block {
            LoaderPresence::Blocked
        } else {
            LoaderPresence::Loaded
        },
        LsaProtection::Unknown => LoaderPresence::Unknown,
    }
}

/// Resolve loader presence from protection state + event evidence.
///
/// A protected lsass (`On`) categorically excludes the unsigned loader, so it
/// is `Blocked` whatever the log says. With protection `Off`, a recent block
/// event means it is still kept out; no event means it is in.
pub fn loader_from_signals(protection: LsaProtection, recent_block: bool) -> (l: LoaderPresence)
    ensures
        l == spec_loader_from_signals(protection, recent_block),
        protection == LsaProtection::On ==> l == LoaderPresence::Blocked,
        protection == LsaProtection::Off ==> (l == LoaderPresence::Blocked) == recent_block,
        protection == LsaProtection::Off ==> (l == LoaderPresence::Loaded) == !recent_block,
        (l == LoaderPresence::Unknown) <==> (protection == LsaProtection::Unknown),
{
    match protection {
        LsaProtection::On => LoaderPresence::Blocked,
        LsaProtection::Off => if recent_block {
            LoaderPresence::Blocked
        } else {
            LoaderPresence::Loaded
        },
        LsaProtection::Unknown => LoaderPresence::Unknown,
    }
}

/// Patch status recorded by 0patch agent log text.
pub open spec fn spec_parse_opatch_log(log: Seq<char>) -> PatchStatus {
    if contains(lower_seq(log), "applied in application lsass.exe"@) {
        PatchStatus::Present
    } else if forall|i: int| 0 <= i < log.len() ==> is_whitespace(#[trigger] log[i]) {
        PatchStatus::Unknown
    } else {
        PatchStatus::Absent
    }
}

/// Parse the 0patch agent log for an outstanding lsass-targeted patch.
///
/// `Present` when some line reads `applied in application lsass.exe` (any
/// ASCII case); otherwise `Unknown` for text that is empty or whitespace
/// only, and `Absent` for any other text.
pub fn parse_opatch_log(log_text: &str) -> (s: PatchStatus)
    ensures
        s == spec_parse_opatch_log(log_text@),
        (s == PatchStatus::Present) <==> contains(
            lower_seq(log_text@),
            "applied in application lsass.exe"@,
        ),
        (s == PatchStatus::Unknown) <==> (!contains(
            lower_seq(log_text@),
            "applied in application lsass.exe"@,
        ) && forall|i: int| 0 <= i < log_text@.len() ==> is_whitespace(#[trigger] log_text@[i])),
{
    proof {
        lemma_opatch_log_status(log_text@);
    }
    let text = chars_of(log_text);
    let lowered = lower_chars(&text);
    if contains_chars(&lowered, &chars_of("applied in application lsass.exe")) {
        PatchStatus::Present
    } else if all_whitespace(&text) {
        PatchStatus::Unknown
    } else {
        PatchStatus::Absent
    }
}

/// The little-endian code units of `bytes`, of even length.
fn le_units_exec(bytes: &[u8]) -> (units: Vec<u16>)
    requires
        bytes@.len() % 2 == 0,
    ensures
        units@ == le_units(bytes@),
{
    let n = bytes.len();
    let mut units: Vec<u16> = Vec::new();
    let mut i: usize = 0;
    assert(bytes@.subrange(0, n as int) =~= bytes@);
    while i < n
        invariant
            n == bytes@.len(),
            n % 2 == 0,
            i % 2 == 0,
            i <= n,
            le_units(bytes@) == units@ + le_units(bytes@.subrange(i as int, n as int)),
        decreases n - i,
    {
        let u: u16 = (bytes[i] as u16) + (bytes[i + 1] as u16) * 256;
        let ghost sub = bytes@.subrange(i as int, n as int);
        assert(sub.subrange(2, sub.len() as int) =~= bytes@.subrange(i + 2, n as int));
        assert(le_units(sub) == seq![u] + le_units(bytes@.subrange(i + 2, n as int)));
        let ghost old_units = units@;
        units.push(u);
        assert(old_units + (seq![u] + le_units(bytes@.subrange(i + 2, n as int))) =~= units@
            + le_units(bytes@.subrange(i + 2, n as int)));
        i = i + 2;
    }
    assert(units@ + le_units(bytes@.subrange(n as int, n as int)) =~= units@);
    units
}

/// Decode UTF-16LE bytes (the 0patch log encoding) into a `String`.
///
/// Tolerates a leading byte-order mark (stripped), a leading unpaired low
/// surrogate and a trailing unpaired high surrogate (both dropped: a tail
/// read of a large log can cut a surrogate pair). Returns `None` on an odd
/// byte length or an interior unpaired surrogate.
pub fn decode_utf16le(bytes: &[u8]) -> (r: Option<String>)
    ensures
        match r {
            Some(s) => spec_decode_utf16le(bytes@) == Some(s@),
            None => spec_decode_utf16le(bytes@) is None,
        },
{
    if bytes.len() % 2 != 0 {
        return None;
    }
    let units = le_units_exec(bytes);
    let mut start: usize = 0;
    let mut end: usize = units.len();
    if end > 0 && units[0] == 0xFEFF {
        start = 1;
    }
    assert(strip_bom(units@) =~= units@.subrange(start as int, end as int));
    if start < end && 0xDC00 <= units[start] && units[start] <= 0xDFFF {
        start = start + 1;
    }
    assert(strip_leading_low(strip_bom(units@)) =~= units@.subrange(start as int, end as int));
    if start < end && 0xD800 <= units[end - 1] && units[end - 1] <= 0xDBFF {
        end = end - 1;
    }
    assert(tail_units(bytes@) =~= units@.subrange(start as int, end as int));
    let ghost whole = units@.subrange(start as int, end as int);
    let mut out: Vec<char> = Vec::new();
    let mut k: usize = start;
    assert(prepend(out@, decode_units(whole)) == decode_units(whole)) by {
        if let Some(r) = decode_units(whole) {
            assert(out@ + r =~= r);
        }
    }
    while k < end
        invariant
            start <= k <= end <= units@.len(),
            whole == units@.subrange(start as int, end as int),
            spec_decode_utf16le(bytes@) == decode_units(whole),
            decode_units(whole) == prepend(out@, decode_units(units@.subrange(k as int, end as int))),
        decreases end - k,
    {
        let u = units[k];
        let ghost rest = units@.subrange(k as int, end as int);
        if u < 0xD800 || u > 0xDFFF {
            let c = match char_from_u32(u as u32) {
                Some(c) => c,
                None => {
                    return None;
                },
            };
            assert(rest.drop_first() =~= units@.subrange(k + 1, end as int));
            assert(rest[0] as char == c);
            let ghost tail = decode_units(units@.subrange(k + 1, end as int));
            assert(prepend(out@, prepend(seq![c], tail)) == prepend(out@.push(c), tail)) by {
                if let Some(t) = tail {
                    assert(out@ + (seq![c] + t) =~= out@.push(c) + t);
                }
            }
            out.push(c);
            k = k + 1;
        } else if u <= 0xDBFF && k + 1 < end && 0xDC00 <= units[k + 1] && units[k + 1] <= 0xDFFF {
            let lo = units[k + 1];
            let cp: u32 = ((u as u32) - 0xD800) * 0x400 + ((lo as u32) - 0xDC00) + 0x10000;
            let c = match char_from_u32(cp) {
                Some(c) => c,
                None => {
                    return None;
                },
            };
            assert(rest.subrange(2, rest.len() as int) =~= units@.subrange(k + 2, end as int));
            assert(pair_value(rest[0], rest[1]) == cp);
            assert(pair_value(rest[0], rest[1]) as char == c);
            let ghost tail = decode_units(units@.subrange(k + 2, end as int));
            assert(prepend(out@, prepend(seq![c], tail)) == prepend(out@.push(c), tail)) by {
                if let Some(t) = tail {
                    assert(out@ + (seq![c] + t) =~= out@.push(c) + t);
                }
            }
            out.push(c);
            k = k + 2;
        } else {
            assert(decode_units(rest) is None);
            return None;
        }
    }
    assert(out@ + Seq::<char>::empty() =~= out@);
    Some(string_of(&out))
}

} // verus!
