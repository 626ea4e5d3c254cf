//! Signal and verdict types.
//!
//! Each enum has a fixed integer code (`code`, `spec_code`) that forms the
//! C ABI contract of the classifier: the codes are the declaration order,
//! starting at 0, and must never be renumbered.
use vstd::prelude::*;
use vstd::std_specs::convert::FromSpecImpl;
use vstd::std_specs::convert::TryFromSpecImpl;

verus! {

/// Effective LSA Protection (RunAsPPL) state for `lsass.exe`.
#[derive(Debug, Clone, Copy, PartialEq, Eq, Structural)]
pub enum LsaProtection {
    Unknown,
    Off,
    On,
}

/// Whether 0patch's loader is actually inside `lsass.exe`.
#[derive(Debug, Clone, Copy, PartialEq, Eq, Structural)]
pub enum LoaderPresence {
    Unknown,
    Blocked,
    Loaded,
}

/// Whether any 0patch patch targeting `lsass.exe` is currently outstanding.
#[derive(Debug, Clone, Copy, PartialEq, Eq, Structural)]
pub enum PatchStatus {
    Unknown,
    Absent,
    Present,
}

/// The classifier's tri-state-plus-fallback verdict.
#[derive(Debug, Clone, Copy, PartialEq, Eq, Structural)]
pub enum Verdict {
    /// Inputs insufficient to assert any positive verdict; investigate.
    Indeterminate,
    /// No outstanding lsass-targeted patches; the conflict is moot.
    Moot,
    /// LSA off + loader in: lsass patches live (cred-dump protection forfeited).
    OpenCovered,
    /// Patches exist but the loader is kept out: SILENT coverage loss.
    BlockedInert,
}

impl LsaProtection {
    /// ABI code: Unknown = 0, Off = 1, On = 2.
    pub open spec fn spec_code(self) -> i32 {
        match self {
            LsaProtection::Unknown => 0,
            LsaProtection::Off => 1,
            LsaProtection::On => 2,
        }
    }

    /// The ABI code of this state.
    pub fn code(self) -> (c: i32)
        ensures
            c == self.spec_code(),
    {
        match self {
            LsaProtection::Unknown => 0,
            LsaProtection::Off => 1,
            LsaProtection::On => 2,
        }
    }

    /// The variant's name, as `{:?}` prints it.
    pub open spec fn spec_name(self) -> Seq<char> {
        match self {
            LsaProtection::Unknown => "Unknown"@,
            LsaProtection::Off => "Off"@,
            LsaProtection::On => "On"@,
        }
    }

    /// The variant's name, as `{:?}` prints it.
    pub fn name(self) -> (s: &'static str)
        ensures
            s@ == self.spec_name(),
    {
        match self {
            LsaProtection::Unknown => "Unknown",
            LsaProtection::Off => "Off",
            LsaProtection::On => "On",
        }
    }
}

impl LoaderPresence {
    /// ABI code: Unknown = 0, Blocked = 1, Loaded = 2.
    pub open spec fn spec_code(self) -> i32 {
        match self {
            LoaderPresence::Unknown => 0,
            LoaderPresence::Blocked => 1,
            LoaderPresence::Loaded => 2,
        }
    }

    /// The ABI code of this state.
    pub fn code(self) -> (c: i32)
        ensures
            c == self.spec_code(),
    {
        match self {
            LoaderPresence::Unknown => 0,
            LoaderPresence::Blocked => 1,
            LoaderPresence::Loaded => 2,
        }
    }

    /// The variant's name, as `{:?}` prints it.
    pub open spec fn spec_name(self) -> Seq<char> {
        match self {
            LoaderPresence::Unknown => "Unknown"@,
            LoaderPresence::Blocked => "Blocked"@,
            LoaderPresence::Loaded => "Loaded"@,
        }
    }

    /// The variant's name, as `{:?}` prints it.
    pub fn name(self) -> (s: &'static str)
        ensures
            s@ == self.spec_name(),
    {
        match self {
            LoaderPresence::Unknown => "Unknown",
            LoaderPresence::Blocked => "Blocked",
            LoaderPresence::Loaded => "Loaded",
        }
    }
}

impl PatchStatus {
    /// ABI code: Unknown = 0, Absent = 1, Present = 2.
    pub open spec fn spec_code(self) -> i32 {
        match self {
            PatchStatus::Unknown => 0,
            PatchStatus::Absent => 1,
            PatchStatus::Present => 2,
        }
    }

    /// The ABI code of this state.
    pub fn code(self) -> (c: i32)
        ensures
            c == self.spec_code(),
    {
        match self {
            PatchStatus::Unknown => 0,
            PatchStatus::Absent => 1,
            PatchStatus::Present => 2,
        }
    }

    /// The variant's name, as `{:?}` prints it.
    pub open spec fn spec_name(self) -> Seq<char> {
        match self {
            PatchStatus::Unknown => "Unknown"@,
            PatchStatus::Absent => "Absent"@,
            PatchStatus::Present => "Present"@,
        }
    }

    /// The variant's name, as `{:?}` prints it.
    pub fn name(self) -> (s: &'static str)
        ensures
            s@ == self.spec_name(),
    {
        match self {
            PatchStatus::Unknown => "Unknown",
            PatchStatus::Absent => "Absent",
            PatchStatus::Present => "Present",
        }
    }
}

impl Verdict {
    /// ABI code: Indeterminate = 0, Moot = 1, OpenCovered = 2, BlockedInert = 3.
    pub open spec fn spec_code(self) -> i32 {
        match self {
            Verdict::Indeterminate => 0,
            Verdict::Moot => 1,
            Verdict::OpenCovered => 2,
            Verdict::BlockedInert => 3,
        }
    }

    /// The verdict with ABI code `x`, or `Err(x)` when `x` is no verdict's code.
    pub open spec fn spec_from_code(x: i32) -> Result<Verdict, i32> {
        if x == 0 {
            Ok(Verdict::Indeterminate)
        } else if x == 1 {
            Ok(Verdict::Moot)
        } else if x == 2 {
            Ok(Verdict::OpenCovered)
        } else if x == 3 {
            Ok(Verdict::BlockedInert)
        } else {
            Err(x)
        }
    }

    /// Process exit code: 2 for the alarm state, 1 for "investigate", 0 otherwise.
    pub open spec fn spec_exit_code(self) -> i32 {
        match self {
            Verdict::BlockedInert => 2,
            Verdict::Indeterminate => 1,
            Verdict::OpenCovered | Verdict::Moot => 0,
        }
    }

    /// Process exit code: non-zero for the state operators must act on.
    pub fn exit_code(self) -> (c: i32)
        ensures
            c == self.spec_exit_code(),
    {
        match self {
            Verdict::BlockedInert => 2,
            Verdict::Indeterminate => 1,
            Verdict::OpenCovered | Verdict::Moot => 0,
        }
    }

    pub open spec fn spec_glyph(self) -> Seq<char> {
        match self {
            Verdict::OpenCovered => "\u{1F7E2}"@,
            Verdict::BlockedInert => "\u{1F534}"@,
            Verdict::Moot => "\u{26AA}"@,
            Verdict::Indeterminate => "\u{1F7E0}"@,
        }
    }

    /// Coloured marker: green covered, red alarm, white moot, orange investigate.
    pub fn glyph(self) -> (s: &'static str)
        ensures
            s@ == self.spec_glyph(),
    {
        match self {
            Verdict::OpenCovered => "\u{1F7E2}",
            Verdict::BlockedInert => "\u{1F534}",
            Verdict::Moot => "\u{26AA}",
            Verdict::Indeterminate => "\u{1F7E0}",
        }
    }

    pub open spec fn spec_tag(self) -> Seq<char> {
        match self {
            Verdict::OpenCovered => "OPEN-COVERED"@,
            Verdict::BlockedInert => "BLOCKED-INERT"@,
            Verdict::Moot => "MOOT"@,
            Verdict::Indeterminate => "INDETERMINATE"@,
        }
    }

    /// Stable upper-case tag of the verdict.
    pub fn tag(self) -> (s: &'static str)
        ensures
            s@ == self.spec_tag(),
    {
        match self {
            Verdict::OpenCovered => "OPEN-COVERED",
            Verdict::BlockedInert => "BLOCKED-INERT",
            Verdict::Moot => "MOOT",
            Verdict::Indeterminate => "INDETERMINATE",
        }
    }

    /// The ABI code of this verdict.
    pub fn code(self) -> (c: i32)
        ensures
            c == self.spec_code(),
    {
        match self {
            Verdict::Indeterminate => 0,
            Verdict::Moot => 1,
            Verdict::OpenCovered => 2,
            Verdict::BlockedInert => 3,
        }
    }

    /// The verdict with ABI code `x`, or `Err(x)` for an out-of-range code.
    pub fn from_code(x: i32) -> (r: Result<Verdict, i32>)
        ensures
            r == Verdict::spec_from_code(x),
    {
        match x {
            0 => Ok(Verdict::Indeterminate),
            1 => Ok(Verdict::Moot),
            2 => Ok(Verdict::OpenCovered),
            3 => Ok(Verdict::BlockedInert),
            other => Err(other),
        }
    }
}

impl From<Verdict> for i32 {
    fn from(v: Verdict) -> (r: i32) {
        v.code()
    }
}

impl FromSpecImpl<Verdict> for i32 {
    open spec fn obeys_from_spec() -> bool {
        true
    }

    open spec fn from_spec(v: Verdict) -> i32 {
        v.spec_code()
    }
}

impl TryFrom<i32> for Verdict {
    type Error = i32;

    fn try_from(x: i32) -> (r: Result<Verdict, i32>) {
        Verdict::from_code(x)
    }
}

impl TryFromSpecImpl<i32> for Verdict {
    open spec fn obeys_try_from_spec() -> bool {
        true
    }

    open spec fn try_from_spec(x: i32) -> Result<Verdict, i32> {
        Verdict::spec_from_code(x)
    }
}

/// The three observed signals fed to the classifier.
#[derive(Debug, Clone, Copy, PartialEq, Eq, Structural)]
pub struct Signals {
    pub protection: LsaProtection,
    pub loader: LoaderPresence,
    pub patches: PatchStatus,
}

impl Signals {
    pub fn new(protection: LsaProtection, loader: LoaderPresence, patches: PatchStatus) -> (s:
        Self)
        ensures
            s.protection == protection,
            s.loader == loader,
            s.patches == patches,
    {
        Signals { protection, loader, patches }
    }
}

/// Every verdict's code decodes back to that verdict.
pub proof fn lemma_verdict_code_roundtrip(v: Verdict)
    ensures
        Verdict::spec_from_code(v.spec_code()) == Ok::<Verdict, i32>(v),
{
}

/// A code decodes to a verdict exactly when it lies in `0..=3`, and then that
/// verdict's code is the code itself.
pub proof fn lemma_verdict_code_decode(x: i32)
    ensures
        (Verdict::spec_from_code(x) is Ok) <==> (0 <= x <= 3),
        Verdict::spec_from_code(x) matches Ok(v) ==> v.spec_code() == x,
        Verdict::spec_from_code(x) matches Err(e) ==> e == x,
{
}

/// The ABI codes are fixed: each signal is coded by its declaration position
/// (Unknown 0, then 1, then 2) and each verdict likewise (0 to 3), so a code
/// names exactly one state.
pub proof fn lemma_abi_codes_fixed()
    ensures
        LsaProtection::Unknown.spec_code() == 0,
        LsaProtection::Off.spec_code() == 1,
        LsaProtection::On.spec_code() == 2,
        LoaderPresence::Unknown.spec_code() == 0,
        LoaderPresence::Blocked.spec_code() == 1,
        LoaderPresence::Loaded.spec_code() == 2,
        PatchStatus::Unknown.spec_code() == 0,
        PatchStatus::Absent.spec_code() == 1,
        PatchStatus::Present.spec_code() == 2,
        Verdict::Indeterminate.spec_code() == 0,
        Verdict::Moot.spec_code() == 1,
        Verdict::OpenCovered.spec_code() == 2,
        Verdict::BlockedInert.spec_code() == 3,
        forall|a: LsaProtection, b: LsaProtection| a.spec_code() == b.spec_code() ==> a == b,
        forall|a: LoaderPresence, b: LoaderPresence| a.spec_code() == b.spec_code() ==> a == b,
        forall|a: PatchStatus, b: PatchStatus| a.spec_code() == b.spec_code() ==> a == b,
        forall|a: Verdict, b: Verdict| a.spec_code() == b.spec_code() ==> a == b,
{
}

/// Each verdict has its own tag, glyph and exit code: the alarm state alone
/// exits 2, the undecided state alone exits 1.
pub proof fn lemma_verdict_texts_fixed()
    ensures
        Verdict::Indeterminate.spec_tag() == "INDETERMINATE"@,
        Verdict::Moot.spec_tag() == "MOOT"@,
        Verdict::OpenCovered.spec_tag() == "OPEN-COVERED"@,
        Verdict::BlockedInert.spec_tag() == "BLOCKED-INERT"@,
        Verdict::OpenCovered.spec_glyph() == "\u{1F7E2}"@,
        Verdict::BlockedInert.spec_glyph() == "\u{1F534}"@,
        Verdict::Moot.spec_glyph() == "\u{26AA}"@,
        Verdict::Indeterminate.spec_glyph() == "\u{1F7E0}"@,
        forall|a: Verdict, b: Verdict| a.spec_tag() == b.spec_tag() ==> a == b,
        forall|a: Verdict, b: Verdict| a.spec_glyph() == b.spec_glyph() ==> a == b,
        forall|v: Verdict| (v.spec_exit_code() == 2) <==> v == Verdict::BlockedInert,
        forall|v: Verdict| (v.spec_exit_code() == 1) <==> v == Verdict::Indeterminate,
        forall|v: Verdict|
            (v.spec_exit_code() == 0) <==> (v == Verdict::Moot || v == Verdict::OpenCovered),
{
    reveal_strlit("INDETERMINATE");
    reveal_strlit("MOOT");
    reveal_strlit("OPEN-COVERED");
    reveal_strlit("BLOCKED-INERT");
    reveal_strlit("\u{1F7E2}");
    reveal_strlit("\u{1F534}");
    reveal_strlit("\u{26AA}");
    reveal_strlit("\u{1F7E0}");
    assert forall|a: Verdict, b: Verdict| a.spec_tag() == b.spec_tag() implies a == b by {
        if a != b {
            assert(a.spec_tag().len() != b.spec_tag().len() || a.spec_tag()[0] != b.spec_tag()[0]
                || a.spec_tag()[1] != b.spec_tag()[1]);
        }
    }
    assert forall|a: Verdict, b: Verdict| a.spec_glyph() == b.spec_glyph() implies a == b by {
        if a != b {
            assert(a.spec_glyph()[0] != b.spec_glyph()[0]);
        }
    }
}

/// Each signal state prints under its own variant name.
pub proof fn lemma_signal_names_fixed()
    ensures
        LsaProtection::Unknown.spec_name() == "Unknown"@,
        LsaProtection::Off.spec_name() == "Off"@,
        LsaProtection::On.spec_name() == "On"@,
        LoaderPresence::Unknown.spec_name() == "Unknown"@,
        LoaderPresence::Blocked.spec_name() == "Blocked"@,
        LoaderPresence::Loaded.spec_name() == "Loaded"@,
        PatchStatus::Unknown.spec_name() == "Unknown"@,
        PatchStatus::Absent.spec_name() == "Absent"@,
        PatchStatus::Present.spec_name() == "Present"@,
        forall|a: LsaProtection, b: LsaProtection| a.spec_name() == b.spec_name() ==> a == b,
        forall|a: LoaderPresence, b: LoaderPresence| a.spec_name() == b.spec_name() ==> a == b,
        forall|a: PatchStatus, b: PatchStatus| a.spec_name() == b.spec_name() ==> a == b,
{
    reveal_strlit("Unknown");
    reveal_strlit("Off");
    reveal_strlit("On");
    reveal_strlit("Blocked");
    reveal_strlit("Loaded");
    reveal_strlit("Absent");
    reveal_strlit("Present");
    assert forall|a: LsaProtection, b: LsaProtection| a.spec_name() == b.spec_name() implies a
        == b by {
        if a != b {
            assert(a.spec_name().len() != b.spec_name().len() || a.spec_name()[1]
                != b.spec_name()[1]);
        }
    }
    assert forall|a: LoaderPresence, b: LoaderPresence| a.spec_name() == b.spec_name() implies a
        == b by {
        if a != b {
            assert(a.spec_name()[0] != b.spec_name()[0] || a.spec_name()[1] != b.spec_name()[1]);
        }
    }
    assert forall|a: PatchStatus, b: PatchStatus| a.spec_name() == b.spec_name() implies a
        == b by {
        if a != b {
            assert(a.spec_name()[0] != b.spec_name()[0]);
        }
    }
}

} // verus!
