//! Platform-independent snapshot collector.
//!
//! Parses a small `key = value` text (comments start with `#`) describing the
//! three signals, e.g.:
//!
//! ```text
//! # one host's observed state
//! protection = on        # on | off | unknown
//! loader     = blocked   # loaded | blocked | unknown
//! patches    = present   # present | absent | unknown
//! ```
//!
//! Unrecognised or missing values degrade to `Unknown`, never to a positive
//! "covered" signal.
use vstd::prelude::*;
use vstd::string::StringExecFns;

use crate::collectors::SignalSource;
use crate::model::{LoaderPresence, LsaProtection, PatchStatus, Signals};
use crate::text::{
    chars_of, find, find_chars, is_whitespace, lines, lines_view, lower_chars, lower_seq,
    split_lines, string_of, sub_chars, trim, trim_chars, trim_end, trim_start,
};

verus! {

/// `line` up to its first `#`.
pub open spec fn strip_comment(line: Seq<char>) -> Seq<char> {
    match find(line, "#"@) {
        Some(i) => line.take(i),
        None => line,
    }
}

/// The value that `line` assigns to `key`: the line without its comment and
/// trimmed, split at its first `=`; when the trimmed left side equals `key`
/// up to ASCII case, the trimmed right side in ASCII lower case.
pub open spec fn entry_value(line: Seq<char>, key: Seq<char>) -> Option<Seq<char>> {
    let l = trim(strip_comment(line));
    match find(l, "="@) {
        Some(i) => if lower_seq(trim(l.take(i))) == lower_seq(key) {
            Some(lower_seq(trim(l.skip(i + 1))))
        } else {
            None
        },
        None => None,
    }
}

/// The value that the first line assigning `key` gives it.
pub open spec fn first_value(ls: Seq<Seq<char>>, key: Seq<char>) -> Option<Seq<char>>
    decreases ls.len(),
{
    if ls.len() == 0 {
        None
    } else {
        match entry_value(ls[0], key) {
            Some(v) => Some(v),
            None => first_value(ls.drop_first(), key),
        }
    }
}

/// The value of `key` in snapshot text.
pub open spec fn snapshot_value(text: Seq<char>, key: Seq<char>) -> Option<Seq<char>> {
    first_value(lines(text), key)
}

/// The signals a snapshot text describes: `on`/`off`, `loaded`/`blocked` and
/// `present`/`absent` are recognised; anything else, or no value, is `Unknown`.
pub open spec fn snapshot_signals(text: Seq<char>) -> Signals {
    Signals {
        protection: match snapshot_value(text, "protection"@) {
            Some(v) => if v == "on"@ {
                LsaProtection::On
            } else if v == "off"@ {
                LsaProtection::Off
            } else {
                LsaProtection::Unknown
            },
            None => LsaProtection::Unknown,
        },
        loader: match snapshot_value(text, "loader"@) {
            Some(v) => if v == "loaded"@ {
                LoaderPresence::Loaded
            } else if v == "blocked"@ {
                LoaderPresence::Blocked
            } else {
                LoaderPresence::Unknown
            },
            None => LoaderPresence::Unknown,
        },
        patches: match snapshot_value(text, "patches"@) {
            Some(v) => if v == "present"@ {
                PatchStatus::Present
            } else if v == "absent"@ {
                PatchStatus::Absent
            } else {
                PatchStatus::Unknown
            },
            None => PatchStatus::Unknown,
        },
    }
}

proof fn lemma_first_value_at(ls: Seq<Seq<char>>, key: Seq<char>, j: int)
    requires
        0 <= j < ls.len(),
        entry_value(ls[j], key) is Some,
        forall|i: int| 0 <= i < j ==> entry_value(#[trigger] ls[i], key) is None,
    ensures
        first_value(ls, key) == entry_value(ls[j], key),
    decreases j,
{
    if j > 0 {
        assert(entry_value(ls[0], key) is None);
        let rest = ls.drop_first();
        assert forall|i: int| 0 <= i < j - 1 implies entry_value(#[trigger] rest[i], key) is None by {
            assert(rest[i] == ls[i + 1]);
        }
        assert(rest[j - 1] == ls[j]);
        lemma_first_value_at(rest, key, j - 1);
    }
}

proof fn lemma_first_value_none(ls: Seq<Seq<char>>, key: Seq<char>)
    requires
        forall|i: int| 0 <= i < ls.len() ==> entry_value(#[trigger] ls[i], key) is None,
    ensures
        first_value(ls, key) is None,
    decreases ls.len(),
{
    if ls.len() > 0 {
        assert(entry_value(ls[0], key) is None);
        let rest = ls.drop_first();
        assert forall|i: int| 0 <= i < rest.len() implies entry_value(#[trigger] rest[i], key)
            is None by {
            assert(rest[i] == ls[i + 1]);
        }
        lemma_first_value_none(rest, key);
    }
}

/// The first line that assigns a key decides its value: lines before it that
/// assign nothing to the key (blank lines, comments, lines without `=`,
/// other keys) and every line after it leave the value unchanged.
pub proof fn lemma_snapshot_first_assignment(text: Seq<char>, key: Seq<char>, j: int)
    requires
        0 <= j < lines(text).len(),
        entry_value(lines(text)[j], key) is Some,
        forall|i: int| 0 <= i < j ==> entry_value(#[trigger] lines(text)[i], key) is None,
    ensures
        snapshot_value(text, key) == entry_value(lines(text)[j], key),
{
    lemma_first_value_at(lines(text), key, j);
}

/// A key that no line assigns has no value.
pub proof fn lemma_snapshot_unassigned(text: Seq<char>, key: Seq<char>)
    requires
        forall|i: int| 0 <= i < lines(text).len() ==> entry_value(#[trigger] lines(text)[i], key)
            is None,
    ensures
        snapshot_value(text, key) is None,
{
    lemma_first_value_none(lines(text), key);
}

/// A line whose uncommented part holds no `=` (a blank line, a comment-only
/// line, a line without `=`) assigns no key.
pub proof fn lemma_line_without_eq_assigns_nothing(line: Seq<char>, key: Seq<char>)
    requires
        forall|i: int| 0 <= i < strip_comment(line).len() ==> #[trigger] strip_comment(line)[i]
            != '=',
    ensures
        entry_value(line, key) is None,
{
    let x = strip_comment(line);
    let a = crate::text::lemma_trim_start_suffix(x);
    let y = x.subrange(a, x.len() as int);
    let b = crate::text::lemma_trim_end_prefix(y);
    let l = trim(x);
    assert(l == y.subrange(0, b));
    crate::text::lemma_find_contains(l, "="@);
    if let Some(i) = find(l, "="@) {
        reveal_strlit("=");
        assert(l.subrange(i, i + 1)[0] == l[i]);
        assert(l[i] == x[a + i]);
        assert(false);
    }
}

/// `s` holds no character `c`.
pub open spec fn lacks(s: Seq<char>, c: char) -> bool {
    forall|i: int| 0 <= i < s.len() ==> s[i] != c
}

/// `s` is empty or starts and ends with a non-whitespace character.
pub open spec fn is_trimmed(s: Seq<char>) -> bool {
    s.len() > 0 ==> !is_whitespace(s[0]) && !is_whitespace(s.last())
}

/// `s` is whitespace only.
pub open spec fn is_blank(s: Seq<char>) -> bool {
    forall|i: int| 0 <= i < s.len() ==> is_whitespace(s[i])
}

proof fn lemma_find_single(l: Seq<char>, c: char, idx: int)
    requires
        0 <= idx < l.len(),
        l[idx] == c,
        forall|i: int| 0 <= i < idx ==> l[i] != c,
    ensures
        find(l, seq![c]) == Some(idx),
{
    crate::text::lemma_find_from(l, seq![c], 0);
    assert(l.subrange(idx, idx + 1) =~= seq![c]);
    assert(crate::text::matches_at(l, seq![c], idx));
    match find(l, seq![c]) {
        Some(j) => {
            if j < idx {
                assert(l.subrange(j, j + 1)[0] == l[j]);
            }
        },
        None => {},
    }
}

proof fn lemma_find_single_none(l: Seq<char>, c: char)
    requires
        lacks(l, c),
    ensures
        find(l, seq![c]) is None,
{
    crate::text::lemma_find_from(l, seq![c], 0);
    if let Some(j) = find(l, seq![c]) {
        assert(l.subrange(j, j + 1)[0] == l[j]);
    }
}

/// What a `key = value` line assigns: for a line made of a key, an `=` and a
/// value, each piece padded with whitespace, with no `#` in it and no `=` in
/// the key, the line assigns the key's value exactly when the key equals the
/// one asked for up to ASCII case, and that value is the value in lower case.
pub proof fn lemma_assignment_line(
    w1: Seq<char>,
    k: Seq<char>,
    w2: Seq<char>,
    w3: Seq<char>,
    v: Seq<char>,
    w4: Seq<char>,
    key: Seq<char>,
)
    requires
        is_blank(w1),
        is_blank(w2),
        is_blank(w3),
        is_blank(w4),
        k.len() > 0,
        is_trimmed(k),
        is_trimmed(v),
        lacks(k, '='),
        lacks(k, '#'),
        lacks(v, '#'),
    ensures
        entry_value(w1 + k + w2 + seq!['='] + w3 + v + w4, key) == (if lower_seq(k) == lower_seq(
            key,
        ) {
            Some(lower_seq(v))
        } else {
            None::<Seq<char>>
        }),
{
    reveal_strlit("#");
    reveal_strlit("=");
    assert("#"@ =~= seq!['#']);
    assert("="@ =~= seq!['=']);
    let line = w1 + k + w2 + seq!['='] + w3 + v + w4;
    assert(lacks(line, '#')) by {
        assert forall|i: int| 0 <= i < line.len() implies line[i] != '#' by {
            if i < w1.len() {
                assert(line[i] == w1[i]);
            } else if i < w1.len() + k.len() {
                assert(line[i] == k[i - w1.len()]);
            } else if i < w1.len() + k.len() + w2.len() {
                assert(line[i] == w2[i - w1.len() - k.len()]);
            } else if i == w1.len() + k.len() + w2.len() {
            } else if i < w1.len() + k.len() + w2.len() + 1 + w3.len() {
                assert(line[i] == w3[i - w1.len() - k.len() - w2.len() - 1]);
            } else if i < w1.len() + k.len() + w2.len() + 1 + w3.len() + v.len() {
                assert(line[i] == v[i - w1.len() - k.len() - w2.len() - 1 - w3.len()]);
            } else {
                assert(line[i] == w4[i - w1.len() - k.len() - w2.len() - 1 - w3.len() - v.len()]);
            }
        }
    }
    lemma_find_single_none(line, '#');
    assert(strip_comment(line) == line);
    let idx: int = (k.len() + w2.len()) as int;
    let head = k + w2 + seq!['='];
    if v.len() > 0 {
        let core = head + w3 + v;
        assert(line =~= w1 + (core + w4));
        crate::text::lemma_trim_start_after_space(w1, core + w4);
        assert(core[0] == k[0]);
        assert((core + w4)[0] == k[0]);
        assert(trim_start(core + w4) == core + w4);
        crate::text::lemma_trim_end_before_space(core, w4);
        assert(core.last() == v.last());
        assert(trim_end(core) == core);
        assert(trim(line) == core);
        assert(core[idx] == '=');
        assert forall|i: int| 0 <= i < idx implies core[i] != '=' by {
            if i < k.len() {
                assert(core[i] == k[i]);
            } else {
                assert(core[i] == w2[i - k.len()]);
            }
        }
        lemma_find_single(core, '=', idx);
        assert(core.take(idx) =~= k + w2);
        assert(core.skip(idx + 1) =~= w3 + v);
        crate::text::lemma_trim_start_after_space(w3, v);
        assert(trim_start(v) == v);
        assert(trim_end(v) == v);
    } else {
        let rest = w3 + w4;
        assert(is_blank(rest)) by {
            assert forall|i: int| 0 <= i < rest.len() implies is_whitespace(rest[i]) by {
                if i < w3.len() {
                    assert(rest[i] == w3[i]);
                } else {
                    assert(rest[i] == w4[i - w3.len()]);
                }
            }
        }
        assert(line =~= w1 + (head + rest));
        crate::text::lemma_trim_start_after_space(w1, head + rest);
        assert((head + rest)[0] == k[0]);
        assert(trim_start(head + rest) == head + rest);
        crate::text::lemma_trim_end_before_space(head, rest);
        assert(head.last() == '=');
        assert(trim_end(head) == head);
        assert(trim(line) == head);
        assert(head[idx] == '=');
        assert forall|i: int| 0 <= i < idx implies head[i] != '=' by {
            if i < k.len() {
                assert(head[i] == k[i]);
            } else {
                assert(head[i] == w2[i - k.len()]);
            }
        }
        lemma_find_single(head, '=', idx);
        assert(head.take(idx) =~= k + w2);
        assert(head.skip(idx + 1) =~= v);
    }
    assert(trim_start(k + w2) == k + w2) by {
        assert((k + w2)[0] == k[0]);
    }
    crate::text::lemma_trim_end_before_space(k, w2);
    assert(trim_end(k) == k);
    assert(trim(k + w2) == k);
}

/// What each recognised value means: a signal is `On`, `Off`, `Loaded`,
/// `Blocked`, `Present` or `Absent` exactly when its key's value is `on`,
/// `off`, `loaded`, `blocked`, `present` or `absent`; it is `Unknown` exactly
/// when the key has no value or another one.
pub proof fn lemma_snapshot_signal_values(text: Seq<char>)
    ensures
        (snapshot_signals(text).protection == LsaProtection::On) <==> snapshot_value(
            text,
            "protection"@,
        ) == Some("on"@),
        (snapshot_signals(text).protection == LsaProtection::Off) <==> snapshot_value(
            text,
            "protection"@,
        ) == Some("off"@),
        (snapshot_signals(text).loader == LoaderPresence::Loaded) <==> snapshot_value(
            text,
            "loader"@,
        ) == Some("loaded"@),
        (snapshot_signals(text).loader == LoaderPresence::Blocked) <==> snapshot_value(
            text,
            "loader"@,
        ) == Some("blocked"@),
        (snapshot_signals(text).patches == PatchStatus::Present) <==> snapshot_value(
            text,
            "patches"@,
        ) == Some("present"@),
        (snapshot_signals(text).patches == PatchStatus::Absent) <==> snapshot_value(
            text,
            "patches"@,
        ) == Some("absent"@),
{
    reveal_strlit("on");
    reveal_strlit("off");
    reveal_strlit("loaded");
    reveal_strlit("blocked");
    reveal_strlit("present");
    reveal_strlit("absent");
    assert("on"@.len() != "off"@.len());
    assert("loaded"@.len() != "blocked"@.len());
    assert("present"@.len() != "absent"@.len());
}

/// A host snapshot in `key = value` form.
pub struct Snapshot {
    text: String,
}

impl View for Snapshot {
    type V = Seq<char>;

    closed spec fn view(&self) -> Seq<char> {
        self.text@
    }
}

impl Snapshot {
    /// A snapshot of the given text.
    pub fn from_str(text: &str) -> (s: Self)
        ensures
            s@ == text@,
    {
        Snapshot { text: String::from_str(text) }
    }

    /// The value that one line assigns to `key` (see `entry_value`).
    fn entry_value_exec(line: &Vec<char>, key: &Vec<char>, hash: &Vec<char>, eq: &Vec<char>) -> (r:
        Option<Vec<char>>)
        requires
            hash@ == "#"@,
            eq@ == "="@,
        ensures
            match r {
                Some(v) => entry_value(line@, key@) == Some(v@),
                None => entry_value(line@, key@) is None,
            },
    {
        let uncommented = match find_chars(line, hash) {
            Some(i) => {
                proof {
                    crate::text::lemma_find_contains(line@, hash@);
                }
                sub_chars(line, 0, i)
            },
            None => sub_chars(line, 0, line.len()),
        };
        assert(uncommented@ =~= strip_comment(line@));
        let l = trim_chars(&uncommented);
        match find_chars(&l, eq) {
            Some(i) => {
                proof {
                    crate::text::lemma_find_contains(l@, eq@);
                    reveal_strlit("=");
                }
                let k = trim_chars(&sub_chars(&l, 0, i));
                assert(l@.subrange(0, i as int) =~= l@.take(i as int));
                let lk = lower_chars(&k);
                let lkey = lower_chars(key);
                if chars_equal(&lk, &lkey) {
                    let v = trim_chars(&sub_chars(&l, i + 1, l.len()));
                    assert(l@.subrange(i + 1, l@.len() as int) =~= l@.skip(i + 1));
                    Some(lower_chars(&v))
                } else {
                    None
                }
            },
            None => None,
        }
    }

    /// The value of `key` in this snapshot, in ASCII lower case.
    fn value(&self, key: &str) -> (r: Option<String>)
        ensures
            match r {
                Some(v) => snapshot_value(self@, key@) == Some(v@),
                None => snapshot_value(self@, key@) is None,
            },
    {
        let text = chars_of(self.text.as_str());
        let ls = split_lines(&text);
        let k = chars_of(key);
        let hash = chars_of("#");
        let eq = chars_of("=");
        let mut i: usize = 0;
        assert(lines(self@).skip(0) =~= lines(self@));
        while i < ls.len()
            invariant
                i <= ls@.len(),
                lines_view(ls@) == lines(self@),
                k@ == key@,
                hash@ == "#"@,
                eq@ == "="@,
                snapshot_value(self@, key@) == first_value(lines(self@).skip(i as int), key@),
            decreases ls@.len() - i,
        {
            let ghost rest = lines(self@).skip(i as int);
            assert(rest[0] == ls@[i as int]@);
            assert(rest.drop_first() =~= lines(self@).skip(i + 1));
            match Self::entry_value_exec(&ls[i], &k, &hash, &eq) {
                Some(v) => {
                    return Some(string_of(&v));
                },
                None => {},
            }
            i = i + 1;
        }
        None
    }
}

/// Whether `a` and `b` hold the same characters.
fn chars_equal(a: &Vec<char>, b: &Vec<char>) -> (r: bool)
    ensures
        r == (a@ == b@),
{
    if a.len() != b.len() {
        return false;
    }
    let mut i: usize = 0;
    while i < a.len()
        invariant
            a@.len() == b@.len(),
            i <= a@.len(),
            forall|j: int| 0 <= j < i ==> a@[j] == b@[j],
        decreases a@.len() - i,
    {
        if a[i] != b[i] {
            return false;
        }
        i = i + 1;
    }
    assert(a@ =~= b@);
    true
}

impl SignalSource for Snapshot {
    /// The signals this snapshot describes; reading a snapshot never fails.
    fn collect(&self) -> (r: Result<Signals, String>)
        ensures
            r == Ok::<Signals, String>(snapshot_signals(self@)),
    {
        let protection = match self.value("protection") {
            Some(v) => if v == String::from_str("on") {
                LsaProtection::On
            } else if v == String::from_str("off") {
                LsaProtection::Off
            } else {
                LsaProtection::Unknown
            },
            None => LsaProtection::Unknown,
        };
        let loader = match self.value("loader") {
            Some(v) => if v == String::from_str("loaded") {
                LoaderPresence::Loaded
            } else if v == String::from_str("blocked") {
                LoaderPresence::Blocked
            } else {
                LoaderPresence::Unknown
            },
            None => LoaderPresence::Unknown,
        };
        let patches = match self.value("patches") {
            Some(v) => if v == String::from_str("present") {
                PatchStatus::Present
            } else if v == String::from_str("absent") {
                PatchStatus::Absent
            } else {
                PatchStatus::Unknown
            },
            None => PatchStatus::Unknown,
        };
        Ok(Signals { protection, loader, patches })
    }
}

} // verus!
