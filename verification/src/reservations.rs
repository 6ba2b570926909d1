//! File reservations as the archive holds them.

use std::collections::HashMap;
use vstd::prelude::*;

use crate::expiry::{expired, is_expired, print_utc, utc_text, TimePoint};
use crate::guard::FileReservationRecord;
use crate::numbers::{decimal, lemma_decimal_digits, parse_u64, parsed_unsigned};
use crate::paths::{contains_glob, has_glob_char, normalize_path, normalized, path_components};
use crate::text::{
    chars_of, eq_ignore_ascii_case, find_from, first_at, is_digit, same, same_ignoring_ascii_case,
    starts_with, text_of, trim, trimmed,
};

verus! {

/// `serde_json::Value`, a parsed JSON text.
#[verifier::external_type_specification]
#[verifier::external_body]
pub struct ExValue(serde_json::Value);

/// A member of a JSON object, as far as it is read.
pub enum Member {
    /// Null, or no such member.
    Null,
    Bool(bool),
    /// A number: its value, where it is an integer in the range of `i64`, and
    /// its decimal text.
    Number { integer: Option<i64>, text: Seq<char> },
    Text(Seq<char>),
    /// An array or an object.
    Composite,
}

/// The members of a JSON object; a value that is no object has none.
pub uninterp spec fn json_members(value: serde_json::Value) -> Map<Seq<char>, Member>;

/// The members of the value that `serde_json::from_str` parses a text into.
pub uninterp spec fn json_parsed(text: Seq<char>) -> Option<Map<Seq<char>, Member>>;

/// A member of a JSON object.
#[derive(Debug)]
pub enum JsonMember {
    Null,
    Bool(bool),
    Number { integer: Option<i64>, text: String },
    Text(String),
    Composite,
}

impl View for JsonMember {
    type V = Member;

    open spec fn view(&self) -> Member {
        match self {
            JsonMember::Null => Member::Null,
            JsonMember::Bool(b) => Member::Bool(*b),
            JsonMember::Number { integer, text } => Member::Number {
                integer: *integer,
                text: text@,
            },
            JsonMember::Text(text) => Member::Text(text@),
            JsonMember::Composite => Member::Composite,
        }
    }
}

/// Calls `serde_json::from_str` for a `serde_json::Value`; whether the text is
/// JSON, and the members of the value, are named.
#[verifier::external_body]
fn parse_json(text: &str) -> (r: Option<serde_json::Value>)
    ensures
        r matches Some(value) ==> json_parsed(text@) == Some(json_members(value)),
        r is None ==> json_parsed(text@) is None,
{
    serde_json::from_str(text).ok()
}

/// The member of that name, or null.
pub open spec fn member_of(members: Map<Seq<char>, Member>, key: Seq<char>) -> Member {
    if members.contains_key(key) {
        members[key]
    } else {
        Member::Null
    }
}

/// Indexes a `serde_json::Value` by a name: a missing member, and any member
/// of a value that is no object, is null. Of a number it takes
/// `Number::as_i64` and the text by which it is displayed.
#[verifier::external_body]
fn json_member(value: &serde_json::Value, key: &str) -> (r: JsonMember)
    ensures
        r@ == member_of(json_members(*value), key@),
{
    match &value[key] {
        serde_json::Value::Null => JsonMember::Null,
        serde_json::Value::Bool(flag) => JsonMember::Bool(*flag),
        serde_json::Value::Number(number) => JsonMember::Number {
            integer: number.as_i64(),
            text: number.to_string(),
        },
        serde_json::Value::String(text) => JsonMember::Text(text.clone()),
        serde_json::Value::Array(_) => JsonMember::Composite,
        serde_json::Value::Object(_) => JsonMember::Composite,
    }
}

/// A file of the archive, parsed.
pub struct Artifact {
    /// The file's name without extension, where it is text.
    pub stem: Option<String>,
    pub value: serde_json::Value,
    /// When the file was last changed, where that is known.
    pub modified: Option<TimePoint>,
    /// Whether the text of [`numeric_release`] is a number above zero.
    pub release_is_positive: bool,
}

/// Parses a file of the archive; what is not JSON is passed over.
pub fn parse_artifact(stem: Option<String>, content: &str, modified: Option<TimePoint>) -> (r:
    Option<Artifact>)
    ensures
        match r {
            Some(a) => json_parsed(content@) == Some(json_members(a.value)) && a.stem == stem
                && a.modified == modified && !a.release_is_positive,
            None => json_parsed(content@) is None,
        },
{
    match parse_json(content) {
        Some(value) => Some(Artifact { stem, value, modified, release_is_positive: false }),
        None => None,
    }
}

/// The largest reservation file that is read, in bytes.
pub const MAX_ARTIFACT_BYTES: u64 = 1_048_576;

/// Whether a directory entry is read as a reservation: a regular file that is
/// no link, with the extension `json`, and not too large where its size is
/// known.
pub fn is_reservation_file(
    is_file: bool,
    is_symlink: bool,
    extension: Option<&str>,
    len: Option<u64>,
) -> (r: bool)
    ensures
        r == (is_file && !is_symlink && (extension matches Some(e) && e@ == "json"@) && (len matches
            Some(n) ==> n <= MAX_ARTIFACT_BYTES)),
{
    let json = match extension {
        Some(e) => same(e, "json"),
        None => false,
    };
    let small = match len {
        Some(n) => n <= MAX_ARTIFACT_BYTES,
        None => true,
    };
    is_file && !is_symlink && json && small
}

/// A digit, a point or a sign.
pub open spec fn is_numeric_char(c: char) -> bool {
    is_digit(c) || c == '.' || c == '+' || c == '-'
}

pub open spec fn all_numeric(s: Seq<char>) -> bool {
    forall|i: int| 0 <= i < s.len() ==> is_numeric_char(#[trigger] s[i])
}

/// A text that stands for no release: nothing, `null`, `none` or zero.
pub open spec fn is_blank_release(t: Seq<char>) -> bool {
    t.len() == 0 || same_ignoring_ascii_case(t, "null"@) || same_ignoring_ascii_case(t, "none"@)
        || t == "0"@
}

/// The decimal text of a number above zero: no minus sign, and a digit other
/// than zero before the exponent.
pub open spec fn is_positive_text(t: Seq<char>) -> bool {
    t.len() > 0 && t[0] != '-' && exists|i: int|
        #![trigger t[i]]
        0 <= i < t.len() && '1' <= t[i] <= '9' && (forall|k: int|
            0 <= k < i ==> t[k] != 'e' && t[k] != 'E')
}

/// Whether a `released_ts` marks its record as released: a number above zero,
/// or a text that is neither blank nor numeric, such as a timestamp. Of a
/// numeric text, `numeric_positive` says whether it is a number above zero.
/// Anything else leaves the record active.
pub open spec fn marks_released(value: Member, numeric_positive: bool) -> bool {
    match value {
        Member::Number { integer, text } => is_positive_text(text),
        Member::Text(text) => {
            let t = trimmed(text);
            !is_blank_release(t) && (all_numeric(t) ==> numeric_positive)
        },
        _ => false,
    }
}

/// The text whose value decides, where there is one.
pub open spec fn numeric_text(value: Member) -> Option<Seq<char>> {
    match value {
        Member::Text(text) => {
            let t = trimmed(text);
            if !is_blank_release(t) && all_numeric(t) {
                Some(t)
            } else {
                None
            }
        },
        _ => None,
    }
}

fn is_all_numeric(s: &str) -> (r: bool)
    ensures
        r == all_numeric(s@),
{
    let cs = chars_of(s);
    let mut i: usize = 0;
    while i < cs.len()
        invariant
            i <= cs@.len(),
            cs@ == s@,
            forall|k: int| 0 <= k < i ==> is_numeric_char(#[trigger] s@[k]),
        decreases cs@.len() - i,
    {
        let c = cs[i];
        if !(('0' <= c && c <= '9') || c == '.' || c == '+' || c == '-') {
            assert(!is_numeric_char(s@[i as int]));
            return false;
        }
        i = i + 1;
    }
    true
}

fn positive_text(s: &str) -> (r: bool)
    ensures
        r == is_positive_text(s@),
{
    let cs = chars_of(s);
    if cs.len() == 0 || cs[0] == '-' {
        return false;
    }
    let mut i: usize = 0;
    while i < cs.len()
        invariant
            i <= cs@.len(),
            cs@ == s@,
            s@.len() > 0,
            s@[0] != '-',
            forall|k: int| 0 <= k < i ==> s@[k] != 'e' && s@[k] != 'E',
            forall|k: int| 0 <= k < i ==> !('1' <= #[trigger] s@[k] && s@[k] <= '9'),
        decreases cs@.len() - i,
    {
        let c = cs[i];
        if '1' <= c && c <= '9' {
            assert('1' <= s@[i as int] <= '9');
            return true;
        }
        if c == 'e' || c == 'E' {
            return false;
        }
        i = i + 1;
    }
    false
}

fn blank_release(t: &str) -> (r: bool)
    ensures
        r == is_blank_release(t@),
{
    t.is_empty() || eq_ignore_ascii_case(t, "null") || eq_ignore_ascii_case(t, "none") || same(
        t,
        "0",
    )
}

/// Whether a `released_ts` marks its record as released. `numeric_positive`
/// says of a numeric text whether its value is above zero.
pub fn released_ts_marks_record_released(value: &JsonMember, numeric_positive: bool) -> (r: bool)
    ensures
        r == marks_released(value@, numeric_positive),
{
    match value {
        JsonMember::Number { integer, text } => positive_text(text.as_str()),
        JsonMember::Text(text) => {
            let t = trim(text.as_str());
            !blank_release(t.as_str()) && (!is_all_numeric(t.as_str()) || numeric_positive)
        },
        _ => false,
    }
}

/// The numeric text of an artifact's `released_ts`, if it has one. Whether its
/// value is above zero decides whether the record is released.
pub fn numeric_release(artifact: &Artifact) -> (r: Option<String>)
    ensures
        match r {
            Some(t) => numeric_text(member_of(json_members(artifact.value), "released_ts"@))
                == Some(t@),
            None => numeric_text(member_of(json_members(artifact.value), "released_ts"@)) is None,
        },
{
    match json_member(&artifact.value, "released_ts") {
        JsonMember::Text(text) => {
            let t = trim(text.as_str());
            if !blank_release(t.as_str()) && is_all_numeric(t.as_str()) {
                Some(t)
            } else {
                None
            }
        },
        _ => None,
    }
}

pub open spec fn is_released(a: Artifact) -> bool {
    marks_released(member_of(json_members(a.value), "released_ts"@), a.release_is_positive)
}

/// The identity of an artifact.
#[verifier::ext_equal]
pub struct Stamp {
    pub id: u64,
    pub generation: Option<Seq<char>>,
    pub modified: TimePoint,
}

/// The identity of an artifact: the number of its reservation, the database
/// generation under which it was written, and when it was last changed.
#[derive(Debug)]
pub struct ReservationArtifactStamp {
    pub id: u64,
    pub generation: Option<String>,
    pub modified: TimePoint,
}

impl View for ReservationArtifactStamp {
    type V = Stamp;

    open spec fn view(&self) -> Stamp {
        Stamp {
            id: self.id,
            generation: match self.generation {
                Some(g) => Some(g@),
                None => None,
            },
            modified: self.modified,
        }
    }
}

/// The parts of a name `<id>-g<generation>`: without a generation behind the
/// mark the whole name is the number.
pub open spec fn name_parts(rest: Seq<char>) -> (Seq<char>, Option<Seq<char>>) {
    match first_at(rest, "-g"@, 0) {
        Some(i) if i + 2 < rest.len() => (rest.take(i), Some(rest.skip(i + 2))),
        _ => (rest, None),
    }
}

/// The text of a member, where it is text.
pub open spec fn text_of_member(value: Member) -> Option<Seq<char>> {
    match value {
        Member::Text(t) => Some(t),
        _ => None,
    }
}

/// The generation that a record names itself.
pub open spec fn recorded_generation(members: Map<Seq<char>, Member>) -> Option<Seq<char>> {
    match text_of_member(member_of(members, "db_generation"@)) {
        Some(t) if trimmed(t).len() > 0 => Some(trimmed(t)),
        _ => None,
    }
}

pub open spec fn epoch() -> TimePoint {
    TimePoint { secs: 0, nanos: 0 }
}

/// The stamp of an artifact named `id-<id>` or `id-<id>-g<generation>`; other
/// names have none. The generation is that of the name, or else the recorded
/// one. An unknown time of change counts as the epoch.
pub open spec fn stamp_of(
    stem: Option<Seq<char>>,
    members: Map<Seq<char>, Member>,
    modified: Option<TimePoint>,
) -> Option<Stamp> {
    match stem {
        None => None,
        Some(s) => if !"id-"@.is_prefix_of(s) {
            None
        } else {
            let (id_text, named) = name_parts(s.skip("id-"@.len() as int));
            match parsed_unsigned(id_text, 10, u64::MAX as int) {
                None => None,
                Some(id) => Some(
                    Stamp {
                        id: id as u64,
                        generation: if named is Some {
                            named
                        } else {
                            recorded_generation(members)
                        },
                        modified: match modified {
                            Some(t) => t,
                            None => epoch(),
                        },
                    },
                ),
            }
        },
    }
}

pub open spec fn opt_string(s: Option<String>) -> Option<Seq<char>> {
    match s {
        Some(t) => Some(t@),
        None => None,
    }
}

/// The stamp of an artifact, by its name, its record and its time of change.
pub fn reservation_artifact_stamp(
    stem: &Option<String>,
    record: &serde_json::Value,
    modified: Option<TimePoint>,
) -> (r: Option<ReservationArtifactStamp>)
    ensures
        match r {
            Some(stamp) => stamp_of(opt_string(*stem), json_members(*record), modified) == Some(
                stamp@,
            ),
            None => stamp_of(opt_string(*stem), json_members(*record), modified) is None,
        },
{
    let stem = match stem {
        None => {
            return None;
        },
        Some(s) => s.as_str(),
    };
    if !starts_with(stem, "id-") {
        return None;
    }
    proof {
        reveal_strlit("id-");
        reveal_strlit("-g");
    }
    let cs = chars_of(stem);
    let n: usize = cs.len();
    let rest = text_of(cs.as_slice(), 3, n);
    assert(rest@ =~= stem@.skip(3));
    let rs = chars_of(rest.as_str());
    let mark = chars_of("-g");
    let found = find_from(rs.as_slice(), mark.as_slice(), 0);
    proof {
        crate::text::lemma_first_at(rest@, "-g"@, 0);
    }
    let (id_text, named) = match found {
        Some(i) => if i + 2 < rs.len() {
            let id_text = text_of(rs.as_slice(), 0, i);
            let generation = text_of(rs.as_slice(), i + 2, rs.len());
            assert(id_text@ =~= rest@.take(i as int));
            assert(generation@ =~= rest@.skip(i + 2));
            (id_text, Some(generation))
        } else {
            (rest, None)
        },
        None => (rest, None),
    };
    let id: u64 = match parse_u64(id_text.as_str()) {
        Some(id) => id,
        None => {
            return None;
        },
    };
    let generation = match named {
        Some(g) => Some(g),
        None => match json_member(record, "db_generation") {
            JsonMember::Text(text) => {
                let t = trim(text.as_str());
                if t.as_str().is_empty() {
                    None
                } else {
                    Some(t)
                }
            },
            _ => None,
        },
    };
    let modified = match modified {
        Some(t) => t,
        None => TimePoint { secs: 0, nanos: 0 },
    };
    let stamp = ReservationArtifactStamp { id, generation, modified };
    assert(stamp_of(Some(stem@), json_members(*record), Some(modified)) == Some(stamp@));
    Some(stamp)
}

pub open spec fn artifact_stamp(a: Artifact) -> Option<Stamp> {
    stamp_of(opt_string(a.stem), json_members(a.value), a.modified)
}

/// Per reservation, the stamp of the artifact that was released last; of two
/// with the same time the one that came first.
pub open spec fn released_stamps(artifacts: Seq<Artifact>) -> Map<u64, Stamp>
    decreases artifacts.len(),
{
    if artifacts.len() == 0 {
        Map::empty()
    } else {
        let before = released_stamps(artifacts.drop_last());
        let a = artifacts.last();
        match artifact_stamp(a) {
            Some(stamp) if is_released(a) => if before.contains_key(stamp.id)
                && stamp.modified.is_at_or_before(before[stamp.id].modified) {
                before
            } else {
                before.insert(stamp.id, stamp)
            },
            _ => before,
        }
    }
}

/// The positions of the artifacts that are not released.
pub open spec fn unreleased(artifacts: Seq<Artifact>) -> Seq<int>
    decreases artifacts.len(),
{
    if artifacts.len() == 0 {
        Seq::empty()
    } else if is_released(artifacts.last()) {
        unreleased(artifacts.drop_last())
    } else {
        unreleased(artifacts.drop_last()).push(artifacts.len() - 1)
    }
}

/// The map holds exactly these stamps.
pub open spec fn holds_stamps(
    map: Map<u64, ReservationArtifactStamp>,
    stamps: Map<u64, Stamp>,
) -> bool {
    forall|id: u64|
        #![trigger map.contains_key(id)]
        #![trigger stamps.contains_key(id)]
        (map.contains_key(id) <==> stamps.contains_key(id)) && (map.contains_key(id) ==> map[id]@
            == stamps[id])
}

/// The artifacts that are not released, and the newest released one of each
/// reservation.
pub struct ReservationArtifactScan {
    pub candidates: Vec<usize>,
    pub released_by_id: HashMap<u64, ReservationArtifactStamp>,
}

/// Sorts the artifacts of the archive into those that may be active and the
/// newest released one of each reservation.
pub fn scan_reservation_artifacts(artifacts: &Vec<Artifact>) -> (r: ReservationArtifactScan)
    ensures
        r.candidates@.map_values(|i: usize| i as int) == unreleased(artifacts@),
        holds_stamps(r.released_by_id@, released_stamps(artifacts@)),
{
    broadcast use vstd::std_specs::hash::group_hash_axioms;

    let mut candidates: Vec<usize> = Vec::new();
    let mut released: HashMap<u64, ReservationArtifactStamp> = HashMap::new();
    let mut i: usize = 0;
    let ghost to_int = |i: usize| i as int;
    assert(candidates@.map_values(to_int) =~= unreleased(artifacts@.take(0)));
    while i < artifacts.len()
        invariant
            i <= artifacts@.len(),
            to_int == (|i: usize| i as int),
            candidates@.map_values(to_int) == unreleased(artifacts@.take(i as int)),
            holds_stamps(released@, released_stamps(artifacts@.take(i as int))),
        decreases artifacts@.len() - i,
    {
        let ghost next = artifacts@.take(i + 1);
        assert(next.drop_last() =~= artifacts@.take(i as int));
        assert(next.last() == artifacts@[i as int]);
        let a = &artifacts[i];
        let released_ts = json_member(&a.value, "released_ts");
        if released_ts_marks_record_released(&released_ts, a.release_is_positive) {
            if let Some(stamp) = reservation_artifact_stamp(&a.stem, &a.value, a.modified) {
                let ghost before = released_stamps(artifacts@.take(i as int));
                let replace = match released.get(&stamp.id) {
                    Some(existing) => !stamp.modified.at_or_before(&existing.modified),
                    None => true,
                };
                if replace {
                    let ghost sv = stamp@;
                    let id: u64 = stamp.id;
                    let _ = released.insert(id, stamp);
                    assert(holds_stamps(released@, before.insert(id, sv)));
                }
            }
        } else {
            let ghost before = candidates@;
            candidates.push(i);
            assert(candidates@.map_values(to_int) =~= before.map_values(to_int).push(i as int));
        }
        i = i + 1;
    }
    assert(artifacts@.take(i as int) =~= artifacts@);
    ReservationArtifactScan { candidates, released_by_id: released }
}

/// An artifact of another generation is history where the newest released one
/// of the same reservation is at least as recent.
pub open spec fn superseded(stamp: Option<Stamp>, released: Map<u64, Stamp>) -> bool {
    match stamp {
        Some(s) => released.contains_key(s.id) && released[s.id].generation != s.generation
            && s.modified.is_at_or_before(released[s.id].modified),
        None => false,
    }
}

/// The quotient of division by a million, towards zero.
pub open spec fn whole_seconds(micros: int) -> int {
    if micros >= 0 {
        micros / 1_000_000
    } else {
        -((-micros) / 1_000_000)
    }
}

/// The nanoseconds behind the whole seconds; none before the epoch.
pub open spec fn rest_nanos(micros: int) -> int {
    if micros >= 0 {
        (micros % 1_000_000) * 1000
    } else {
        0
    }
}

/// The expiry of a record as text. A text is taken as it is; an integer is a
/// number of microseconds, which must lie in the future and is printed as a
/// time. Anything else is no expiry.
pub open spec fn expiry_text(value: Member, now: TimePoint) -> Option<Seq<char>> {
    match value {
        Member::Text(t) => Some(t),
        Member::Number { integer: Some(micros), .. } => if micros <= now.micros() {
            None
        } else {
            utc_text(whole_seconds(micros as int) as i64, rest_nanos(micros as int) as u32)
        },
        _ => None,
    }
}

/// The trimmed text of the first of two members that is text, or nothing.
pub open spec fn first_text(
    members: Map<Seq<char>, Member>,
    key: Seq<char>,
    other: Seq<char>,
) -> Seq<char> {
    match text_of_member(member_of(members, key)) {
        Some(t) => trimmed(t),
        None => match text_of_member(member_of(members, other)) {
            Some(t) => trimmed(t),
            None => Seq::empty(),
        },
    }
}

/// The contents of a reservation.
#[verifier::ext_equal]
pub struct Record {
    pub path_pattern: Seq<char>,
    pub agent_name: Seq<char>,
    pub exclusive: bool,
    pub expires_ts: Seq<char>,
    pub released_ts: Option<Seq<char>>,
    pub normalized_pattern: Seq<char>,
    pub has_glob: bool,
}

impl View for FileReservationRecord {
    type V = Record;

    open spec fn view(&self) -> Record {
        Record {
            path_pattern: self.path_pattern@,
            agent_name: self.agent_name@,
            exclusive: self.exclusive,
            expires_ts: self.expires_ts@,
            released_ts: opt_string(self.released_ts),
            normalized_pattern: self.normalized_pattern@,
            has_glob: self.has_glob,
        }
    }
}

/// The reservation that an unreleased record stands for: it needs an expiry
/// that has not passed, a pattern, a flag whether it is exclusive, and an
/// agent.
pub open spec fn active_record(
    members: Map<Seq<char>, Member>,
    now: TimePoint,
    ignorecase: bool,
) -> Option<Record> {
    let pattern = first_text(members, "path_pattern"@, "path"@);
    let agent = first_text(members, "agent_name"@, "agent"@);
    match (expiry_text(member_of(members, "expires_ts"@), now), member_of(members, "exclusive"@)) {
        (Some(expires), Member::Bool(exclusive)) => if expired(expires, now) || pattern.len() == 0
            || agent.len() == 0 {
            None
        } else {
            Some(
                Record {
                    path_pattern: pattern,
                    agent_name: agent,
                    exclusive,
                    expires_ts: expires,
                    released_ts: None,
                    normalized_pattern: normalized(pattern, ignorecase),
                    has_glob: has_glob_char(pattern),
                },
            )
        },
        _ => None,
    }
}

fn expiry(value: &JsonMember, now: &TimePoint) -> (r: Option<String>)
    ensures
        match r {
            Some(t) => expiry_text(value@, *now) == Some(t@),
            None => expiry_text(value@, *now) is None,
        },
{
    match value {
        JsonMember::Text(t) => Some(t.clone()),
        JsonMember::Number { integer, text } => match integer {
            Some(micros) => {
                let micros: i64 = *micros;
                if (micros as i128) <= now.as_micros() {
                    return None;
                }
                let (secs, nanos): (i64, u32) = if micros >= 0 {
                    let m: u64 = micros as u64;
                    ((m / 1_000_000) as i64, ((m % 1_000_000) * 1000) as u32)
                } else {
                    let m: i128 = 0 - (micros as i128);
                    let q: u64 = (m as u64) / 1_000_000;
                    (0 - (q as i64), 0)
                };
                print_utc(secs, nanos)
            },
            None => None,
        },
        _ => None,
    }
}

fn first_trimmed(value: &serde_json::Value, key: &str, other: &str) -> (r: String)
    ensures
        r@ == first_text(json_members(*value), key@, other@),
{
    match json_member(value, key) {
        JsonMember::Text(t) => trim(t.as_str()),
        _ => match json_member(value, other) {
            JsonMember::Text(t) => trim(t.as_str()),
            _ => String::new(),
        },
    }
}

/// The reservation that an unreleased record stands for, if it is active.
pub fn active_reservation(value: &serde_json::Value, now: &TimePoint, ignorecase: bool) -> (r:
    Option<FileReservationRecord>)
    ensures
        match r {
            Some(record) => active_record(json_members(*value), *now, ignorecase) == Some(record@),
            None => active_record(json_members(*value), *now, ignorecase) is None,
        },
{
    let expires = match expiry(&json_member(value, "expires_ts"), now) {
        Some(t) => t,
        None => {
            return None;
        },
    };
    if is_expired(expires.as_str(), now) {
        return None;
    }
    let pattern = first_trimmed(value, "path_pattern", "path");
    if pattern.as_str().is_empty() {
        return None;
    }
    let exclusive = match json_member(value, "exclusive") {
        JsonMember::Bool(b) => b,
        _ => {
            return None;
        },
    };
    let agent_name = first_trimmed(value, "agent_name", "agent");
    if agent_name.as_str().is_empty() {
        return None;
    }
    let normalized_pattern = normalize_path(pattern.as_str(), ignorecase);
    let has_glob = contains_glob(pattern.as_str());
    Some(
        FileReservationRecord {
            path_pattern: pattern,
            agent_name,
            exclusive,
            expires_ts: expires,
            released_ts: None,
            normalized_pattern,
            has_glob,
        },
    )
}

/// The active reservations among the candidates at these positions, with the
/// times of change that were read last.
pub open spec fn active_of(
    artifacts: Seq<Artifact>,
    candidates: Seq<int>,
    modified: Seq<Option<TimePoint>>,
    released: Map<u64, Stamp>,
    now: TimePoint,
    ignorecase: bool,
) -> Seq<Record>
    decreases candidates.len(),
{
    if candidates.len() == 0 {
        Seq::empty()
    } else {
        let before = active_of(
            artifacts,
            candidates.drop_last(),
            modified,
            released,
            now,
            ignorecase,
        );
        let at = candidates.last();
        let a = artifacts[at];
        let stamp = stamp_of(opt_string(a.stem), json_members(a.value), modified[at]);
        if superseded(stamp, released) {
            before
        } else {
            match active_record(json_members(a.value), now, ignorecase) {
                Some(record) => before.push(record),
                None => before,
            }
        }
    }
}

pub open spec fn record_views(records: Seq<FileReservationRecord>) -> Seq<Record> {
    records.map_values(|r: FileReservationRecord| r@)
}

/// The active reservations of the archive.
///
/// `artifacts` are its parsed files, and `modified` when each was last
/// changed, read anew. Released records, records that a release under another
/// generation supersedes, expired ones and incomplete ones are passed over.
/// Shared reservations are returned like exclusive ones; they block nothing.
pub fn read_active_reservations_from_archive(
    artifacts: &Vec<Artifact>,
    modified: &Vec<Option<TimePoint>>,
    now: &TimePoint,
    ignorecase: bool,
) -> (r: Vec<FileReservationRecord>)
    requires
        modified@.len() == artifacts@.len(),
    ensures
        record_views(r@) == active_of(
            artifacts@,
            unreleased(artifacts@),
            modified@,
            released_stamps(artifacts@),
            *now,
            ignorecase,
        ),
{
    broadcast use vstd::std_specs::hash::group_hash_axioms;

    let scan = scan_reservation_artifacts(artifacts);
    let ghost released = released_stamps(artifacts@);
    let ghost candidates = unreleased(artifacts@);
    proof {
        lemma_unreleased_positions(artifacts@);
    }
    let mut records: Vec<FileReservationRecord> = Vec::new();
    let mut i: usize = 0;
    assert(record_views(records@) =~= active_of(
        artifacts@,
        candidates.take(0),
        modified@,
        released,
        *now,
        ignorecase,
    ));
    while i < scan.candidates.len()
        invariant
            i <= scan.candidates@.len(),
            modified@.len() == artifacts@.len(),
            scan.candidates@.map_values(|i: usize| i as int) == candidates,
            forall|k: int| 0 <= k < candidates.len() ==> 0 <= #[trigger] candidates[k] < artifacts@.len(),
            holds_stamps(scan.released_by_id@, released),
            record_views(records@) == active_of(
                artifacts@,
                candidates.take(i as int),
                modified@,
                released,
                *now,
                ignorecase,
            ),
        decreases scan.candidates@.len() - i,
    {
        let ghost next = candidates.take(i + 1);
        assert(next.drop_last() =~= candidates.take(i as int));
        let at: usize = scan.candidates[i];
        assert(candidates[i as int] == at);
        assert(next.last() == at);
        let a = &artifacts[at];
        let old = match reservation_artifact_stamp(&a.stem, &a.value, modified[at]) {
            Some(stamp) => match scan.released_by_id.get(&stamp.id) {
                Some(newest) => !same_generation(&newest.generation, &stamp.generation)
                    && stamp.modified.at_or_before(&newest.modified),
                None => false,
            },
            None => false,
        };
        if !old {
            if let Some(record) = active_reservation(&a.value, now, ignorecase) {
                let ghost before = record_views(records@);
                let ghost rv = record@;
                records.push(record);
                assert(record_views(records@) =~= before.push(rv));
            }
        }
        i = i + 1;
    }
    assert(candidates.take(i as int) =~= candidates);
    records
}

fn same_generation(a: &Option<String>, b: &Option<String>) -> (r: bool)
    ensures
        r == (opt_string(*a) == opt_string(*b)),
{
    match (a, b) {
        (Some(x), Some(y)) => same(x.as_str(), y.as_str()),
        (None, None) => true,
        _ => false,
    }
}

proof fn lemma_unreleased_positions(artifacts: Seq<Artifact>)
    ensures
        forall|k: int|
            0 <= k < unreleased(artifacts).len() ==> 0 <= #[trigger] unreleased(artifacts)[k]
                < artifacts.len() && !is_released(artifacts[unreleased(artifacts)[k]]),
    decreases artifacts.len(),
{
    if artifacts.len() > 0 {
        let shorter = artifacts.drop_last();
        lemma_unreleased_positions(shorter);
        let before = unreleased(shorter);
        let all = unreleased(artifacts);
        assert forall|k: int| 0 <= k < all.len() implies 0 <= #[trigger] all[k] < artifacts.len()
            && !is_released(artifacts[all[k]]) by {
            if k < before.len() {
                assert(all[k] == before[k]);
                assert(artifacts[all[k]] == shorter[before[k]]);
            }
        }
    }
}

/// The artifact at `at` is active: not released, not superseded, not expired
/// and complete; `record` is what it reserves.
pub open spec fn is_active(
    artifacts: Seq<Artifact>,
    modified: Seq<Option<TimePoint>>,
    now: TimePoint,
    ignorecase: bool,
    at: int,
    record: Record,
) -> bool {
    let a = artifacts[at];
    &&& 0 <= at < artifacts.len()
    &&& !is_released(a)
    &&& !superseded(
        stamp_of(opt_string(a.stem), json_members(a.value), modified[at]),
        released_stamps(artifacts),
    )
    &&& active_record(json_members(a.value), now, ignorecase) == Some(record)
}

/// Some artifact is active with this record.
pub open spec fn is_reserved(
    artifacts: Seq<Artifact>,
    modified: Seq<Option<TimePoint>>,
    now: TimePoint,
    ignorecase: bool,
    record: Record,
) -> bool {
    exists|at: int| is_active(artifacts, modified, now, ignorecase, at, record)
}

proof fn lemma_active_found(
    artifacts: Seq<Artifact>,
    candidates: Seq<int>,
    modified: Seq<Option<TimePoint>>,
    now: TimePoint,
    ignorecase: bool,
    found: Seq<Record>,
)
    requires
        forall|k: int|
            0 <= k < candidates.len() ==> 0 <= #[trigger] candidates[k] < artifacts.len()
                && !is_released(artifacts[candidates[k]]),
        found == active_of(
            artifacts,
            candidates,
            modified,
            released_stamps(artifacts),
            now,
            ignorecase,
        ),
    ensures
        forall|j: int|
            0 <= j < found.len() ==> is_reserved(
                artifacts,
                modified,
                now,
                ignorecase,
                #[trigger] found[j],
            ),
        forall|at: int, record: Record|
            candidates.contains(at) && #[trigger] is_active(
                artifacts,
                modified,
                now,
                ignorecase,
                at,
                record,
            ) ==> found.contains(record),
    decreases candidates.len(),
{
    let released = released_stamps(artifacts);
    if candidates.len() > 0 {
        let shorter = candidates.drop_last();
        assert forall|k: int| 0 <= k < shorter.len() implies 0 <= #[trigger] shorter[k]
            < artifacts.len() && !is_released(artifacts[shorter[k]]) by {
            assert(shorter[k] == candidates[k]);
        }
        let before = active_of(artifacts, shorter, modified, released, now, ignorecase);
        lemma_active_found(artifacts, shorter, modified, now, ignorecase, before);
        let last = candidates[candidates.len() - 1];
        assert forall|j: int| 0 <= j < found.len() implies is_reserved(
            artifacts,
            modified,
            now,
            ignorecase,
            #[trigger] found[j],
        ) by {
            if j < before.len() {
                assert(found[j] == before[j]);
            } else {
                assert(is_active(artifacts, modified, now, ignorecase, last, found[j]));
            }
        }
        assert forall|at: int, record: Record|
            candidates.contains(at) && #[trigger] is_active(
                artifacts,
                modified,
                now,
                ignorecase,
                at,
                record,
            ) implies found.contains(record) by {
            let k = choose|k: int| 0 <= k < candidates.len() && candidates[k] == at;
            if k < shorter.len() {
                assert(shorter[k] == at);
                assert(before.contains(record));
                let j = choose|j: int| 0 <= j < before.len() && before[j] == record;
                assert(found[j] == record);
            } else {
                assert(found[before.len() as int] == record);
            }
        }
    }
}

proof fn lemma_unreleased_complete(artifacts: Seq<Artifact>, at: int)
    requires
        0 <= at < artifacts.len(),
        !is_released(artifacts[at]),
    ensures
        unreleased(artifacts).contains(at),
    decreases artifacts.len(),
{
    let all = unreleased(artifacts);
    if at == artifacts.len() - 1 {
        assert(all[all.len() - 1] == at);
    } else {
        let shorter = artifacts.drop_last();
        lemma_unreleased_complete(shorter, at);
        let before = unreleased(shorter);
        let k = choose|k: int| 0 <= k < before.len() && before[k] == at;
        assert(all[k] == at);
    }
}

/// The reservations that are read are exactly those of the active artifacts:
/// each comes from one, and none is left out.
pub proof fn law_active_reservations_are_exact(
    artifacts: Seq<Artifact>,
    modified: Seq<Option<TimePoint>>,
    now: TimePoint,
    ignorecase: bool,
    record: Record,
)
    ensures
        active_of(
            artifacts,
            unreleased(artifacts),
            modified,
            released_stamps(artifacts),
            now,
            ignorecase,
        ).contains(record) <==> is_reserved(artifacts, modified, now, ignorecase, record),
{
    let candidates = unreleased(artifacts);
    let found = active_of(
        artifacts,
        candidates,
        modified,
        released_stamps(artifacts),
        now,
        ignorecase,
    );
    lemma_unreleased_positions(artifacts);
    lemma_active_found(artifacts, candidates, modified, now, ignorecase, found);
    if found.contains(record) {
        let j = choose|j: int| 0 <= j < found.len() && found[j] == record;
        assert(is_reserved(artifacts, modified, now, ignorecase, found[j]));
    }
    if is_reserved(artifacts, modified, now, ignorecase, record) {
        let at = choose|at: int| is_active(artifacts, modified, now, ignorecase, at, record);
        lemma_unreleased_complete(artifacts, at);
    }
}

/// Of each reservation the newest release counts: the stamp that is kept is
/// that of a released artifact, and no release of the reservation is newer.
pub proof fn law_newest_release_counts(artifacts: Seq<Artifact>)
    ensures
        forall|id: u64|
            #![trigger released_stamps(artifacts)[id]]
            released_stamps(artifacts).contains_key(id) ==> exists|at: int|
                #![trigger artifacts[at]]
                0 <= at < artifacts.len() && is_released(artifacts[at]) && artifact_stamp(
                    artifacts[at],
                ) == Some(released_stamps(artifacts)[id]) && released_stamps(artifacts)[id].id
                    == id,
        forall|at: int|
            #![trigger artifacts[at]]
            0 <= at < artifacts.len() && is_released(artifacts[at]) ==> (artifact_stamp(
                artifacts[at],
            ) matches Some(stamp) ==> released_stamps(artifacts).contains_key(stamp.id)
                && stamp.modified.is_at_or_before(released_stamps(artifacts)[stamp.id].modified)),
    decreases artifacts.len(),
{
    if artifacts.len() > 0 {
        let shorter = artifacts.drop_last();
        law_newest_release_counts(shorter);
        let before = released_stamps(shorter);
        let all = released_stamps(artifacts);
        let last = artifacts[artifacts.len() - 1];
        assert forall|id: u64| #![trigger all[id]] all.contains_key(id) implies exists|at: int|
            #![trigger artifacts[at]]
            0 <= at < artifacts.len() && is_released(artifacts[at]) && artifact_stamp(artifacts[at])
                == Some(all[id]) && all[id].id == id by {
            if before.contains_key(id) && all[id] == before[id] {
                let at = choose|at: int|
                    #![trigger shorter[at]]
                    0 <= at < shorter.len() && is_released(shorter[at]) && artifact_stamp(
                        shorter[at],
                    ) == Some(before[id]) && before[id].id == id;
                assert(artifacts[at] == shorter[at]);
            } else {
                assert(artifact_stamp(last) == Some(all[id]));
            }
        }
        assert forall|at: int|
            #![trigger artifacts[at]]
            0 <= at < artifacts.len() && is_released(artifacts[at]) implies (artifact_stamp(
            artifacts[at],
        ) matches Some(stamp) ==> all.contains_key(stamp.id) && stamp.modified.is_at_or_before(
            all[stamp.id].modified,
        )) by {
            if at < shorter.len() {
                assert(shorter[at] == artifacts[at]);
            }
        }
    }
}

/// An active reservation has not expired, and it names a pattern and an agent.
pub proof fn law_active_reservations_are_complete(
    members: Map<Seq<char>, Member>,
    now: TimePoint,
    ignorecase: bool,
)
    ensures
        active_record(members, now, ignorecase) matches Some(record) ==> {
            &&& !expired(record.expires_ts, now)
            &&& record.path_pattern.len() > 0
            &&& record.agent_name.len() > 0
            &&& record.released_ts is None
        },
{
}

/// Where case counts, no backslash stands in the pattern of an active
/// reservation.
pub proof fn law_active_patterns_hold_no_backslash(members: Map<Seq<char>, Member>, now: TimePoint)
    ensures
        active_record(members, now, false) matches Some(record)
            ==> !record.normalized_pattern.contains('\\'),
{
    crate::paths::law_normal_path_holds_no_backslash(
        first_text(members, "path_pattern"@, "path"@),
    );
}

/// Null, a missing member, a flag, an array or an object never releases.
pub proof fn law_release_needs_a_value(value: Member, numeric_positive: bool)
    requires
        value is Null || value is Bool || value is Composite,
    ensures
        !marks_released(value, numeric_positive),
{
}

/// A record is read as it is written: the pattern is the trimmed text of
/// `path_pattern` or, where that is no text, of `path`; the agent that of
/// `agent_name` or else of `agent`; a text as expiry is kept, an integer is
/// printed as a time. Whether the pattern is a glob is told by its characters,
/// and the pattern is normalized as paths are.
pub proof fn law_a_record_is_read_as_it_is_written(
    value: &serde_json::Value,
    now: &TimePoint,
    ignorecase: bool,
    r: Option<FileReservationRecord>,
)
    requires
        call_ensures(active_reservation, (value, now, ignorecase), r),
    ensures
        r matches Some(record) ==> {
            let m = json_members(*value);
            &&& record.has_glob <==> exists|i: int|
                0 <= i < record.path_pattern@.len() && (#[trigger] record.path_pattern@[i] == '*'
                    || record.path_pattern@[i] == '?' || record.path_pattern@[i] == '['
                    || record.path_pattern@[i] == '{')
            &&& record.normalized_pattern@ == normalized(record.path_pattern@, ignorecase)
            &&& m.contains_key("exclusive"@) && m["exclusive"@] == Member::Bool(record.exclusive)
            &&& is_text_of(m, "path_pattern"@, "path"@, record.path_pattern@)
            &&& is_text_of(m, "agent_name"@, "agent"@, record.agent_name@)
            &&& record.path_pattern@.len() > 0
            &&& record.agent_name@.len() > 0
            &&& record.released_ts is None
            &&& !expired(record.expires_ts@, *now)
            &&& m.contains_key("expires_ts"@)
            &&& m["expires_ts"@] is Text || m["expires_ts"@] is Number
            &&& m["expires_ts"@] matches Member::Text(t) ==> record.expires_ts@ == t
            &&& m["expires_ts"@] matches Member::Number { integer, text } ==> integer is Some
                && integer->0 > now.secs * 1_000_000 + (now.nanos / 1000) as int && (integer->0
                >= 0 ==> utc_text(
                (integer->0 as int / 1_000_000) as i64,
                ((integer->0 as int % 1_000_000) * 1000) as u32,
            ) == Some(record.expires_ts@))
        },
{
    if r is Some {
        crate::paths::law_globs_are_told_by_four_characters(r->0.path_pattern@);
        assert(active_record(json_members(*value), *now, ignorecase) == Some(r->0@));
    }
}

/// The trimmed text of the member of the first name or, where there is no text
/// under it, of the second.
pub open spec fn is_text_of(
    members: Map<Seq<char>, Member>,
    key: Seq<char>,
    other: Seq<char>,
    text: Seq<char>,
) -> bool {
    if members.contains_key(key) && members[key] is Text {
        text == trimmed(members[key]->Text_0)
    } else {
        members.contains_key(other) && members[other] is Text && text == trimmed(
            members[other]->Text_0,
        )
    }
}

/// A record with a pattern, an agent, a flag and an expiry that has not passed
/// is a reservation, exclusive or not.
pub proof fn law_a_complete_record_is_a_reservation(
    value: &serde_json::Value,
    now: &TimePoint,
    ignorecase: bool,
    pattern: Seq<char>,
    agent: Seq<char>,
    exclusive: bool,
    expires: Seq<char>,
    r: Option<FileReservationRecord>,
)
    requires
        ({
            let m = json_members(*value);
            &&& is_text_of(m, "path_pattern"@, "path"@, pattern)
            &&& is_text_of(m, "agent_name"@, "agent"@, agent)
            &&& m.contains_key("exclusive"@) && m["exclusive"@] == Member::Bool(exclusive)
            &&& m.contains_key("expires_ts"@) && m["expires_ts"@] == Member::Text(expires)
        }),
        pattern.len() > 0,
        agent.len() > 0,
        !expired(expires, *now),
        call_ensures(active_reservation, (value, now, ignorecase), r),
    ensures
        r is Some,
{
}

/// Whether a `released_ts` releases: a number exactly where it is above zero,
/// a text unless it is blank, `null`, `none` or zero, with a numeric one told
/// by its value, and nothing else.
pub proof fn law_what_releases(value: &JsonMember, numeric_positive: bool, n: nat, r: bool)
    requires
        call_ensures(released_ts_marks_record_released, (value, numeric_positive), r),
    ensures
        value is Null || value is Bool || value is Composite ==> !r,
        value matches JsonMember::Number { text, .. } ==> {
            &&& text@ == decimal(n) ==> (r <==> n > 0)
            &&& text@ == seq!['-'] + decimal(n) ==> !r
        },
        value matches JsonMember::Text(text) ==> {
            let t = trimmed(text@);
            &&& t.len() == 0 || t == "0"@ || same_ignoring_ascii_case(t, "null"@)
                || same_ignoring_ascii_case(t, "none"@) ==> !r
            &&& t == decimal(n) && n > 0 ==> r == numeric_positive
            &&& !(t.len() == 0 || same_ignoring_ascii_case(t, "null"@) || same_ignoring_ascii_case(
                t,
                "none"@,
            )) && (exists|i: int|
                0 <= i < t.len() && !('0' <= #[trigger] t[i] <= '9') && t[i] != '.' && t[i] != '+'
                    && t[i] != '-') ==> r
        },
{
    lemma_decimal_digits(n);
    reveal_strlit("0");
    reveal_strlit("null");
    reveal_strlit("none");
    let d = decimal(n);
    match value {
        JsonMember::Number { integer, text } => {
            if text@ == d {
                if n > 0 {
                    assert('1' <= text@[0] <= '9');
                } else {
                    assert(text@.len() == 1);
                }
            }
            if text@ == seq!['-'] + d {
                assert(text@[0] == '-');
            }
        },
        JsonMember::Text(text) => {
            let t = trimmed(text@);
            if t == d && n > 0 {
                crate::text::law_same_but_for_case(t, "null"@);
                crate::text::law_same_but_for_case(t, "none"@);
                assert("null"@[0] == 'n' && "none"@[0] == 'n');
                assert(!same_ignoring_ascii_case(t, "null"@)) by {
                    assert('1' <= t[0] <= '9');
                }
                assert(!same_ignoring_ascii_case(t, "none"@)) by {
                    assert('1' <= t[0] <= '9');
                }
                assert(t[0] != "0"@[0]);
                assert forall|i: int| 0 <= i < t.len() implies is_numeric_char(#[trigger] t[i]) by {
                    assert('0' <= d[i] <= '9');
                }
            }
            if exists|i: int|
                0 <= i < t.len() && !('0' <= #[trigger] t[i] <= '9') && t[i] != '.' && t[i] != '+'
                    && t[i] != '-' {
                let i = choose|i: int|
                    0 <= i < t.len() && !('0' <= #[trigger] t[i] <= '9') && t[i] != '.' && t[i]
                        != '+' && t[i] != '-';
                assert(!is_numeric_char(t[i]));
                assert(t == "0"@ ==> t[i] == '0');
            }
        },
        _ => {},
    }
}

/// The name of an artifact gives the number and the generation of its
/// reservation; without a generation the record's own counts. Other names give
/// nothing, and an unknown time of change is the epoch.
pub proof fn law_artifacts_are_known_by_their_names(
    stem: &Option<String>,
    record: &serde_json::Value,
    modified: Option<TimePoint>,
    id: nat,
    generation: Seq<char>,
    r: Option<ReservationArtifactStamp>,
)
    requires
        id <= u64::MAX,
        call_ensures(reservation_artifact_stamp, (stem, record, modified), r),
    ensures
        stem is None ==> r is None,
        stem is Some && !"id-"@.is_prefix_of(stem->0@) ==> r is None,
        stem is Some && stem->0@ == "id-"@ + decimal(id) + "-g"@ + generation && generation.len()
            > 0 ==> {
            &&& r is Some
            &&& r->0.id == id
            &&& r->0.generation is Some && r->0.generation->0@ == generation
        },
        stem is Some && stem->0@ == "id-"@ + decimal(id) ==> {
            let m = json_members(*record);
            &&& r is Some
            &&& r->0.id == id
            &&& r->0.generation is Some <==> m.contains_key("db_generation"@)
                && m["db_generation"@] is Text && trimmed(m["db_generation"@]->Text_0).len() > 0
            &&& r->0.generation is Some ==> r->0.generation->0@ == trimmed(
                m["db_generation"@]->Text_0,
            )
        },
        r is Some ==> r->0.modified == (match modified {
            Some(t) => t,
            None => TimePoint { secs: 0, nanos: 0 },
        }),
{
    lemma_decimal_digits(id);
    reveal_strlit("id-");
    reveal_strlit("-g");
    let d = decimal(id);
    crate::numbers::law_numbers_are_read_as_they_are_printed(id, u64::MAX as int);
    if stem is Some {
        let s = stem->0@;
        if s == "id-"@ + d + "-g"@ + generation {
            let rest = s.skip(3);
            assert("id-"@.is_prefix_of(s));
            assert(rest =~= d + "-g"@ + generation);
            crate::text::lemma_first_at(rest, "-g"@, 0);
            assert(rest.subrange(d.len() as int, d.len() as int + 2) =~= "-g"@);
            assert(crate::text::occurs_at(rest, "-g"@, d.len() as int));
            let i = first_at(rest, "-g"@, 0)->0;
            if i < d.len() {
                assert(rest.subrange(i, i + 2)[0] == rest[i]);
                assert(rest[i] == d[i]);
            }
            assert(i == d.len());
            assert(rest.take(i) =~= d);
            assert(rest.skip(i + 2) =~= generation);
        }
        if s == "id-"@ + d {
            let rest = s.skip(3);
            assert("id-"@.is_prefix_of(s));
            assert(rest =~= d);
            crate::text::lemma_first_at(rest, "-g"@, 0);
            if first_at(rest, "-g"@, 0) is Some {
                let i = first_at(rest, "-g"@, 0)->0;
                assert(rest.subrange(i, i + 2)[0] == rest[i]);
            }
        }
    }
}

/// A directory entry is read as a reservation exactly where it is a regular
/// file, no link, with the extension `json`, of at most a mebibyte where its
/// size is known.
pub proof fn law_which_files_are_read(
    is_file: bool,
    is_symlink: bool,
    extension: Option<&str>,
    len: Option<u64>,
    r: bool,
)
    requires
        call_ensures(is_reservation_file, (is_file, is_symlink, extension, len), r),
    ensures
        r ==> is_file && !is_symlink && extension is Some && extension->0@ == "json"@,
        r && len is Some ==> len->0 <= 1024 * 1024,
        is_file && !is_symlink && extension is Some && extension->0@ == "json"@ && (len is None
            || len->0 <= 1024 * 1024) ==> r,
{
}

/// An archive of one artifact holds what its record reserves, unless the
/// artifact is released.
pub proof fn law_an_archive_of_one(
    artifacts: &Vec<Artifact>,
    modified: &Vec<Option<TimePoint>>,
    now: &TimePoint,
    ignorecase: bool,
    mark: JsonMember,
    released: bool,
    read: Option<FileReservationRecord>,
    r: Vec<FileReservationRecord>,
)
    requires
        artifacts@.len() == 1,
        modified@.len() == 1,
        ({
            let m = json_members(artifacts@[0].value);
            if m.contains_key("released_ts"@) {
                mark@ == m["released_ts"@]
            } else {
                mark is Null
            }
        }),
        call_ensures(
            released_ts_marks_record_released,
            (&mark, artifacts@[0].release_is_positive),
            released,
        ),
        call_ensures(active_reservation, (&artifacts@[0].value, now, ignorecase), read),
        call_ensures(
            read_active_reservations_from_archive,
            (artifacts, modified, now, ignorecase),
            r,
        ),
    ensures
        released || read is None ==> r@.len() == 0,
        !released && read is Some ==> r@.len() == 1 && r@[0]@ == read->0@,
{
    let a = artifacts@[0];
    let all = artifacts@;
    assert(all.drop_last() =~= Seq::<Artifact>::empty());
    assert(all.last() == a);
    assert(unreleased(all.drop_last()) =~= Seq::<int>::empty());
    assert(released_stamps(all.drop_last()) =~= Map::<u64, Stamp>::empty());
    assert(is_released(a) == released);
    let c = unreleased(all);
    let found = active_of(all, c, modified@, released_stamps(all), *now, ignorecase);
    assert(record_views(r@).len() == r@.len());
    if released {
        assert(c =~= Seq::<int>::empty());
    } else {
        assert(c =~= seq![0int]);
        assert(c.drop_last() =~= Seq::<int>::empty());
        assert(released_stamps(all) =~= Map::<u64, Stamp>::empty());
        assert(active_of(all, c.drop_last(), modified@, released_stamps(all), *now, ignorecase)
            =~= Seq::<Record>::empty());
        if r@.len() > 0 {
            assert(record_views(r@)[0] == r@[0]@);
        }
    }
}

proof fn lemma_nothing_released(artifacts: Seq<Artifact>)
    requires
        forall|i: int| 0 <= i < artifacts.len() ==> !is_released(#[trigger] artifacts[i]),
    ensures
        unreleased(artifacts) == Seq::new(artifacts.len(), |i: int| i),
        released_stamps(artifacts) == Map::<u64, Stamp>::empty(),
    decreases artifacts.len(),
{
    let all = Seq::new(artifacts.len(), |i: int| i);
    if artifacts.len() > 0 {
        let shorter = artifacts.drop_last();
        assert forall|i: int| 0 <= i < shorter.len() implies !is_released(#[trigger] shorter[i]) by {
            assert(shorter[i] == artifacts[i]);
        }
        lemma_nothing_released(shorter);
        assert(!is_released(artifacts[artifacts.len() - 1]));
        assert(unreleased(artifacts) =~= all);
    } else {
        assert(unreleased(artifacts) =~= all);
    }
}

proof fn lemma_active_of_prefix(
    artifacts: Seq<Artifact>,
    all: Seq<Artifact>,
    candidates: Seq<int>,
    modified: Seq<Option<TimePoint>>,
    all_modified: Seq<Option<TimePoint>>,
    released: Map<u64, Stamp>,
    now: TimePoint,
    ignorecase: bool,
)
    requires
        modified.len() == artifacts.len(),
        artifacts.is_prefix_of(all),
        modified.is_prefix_of(all_modified),
        forall|k: int| 0 <= k < candidates.len() ==> 0 <= #[trigger] candidates[k] < artifacts.len(),
    ensures
        active_of(artifacts, candidates, modified, released, now, ignorecase) == active_of(
            all,
            candidates,
            all_modified,
            released,
            now,
            ignorecase,
        ),
    decreases candidates.len(),
{
    if candidates.len() > 0 {
        let shorter = candidates.drop_last();
        assert forall|k: int| 0 <= k < shorter.len() implies 0 <= #[trigger] shorter[k]
            < artifacts.len() by {
            assert(shorter[k] == candidates[k]);
        }
        lemma_active_of_prefix(
            artifacts,
            all,
            shorter,
            modified,
            all_modified,
            released,
            now,
            ignorecase,
        );
        let at = candidates[candidates.len() - 1];
        assert(artifacts[at] == all[at]);
        assert(modified[at] == all_modified[at]);
    }
}

/// Without releases every artifact is read on its own: one more adds what its
/// record reserves, or nothing, behind the others.
pub proof fn law_artifacts_are_read_one_by_one(
    artifacts: &Vec<Artifact>,
    all: &Vec<Artifact>,
    modified: &Vec<Option<TimePoint>>,
    all_modified: &Vec<Option<TimePoint>>,
    now: &TimePoint,
    ignorecase: bool,
    read: Option<FileReservationRecord>,
    before: Vec<FileReservationRecord>,
    r: Vec<FileReservationRecord>,
)
    requires
        all@.len() == artifacts@.len() + 1,
        all@.drop_last() == artifacts@,
        modified@.len() == artifacts@.len(),
        all_modified@.len() == all@.len(),
        all_modified@.drop_last() == modified@,
        forall|i: int| 0 <= i < all@.len() ==> !is_released(#[trigger] all@[i]),
        call_ensures(active_reservation, (&all@[artifacts@.len() as int].value, now, ignorecase), read),
        call_ensures(
            read_active_reservations_from_archive,
            (artifacts, modified, now, ignorecase),
            before,
        ),
        call_ensures(
            read_active_reservations_from_archive,
            (all, all_modified, now, ignorecase),
            r,
        ),
    ensures
        artifacts@.len() == 0 ==> before@.len() == 0,
        read is None ==> record_views(r@) == record_views(before@),
        read is Some ==> record_views(r@) == record_views(before@).push(read->0@),
{
    assert forall|i: int| 0 <= i < artifacts@.len() implies !is_released(#[trigger] artifacts@[i]) by {
        assert(artifacts@[i] == all@[i]);
    }
    lemma_nothing_released(artifacts@);
    lemma_nothing_released(all@);
    let c = unreleased(artifacts@);
    let more = unreleased(all@);
    assert(more.drop_last() =~= c);
    assert(more.last() == artifacts@.len());
    lemma_active_of_prefix(
        artifacts@,
        all@,
        c,
        modified@,
        all_modified@,
        Map::<u64, Stamp>::empty(),
        *now,
        ignorecase,
    );
    assert(record_views(before@).len() == before@.len());
}

/// Of two artifacts of one reservation, one released and one not, the other is
/// history exactly where the release was written under another generation and
/// is at least as recent. A release under the same generation, or an older
/// one, leaves it active.
pub proof fn law_a_release_under_another_generation_supersedes(
    artifacts: &Vec<Artifact>,
    modified: &Vec<Option<TimePoint>>,
    now: &TimePoint,
    ignorecase: bool,
    at: int,
    stamp: ReservationArtifactStamp,
    release: ReservationArtifactStamp,
    read: FileReservationRecord,
    r: Vec<FileReservationRecord>,
)
    requires
        artifacts@.len() == 2,
        modified@.len() == 2,
        at == 0 || at == 1,
        !is_released(artifacts@[at]),
        is_released(artifacts@[1 - at]),
        stamp.modified.nanos < 1_000_000_000,
        release.modified.nanos < 1_000_000_000,
        call_ensures(
            reservation_artifact_stamp,
            (&artifacts@[at].stem, &artifacts@[at].value, modified@[at]),
            Some(stamp),
        ),
        call_ensures(
            reservation_artifact_stamp,
            (
                &artifacts@[1 - at].stem,
                &artifacts@[1 - at].value,
                artifacts@[1 - at].modified,
            ),
            Some(release),
        ),
        call_ensures(active_reservation, (&artifacts@[at].value, now, ignorecase), Some(read)),
        call_ensures(
            read_active_reservations_from_archive,
            (artifacts, modified, now, ignorecase),
            r,
        ),
    ensures
        release.id != stamp.id || opt_string(release.generation) == opt_string(stamp.generation)
            || stamp.modified.secs * 1_000_000_000 + stamp.modified.nanos
            > release.modified.secs * 1_000_000_000 + release.modified.nanos ==> r@.len() == 1
            && r@[0]@ == read@,
        release.id == stamp.id && opt_string(release.generation) != opt_string(stamp.generation)
            && stamp.modified.secs * 1_000_000_000 + stamp.modified.nanos
            <= release.modified.secs * 1_000_000_000 + release.modified.nanos ==> r@.len() == 0,
{
    let all = artifacts@;
    let one = all.drop_last();
    assert(one.drop_last() =~= Seq::<Artifact>::empty());
    assert(one.last() == all[0]);
    assert(all.last() == all[1]);
    assert(unreleased(one.drop_last()) =~= Seq::<int>::empty());
    assert(released_stamps(one.drop_last()) =~= Map::<u64, Stamp>::empty());
    let kept = Map::<u64, Stamp>::empty().insert(release.id, release@);
    assert(artifact_stamp(all[1 - at]) == Some(release@));
    let c = unreleased(all);
    if at == 0 {
        assert(released_stamps(one) =~= Map::<u64, Stamp>::empty());
        assert(released_stamps(all) =~= kept);
        assert(unreleased(one) =~= seq![0int]);
    } else {
        assert(released_stamps(one) =~= kept);
        assert(released_stamps(all) =~= kept);
        assert(unreleased(one) =~= Seq::<int>::empty());
    }
    assert(c =~= seq![at]);
    assert(c.drop_last() =~= Seq::<int>::empty());
    assert(active_of(all, c.drop_last(), modified@, kept, *now, ignorecase) =~= Seq::<
        Record,
    >::empty());
    assert(record_views(r@).len() == r@.len());
    if r@.len() > 0 {
        assert(record_views(r@)[0] == r@[0]@);
    }
}

/// What is read from the archive blocks: an active exclusive reservation of
/// another agent whose pattern names a plain directory, and compiles, blocks
/// every path below that directory that is not exempt. The pattern and the
/// path are given as they are written.
pub proof fn law_what_is_read_from_the_archive_blocks(
    value: &serde_json::Value,
    now: &TimePoint,
    record: FileReservationRecord,
    directory: Seq<char>,
    holder: Seq<char>,
    paths: &Vec<String>,
    below: Seq<Seq<char>>,
    reservations: &Vec<FileReservationRecord>,
    at: int,
    self_agent: &str,
    found: Vec<crate::guard::GuardConflict>,
)
    requires
        call_ensures(active_reservation, (value, now, false), Some(record)),
        is_text_of(json_members(*value), "path_pattern"@, "path"@, directory),
        is_text_of(json_members(*value), "agent_name"@, "agent"@, holder),
        json_members(*value)["exclusive"@] == Member::Bool(true),
        !same_ignoring_ascii_case(holder, self_agent@),
        forall|i: int|
            0 <= i < directory.len() ==> #[trigger] directory[i] != '*' && directory[i] != '?'
                && directory[i] != '[' && directory[i] != '{',
        crate::conflicts::glob_error(normalized(directory, false), false, false) is None,
        0 <= at < reservations@.len(),
        reservations@[at] == record,
        forall|i: int|
            0 <= i < reservations@.len() ==> !(
            #[trigger] reservations@[i]).normalized_pattern@.contains('\\'),
        paths@.len() == 1,
        below.len() > 0,
        path_components(directory).len() > 0,
        path_components(paths@[0]@) == path_components(directory) + below,
        path_components(paths@[0]@)[0] != ".beads"@,
        call_ensures(
            crate::conflicts::check_path_conflicts,
            (paths, reservations, self_agent, false),
            Ok(found),
        ),
    ensures
        found@.len() == 1,
        found@[0].path@ == paths@[0]@,
{
    law_a_record_is_read_as_it_is_written(value, now, false, Some(record));
    let path = paths@[0]@;
    crate::paths::law_exempt_by_the_first_component(path);
    crate::paths::lemma_joined_concat(path_components(directory), below);
    crate::conflicts::law_a_directory_is_held_with_all_below(
        paths,
        reservations,
        self_agent,
        false,
        at,
        crate::text::joined(below, "/"@),
        found,
    );
}

/// Microseconds are whole seconds and nanoseconds behind them; before the
/// epoch the seconds are counted towards it, and what is behind them does not
/// count.
pub proof fn law_microseconds_are_seconds_and_nanoseconds(secs: int, micros: int)
    requires
        secs >= 0,
        0 <= micros < 1_000_000,
    ensures
        whole_seconds(secs * 1_000_000 + micros) == secs,
        rest_nanos(secs * 1_000_000 + micros) == micros * 1000,
        secs * 1_000_000 + micros > 0 ==> whole_seconds(-(secs * 1_000_000 + micros)) == -secs
            && rest_nanos(-(secs * 1_000_000 + micros)) == 0,
{
    let all = secs * 1_000_000 + micros;
    assert(all / 1_000_000 == secs && all % 1_000_000 == micros);
}

proof fn lemma_unreleased(artifacts: Seq<Artifact>)
    ensures
        forall|i: int|
            #![trigger unreleased(artifacts).contains(i)]
            unreleased(artifacts).contains(i) <==> 0 <= i < artifacts.len() && !is_released(
                artifacts[i],
            ),
        forall|j: int, k: int|
            0 <= j < k < unreleased(artifacts).len() ==> #[trigger] unreleased(artifacts)[j]
                < #[trigger] unreleased(artifacts)[k],
    decreases artifacts.len(),
{
    let u = unreleased(artifacts);
    if artifacts.len() > 0 {
        let rest = artifacts.drop_last();
        let before = unreleased(rest);
        let last = artifacts.len() - 1;
        lemma_unreleased(rest);
        assert forall|i: int| #[trigger] u.contains(i) <==> 0 <= i < artifacts.len() && !is_released(
            artifacts[i],
        ) by {
            if u.contains(i) {
                let k = choose|k: int| 0 <= k < u.len() && u[k] == i;
                if k < before.len() {
                    assert(before[k] == i);
                    assert(before.contains(i));
                }
            }
            if 0 <= i < artifacts.len() && !is_released(artifacts[i]) {
                if i < last {
                    assert(rest[i] == artifacts[i]);
                    assert(before.contains(i));
                    let k = choose|k: int| 0 <= k < before.len() && before[k] == i;
                    assert(u[k] == i);
                } else {
                    assert(u[before.len() as int] == i);
                }
            }
        }
        assert forall|j: int, k: int| 0 <= j < k < u.len() implies #[trigger] u[j]
            < #[trigger] u[k] by {
            assert(before[j] == u[j]);
            if k < before.len() {
                assert(before[k] == u[k]);
            } else {
                assert(before.contains(before[j]));
            }
        }
    }
}

/// An artifact is a released one of a reservation.
pub open spec fn releases(a: Artifact, id: u64) -> bool {
    is_released(a) && artifact_stamp(a) is Some && artifact_stamp(a)->0.id == id
}

proof fn lemma_released(artifacts: Seq<Artifact>, id: u64)
    ensures
        released_stamps(artifacts).contains_key(id) <==> exists|i: int|
            0 <= i < artifacts.len() && releases(#[trigger] artifacts[i], id),
        released_stamps(artifacts).contains_key(id) ==> exists|i: int|
            0 <= i < artifacts.len() && releases(#[trigger] artifacts[i], id) && artifact_stamp(
                artifacts[i],
            ) == Some(released_stamps(artifacts)[id]),
        forall|i: int|
            0 <= i < artifacts.len() && releases(#[trigger] artifacts[i], id) ==> artifact_stamp(
                artifacts[i],
            )->0.modified.is_at_or_before(released_stamps(artifacts)[id].modified),
    decreases artifacts.len(),
{
    if artifacts.len() > 0 {
        let rest = artifacts.drop_last();
        let last = artifacts.len() - 1;
        lemma_released(rest, id);
        let before = released_stamps(rest);
        let all = released_stamps(artifacts);
        if before.contains_key(id) {
            let i = choose|i: int|
                0 <= i < rest.len() && releases(#[trigger] rest[i], id) && artifact_stamp(rest[i])
                    == Some(before[id]);
            assert(artifacts[i] == rest[i]);
        }
        if releases(artifacts[last], id) {
            assert(all.contains_key(id));
        }
        if exists|i: int| 0 <= i < artifacts.len() && releases(#[trigger] artifacts[i], id) {
            let i = choose|i: int| 0 <= i < artifacts.len() && releases(#[trigger] artifacts[i], id);
            if i < last {
                assert(rest[i] == artifacts[i]);
            }
        }
        assert forall|i: int|
            0 <= i < artifacts.len() && releases(#[trigger] artifacts[i], id) implies artifact_stamp(
            artifacts[i],
        )->0.modified.is_at_or_before(all[id].modified) by {
            if i < last {
                assert(rest[i] == artifacts[i]);
            }
        }
    }
}

/// The scan of the archive keeps the places of the artifacts that are not
/// released, in order, and of each reservation that was released the newest
/// release.
pub proof fn law_what_a_scan_of_the_archive_keeps(
    artifacts: &Vec<Artifact>,
    i: usize,
    id: u64,
    r: ReservationArtifactScan,
)
    requires
        call_ensures(scan_reservation_artifacts, (artifacts,), r),
    ensures
        r.candidates@.contains(i) <==> i < artifacts@.len() && !is_released(artifacts@[i as int]),
        forall|j: int, k: int|
            0 <= j < k < r.candidates@.len() ==> #[trigger] r.candidates@[j]
                < #[trigger] r.candidates@[k],
        r.released_by_id@.contains_key(id) <==> exists|k: int|
            0 <= k < artifacts@.len() && releases(#[trigger] artifacts@[k], id),
        r.released_by_id@.contains_key(id) ==> forall|k: int|
            0 <= k < artifacts@.len() && releases(#[trigger] artifacts@[k], id) ==> artifact_stamp(
                artifacts@[k],
            )->0.modified.is_at_or_before(r.released_by_id@[id]@.modified),
        r.released_by_id@.contains_key(id) ==> exists|k: int|
            0 <= k < artifacts@.len() && releases(#[trigger] artifacts@[k], id) && artifact_stamp(
                artifacts@[k],
            ) == Some(r.released_by_id@[id]@),
{
    lemma_unreleased(artifacts@);
    lemma_released(artifacts@, id);
    let u = unreleased(artifacts@);
    let mapped = r.candidates@.map_values(|i: usize| i as int);
    assert(mapped == u);
    assert forall|k: int| 0 <= k < u.len() implies u[k] == #[trigger] r.candidates@[k] by {
        assert(mapped[k] == r.candidates@[k] as int);
    }
    if r.candidates@.contains(i) {
        let k = choose|k: int| 0 <= k < r.candidates@.len() && r.candidates@[k] == i;
        assert(u[k] == i);
        assert(u.contains(i as int));
    }
    if u.contains(i as int) {
        let k = choose|k: int| 0 <= k < u.len() && u[k] == i as int;
        assert(r.candidates@[k] == i);
    }
}

} // verus!
