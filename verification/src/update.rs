//! Release-check logic: semantic version comparison, the check-interval
//! rule, and the update summary built from a fetched release. The network
//! and disk sides live with the caller; everything here is computation on
//! plain values.

use vstd::prelude::*;
use vstd::string::StrSliceExecFns;
use vstd::string::StringExecFns;

verus! {

/// Hours that must pass between two automatic update checks.
pub const CHECK_INTERVAL_HOURS: u64 = 24;

/// What an update check found: the two versions, whether the fetched one
/// is newer, and the release's metadata.
#[derive(Debug, Clone)]
pub struct UpdateInfo {
    pub current_version: String,
    pub latest_version: String,
    pub has_update: bool,
    pub release_url: String,
    pub release_notes: String,
    pub published_at: String,
}

/// The persisted update-check settings: whether automatic checks are on,
/// and when the last check ran (seconds since the Unix epoch).
#[derive(Debug, Clone)]
pub struct UpdateSettings {
    pub auto_check: bool,
    pub last_check_time: u64,
}

impl Default for UpdateSettings {
    /// Automatic checks start enabled, with no check on record.
    fn default() -> (s: Self)
        ensures
            s.auto_check == true,
            s.last_check_time == 0,
    {
        Self { auto_check: true, last_check_time: 0 }
    }
}

pub open spec fn spec_is_digit(c: char) -> bool {
    48 <= c as u32 <= 57
}

pub open spec fn spec_digit_val(c: char) -> nat {
    (c as u32 - 48) as nat
}

/// The numeric value of a digit sequence, most significant digit first.
pub open spec fn digits_val(s: Seq<char>) -> nat
    decreases s.len(),
{
    if s.len() == 0 {
        0
    } else {
        digits_val(s.drop_last()) * 10 + spec_digit_val(s.last())
    }
}

/// A version segment may carry one leading `'+'`, as the integer parser of
/// std accepts; the rest is the segment's body.
pub open spec fn seg_body(s: Seq<char>) -> Seq<char> {
    if s.len() > 0 && s[0] == '+' {
        s.skip(1)
    } else {
        s
    }
}

/// How one dot-separated segment parses: a non-empty all-digit body whose
/// value fits in a `u32` yields that value; anything else is dropped.
pub open spec fn parse_segment(s: Seq<char>) -> Option<u32> {
    let body = seg_body(s);
    if body.len() > 0 && (forall|i: int| 0 <= i < body.len() ==> spec_is_digit(body[i]))
        && digits_val(body) <= u32::MAX {
        Option::Some(digits_val(body) as u32)
    } else {
        Option::None
    }
}

/// The dot-separated segments of a version string; an empty string is one
/// empty segment, and every dot separates two segments.
pub open spec fn split_dots(s: Seq<char>) -> Seq<Seq<char>>
    decreases s.len(),
{
    if s.len() == 0 {
        seq![s]
    } else if s[0] == '.' {
        seq![Seq::<char>::empty()] + split_dots(s.skip(1))
    } else {
        let rest = split_dots(s.skip(1));
        seq![seq![s[0]] + rest[0]] + rest.skip(1)
    }
}

/// The parsed values of a segment list, unparsable segments dropped.
pub open spec fn seg_values(segs: Seq<Seq<char>>) -> Seq<u32>
    decreases segs.len(),
{
    if segs.len() == 0 {
        Seq::empty()
    } else {
        match parse_segment(segs[0]) {
            Option::Some(v) => seq![v] + seg_values(segs.skip(1)),
            Option::None => seg_values(segs.skip(1)),
        }
    }
}

/// The numeric parts of a version string: its dot-separated segments,
/// parsed, with unparsable segments dropped.
pub open spec fn version_parts(s: Seq<char>) -> Seq<u32> {
    seg_values(split_dots(s))
}

/// A part list read at `i`, padded with zeros past its end.
pub open spec fn part_at(v: Seq<u32>, i: int) -> u32 {
    if 0 <= i < v.len() {
        v[i]
    } else {
        0u32
    }
}

pub open spec fn part_count(a: Seq<u32>, b: Seq<u32>) -> int {
    if a.len() >= b.len() {
        a.len() as int
    } else {
        b.len() as int
    }
}

/// Lexicographic order on part lists, zero-padded to a common length:
/// `latest` is newer exactly when the first differing part is larger.
pub open spec fn version_newer(latest: Seq<u32>, current: Seq<u32>) -> bool {
    exists|i: int|
        0 <= i < part_count(latest, current) && (forall|j: int|
            0 <= j < i ==> part_at(latest, j) == part_at(current, j)) && #[trigger] part_at(
            latest,
            i,
        ) > part_at(current, i)
}

/// A version tag with every leading `'v'` removed.
pub open spec fn strip_v_prefix(s: Seq<char>) -> Seq<char>
    decreases s.len(),
{
    if s.len() > 0 && s[0] == 'v' {
        strip_v_prefix(s.skip(1))
    } else {
        s
    }
}

/// An automatic check is due when it is enabled and at least
/// [`CHECK_INTERVAL_HOURS`] whole hours have passed since the last one.
pub open spec fn spec_should_check(settings: UpdateSettings, now: u64) -> bool {
    settings.auto_check && now >= settings.last_check_time && (now
        - settings.last_check_time) / 3600 >= CHECK_INTERVAL_HOURS
}

proof fn lemma_digits_val_take_le(s: Seq<char>, j: int)
    requires
        0 <= j <= s.len(),
    ensures
        digits_val(s.take(j)) <= digits_val(s),
    decreases s.len(),
{
    if j == s.len() {
        assert(s.take(j) =~= s);
    } else {
        lemma_digits_val_take_le(s.drop_last(), j);
        assert(s.drop_last().take(j) =~= s.take(j));
    }
}

proof fn lemma_split_dots_len(s: Seq<char>)
    ensures
        split_dots(s).len() >= 1,
    decreases s.len(),
{
    if s.len() == 0 {
    } else if s[0] == '.' {
        lemma_split_dots_len(s.skip(1));
    } else {
        lemma_split_dots_len(s.skip(1));
    }
}

/// Where the first dot sits decides the split: no dot leaves the string as
/// the single segment; a first dot at `i` cuts the head segment off there.
proof fn lemma_split_dots_at(s: Seq<char>, i: int)
    requires
        0 <= i <= s.len(),
        forall|j: int| 0 <= j < i ==> s[j] != '.',
        i < s.len() ==> s[i] == '.',
    ensures
        i == s.len() ==> split_dots(s) == seq![s],
        i < s.len() ==> split_dots(s) == seq![s.take(i)] + split_dots(s.skip(i + 1)),
    decreases s.len(),
{
    if s.len() == 0 {
    } else if s[0] == '.' {
        assert(i == 0);
        assert(s.take(0) =~= Seq::<char>::empty());
        assert(s.skip(1) == s.skip(i + 1));
    } else {
        assert(i >= 1) by {
            if i == 0 {
                assert(s[0] == '.');
            }
        }
        let tail = s.skip(1);
        lemma_split_dots_len(tail);
        lemma_split_dots_at(tail, i - 1);
        let rest = split_dots(tail);
        if i == s.len() {
            assert(rest == seq![tail]);
            assert(rest[0] == tail);
            assert(seq![s[0]] + tail =~= s);
            assert(rest.skip(1) =~= Seq::<Seq<char>>::empty());
            assert(split_dots(s) == seq![seq![s[0]] + rest[0]] + rest.skip(1));
            assert(seq![s] + Seq::<Seq<char>>::empty() =~= seq![s]);
        } else {
            assert(rest == seq![tail.take(i - 1)] + split_dots(tail.skip(i)));
            assert(rest[0] == tail.take(i - 1));
            assert(seq![s[0]] + tail.take(i - 1) =~= s.take(i));
            assert(tail.skip(i) =~= s.skip(i + 1));
            assert(rest.skip(1) =~= split_dots(tail.skip(i)));
            assert(split_dots(s) == seq![seq![s[0]] + rest[0]] + rest.skip(1));
            assert(seq![s.take(i)] + split_dots(s.skip(i + 1)) =~= seq![seq![s[0]] + rest[0]]
                + rest.skip(1));
        }
    }
}

proof fn lemma_strip_v_at(s: Seq<char>, i: int)
    requires
        0 <= i <= s.len(),
        forall|j: int| 0 <= j < i ==> s[j] == 'v',
        i < s.len() ==> s[i] != 'v',
    ensures
        strip_v_prefix(s) == s.skip(i),
    decreases i,
{
    if i == 0 {
        assert(s.skip(0) =~= s);
    } else {
        lemma_strip_v_at(s.skip(1), i - 1);
        assert(s.skip(1).skip(i - 1) =~= s.skip(i));
    }
}

/// Parses one dot-separated segment exactly as [`parse_segment`] says.
fn parse_segment_exec(s: &str) -> (r: Option<u32>)
    ensures
        r == parse_segment(s@),
{
    let len = s.unicode_len();
    let start: usize = if len > 0 && s.get_char(0) == '+' {
        1
    } else {
        0
    };
    let ghost body = seg_body(s@);
    proof {
        assert(body =~= s@.subrange(start as int, len as int));
    }
    if start >= len {
        return Option::None;
    }
    let mut acc: u64 = 0;
    let mut i: usize = start;
    proof {
        assert(s@.subrange(start as int, start as int) =~= Seq::<char>::empty());
    }
    while i < len
        invariant
            start <= i <= len,
            len as nat == s@.len(),
            body == seg_body(s@),
            body == s@.subrange(start as int, len as int),
            acc as nat == digits_val(s@.subrange(start as int, i as int)),
            acc <= u32::MAX as u64,
            forall|j: int| start <= j < i ==> spec_is_digit(s@[j]),
        decreases len - i,
    {
        let c = s.get_char(i);
        let u: u32 = c as u32;
        if !(48 <= u && u <= 57) {
            proof {
                assert(body[i - start] == s@[i as int]);
                assert(!spec_is_digit(body[i - start]));
            }
            return Option::None;
        }
        let acc2: u64 = acc * 10 + ((u - 48) as u64);
        proof {
            let pre = s@.subrange(start as int, i as int);
            let ext = s@.subrange(start as int, i + 1 as int);
            assert(ext.drop_last() =~= pre);
            assert(ext.last() == s@[i as int]);
            assert(acc2 as nat == digits_val(ext));
        }
        if acc2 > 4294967295u64 {
            proof {
                lemma_digits_val_take_le(body, i + 1 - start);
                assert(body.take(i + 1 - start) =~= s@.subrange(start as int, i + 1 as int));
                assert(digits_val(body) > u32::MAX);
            }
            return Option::None;
        }
        acc = acc2;
        i = i + 1;
    }
    proof {
        assert(s@.subrange(start as int, len as int) =~= body);
        assert(forall|k: int|
            0 <= k < body.len() ==> spec_is_digit(#[trigger] body[k]) && body[k] == s@[
            k + start]);
    }
    Option::Some(acc as u32)
}

/// Appends the parsed parts of `s` to `parts`, segment by segment.
fn parse_version_rec(s: &str, parts: &mut Vec<u32>)
    ensures
        final(parts)@ == old(parts)@ + version_parts(s@),
    decreases s@.len(),
{
    let len = s.unicode_len();
    let mut i: usize = 0;
    while i < len && s.get_char(i) != '.'
        invariant
            i <= len,
            len as nat == s@.len(),
            forall|j: int| 0 <= j < i ==> s@[j] != '.',
        decreases len - i,
    {
        i = i + 1;
    }
    let seg = s.substring_char(0, i);
    proof {
        assert(seg@ =~= s@.take(i as int));
        lemma_split_dots_at(s@, i as int);
    }
    let parsed = parse_segment_exec(seg);
    match parsed {
        Option::Some(v) => parts.push(v),
        Option::None => {},
    }
    if i < len {
        let rest = s.substring_char(i + 1, len);
        proof {
            assert(rest@ =~= s@.skip(i + 1));
        }
        let ghost mid = parts@;
        parse_version_rec(rest, parts);
        proof {
            let segs = seq![s@.take(i as int)] + split_dots(s@.skip(i + 1));
            assert(split_dots(s@) == segs);
            assert(segs[0] == s@.take(i as int));
            assert(segs.skip(1) =~= split_dots(s@.skip(i + 1)));
            assert(parts@ =~= old(parts)@ + version_parts(s@));
        }
    } else {
        proof {
            let segs = seq![s@];
            assert(split_dots(s@) == segs);
            assert(segs[0] == s@);
            assert(seg@ =~= s@);
            assert(segs.skip(1) =~= Seq::<Seq<char>>::empty());
            assert(seg_values(segs.skip(1)) == Seq::<u32>::empty());
            assert(parts@ =~= old(parts)@ + version_parts(s@));
        }
    }
}

/// Decides whether `latest` names a newer version than `current`: the
/// dot-separated numeric parts are compared left to right, the shorter
/// list padded with zeros, and segments that do not parse as numbers are
/// skipped.
pub fn compare_versions(latest: &str, current: &str) -> (r: bool)
    ensures
        r == version_newer(version_parts(latest@), version_parts(current@)),
{
    let mut lp: Vec<u32> = Vec::new();
    parse_version_rec(latest, &mut lp);
    let mut cp: Vec<u32> = Vec::new();
    parse_version_rec(current, &mut cp);
    proof {
        assert(lp@ =~= version_parts(latest@));
        assert(cp@ =~= version_parts(current@));
    }
    let n = if lp.len() >= cp.len() {
        lp.len()
    } else {
        cp.len()
    };
    let mut i: usize = 0;
    while i < n
        invariant
            i <= n,
            n == part_count(lp@, cp@),
            lp@ == version_parts(latest@),
            cp@ == version_parts(current@),
            forall|j: int| 0 <= j < i ==> part_at(lp@, j) == part_at(cp@, j),
        decreases n - i,
    {
        let a = if i < lp.len() {
            lp[i]
        } else {
            0
        };
        let b = if i < cp.len() {
            cp[i]
        } else {
            0
        };
        proof {
            assert(a == part_at(lp@, i as int));
            assert(b == part_at(cp@, i as int));
        }
        if a > b {
            return true;
        }
        if a < b {
            proof {
                assert forall|k: int|
                    0 <= k < part_count(lp@, cp@) && (forall|j: int|
                        0 <= j < k ==> part_at(lp@, j) == part_at(cp@, j)) implies !(#[trigger] part_at(
                    lp@,
                    k,
                ) > part_at(cp@, k)) by {
                    if k > i {
                        assert(part_at(lp@, i as int) == part_at(cp@, i as int));
                    }
                }
            }
            return false;
        }
        i = i + 1;
    }
    proof {
        assert forall|k: int|
            0 <= k < part_count(lp@, cp@) && (forall|j: int|
                0 <= j < k ==> part_at(lp@, j) == part_at(cp@, j)) implies !(#[trigger] part_at(
            lp@,
            k,
        ) > part_at(cp@, k)) by {
            assert(part_at(lp@, k) == part_at(cp@, k));
        }
    }
    false
}

/// Removes every leading `'v'` from a release tag.
fn strip_v(s: &str) -> (r: String)
    ensures
        r@ == strip_v_prefix(s@),
{
    let len = s.unicode_len();
    let mut i: usize = 0;
    while i < len && s.get_char(i) == 'v'
        invariant
            i <= len,
            len as nat == s@.len(),
            forall|j: int| 0 <= j < i ==> s@[j] == 'v',
        decreases len - i,
    {
        i = i + 1;
    }
    let rest = s.substring_char(i, len);
    proof {
        lemma_strip_v_at(s@, i as int);
        assert(rest@ =~= s@.skip(i as int));
    }
    String::from_str(rest)
}

/// Builds the update summary for a fetched release: the tag loses its
/// `'v'` prefix, and `has_update` holds exactly when the fetched version
/// is newer than the running one.
pub fn build_update_info(
    current_version: &str,
    tag_name: &str,
    release_url: &str,
    release_notes: &str,
    published_at: &str,
) -> (info: UpdateInfo)
    ensures
        info.current_version@ == current_version@,
        info.latest_version@ == strip_v_prefix(tag_name@),
        info.has_update == version_newer(
            version_parts(strip_v_prefix(tag_name@)),
            version_parts(current_version@),
        ),
        info.release_url@ == release_url@,
        info.release_notes@ == release_notes@,
        info.published_at@ == published_at@,
{
    let latest_version = strip_v(tag_name);
    let has_update = compare_versions(latest_version.as_str(), current_version);
    UpdateInfo {
        current_version: String::from_str(current_version),
        latest_version,
        has_update,
        release_url: String::from_str(release_url),
        release_notes: String::from_str(release_notes),
        published_at: String::from_str(published_at),
    }
}

/// Relies on `std::time::SystemTime::now`, `SystemTime::duration_since`
/// and `Duration::as_secs` of std: whole seconds of the system clock since
/// the Unix epoch, or 0 when the clock reads before the epoch. Nothing is
/// assumed of the value.
#[verifier::external_body]
fn now_unix_secs() -> u64 {
    match std::time::SystemTime::now().duration_since(std::time::UNIX_EPOCH) {
        Ok(d) => d.as_secs(),
        Err(_) => 0,
    }
}

/// Decides the check-interval rule against a given clock reading.
pub fn should_check_given(settings: &UpdateSettings, now: u64) -> (r: bool)
    ensures
        r == spec_should_check(*settings, now),
{
    if !settings.auto_check {
        return false;
    }
    if now < settings.last_check_time {
        return false;
    }
    let elapsed_hours = (now - settings.last_check_time) / 3600;
    elapsed_hours >= CHECK_INTERVAL_HOURS
}

/// Reads the clock and decides whether an automatic check is due. A clock
/// reading behind the recorded last check counts as no time elapsed.
pub fn should_check_for_updates(settings: &UpdateSettings) -> (r: bool)
    ensures
        exists|now: u64| r == spec_should_check(*settings, now),
        !settings.auto_check ==> !r,
{
    let now = now_unix_secs();
    let r = should_check_given(settings, now);
    proof {
        assert(r == spec_should_check(*settings, now));
    }
    r
}

/// The settings as they stand after a check at clock reading `now`.
pub open spec fn spec_stamped(settings: UpdateSettings, now: u64) -> UpdateSettings {
    UpdateSettings { auto_check: settings.auto_check, last_check_time: now }
}

/// Records a given clock reading as the time of the last check; the
/// auto-check switch is left as it was.
pub fn set_last_check(settings: &mut UpdateSettings, now: u64)
    ensures
        *final(settings) == spec_stamped(*old(settings), now),
        final(settings).last_check_time == now,
        final(settings).auto_check == old(settings).auto_check,
{
    settings.last_check_time = now;
}

/// Stamps the settings with the clock's current reading: the result is
/// [`spec_stamped`] at whatever the clock read, so only `last_check_time`
/// moves and the auto-check switch is left as it was.
pub fn update_last_check_time(settings: &mut UpdateSettings)
    ensures
        exists|now: u64| *final(settings) == spec_stamped(*old(settings), now),
        final(settings).auto_check == old(settings).auto_check,
{
    let now = now_unix_secs();
    set_last_check(settings, now);
    proof {
        assert(*settings == spec_stamped(*old(settings), now));
    }
}

} // verus!
