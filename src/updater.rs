//! Decisions of the update check: when to look for a new release, and
//! whether the release found is newer.  Reading the clock, the network and
//! the settings file is left to the caller.
use vstd::prelude::*;

verus! {

/// How many hours pass between two update checks.
pub const CHECK_INTERVAL_HOURS: u64 = 24;

/// Whether a check is due at `now` (seconds since the Unix epoch), given the
/// time of the last one, if any is recorded.  A recorded time after `now`
/// makes a check due too.
pub open spec fn check_due(now: u64, last_checked: Option<u64>) -> bool {
    match last_checked {
        None => true,
        Some(l) => l > now || (now - l) / 3600 >= CHECK_INTERVAL_HOURS,
    }
}

/// Whether an update check is due.
pub fn should_check(now: u64, last_checked: Option<u64>) -> (r: bool)
    ensures
        r == check_due(now, last_checked),
{
    match last_checked {
        None => true,
        Some(l) => l > now || (now - l) / 3600 >= CHECK_INTERVAL_HOURS,
    }
}

/// `tag` without its leading `v` characters.
pub open spec fn strip_v(tag: Seq<char>) -> Seq<char>
    decreases tag.len(),
{
    if tag.len() > 0 && tag[0] == 'v' {
        strip_v(tag.drop_first())
    } else {
        tag
    }
}

/// The version number in a release tag such as `v1.0.2`.
pub fn version_of_tag(tag: &str) -> (r: String)
    ensures
        r@ == strip_v(tag@),
{
    let s = crate::text::chars_of(tag);
    let mut i: usize = 0;
    assert(s@.subrange(0, s.len() as int) =~= s@);
    while i < s.len() && s[i] == 'v'
        invariant
            s@ == tag@,
            i <= s.len(),
            strip_v(tag@) == strip_v(s@.subrange(i as int, s.len() as int)),
        decreases s.len() - i,
    {
        assert(s@.subrange(i as int, s.len() as int).drop_first() =~= s@.subrange(
            i + 1,
            s.len() as int,
        ));
        i = i + 1;
    }
    crate::text::string_of_range(&s, i, s.len())
}

/// Whether `semver::Version::parse` accepts `text`.
pub uninterp spec fn semver_parses(text: Seq<char>) -> bool;

/// Whether the version `latest` comes after the version `current` in
/// `semver::Version`'s order (major, minor, patch, pre-release, then build
/// metadata).
pub uninterp spec fn semver_newer(latest: Seq<char>, current: Seq<char>) -> bool;

/// Relies on `semver::Version::parse`, which reads a SemVer version and
/// refuses the empty string, and on the order of `semver::Version`: whether
/// `latest` comes after `current`, `None` where either does not parse.
#[verifier::external_body]
fn compare_versions(latest: &str, current: &str) -> (r: Option<bool>)
    ensures
        r is Some ==> semver_parses(latest@),
        r is Some ==> semver_parses(current@),
        semver_parses(latest@) ==> (semver_parses(current@) ==> r is Some),
        r is Some ==> r == Some(semver_newer(latest@, current@)),
        latest@.len() == 0 ==> r is None,
        current@.len() == 0 ==> r is None,
{
    match (semver::Version::parse(latest), semver::Version::parse(current)) {
        (Ok(l), Ok(c)) => Some(l > c),
        _ => None,
    }
}

/// Whether the release `latest` comes after the running version `current`;
/// `None` where either is no valid version.
pub fn update_available(current: &str, latest: &str) -> (r: Option<bool>)
    ensures
        r is Some <==> semver_parses(current@) && semver_parses(latest@),
        r is Some ==> r == Some(semver_newer(latest@, current@)),
{
    compare_versions(latest, current)
}

} // verus!
