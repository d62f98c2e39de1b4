use vstd::prelude::*;
use crate::error::{Error, ErrorKind};

verus! {

/// Major component of this compiler's own version.
pub const COMPILER_MAJOR: u64 = 0;
/// Minor component of this compiler's own version.
pub const COMPILER_MINOR: u64 = 2;
/// Patch component of this compiler's own version.
pub const COMPILER_PATCH: u64 = 11;

/// What `semver` makes of a requirement text and a version without
/// pre-release: `None` when the text is not a requirement, otherwise whether
/// the version satisfies it.
pub uninterp spec fn requirement_verdict(text: Seq<char>, major: u64, minor: u64, patch: u64) -> Option<bool>;

/// Decimal digits of a number, most significant first, without leading zeros.
pub open spec fn decimal(n: nat) -> Seq<char>
    decreases n,
{
    if n < 10 {
        seq![digit_char(n)]
    } else {
        decimal(n / 10) + seq![digit_char(n % 10)]
    }
}

pub open spec fn digit_char(d: nat) -> char {
    if d < 10 { (('0' as u32) + d) as char } else { '0' }
}

/// `major`, `major.minor` and `major.minor.patch` written as requirements.
pub open spec fn partial_version(parts: Seq<nat>) -> Seq<char>
    decreases parts.len(),
{
    if parts.len() <= 1 {
        if parts.len() == 0 { Seq::empty() } else { decimal(parts[0]) }
    } else {
        partial_version(parts.drop_last()) + seq!['.'] + decimal(parts.last())
    }
}

/// The requirement text `M`.
pub open spec fn text_m(a: nat) -> Seq<char> {
    partial_version(seq![a])
}

/// The requirement text `M.m`.
pub open spec fn text_mm(a: nat, c: nat) -> Seq<char> {
    partial_version(seq![a, c])
}

/// The requirement text `M.m.p`.
pub open spec fn text_mmp(a: nat, c: nat, d: nat) -> Seq<char> {
    partial_version(seq![a, c, d])
}

/// Caret rule for a bare `M`: the major must be `M`.
pub open spec fn caret_major(m0: nat, major: u64) -> bool {
    major == m0
}

/// Caret rule for `M.m`: the major must be `M`; the minor at least `m`, or
/// exactly `m` when `M` is zero.
pub open spec fn caret_minor(m0: nat, m1: nat, major: u64, minor: u64) -> bool {
    major == m0 && if m0 > 0 {
        minor >= m1
    } else {
        minor == m1
    }
}

/// Caret rule for `M.m.p`: the major must be `M`; then at least `m.p` when
/// `M` is positive, at least `p` within minor `m` when only `m` is positive,
/// and exactly `0.0.p` otherwise.
pub open spec fn caret_patch(m0: nat, m1: nat, m2: nat, major: u64, minor: u64, patch: u64) -> bool {
    major == m0 && if m0 > 0 {
        minor > m1 || (minor == m1 && patch >= m2)
    } else if m1 > 0 {
        minor == m1 && patch >= m2
    } else {
        minor == m1 && patch == m2
    }
}

/// The text is a bare `M`, `M.m` or `M.m.p` (each part fitting in `u64`)
/// whose caret rule the version meets (`b`) or fails (`!b`).
pub open spec fn caret_form(text: Seq<char>, major: u64, minor: u64, patch: u64, b: bool) -> bool {
    (exists|a: nat| a <= u64::MAX && text == text_m(a) && caret_major(a, major) == b)
        || (exists|a: nat, c: nat|
        a <= u64::MAX && c <= u64::MAX && text == text_mm(a, c) && caret_minor(
            a,
            c,
            major,
            minor,
        ) == b) || (exists|a: nat, c: nat, d: nat|
        a <= u64::MAX && c <= u64::MAX && d <= u64::MAX && text == text_mmp(a, c, d)
            && caret_patch(a, c, d, major, minor, patch) == b)
}

/// Relies on `semver::VersionReq::parse` and `semver::VersionReq::matches`
/// (with `semver::Version::new`): whether a requirement text admits a version.
/// A bare `M`, `M.m` or `M.m.p` without leading zeros parses to one comparator
/// with the default operator `^`, which `matches` checks by the caret rules
/// above (a version made by `Version::new` has no pre-release).
#[verifier::external_body]
fn requirement_admits(text: &str, major: u64, minor: u64, patch: u64) -> (r: Option<bool>)
    ensures
        r == requirement_verdict(text@, major, minor, patch),
        forall|a: nat|
            #![trigger text_m(a)]
            a <= u64::MAX && text@ == text_m(a) ==> r == Some(caret_major(a, major)),
        forall|a: nat, c: nat|
            #![trigger text_mm(a, c)]
            a <= u64::MAX && c <= u64::MAX && text@ == text_mm(a, c) ==> r == Some(
                caret_minor(a, c, major, minor),
            ),
        forall|a: nat, c: nat, d: nat|
            #![trigger text_mmp(a, c, d)]
            a <= u64::MAX && c <= u64::MAX && d <= u64::MAX && text@ == text_mmp(a, c, d)
                ==> r == Some(caret_patch(a, c, d, major, minor, patch)),
{
    match semver::VersionReq::parse(text) {
        Ok(req) => Some(req.matches(&semver::Version::new(major, minor, patch))),
        Err(_) => None,
    }
}

/// What a query's version requirement leads to, given `semver`'s verdict on it.
pub open spec fn version_outcome(verdict: Option<bool>) -> Result<(), ErrorKind> {
    match verdict {
        None => Err(ErrorKind::MalformedVersionString),
        Some(false) => Err(ErrorKind::UnsupportedVersion),
        Some(true) => Ok(()),
    }
}

/// Turns `semver`'s verdict on a requirement into the query's outcome.
pub fn judge_version(verdict: Option<bool>) -> (r: Result<(), Error>)
    ensures
        r.is_ok() == version_outcome(verdict).is_ok(),
        r matches Err(e) ==> version_outcome(verdict) == Err::<(), ErrorKind>(e.kind),
{
    match verdict {
        None => Err(Error::new(ErrorKind::MalformedVersionString)),
        Some(false) => Err(Error::new(ErrorKind::UnsupportedVersion)),
        Some(true) => Ok(()),
    }
}

/// The outcome of a query's requirement against this compiler's version.
pub open spec fn query_version_outcome(text: Seq<char>) -> Result<(), ErrorKind> {
    version_outcome(requirement_verdict(text, COMPILER_MAJOR, COMPILER_MINOR, COMPILER_PATCH))
}

/// The requirement names the version itself: `M`, `M.m` or `M.m.p`.
pub open spec fn names_version(text: Seq<char>, major: u64, minor: u64, patch: u64) -> bool {
    text == text_m(major as nat) || text == text_mm(major as nat, minor as nat) || text == text_mmp(
        major as nat,
        minor as nat,
        patch as nat,
    )
}

/// Checks a query's version requirement against a compiler version. A bare
/// `M`, `M.m` or `M.m.p` passes exactly when the version meets its caret
/// rule; so a requirement that names the version itself always passes, and a
/// bare major of another major version never does.
pub fn check_query_version(query_version: &str, major: u64, minor: u64, patch: u64) -> (r: Result<(), Error>)
    ensures
        caret_form(query_version@, major, minor, patch, true) ==> r is Ok,
        caret_form(query_version@, major, minor, patch, false) ==> (r matches Err(e) && e.kind
            == ErrorKind::UnsupportedVersion),
        names_version(query_version@, major, minor, patch) ==> r is Ok,
        (exists|k: nat| k != major && k <= u64::MAX && query_version@ == text_m(k)) ==> (r matches Err(e)
            && e.kind == ErrorKind::UnsupportedVersion),
        r.is_ok() == version_outcome(requirement_verdict(query_version@, major, minor, patch)).is_ok(),
        r matches Err(e) ==> version_outcome(requirement_verdict(query_version@, major, minor, patch))
            == Err::<(), ErrorKind>(e.kind),
{
    let verdict = requirement_admits(query_version, major, minor, patch);
    proof {
        if names_version(query_version@, major, minor, patch) {
            lemma_names_version_admitted(query_version@, major, minor, patch);
        }
    }
    judge_version(verdict)
}

/// A requirement naming the version itself meets its caret rule.
pub proof fn lemma_names_version_admitted(text: Seq<char>, major: u64, minor: u64, patch: u64)
    requires
        names_version(text, major, minor, patch),
    ensures
        caret_form(text, major, minor, patch, true),
{
    let (a, c, d) = (major as nat, minor as nat, patch as nat);
    if text == text_m(a) {
        assert(caret_major(a, major));
    } else if text == text_mm(a, c) {
        assert(caret_minor(a, c, major, minor));
    } else {
        assert(caret_patch(a, c, d, major, minor, patch));
    }
}

} // verus!
