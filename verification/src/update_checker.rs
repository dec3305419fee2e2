//! Checking for a newer release: version tags are parsed as semantic
//! versions (by the `semver` crate) and compared; the release data fetched
//! from GitHub is turned into what the interface shows.
use vstd::prelude::*;

use crate::error::{concat2, AppError};
use crate::roundtrip::lemma_trim_unchanged;
use crate::text::{chars_of, decimal, decimal_string, is_ws, slice_copy, string_of, trim, trim_bounds};

verus! {

/// The GitHub repository (`owner/repo`) whose releases are checked.
pub const GITHUB_REPO: &'static str = "lq920320/rs-alias-manager";

/// The base URL of the GitHub releases API.
pub const GITHUB_API_BASE: &'static str = "https://api.github.com/repos";

/// How long a request to the GitHub API may take, in seconds.
pub const REQUEST_TIMEOUT_SECS: u64 = 15;

/// A semantic version: three numbers, then an optional pre-release and
/// optional build metadata (empty when absent).
#[derive(Debug, Clone, PartialEq, Eq)]
pub struct Version {
    pub major: u64,
    pub minor: u64,
    pub patch: u64,
    pub pre: String,
    pub build: String,
}

/// The mathematical value of a [`Version`].
pub struct VersionView {
    pub major: u64,
    pub minor: u64,
    pub patch: u64,
    pub pre: Seq<char>,
    pub build: Seq<char>,
}

impl View for Version {
    type V = VersionView;

    open spec fn view(&self) -> VersionView {
        VersionView {
            major: self.major,
            minor: self.minor,
            patch: self.patch,
            pre: self.pre@,
            build: self.build@,
        }
    }
}

/// What `semver::Version::parse` gives for a text: the version, or the text
/// of its error.
pub uninterp spec fn semver_parse_result(text: Seq<char>) -> Result<VersionView, Seq<char>>;

/// How `semver` orders two pre-release texts: whether the first comes before
/// the second; `None` when either is not a valid pre-release.
pub uninterp spec fn prerelease_precedes(a: Seq<char>, b: Seq<char>) -> Option<bool>;

/// How `semver` orders two build-metadata texts: whether the first comes
/// before the second; `None` when either is not valid build metadata.
pub uninterp spec fn build_precedes(a: Seq<char>, b: Seq<char>) -> Option<bool>;

/// The view of a parse result.
pub open spec fn parse_view(r: Result<Version, String>) -> Result<VersionView, Seq<char>> {
    match r {
        Ok(v) => Ok(v@),
        Err(e) => Err(e@),
    }
}

/// Calls `semver::Version::parse` and hands back its fields as plain values,
/// or the text of its error. What it accepts is semver's grammar, named here
/// and not restated.
#[verifier::external_body]
fn semver_parse(text: &str) -> (r: Result<Version, String>)
    ensures
        parse_view(r) == semver_parse_result(text@),
{
    match semver::Version::parse(text) {
        Ok(v) => Ok(
            Version {
                major: v.major,
                minor: v.minor,
                patch: v.patch,
                pre: v.pre.as_str().to_string(),
                build: v.build.as_str().to_string(),
            },
        ),
        Err(e) => Err(e.to_string()),
    }
}

/// Builds two `semver::Prerelease` values from their texts and compares them
/// with semver's ordering; `None` when a text is not a valid pre-release.
#[verifier::external_body]
fn prerelease_less(a: &str, b: &str) -> (r: Option<bool>)
    ensures
        r == prerelease_precedes(a@, b@),
{
    match (semver::Prerelease::new(a), semver::Prerelease::new(b)) {
        (Ok(x), Ok(y)) => Some(x < y),
        _ => None,
    }
}

/// Builds two `semver::BuildMetadata` values from their texts and compares
/// them with semver's ordering; `None` when a text is not valid build
/// metadata.
#[verifier::external_body]
fn build_less(a: &str, b: &str) -> (r: Option<bool>)
    ensures
        r == build_precedes(a@, b@),
{
    match (semver::BuildMetadata::new(a), semver::BuildMetadata::new(b)) {
        (Ok(x), Ok(y)) => Some(x < y),
        _ => None,
    }
}

/// `s` without the copies of `c` at its start.
pub open spec fn strip_leading(s: Seq<char>, c: char) -> Seq<char>
    decreases s.len(),
{
    if s.len() > 0 && s[0] == c {
        strip_leading(s.drop_first(), c)
    } else {
        s
    }
}

/// A version tag made ready for parsing: trimmed, then its leading `v`s and
/// after them its leading `V`s removed.
pub open spec fn cleaned_tag(tag: Seq<char>) -> Seq<char> {
    strip_leading(strip_leading(trim(tag), 'v'), 'V')
}

/// The message of a tag that does not parse.
pub open spec fn parse_failure_message(tag: Seq<char>, err: Seq<char>) -> Seq<char> {
    "无法解析版本号 '"@ + tag + "': "@ + err
}

/// Whether `latest` comes strictly after `current`, given how the pre-release
/// texts and the build texts of the two compare (`pre_less`, `build_less`:
/// whether the current one comes first). Versions are ordered by major, minor
/// and patch number, then pre-release, then build metadata; a comparison that
/// could not be made counts as not newer.
pub open spec fn newer_given(
    current: VersionView,
    latest: VersionView,
    pre_less: Option<bool>,
    build_less: Option<bool>,
) -> bool {
    if latest.major != current.major {
        latest.major > current.major
    } else if latest.minor != current.minor {
        latest.minor > current.minor
    } else if latest.patch != current.patch {
        latest.patch > current.patch
    } else if latest.pre != current.pre {
        pre_less == Some(true)
    } else if latest.build != current.build {
        build_less == Some(true)
    } else {
        false
    }
}

/// Whether `latest` comes strictly after `current` in semver's order.
pub open spec fn newer(current: VersionView, latest: VersionView) -> bool {
    newer_given(
        current,
        latest,
        prerelease_precedes(current.pre, latest.pre),
        build_precedes(current.build, latest.build),
    )
}

/// The text of a version, as semver prints it: `major.minor.patch`, then
/// `-pre` and `+build` when they are not empty.
pub open spec fn version_text(v: VersionView) -> Seq<char> {
    let core = decimal(v.major as nat) + "."@ + decimal(v.minor as nat) + "."@ + decimal(
        v.patch as nat,
    );
    let with_pre = if v.pre.len() > 0 {
        core + "-"@ + v.pre
    } else {
        core
    };
    if v.build.len() > 0 {
        with_pre + "+"@ + v.build
    } else {
        with_pre
    }
}

impl Version {
    /// The version `major.minor.patch`, with no pre-release or build metadata.
    pub fn new(major: u64, minor: u64, patch: u64) -> (r: Version)
        ensures
            r@ == (VersionView { major, minor, patch, pre: Seq::empty(), build: Seq::empty() }),
    {
        Version { major, minor, patch, pre: String::new(), build: String::new() }
    }

    /// The text of this version: `major.minor.patch`, then `-pre` and `+build`
    /// when they are not empty.
    pub fn to_text(&self) -> (r: String)
        ensures
            r@ == version_text(self@),
    {
        let mut r = decimal_string(self.major);
        r.append(".");
        let minor = decimal_string(self.minor);
        r.append(minor.as_str());
        r.append(".");
        let patch = decimal_string(self.patch);
        r.append(patch.as_str());
        let pre = chars_of(self.pre.as_str());
        if pre.len() > 0 {
            r.append("-");
            r.append(self.pre.as_str());
        }
        let build = chars_of(self.build.as_str());
        if build.len() > 0 {
            r.append("+");
            r.append(self.build.as_str());
        }
        r
    }
}

/// `v[lo..]` without the copies of `c` at its start: the index where it
/// begins.
fn skip_leading(v: &[char], lo: usize, c: char) -> (e: usize)
    requires
        lo <= v@.len(),
    ensures
        lo <= e <= v@.len(),
        v@.subrange(e as int, v@.len() as int) == strip_leading(
            v@.subrange(lo as int, v@.len() as int),
            c,
        ),
{
    let mut e = lo;
    while e < v.len() && v[e] == c
        invariant
            lo <= e <= v@.len(),
            strip_leading(v@.subrange(e as int, v@.len() as int), c) == strip_leading(
                v@.subrange(lo as int, v@.len() as int),
                c,
            ),
        decreases v@.len() - e,
    {
        assert(v@.subrange(e as int, v@.len() as int).drop_first() =~= v@.subrange(
            e + 1,
            v@.len() as int,
        ));
        e = e + 1;
    }
    e
}

/// The tag made ready for parsing: trimmed, leading `v`s then leading `V`s
/// removed.
pub fn clean_tag(tag: &str) -> (r: String)
    ensures
        r@ == cleaned_tag(tag@),
{
    let v = chars_of(tag);
    let (a, b) = trim_bounds(&v);
    let t = slice_copy(&v, a, b);
    assert(t@.subrange(0, t@.len() as int) =~= t@);
    let e1 = skip_leading(&t, 0, 'v');
    let e2 = skip_leading(&t, e1, 'V');
    string_of(&slice_copy(&t, e2, t.len()))
}

/// The outcome of parsing a tag, given what semver made of the cleaned tag:
/// the version, or a parse error that names the tag and semver's reason.
pub fn version_from_parse(tag: &str, parsed: Result<Version, String>) -> (r: Result<
    Version,
    AppError,
>)
    ensures
        match parsed {
            Ok(v) => r matches Ok(w) && w@ == v@,
            Err(e) => r matches Err(AppError::ParseError(m)) && m@ == parse_failure_message(
                tag@,
                e@,
            ),
        },
{
    match parsed {
        Ok(v) => Ok(v),
        Err(e) => {
            let mut m = concat2("无法解析版本号 '", tag);
            m.append("': ");
            m.append(e.as_str());
            Err(AppError::ParseError(m))
        },
    }
}

/// Parses a version tag: surrounding white space and a leading `v` or `V`
/// are removed, the rest is parsed by semver. A tag that semver rejects is a
/// parse error naming the tag and semver's reason.
pub fn parse_version(tag: &str) -> (r: Result<Version, AppError>)
    ensures
        match semver_parse_result(cleaned_tag(tag@)) {
            Ok(v) => r matches Ok(w) && w@ == v,
            Err(e) => r matches Err(AppError::ParseError(m)) && m@ == parse_failure_message(
                tag@,
                e,
            ),
        },
{
    let cleaned = clean_tag(tag);
    version_from_parse(tag, semver_parse(cleaned.as_str()))
}

/// Whether `latest` comes strictly after `current`, given how their
/// pre-release texts and build texts compare.
pub fn is_newer_given(
    current: &Version,
    latest: &Version,
    pre_less: Option<bool>,
    build_less: Option<bool>,
) -> (r: bool)
    ensures
        r == newer_given(current@, latest@, pre_less, build_less),
{
    if latest.major != current.major {
        latest.major > current.major
    } else if latest.minor != current.minor {
        latest.minor > current.minor
    } else if latest.patch != current.patch {
        latest.patch > current.patch
    } else if !crate::text::chars_eq(
        &chars_of(latest.pre.as_str()),
        &chars_of(current.pre.as_str()),
    ) {
        pre_less == Some(true)
    } else if !crate::text::chars_eq(
        &chars_of(latest.build.as_str()),
        &chars_of(current.build.as_str()),
    ) {
        build_less == Some(true)
    } else {
        false
    }
}

/// Whether `latest` is strictly newer than `current` in semver's order.
pub fn is_newer(current: &Version, latest: &Version) -> (r: bool)
    ensures
        r == newer(current@, latest@),
{
    let pre = prerelease_less(current.pre.as_str(), latest.pre.as_str());
    let build = build_less(current.build.as_str(), latest.build.as_str());
    is_newer_given(current, latest, pre, build)
}

/// The result of an update check.
#[derive(Debug, Clone, PartialEq, Eq)]
pub struct UpdateInfo {
    /// The running version.
    pub current_version: String,
    /// The latest released version.
    pub latest_version: String,
    /// Whether the latest release is newer than the running version.
    pub has_update: bool,
    /// The page of the release.
    pub release_url: String,
    /// The release notes, when they are not blank.
    pub release_notes: Option<String>,
    /// When the release was published (ISO 8601).
    pub published_at: Option<String>,
}

/// The fields of a GitHub release that an update check reads.
#[derive(Debug, Clone, PartialEq, Eq)]
pub struct GitHubRelease {
    /// The version tag, such as `v0.2.0`.
    pub tag_name: String,
    /// The page of the release.
    pub html_url: String,
    /// The release notes.
    pub body: Option<String>,
    /// When the release was published.
    pub published_at: Option<String>,
}

/// The view of an optional string.
pub open spec fn opt_text(o: Option<String>) -> Option<Seq<char>> {
    match o {
        Some(s) => Some(s@),
        None => None,
    }
}

/// Release notes are kept only when they hold more than white space.
pub open spec fn kept_notes(body: Option<Seq<char>>) -> Option<Seq<char>> {
    match body {
        Some(b) => if trim(b).len() > 0 {
            Some(b)
        } else {
            None
        },
        None => None,
    }
}

/// The address of the latest release of the repository.
pub fn latest_release_url() -> (r: String)
    ensures
        r@ == GITHUB_API_BASE@ + "/"@ + GITHUB_REPO@ + "/releases/latest"@,
{
    let mut r = concat2(GITHUB_API_BASE, "/");
    r.append(GITHUB_REPO);
    r.append("/releases/latest");
    r
}

/// The error for a request to the GitHub API that failed.
pub fn request_failed(reason: &str) -> (r: AppError)
    ensures
        r matches AppError::NetworkError(m) && m@ == "GitHub API 请求失败: "@ + reason@,
{
    AppError::NetworkError(concat2("GitHub API 请求失败: ", reason))
}

/// The error for a GitHub response that could not be read.
pub fn response_unreadable(reason: &str) -> (r: AppError)
    ensures
        r matches AppError::NetworkError(m) && m@ == "解析 GitHub 响应失败: "@ + reason@,
{
    AppError::NetworkError(concat2("解析 GitHub 响应失败: ", reason))
}

/// What an update check reports, given the running version and the latest
/// release: both versions are parsed (the running one first; a tag that does
/// not parse is a parse error), printed in semver's form and compared; blank
/// release notes are dropped.
pub fn update_info_for(current_version: &str, release: GitHubRelease) -> (r: Result<
    UpdateInfo,
    AppError,
>)
    ensures
        match semver_parse_result(cleaned_tag(current_version@)) {
            Err(e) => r matches Err(AppError::ParseError(m)) && m@ == parse_failure_message(
                current_version@,
                e,
            ),
            Ok(c) => match semver_parse_result(cleaned_tag(release.tag_name@)) {
                Err(e) => r matches Err(AppError::ParseError(m)) && m@ == parse_failure_message(
                    release.tag_name@,
                    e,
                ),
                Ok(l) => r matches Ok(info) && {
                    &&& info.current_version@ == version_text(c)
                    &&& info.latest_version@ == version_text(l)
                    &&& info.has_update == newer(c, l)
                    &&& info.release_url@ == release.html_url@
                    &&& opt_text(info.release_notes) == kept_notes(opt_text(release.body))
                    &&& opt_text(info.published_at) == opt_text(release.published_at)
                },
            },
        },
{
    let current = match parse_version(current_version) {
        Ok(v) => v,
        Err(e) => {
            return Err(e);
        },
    };
    let latest = match parse_version(release.tag_name.as_str()) {
        Ok(v) => v,
        Err(e) => {
            return Err(e);
        },
    };
    let has_update = is_newer(&current, &latest);
    let notes = match release.body {
        Some(b) => {
            let bc = chars_of(b.as_str());
            let (lo, hi) = trim_bounds(&bc);
            if lo < hi {
                Some(b)
            } else {
                None
            }
        },
        None => None,
    };
    Ok(
        UpdateInfo {
            current_version: current.to_text(),
            latest_version: latest.to_text(),
            has_update,
            release_url: release.html_url,
            release_notes: notes,
            published_at: release.published_at,
        },
    )
}

/// No version is newer than itself.
pub proof fn lemma_not_newer_than_itself(v: VersionView)
    ensures
        !newer(v, v),
{
}

/// The tag law: a tag that starts with a digit and has no blank at its end
/// is parsed as it is, and a `v` or `V` before it is dropped.
pub proof fn lemma_tag_prefix(s: Seq<char>)
    requires
        s.len() > 0,
        '0' <= s[0] <= '9',
        !is_ws(s.last()),
    ensures
        cleaned_tag(s) == s,
        cleaned_tag(seq!['v'] + s) == s,
        cleaned_tag(seq!['V'] + s) == s,
{
    lemma_trim_unchanged(s);
    let sv = seq!['v'] + s;
    let sw = seq!['V'] + s;
    assert(sv[0] == 'v' && sv.last() == s.last());
    assert(sw[0] == 'V' && sw.last() == s.last());
    lemma_trim_unchanged(sv);
    lemma_trim_unchanged(sw);
    assert(sv.drop_first() =~= s);
    assert(sw.drop_first() =~= s);
    assert(strip_leading(sv, 'v') == strip_leading(s, 'v'));
    assert(strip_leading(sw, 'v') == sw);
    assert(strip_leading(sw, 'V') == strip_leading(s, 'V'));
}

/// Versions whose numbers differ are ordered by their numbers alone, whatever
/// their pre-release and build metadata: one is newer than the other, and not
/// the other way round.
pub proof fn lemma_numbers_decide(a: VersionView, b: VersionView)
    requires
        (a.major, a.minor, a.patch) != (b.major, b.minor, b.patch),
    ensures
        newer(a, b) != newer(b, a),
        newer(a, b) <==> (b.major > a.major || (b.major == a.major && b.minor > a.minor) || (
        b.major == a.major && b.minor == a.minor && b.patch > a.patch)),
{
}

} // verus!
