//! Semantic versions of apis and interfaces, and the caret ("compatible
//! update") rule that the registry matches them by. Parsing, pre-release and
//! build-metadata ordering and the matching itself are done by the `semver`
//! crate.
use vstd::prelude::*;
use vstd::string::*;
use crate::path::{decimal, push_decimal};
use crate::text::string_push;

verus! {

/// A version as plain values: major, minor, patch, pre-release text and
/// build-metadata text.
pub type VersionView = (u64, u64, u64, Seq<char>, Seq<char>);

/// Whether `semver::Prerelease::new` accepts the text.
pub uninterp spec fn semver_pre_valid(s: Seq<char>) -> bool;

/// Whether `semver::BuildMetadata::new` accepts the text.
pub uninterp spec fn semver_build_valid(s: Seq<char>) -> bool;

/// `semver`'s precedence of pre-release texts: `a < b`.
pub uninterp spec fn semver_pre_lt(a: Seq<char>, b: Seq<char>) -> bool;

/// `semver`'s order of build-metadata texts: `a < b`.
pub uninterp spec fn semver_build_lt(a: Seq<char>, b: Seq<char>) -> bool;

/// What `semver::Version::parse` makes of a text, as plain values.
pub uninterp spec fn semver_parse(s: Seq<char>) -> Option<VersionView>;

/// Texts that `semver` accepts for the pre-release part; the empty text is the
/// empty pre-release.
pub open spec fn pre_ok(s: Seq<char>) -> bool {
    s.len() == 0 || semver_pre_valid(s)
}

/// Texts that `semver` accepts for the build-metadata part.
pub open spec fn build_ok(s: Seq<char>) -> bool {
    s.len() == 0 || semver_build_valid(s)
}

/// The order of `semver::Version`: by major, minor, patch, pre-release and
/// build metadata, in that order.
pub open spec fn version_lt(a: VersionView, b: VersionView) -> bool {
    ||| a.0 < b.0
    ||| a.0 == b.0 && a.1 < b.1
    ||| a.0 == b.0 && a.1 == b.1 && a.2 < b.2
    ||| a.0 == b.0 && a.1 == b.1 && a.2 == b.2 && a.3 != b.3 && semver_pre_lt(a.3, b.3)
    ||| a.0 == b.0 && a.1 == b.1 && a.2 == b.2 && a.3 == b.3 && a.4 != b.4 && semver_build_lt(
        a.4,
        b.4,
    )
}

/// `semver`'s caret comparator built from `req` (`^major.minor.patch-pre`)
/// matches `ver`:
/// - `^I.J.K` (I > 0) is `>=I.J.K, <(I+1).0.0`,
/// - `^0.J.K` (J > 0) is `>=0.J.K, <0.(J+1).0`,
/// - `^0.0.K` is `=0.0.K`,
/// where on the same major.minor.patch the pre-release must not precede the
/// requirement's (an equal one does not), and a version with a pre-release only matches a requirement
/// that has one on the same major.minor.patch. Build metadata is ignored.
pub open spec fn caret_matches(req: VersionView, ver: VersionView) -> bool {
    let same_triple = ver.0 == req.0 && ver.1 == req.1 && ver.2 == req.2;
    let pre_not_before = ver.3 == req.3 || !semver_pre_lt(ver.3, req.3);
    let in_range = if req.0 > 0 {
        ver.1 > req.1 || (ver.1 == req.1 && (ver.2 > req.2 || (ver.2 == req.2 && pre_not_before)))
    } else if req.1 > 0 {
        ver.1 == req.1 && (ver.2 > req.2 || (ver.2 == req.2 && pre_not_before))
    } else {
        ver.1 == req.1 && ver.2 == req.2 && pre_not_before
    };
    &&& ver.0 == req.0
    &&& in_range
    &&& (ver.3.len() == 0 || (same_triple && req.3.len() != 0))
}

/// The text of a version: `major.minor.patch[-pre][+build]`.
pub open spec fn version_text(v: VersionView) -> Seq<char> {
    let core = decimal(v.0 as nat) + seq!['.'] + decimal(v.1 as nat) + seq!['.'] + decimal(v.2 as nat);
    let with_pre = if v.3.len() > 0 { core + seq!['-'] + v.3 } else { core };
    if v.4.len() > 0 { with_pre + seq!['+'] + v.4 } else { with_pre }
}

/// A semantic version.
pub struct Version {
    major: u64,
    minor: u64,
    patch: u64,
    pre: String,
    build: String,
}

impl View for Version {
    type V = VersionView;

    closed spec fn view(&self) -> VersionView {
        (self.major, self.minor, self.patch, self.pre@, self.build@)
    }
}

impl Version {
    #[verifier::type_invariant]
    closed spec fn parts_ok(self) -> bool {
        pre_ok(self.pre@) && build_ok(self.build@)
    }

    /// The version `major.minor.patch`, without pre-release or build metadata.
    pub fn new(major: u64, minor: u64, patch: u64) -> (v: Version)
        ensures
            v@ == (major, minor, patch, Seq::<char>::empty(), Seq::<char>::empty()),
    {
        Version { major, minor, patch, pre: String::new(), build: String::new() }
    }

    /// Parses a semantic version (`semver::Version::parse`).
    pub fn parse(text: &str) -> (r: Option<Version>)
        ensures
            match r {
                Some(v) => semver_parse(text@) == Some(v@),
                None => semver_parse(text@) is None,
            },
    {
        match parse_semver(text) {
            Some((major, minor, patch, pre, build)) => Some(Version { major, minor, patch, pre, build }),
            None => None,
        }
    }

    pub fn major(&self) -> (r: u64)
        ensures
            r == self@.0,
    {
        self.major
    }

    pub fn minor(&self) -> (r: u64)
        ensures
            r == self@.1,
    {
        self.minor
    }

    pub fn patch(&self) -> (r: u64)
        ensures
            r == self@.2,
    {
        self.patch
    }

    /// The pre-release text.
    pub fn pre(&self) -> (r: &str)
        ensures
            r@ == self@.3,
    {
        self.pre.as_str()
    }

    /// The build-metadata text.
    pub fn build(&self) -> (r: &str)
        ensures
            r@ == self@.4,
    {
        self.build.as_str()
    }

    /// The version as text: `major.minor.patch`, then `-pre` and `+build`
    /// where they are not empty.
    pub fn to_text(&self) -> (r: String)
        ensures
            r@ == version_text(self@),
    {
        let mut s = String::new();
        push_decimal(&mut s, self.major);
        string_push(&mut s, '.');
        push_decimal(&mut s, self.minor);
        string_push(&mut s, '.');
        push_decimal(&mut s, self.patch);
        if self.pre.as_str().unicode_len() > 0 {
            string_push(&mut s, '-');
            s.append(self.pre.as_str());
        }
        if self.build.as_str().unicode_len() > 0 {
            string_push(&mut s, '+');
            s.append(self.build.as_str());
        }
        assert(s@ =~= version_text(self@));
        s
    }

    /// The same version with its build metadata replaced by `build`; `None`
    /// where `semver` does not accept `build` as build metadata.
    pub fn with_build(&self, build: &str) -> (r: Option<Version>)
        ensures
            match r {
                Some(v) => build_ok(build@) && v@ == (self@.0, self@.1, self@.2, self@.3, build@),
                None => !build_ok(build@),
            },
    {
        if build_metadata_accepted(build) {
            proof {
                use_type_invariant(self);
            }
            Some(Version {
                major: self.major,
                minor: self.minor,
                patch: self.patch,
                pre: self.pre.clone(),
                build: build.to_owned(),
            })
        } else {
            None
        }
    }

    /// A copy of the version.
    pub fn duplicate(&self) -> (r: Version)
        ensures
            r@ == self@,
    {
        proof {
            use_type_invariant(self);
        }
        Version {
            major: self.major,
            minor: self.minor,
            patch: self.patch,
            pre: self.pre.clone(),
            build: self.build.clone(),
        }
    }

    /// Whether both are the same version, build metadata included.
    pub fn same(&self, other: &Version) -> (r: bool)
        ensures
            r == (self@ == other@),
    {
        self.major == other.major && self.minor == other.minor && self.patch == other.patch
            && self.pre == other.pre && self.build == other.build
    }

    /// `self < other` in `semver`'s order.
    pub fn precedes(&self, other: &Version) -> (r: bool)
        ensures
            r == version_lt(self@, other@),
    {
        proof {
            use_type_invariant(self);
            use_type_invariant(other);
        }
        semver_version_lt(
            self.major,
            self.minor,
            self.patch,
            self.pre.as_str(),
            self.build.as_str(),
            other.major,
            other.minor,
            other.patch,
            other.pre.as_str(),
            other.build.as_str(),
        )
    }

    /// Whether the caret requirement `^self` matches `ver`.
    pub fn caret_accepts(&self, ver: &Version) -> (r: bool)
        ensures
            r == caret_matches(self@, ver@),
    {
        proof {
            use_type_invariant(self);
            use_type_invariant(ver);
        }
        semver_caret_matches(
            self.major,
            self.minor,
            self.patch,
            self.pre.as_str(),
            ver.major,
            ver.minor,
            ver.patch,
            ver.pre.as_str(),
            ver.build.as_str(),
        )
    }
}

/// Whether `semver` accepts `text` as build metadata (the empty text
/// included).
pub fn build_metadata_valid(text: &str) -> (r: bool)
    ensures
        r == build_ok(text@),
{
    build_metadata_accepted(text)
}

/// `semver::Version::parse`, with the parts of the result as plain values.
/// Claims that the result is the named parse of the text, and that its
/// pre-release and build texts are ones `semver` accepts again (they were
/// produced by its parser).
#[verifier::external_body]
fn parse_semver(text: &str) -> (r: Option<(u64, u64, u64, String, String)>)
    ensures
        match r {
            Some(p) => {
                &&& semver_parse(text@) == Some((p.0, p.1, p.2, p.3@, p.4@))
                &&& (p.3@.len() == 0 || semver_pre_valid(p.3@))
                &&& (p.4@.len() == 0 || semver_build_valid(p.4@))
            },
            None => semver_parse(text@) is None,
        },
{
    match semver::Version::parse(text) {
        Ok(v) => Some((v.major, v.minor, v.patch, v.pre.as_str().to_string(), v.build.as_str().to_string())),
        Err(_) => None,
    }
}

/// Whether `semver::BuildMetadata::new` accepts the text.
#[verifier::external_body]
fn build_metadata_accepted(text: &str) -> (r: bool)
    ensures
        r == (text@.len() == 0 || semver_build_valid(text@)),
{
    semver::BuildMetadata::new(text).is_ok()
}

/// `<` on `semver::Version` (its derived order: major, minor, patch,
/// pre-release, build metadata). Claims that result, with pre-release and
/// build-metadata comparison left to the names `semver_pre_lt` and
/// `semver_build_lt`. The texts must be ones `semver` accepts.
#[verifier::external_body]
fn semver_version_lt(
    a_major: u64,
    a_minor: u64,
    a_patch: u64,
    a_pre: &str,
    a_build: &str,
    b_major: u64,
    b_minor: u64,
    b_patch: u64,
    b_pre: &str,
    b_build: &str,
) -> (r: bool)
    requires
        pre_ok(a_pre@),
        build_ok(a_build@),
        pre_ok(b_pre@),
        build_ok(b_build@),
    ensures
        r == ({
            ||| a_major < b_major
            ||| a_major == b_major && a_minor < b_minor
            ||| a_major == b_major && a_minor == b_minor && a_patch < b_patch
            ||| a_major == b_major && a_minor == b_minor && a_patch == b_patch && a_pre@ != b_pre@
                && semver_pre_lt(a_pre@, b_pre@)
            ||| a_major == b_major && a_minor == b_minor && a_patch == b_patch && a_pre@ == b_pre@
                && a_build@ != b_build@ && semver_build_lt(a_build@, b_build@)
        }),
{
    let a = semver::Version {
        major: a_major,
        minor: a_minor,
        patch: a_patch,
        pre: semver::Prerelease::new(a_pre).unwrap(),
        build: semver::BuildMetadata::new(a_build).unwrap(),
    };
    let b = semver::Version {
        major: b_major,
        minor: b_minor,
        patch: b_patch,
        pre: semver::Prerelease::new(b_pre).unwrap(),
        build: semver::BuildMetadata::new(b_build).unwrap(),
    };
    a < b
}

/// `semver::Comparator::matches` for the caret comparator
/// `^req_major.req_minor.req_patch-req_pre`. Claims the caret rule as
/// `semver`'s source writes it (`caret_matches`), with pre-release
/// precedence left to the name `semver_pre_lt`; an equal pre-release passes
/// the `>=` test on it.
#[verifier::external_body]
fn semver_caret_matches(
    req_major: u64,
    req_minor: u64,
    req_patch: u64,
    req_pre: &str,
    major: u64,
    minor: u64,
    patch: u64,
    pre: &str,
    build: &str,
) -> (r: bool)
    requires
        pre_ok(req_pre@),
        pre_ok(pre@),
        build_ok(build@),
    ensures
        r == ({
            let pre_not_before = pre@ == req_pre@ || !semver_pre_lt(pre@, req_pre@);
            &&& major == req_major
            &&& if req_major > 0 {
                minor > req_minor || (minor == req_minor && (patch > req_patch || (patch
                    == req_patch && pre_not_before)))
            } else if req_minor > 0 {
                minor == req_minor && (patch > req_patch || (patch == req_patch && pre_not_before))
            } else {
                minor == req_minor && patch == req_patch && pre_not_before
            }
            &&& (pre@.len() == 0 || (minor == req_minor && patch == req_patch && req_pre@.len()
                != 0))
        }),
{
    let comparator = semver::Comparator {
        op: semver::Op::Caret,
        major: req_major,
        minor: Some(req_minor),
        patch: Some(req_patch),
        pre: semver::Prerelease::new(req_pre).unwrap(),
    };
    let version = semver::Version {
        major,
        minor,
        patch,
        pre: semver::Prerelease::new(pre).unwrap(),
        build: semver::BuildMetadata::new(build).unwrap(),
    };
    comparator.matches(&version)
}

/// Every version satisfies its own caret requirement.
pub proof fn law_caret_accepts_itself(v: VersionView)
    ensures
        caret_matches(v, v),
{
}

} // verus!
