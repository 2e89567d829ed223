//! Which of several installed versions a pin stands for.

use vstd::prelude::*;

use crate::order::{chars_lt, str_before};
use crate::text::{chars_of, listed, starts, string_of, strip_prefix};

verus! {

/// A semantic version.
#[derive(Clone, Debug, PartialEq, Eq)]
pub struct SemVersion {
    pub major: u64,
    pub minor: u64,
    pub patch: u64,
    pub pre: String,
    pub build: String,
}

/// A semantic version, as a value.
#[verifier::ext_equal]
pub struct SemVersionView {
    pub major: u64,
    pub minor: u64,
    pub patch: u64,
    pub pre: Seq<char>,
    pub build: Seq<char>,
}

impl View for SemVersion {
    type V = SemVersionView;

    open spec fn view(&self) -> SemVersionView {
        SemVersionView {
            major: self.major,
            minor: self.minor,
            patch: self.patch,
            pre: self.pre@,
            build: self.build@,
        }
    }
}

impl DeepView for SemVersion {
    type V = SemVersionView;

    open spec fn deep_view(&self) -> SemVersionView {
        self@
    }
}

/// The version that semver reads in a text; nothing where it refuses the text.
pub uninterp spec fn semver_of(text: Seq<char>) -> Option<SemVersionView>;

/// Whether semver orders the version `a` behind `b`.
pub uninterp spec fn semver_after(a: SemVersionView, b: SemVersionView) -> bool;

/// `semver::Version::parse`: which version a text gives, and whether it gives one, depends on the
/// text alone and is named `semver_of`.
#[verifier::external_body]
pub(crate) fn parse_version(text: &str) -> (r: Option<SemVersion>)
    ensures
        r.deep_view() == semver_of(text@),
{
    match semver::Version::parse(text) {
        Ok(v) => Some(SemVersion {
            major: v.major,
            minor: v.minor,
            patch: v.patch,
            pre: v.pre.as_str().to_owned(),
            build: v.build.as_str().to_owned(),
        }),
        Err(_) => None,
    }
}

/// `>` on `semver::Version`: named `semver_after`. The first of major, minor and patch in which two
/// versions differ decides, as a number; only where all three are the same do the pre-release and
/// then the build metadata decide.
#[verifier::external_body]
pub(crate) fn version_after(a: &SemVersion, b: &SemVersion) -> (r: bool)
    ensures
        r == semver_after(a@, b@),
        a.major != b.major ==> r == (a.major > b.major),
        a.major == b.major && a.minor != b.minor ==> r == (a.minor > b.minor),
        a.major == b.major && a.minor == b.minor && a.patch != b.patch ==> r == (a.patch
            > b.patch),
        a@ == b@ ==> !r,
{
    let x = semver::Version {
        pre: semver::Prerelease::new(&a.pre).unwrap_or_default(),
        build: semver::BuildMetadata::new(&a.build).unwrap_or_default(),
        ..semver::Version::new(a.major, a.minor, a.patch)
    };
    let y = semver::Version {
        pre: semver::Prerelease::new(&b.pre).unwrap_or_default(),
        build: semver::BuildMetadata::new(&b.build).unwrap_or_default(),
        ..semver::Version::new(b.major, b.minor, b.patch)
    };
    x > y
}

/// Whether the numbers of a version are those of another or come before them.
pub open spec fn numbers_le(a: SemVersionView, b: SemVersionView) -> bool {
    a.major < b.major || (a.major == b.major && (a.minor < b.minor || (a.minor == b.minor && a.patch
        <= b.patch)))
}

/// Whether no fitting candidate that is a version has higher numbers than the one at `b`.
pub open spec fn none_higher(
    names: Seq<Seq<char>>,
    versions: Seq<Option<SemVersionView>>,
    fits: spec_fn(Seq<char>) -> bool,
    b: int,
) -> bool {
    forall|j: int|
        0 <= j < names.len() && fits(#[trigger] names[j]) && versions[j] is Some ==> versions[b]
            is Some && numbers_le(versions[j]->0, versions[b]->0)
}

/// Whether `r` is a fitting candidate, and no fitting candidate that is a version has higher
/// numbers; without one, whether no fitting candidate is a version.
pub open spec fn is_newest(
    names: Seq<Seq<char>>,
    versions: Seq<Option<SemVersionView>>,
    fits: spec_fn(Seq<char>) -> bool,
    r: Option<Seq<char>>,
) -> bool {
    match r {
        Some(n) => fits(n) && exists|b: int|
            0 <= b < names.len() && names[b] == n && #[trigger] none_higher(
                names,
                versions,
                fits,
                b,
            ),
        None => forall|j: int|
            0 <= j < names.len() && fits(#[trigger] names[j]) ==> versions[j] is None,
    }
}

/// The names that go on from the pin.
pub open spec fn going_on(pin: Seq<char>) -> spec_fn(Seq<char>) -> bool {
    |name: Seq<char>| extends_pin(pin, name)
}

/// Whether a name goes on from the pin, if at all, with a further part of a version.
pub open spec fn extends_pin(pin: Seq<char>, name: Seq<char>) -> bool {
    starts(name, pin) && {
        let rest = name.skip(pin.len() as int);
        rest.len() == 0 || rest[0] == '.' || rest[0] == '-'
    }
}

fn goes_on(pin: &str, name: &str) -> (r: bool)
    ensures
        r == extends_pin(pin@, name@),
{
    let c = chars_of(name);
    match strip_prefix(c.as_slice(), pin) {
        Some(rest) => rest.len() == 0 || rest[0] == '.' || rest[0] == '-',
        None => false,
    }
}

/// Whether the candidate `i` is better than the candidate `best`: a version is better than what is
/// none, a later version than an earlier one, and of two that are none the one whose name comes
/// later.
pub open spec fn is_better(
    names: Seq<Seq<char>>,
    versions: Seq<Option<SemVersionView>>,
    i: int,
    best: int,
) -> bool {
    match (versions[best], versions[i]) {
        (None, Some(_)) => true,
        (Some(b), Some(v)) => semver_after(v, b),
        (Some(_), None) => false,
        (None, None) => chars_lt(names[best], names[i]),
    }
}

/// The place of the best of the first `n` candidates that go on from the pin.
pub open spec fn best_place(
    pin: Seq<char>,
    names: Seq<Seq<char>>,
    versions: Seq<Option<SemVersionView>>,
    n: int,
) -> Option<int>
    decreases n,
{
    if n <= 0 {
        None
    } else {
        let best = best_place(pin, names, versions, n - 1);
        if !extends_pin(pin, names[n - 1]) {
            best
        } else {
            match best {
                None => Some(n - 1),
                Some(b) => if is_better(names, versions, n - 1, b) {
                    Some(n - 1)
                } else {
                    Some(b)
                },
            }
        }
    }
}

/// The candidate that a pin stands for, given the candidates' versions: the pin itself where it is
/// one of them, else the best that goes on from it.
pub open spec fn newest(
    pin: Seq<char>,
    names: Seq<Seq<char>>,
    versions: Seq<Option<SemVersionView>>,
) -> Option<Seq<char>> {
    if names.contains(pin) {
        Some(pin)
    } else {
        match best_place(pin, names, versions, names.len() as int) {
            Some(i) => Some(names[i]),
            None => None,
        }
    }
}

/// The candidate that a pin stands for, given the candidates' versions.
pub fn newest_of(pin: &str, names: &Vec<String>, versions: &Vec<Option<SemVersion>>) -> (r: Option<
    String,
>)
    requires
        names.len() == versions.len(),
    ensures
        r.deep_view() == newest(pin@, names.deep_view(), versions.deep_view()),
        !names.deep_view().contains(pin@) ==> is_newest(
            names.deep_view(),
            versions.deep_view(),
            going_on(pin@),
            r.deep_view(),
        ),
{
    if listed(names, pin) {
        return Some(pin.to_owned());
    }
    let ghost ns = names.deep_view();
    let ghost vs = versions.deep_view();
    let mut best: Option<usize> = None;
    let mut i: usize = 0;
    while i < names.len()
        invariant
            i <= names.len(),
            names.len() == versions.len(),
            ns == names.deep_view(),
            vs == versions.deep_view(),
            best is Some ==> best->0 < i && extends_pin(pin@, ns[best->0 as int]),
            best is None ==> forall|j: int|
                0 <= j < i ==> !extends_pin(pin@, #[trigger] ns[j]),
            best is Some ==> forall|j: int|
                0 <= j < i && extends_pin(pin@, #[trigger] ns[j]) && vs[j] is Some
                    ==> vs[best->0 as int] is Some && numbers_le(
                    vs[j]->0,
                    vs[best->0 as int]->0,
                ),
            best_place(pin@, ns, vs, i as int) == (match best {
                Some(b) => Some(b as int),
                None => None,
            }),
        decreases names.len() - i,
    {
        assert(ns[i as int] == names@[i as int]@);
        assert(vs[i as int] == versions@[i as int].deep_view());
        if goes_on(pin, names[i].as_str()) {
            let better = match best {
                None => true,
                Some(b) => {
                    assert(ns[b as int] == names@[b as int]@);
                    assert(vs[b as int] == versions@[b as int].deep_view());
                    match (&versions[b], &versions[i]) {
                        (None, Some(_)) => true,
                        (Some(x), Some(v)) => version_after(v, x),
                        (Some(_), None) => false,
                        (None, None) => str_before(names[b].as_str(), names[i].as_str()),
                    }
                },
            };
            if better {
                best = Some(i);
            }
        }
        i = i + 1;
    }
    match best {
        Some(b) => {
            assert(ns[b as int] == names@[b as int]@);
            assert(none_higher(ns, vs, going_on(pin@), b as int));
            Some(names[b].clone())
        },
        None => None,
    }
}

/// The text of a version, without the `v` that directories put before it.
pub open spec fn version_text(name: Seq<char>) -> Seq<char> {
    if starts(name, "v"@) {
        name.skip("v"@.len() as int)
    } else {
        name
    }
}

/// The candidates' versions, as far as their names are versions.
pub open spec fn versions_of(names: Seq<Seq<char>>) -> Seq<Option<SemVersionView>> {
    Seq::new(names.len(), |i: int| semver_of(version_text(names[i])))
}

/// The candidate that a pin stands for: the pin itself where it is one of them, else the one with
/// the highest version among those that go on from the pin with a `.` or a `-`. A candidate that is
/// no semantic version loses to one that is; among such candidates the last by name wins.
pub fn newest_matching_version(pin: &str, candidates: &Vec<String>) -> (r: Option<String>)
    ensures
        r.deep_view() == newest(
            pin@,
            candidates.deep_view(),
            versions_of(candidates.deep_view()),
        ),
        !candidates.deep_view().contains(pin@) ==> is_newest(
            candidates.deep_view(),
            versions_of(candidates.deep_view()),
            going_on(pin@),
            r.deep_view(),
        ),
{
    let ghost ns = candidates.deep_view();
    let mut versions: Vec<Option<SemVersion>> = Vec::new();
    let mut i: usize = 0;
    while i < candidates.len()
        invariant
            i <= candidates.len(),
            ns == candidates.deep_view(),
            versions.len() == i,
            versions.deep_view() =~= versions_of(ns).take(i as int),
        decreases candidates.len() - i,
    {
        assert(ns[i as int] == candidates@[i as int]@);
        let c = chars_of(candidates[i].as_str());
        let v = match strip_prefix(c.as_slice(), "v") {
            Some(rest) => parse_version(string_of(rest).as_str()),
            None => parse_version(candidates[i].as_str()),
        };
        let ghost was = versions.deep_view();
        versions.push(v);
        assert(versions.deep_view() =~= was.push(v.deep_view()));
        i = i + 1;
    }
    assert(versions_of(ns).take(i as int) =~= versions_of(ns));
    newest_of(pin, candidates, &versions)
}

} // verus!
