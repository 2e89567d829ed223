//! What holds of the resources that a whole ecosystem shares, and of what npm's cache and the pins of a
//! Node version lead to.

use vstd::prelude::*;

use crate::attribution::model::{ClaimView, EntryKind, EnvView, EvidenceTier};
use crate::attribution::projects::ProjectView;
use crate::attribution::projects::discovery_laws::single_name;
use crate::disk::{DiskView, Stat};
use crate::doc::{field, json_document, text_field, DocView};
use crate::fspath::{child, file_name};
use crate::scan::{FindingKind, ScannerId};
use crate::seqs::{first_some, flat, lemma_first_given, lemma_in_flat, lemma_picked};
use crate::text::{after_last, is_digit, without_suffix};
use crate::text_laws::{free_of, lemma_first_place};

use super::apply::{
    baseline_paths, claims_of_baseline, excluded, finding_called, not_excluded, shared_claim,
};
use super::derive::{archive_name, existing, npm_integrity, npm_line, version_start, NpmEntryView};
use super::links::{claims_of_link, with_cache_findings};
use super::node::{pin_at, pin_files, pin_in, PinFile};
use super::parsers::behind_last;
use super::rule_laws::{law_plain_templates_lead_home, literal, spelled};
use super::rules::{baseline_table, reverse_table, Source};
use super::templates::globbed;
use super::common_claims;

verus! {

/// Whether the claims hold one of an ecosystem's own on a path.
pub open spec fn holds_common(
    r: Seq<ClaimView>,
    at: Seq<Seq<char>>,
    kind: EntryKind,
    ecosystem: Seq<char>,
) -> bool {
    exists|j: int|
        0 <= j < r.len() && (#[trigger] r[j]).path == at && r[j].baseline && r[j].ecosystem == Some(
            ecosystem,
        ) && r[j].owner == "baseline"@ && r[j].kind == kind && r[j].tier
            == EvidenceTier::EcosystemDefault
}

proof fn lemma_common(
    projects: Seq<ProjectView>,
    env: EnvView,
    disk: DiskView,
    b: int,
    k: int,
)
    requires
        0 <= b < baseline_table(env.agent).len(),
        0 <= k < baseline_paths(baseline_table(env.agent)[b], env, disk).len(),
    ensures
        ({
            let row = baseline_table(env.agent)[b];
            holds_common(
                common_claims(projects, env, disk),
                baseline_paths(row, env, disk)[k],
                row.kind,
                row.ecosystem@,
            )
        }),
{
    let table = baseline_table(env.agent);
    let row = table[b];
    let at = baseline_paths(row, env, disk)[k];
    let f = claims_of_baseline(env, disk);
    assert(f(row)[k] == shared_claim(row, disk)(at));
    let j = lemma_in_flat(table, f, b, k);
    let first = with_cache_findings(
        flat(reverse_table(env.agent), claims_of_link(projects, env.home, disk)),
        env.findings(ScannerId::Fs),
    );
    let second = flat(table, f);
    let r = common_claims(projects, env, disk);
    assert(r[first.len() + j] == second[j]);
}

/// What is listed as an ecosystem's own under single names of the home directory is claimed for the
/// ecosystem where it is there, unless its name is left out.
pub proof fn law_listed_resources_are_common(
    projects: Seq<ProjectView>,
    env: EnvView,
    disk: DiskView,
    b: int,
    names: Seq<Seq<char>>,
)
    requires
        0 <= b < baseline_table(env.agent).len(),
        baseline_table(env.agent)[b].source == Source::Fixed,
        names.len() > 0,
        forall|i: int|
            0 <= i < names.len() ==> literal(#[trigger] names[i]) && single_name(names[i]),
        names.last() != seq!['.', '.'],
        baseline_table(env.agent)[b].path@ == "~/"@ + spelled(names),
        disk.stat(env.home + names) != Stat::Absent,
        forall|i: int|
            0 <= i < baseline_table(env.agent)[b].exclude.len() ==> (#[trigger] baseline_table(
                env.agent,
            )[b].exclude[i])@ != names.last(),
    ensures
        holds_common(
            common_claims(projects, env, disk),
            env.home + names,
            baseline_table(env.agent)[b].kind,
            baseline_table(env.agent)[b].ecosystem@,
        ),
{
    let row = baseline_table(env.agent)[b];
    let at = env.home + names;
    law_plain_templates_lead_home(disk, env.home, names);
    let all = globbed(disk, row.path@, env.home);
    let i = choose|i: int| 0 <= i < all.len() && all[i] == at;
    let pick = |p: Seq<Seq<char>>|
        if disk.present(p) {
            Some(p)
        } else {
            None
        };
    let k = lemma_picked(all, pick, i);
    assert(existing(disk, all) == all.filter_map(pick));
    assert(at.last() == names.last());
    assert(single_name(names[names.len() - 1]));
    let f = not_excluded(row.exclude);
    assert(!excluded(row.exclude, names.last()));
    lemma_named_at(at, names);
    let m = lemma_picked(existing(disk, all), f, k);
    lemma_common(projects, env, disk, b, m);
}

proof fn lemma_named_at(at: Seq<Seq<char>>, names: Seq<Seq<char>>)
    requires
        names.len() > 0,
        at.len() > 0,
        at.last() == names.last(),
        single_name(names.last()),
        names.last() != seq!['.', '.'],
    ensures
        file_name(at) == Some(names.last()),
{
    let n = names.last();
    assert(n != seq!['/']) by {
        if n == seq!['/'] {
            assert(n[0] == '/');
        }
    }
}

/// What a section found under the listed name is claimed for the ecosystem, at the path of the first
/// such finding.
pub proof fn law_found_resources_are_common(
    projects: Seq<ProjectView>,
    env: EnvView,
    disk: DiskView,
    b: int,
    scanner: ScannerId,
    kind: FindingKind,
    name: &'static str,
    i: int,
    at: Seq<Seq<char>>,
)
    requires
        0 <= b < baseline_table(env.agent).len(),
        baseline_table(env.agent)[b].source == (Source::FromFinding { scanner, kind, name }),
        0 <= i < env.findings(scanner).len(),
        env.findings(scanner)[i].kind == kind,
        env.findings(scanner)[i].title == name@,
        env.findings(scanner)[i].path == Some(at),
        forall|j: int|
            0 <= j < i ==> (#[trigger] env.findings(scanner)[j]).kind != kind || (env.findings(
                scanner,
            )[j].title != name@ && text_field(env.findings(scanner)[j].meta, "name"@) != Some(
                name@,
            )),
    ensures
        holds_common(
            common_claims(projects, env, disk),
            at,
            baseline_table(env.agent)[b].kind,
            baseline_table(env.agent)[b].ecosystem@,
        ),
{
    let row = baseline_table(env.agent)[b];
    let fs = env.findings(scanner);
    let f = finding_called(kind, name@);
    assert forall|j: int| 0 <= j < i implies f(#[trigger] fs[j]) is None by {}
    lemma_first_given(fs, f, i);
    assert(baseline_paths(row, env, disk) =~= seq![at]);
    lemma_common(projects, env, disk, b, 0);
}

/// Whether a text is a version with no dash in it that a digit follows.
pub open spec fn plain_version(v: Seq<char>) -> bool {
    v.len() > 0 && is_digit(v[0]) && forall|i: int|
        0 <= i < v.len() - 1 ==> !((#[trigger] v[i]) == '-' && is_digit(v[i + 1]))
}

proof fn lemma_version_start(name: Seq<char>, v: Seq<char>, n: int)
    requires
        plain_version(v),
        name.len() + 1 <= n <= name.len() + 1 + v.len(),
    ensures
        version_start(name + seq!['-'] + v, n) == Some(name.len() as int + 1),
    decreases n,
{
    let nv = name + seq!['-'] + v;
    let s = name.len() as int + 1;
    assert(nv[s] == v[0]);
    assert(nv[s - 1] == '-');
    if n > s {
        if n < nv.len() {
            assert(nv[n - 1] == v[n - 1 - s]);
            assert(nv[n] == v[n - s]);
            assert(v[n - 1 - s] != '-' || !is_digit(v[n - 1 - s + 1]));
        }
        lemma_version_start(name, v, n - 1);
    }
}

/// A line of npm's index is read as the package whose archive its key names.
pub proof fn law_a_line_of_npms_index(
    mark: Seq<char>,
    line: Seq<char>,
    url: Seq<char>,
    name: Seq<char>,
    version: Seq<char>,
    integrity: Seq<char>,
)
    requires
        free_of(mark, '{'),
        line.len() > 0,
        line[0] == '{',
        json_document(line) is Some,
        field(json_document(line)->0, "key"@) == Some(
            DocView::Text(url + seq!['/'] + (name + seq!['-'] + version + ".tgz"@)),
        ),
        field(json_document(line)->0, "integrity"@) == Some(DocView::Text(integrity)),
        name.len() > 0,
        free_of(name, '/'),
        free_of(version, '/'),
        plain_version(version),
    ensures
        npm_line()(mark + line) == Some(NpmEntryView { name, version, integrity }),
{
    let rest = line.skip(1);
    assert(line =~= seq!['{'] + rest);
    assert(mark + line =~= mark + seq!['{'] + rest);
    lemma_first_place(mark, rest, '{');
    assert((mark + line).skip(mark.len() as int) =~= line);
    lemma_archive(url, name, version);
}

proof fn lemma_archive(url: Seq<char>, name: Seq<char>, version: Seq<char>)
    requires
        name.len() > 0,
        free_of(name, '/'),
        free_of(version, '/'),
        plain_version(version),
    ensures
        archive_name(url + seq!['/'] + (name + seq!['-'] + version + ".tgz"@)) == Some(
            (name, version),
        ),
{
    reveal_strlit(".tgz");
    let nv = name + seq!['-'] + version;
    let file = nv + ".tgz"@;
    let key = url + seq!['/'] + file;
    assert(name + seq!['-'] + version + ".tgz"@ =~= file);
    assert forall|i: int| 0 <= i < file.len() implies #[trigger] file[i] != '/' by {
        if i < name.len() {
            assert(file[i] == name[i]);
        } else if name.len() < i < nv.len() {
            assert(file[i] == version[i - name.len() - 1]);
        }
    }
    lemma_behind_last(url, file, '/');
    assert(file.skip(file.len() - 4) =~= ".tgz"@);
    assert(file.take(file.len() - 4) =~= nv);
    assert(without_suffix(file, ".tgz"@) == Some(nv));
    lemma_version_start(name, version, nv.len() as int);
    assert(nv.take(name.len() as int) =~= name);
    assert(nv.skip(name.len() as int + 1) =~= version);
}

proof fn lemma_behind_last(a: Seq<char>, b: Seq<char>, c: char)
    requires
        free_of(b, c),
    ensures
        behind_last(a + seq![c] + b, c) == b,
        after_last(a + seq![c] + b, c) == a.len() + 1,
    decreases b.len(),
{
    let s = a + seq![c] + b;
    if b.len() > 0 {
        let t = b.drop_last();
        assert(s.last() == b[b.len() - 1]);
        assert(s.drop_last() =~= a + seq![c] + t);
        assert forall|i: int| 0 <= i < t.len() implies #[trigger] t[i] != c by {
            assert(b[i] != c);
        }
        lemma_behind_last(a, t, c);
    } else {
        assert(s.last() == c);
    }
    assert(s.skip(a.len() as int + 1) =~= b);
}

/// What the index says last of a package is what counts.
pub proof fn law_the_last_word_of_npms_index(
    entries: Seq<NpmEntryView>,
    more: Seq<NpmEntryView>,
    e: NpmEntryView,
)
    requires
        forall|i: int|
            0 <= i < more.len() ==> (#[trigger] more[i]).name != e.name || more[i].version
                != e.version,
    ensures
        npm_integrity(entries + seq![e] + more, e.name, e.version) == Some(e.integrity),
        npm_integrity(more, e.name, e.version) is None,
    decreases more.len(),
{
    let s = entries + seq![e] + more;
    if more.len() == 0 {
        assert(s.last() == e);
    } else {
        let f = more.drop_last();
        assert(s.last() == more[more.len() - 1]);
        assert(s.drop_last() =~= entries + seq![e] + f);
        assert forall|i: int| 0 <= i < f.len() implies (#[trigger] f[i]).name != e.name
            || f[i].version != e.version by {
            assert(f[i] == more[i]);
        }
        law_the_last_word_of_npms_index(entries, f, e);
    }
}

/// Of the files that can pin a Node version the first that does so decides: `.nvmrc`, `.node-version`,
/// `.tool-versions`, `.mise.toml`, `mise.toml` and `package.json`, in this order.
pub proof fn law_the_first_pin_decides(disk: DiskView, root: Seq<Seq<char>>)
    ensures
        ({
            let f = pin_at(disk, root);
            let r = first_some(pin_files(), f);
            &&& f(PinFile::Nvmrc) is Some ==> r == f(PinFile::Nvmrc)
            &&& f(PinFile::Nvmrc) is None && f(PinFile::NodeVersion) is Some ==> r == f(
                PinFile::NodeVersion,
            )
            &&& f(PinFile::Nvmrc) is None && f(PinFile::NodeVersion) is None && f(
                PinFile::ToolVersions,
            ) is Some ==> r == f(PinFile::ToolVersions)
            &&& f(PinFile::Nvmrc) is None && f(PinFile::NodeVersion) is None && f(
                PinFile::ToolVersions,
            ) is None && f(PinFile::HiddenMise) is None && f(PinFile::Mise) is None ==> r == f(
                PinFile::Package,
            )
            &&& forall|text: Seq<char>|
                disk.head(child(root, ".nvmrc"@), 256) == Some(text) ==> f(PinFile::Nvmrc)
                    == #[trigger] pin_in(PinFile::Nvmrc, text)
            &&& forall|text: Seq<char>|
                disk.head(child(root, ".node-version"@), 256) == Some(text) ==> f(
                    PinFile::NodeVersion,
                ) == #[trigger] pin_in(PinFile::NodeVersion, text)
            &&& forall|text: Seq<char>|
                disk.head(child(root, ".tool-versions"@), 4096) == Some(text) ==> f(
                    PinFile::ToolVersions,
                ) == #[trigger] pin_in(PinFile::ToolVersions, text)
        }),
{
    reveal_with_fuel(first_some, 7);
    let f = pin_at(disk, root);
    let l = pin_files();
    assert(l.skip(1)[0] == PinFile::NodeVersion);
    assert(l.skip(1).skip(1)[0] == PinFile::ToolVersions);
    assert(l.skip(1).skip(1).skip(1)[0] == PinFile::HiddenMise);
    assert(l.skip(1).skip(1).skip(1).skip(1)[0] == PinFile::Mise);
    assert(l.skip(1).skip(1).skip(1).skip(1).skip(1)[0] == PinFile::Package);
}

} // verus!
