//! Whom a candidate path belongs to.
//!
//! Each candidate is tried against five kinds of evidence, the surest first; the first kind that
//! finds an owner decides, and all owners that it finds share the path.

use vstd::prelude::*;
use vstd::slice::slice_subrange;

use crate::attribution::apps::candidates::{Candidate, CandidateView};
use crate::attribution::apps::curated::{
    curated_rows, curated_table, CuratedTarget, CuratedView, TargetView,
};
use crate::attribution::apps::owners::{AppOwner, AppView, FormulaView, Owners, OwnersView, ToolView};
use crate::attribution::model::{
    plain_claim, put, put_all, Claim, ClaimView, EntryKind, EvidenceTier, OwnerView, ResolveEnv,
    UNATTRIBUTED_OWNER,
};
use crate::fspath::{child, file_name, parent, path_of, path_text, stem, stem_of, under, FilePath};
use crate::pathmap::PathMap;
use crate::text::{
    after_last, byte_len, cat2, cat3, cat4, chars_of, find_char, find_last, find_text, has_text,
    index_of, is_space, lemma_span_is, lines, lower_case, nonspaces, parse_unsigned, same,
    space_char, span, split, split_at_char, starts, str_starts, string_of, to_lower_case, trim,
    trim_start, trimmed, trimmed_start, unsigned, Lines,
};

verus! {

/// An owner that some evidence links to a candidate.
#[derive(Clone, Debug, PartialEq, Eq)]
pub struct OwnerHit {
    pub key: String,
    pub evidence: String,
}

impl DeepView for OwnerHit {
    type V = (Seq<char>, Seq<char>);

    open spec fn deep_view(&self) -> (Seq<char>, Seq<char>) {
        (self.key@, self.evidence@)
    }
}

fn put_hit(hits: &mut Vec<OwnerHit>, key: &str, evidence: String)
    ensures
        final(hits).deep_view() == old(hits).deep_view().push((key@, evidence@)),
{
    let ghost was = hits.deep_view();
    let h = OwnerHit { key: key.to_owned(), evidence };
    hits.push(h);
    assert(hits.deep_view() =~= was.push(h.deep_view()));
}

/// Whether one of the texts is `w`, both in small letters.
pub open spec fn any_lower(list: Seq<Seq<char>>, w: Seq<char>) -> bool {
    exists|i: int| 0 <= i < list.len() && lower_case(#[trigger] list[i]) == w
}

fn lists_lower(list: &Vec<String>, w: &str) -> (r: bool)
    ensures
        r == any_lower(list.deep_view(), w@),
{
    let mut i: usize = 0;
    while i < list.len()
        invariant
            i <= list.len(),
            forall|j: int| 0 <= j < i ==> lower_case(#[trigger] list.deep_view()[j]) != w@,
        decreases list.len() - i,
    {
        assert(list.deep_view()[i as int] == list@[i as int]@);
        let low = to_lower_case(list[i].as_str());
        if same(low.as_str(), w) {
            return true;
        }
        i = i + 1;
    }
    false
}

/// The app groups that apps are entitled to, by bundle path.
pub type Groups = Map<Seq<Seq<char>>, Seq<Seq<char>>>;

/// Whether an app is entitled to the group `w`, in small letters.
pub open spec fn entitled(groups: Groups, app: AppView, w: Seq<char>) -> bool {
    app.owner.path is Some && groups.contains_key(app.owner.path->0) && any_lower(
        groups[app.owner.path->0],
        w,
    )
}

/// The candidate's name is the app's bundle id or that of one of its helpers, or a group that the
/// app is entitled to.
pub open spec fn exact_hit(groups: Groups, c: CandidateView) -> spec_fn(AppView) -> Option<
    (Seq<char>, Seq<char>),
> {
    |app: AppView|
        {
            let w = lower_case(c.name);
            if w == lower_case(app.owner.key) || any_lower(app.aliases, w) {
                Some((app.owner.key, "`"@ + c.name + "` matches the bundle id"@))
            } else if c.parent_kind == EntryKind::GroupContainer && entitled(groups, app, w) {
                Some((app.owner.key, "`"@ + c.name + "` is an entitled app group"@))
            } else {
                None
            }
        }
}

fn tier1_exact(owners: &Owners, groups: &PathMap<Vec<String>>, candidate: &Candidate) -> (r: Vec<
    OwnerHit,
>)
    requires
        groups.wf(),
    ensures
        r.deep_view() == owners@.apps.filter_map(exact_hit(groups@, candidate@)),
{
    let ghost all = owners@.apps;
    let ghost pick = exact_hit(groups@, candidate@);
    let low = to_lower_case(candidate.name.as_str());
    let mut hits: Vec<OwnerHit> = Vec::new();
    let mut i: usize = 0;
    proof {
        assert(all.take(0) =~= seq![]);
        reveal(Seq::filter_map);
        assert(hits.deep_view() =~= all.take(0).filter_map(pick));
    }
    while i < owners.apps.len()
        invariant
            i <= owners.apps.len(),
            groups.wf(),
            all == owners@.apps,
            pick == exact_hit(groups@, candidate@),
            low@ == lower_case(candidate@.name),
            hits.deep_view() == all.take(i as int).filter_map(pick),
        decreases owners.apps.len() - i,
    {
        let app = &owners.apps[i];
        proof {
            assert(all[i as int] == app.deep_view());
            all.lemma_filter_map_take_succ(pick, i as int);
        }
        let key = app.owner.key.as_str();
        let low_key = to_lower_case(key);
        if same(low.as_str(), low_key.as_str()) || lists_lower(&app.aliases, low.as_str()) {
            put_hit(
                &mut hits,
                key,
                cat3("`", candidate.name.as_str(), "` matches the bundle id"),
            );
        } else if candidate.parent_kind == EntryKind::GroupContainer {
            if let Some(path) = &app.owner.path {
                if let Some(entitled_groups) = groups.get(path) {
                    if lists_lower(entitled_groups, low.as_str()) {
                        put_hit(
                            &mut hits,
                            key,
                            cat3("`", candidate.name.as_str(), "` is an entitled app group"),
                        );
                    }
                }
            }
        }
        assert(hits.deep_view() =~= all.take(i + 1).filter_map(pick));
        i = i + 1;
    }
    assert(all.take(i as int) =~= all);
    hits
}

/// The last two pieces of a bundle id, with the dot between them; nothing where it has one piece.
pub open spec fn last_two(id: Seq<char>) -> Option<Seq<char>> {
    let p = split(id, '.');
    if p.len() >= 2 {
        Some(p[p.len() - 2] + "."@ + p[p.len() - 1])
    } else {
        None
    }
}

/// Whether `name` is `group.` and the bundle id, or `group.` and its last two pieces.
pub open spec fn group_shape(name: Seq<char>, id: Seq<char>) -> bool {
    name == "group."@ + id || (last_two(id) is Some && name == "group."@ + last_two(id)->0)
}

/// An ASCII letter or digit.
pub open spec fn is_plain(c: char) -> bool {
    ('0' <= c <= '9') || ('a' <= c <= 'z') || ('A' <= c <= 'Z')
}

/// Whether `s` has the shape of an Apple team id: ten letters and digits.
pub open spec fn is_team(s: Seq<char>) -> bool {
    s.len() == 10 && forall|i: int| 0 <= i < s.len() ==> is_plain(#[trigger] s[i])
}

/// Whether a group's name has the shape that belongs to a bundle id, both in small letters: a
/// group shape, or a team id and, behind a dot, a group shape, the bundle id or its last two
/// pieces.
pub open spec fn group_matches(name: Seq<char>, id: Seq<char>) -> bool {
    let k = index_of(name, '.');
    let rest = name.skip(k as int + 1);
    group_shape(name, id) || (k < name.len() && is_team(name.take(k as int)) && (rest == id || Some(
        rest,
    ) == last_two(id) || group_shape(rest, id)))
}

fn group_heuristic_matches(name: &str, id: &str) -> (r: bool)
    ensures
        r == group_matches(name@, id@),
{
    let ic = chars_of(id);
    let pieces = split_at_char(ic.as_slice(), '.');
    let n = pieces.len();
    let two: Option<String> = if n >= 2 {
        proof {
            assert(split(id@, '.')[n - 2] == pieces@[n - 2]@);
            assert(split(id@, '.')[n - 1] == pieces@[n - 1]@);
        }
        Some(cat3(pieces[n - 2].as_str(), ".", pieces[n - 1].as_str()))
    } else {
        None
    };
    assert(two.deep_view() == last_two(id@));
    let shape1 = cat2("group.", id);
    let shape2: Option<String> = match &two {
        Some(t) => Some(cat2("group.", t.as_str())),
        None => None,
    };
    if is_shape(name, &shape1, &shape2) {
        return true;
    }
    let nc = chars_of(name);
    let k = find_char(nc.as_slice(), '.');
    if k < nc.len() {
        let first = slice_subrange(nc.as_slice(), 0, k);
        let rest = slice_subrange(nc.as_slice(), k + 1, nc.len());
        proof {
            assert(first@ =~= name@.take(k as int));
            assert(rest@ =~= name@.skip(k + 1));
        }
        if team(first) {
            let rest = string_of(rest);
            if same(rest.as_str(), id) {
                return true;
            }
            if let Some(t) = &two {
                if same(rest.as_str(), t.as_str()) {
                    return true;
                }
            }
            return is_shape(rest.as_str(), &shape1, &shape2);
        }
    }
    false
}

fn is_shape(name: &str, a: &String, b: &Option<String>) -> (r: bool)
    ensures
        r == (name@ == a@ || Some(name@) == b.deep_view()),
{
    if same(name, a.as_str()) {
        return true;
    }
    match b {
        Some(x) => same(name, x.as_str()),
        None => false,
    }
}

fn team(s: &[char]) -> (r: bool)
    ensures
        r == is_team(s@),
{
    if s.len() != 10 {
        return false;
    }
    let mut i: usize = 0;
    while i < s.len()
        invariant
            i <= s.len(),
            forall|j: int| 0 <= j < i ==> is_plain(#[trigger] s@[j]),
        decreases s.len() - i,
    {
        let c = s[i];
        if !(('0' <= c && c <= '9') || ('a' <= c && c <= 'z') || ('A' <= c && c <= 'Z')) {
            assert(!is_plain(s@[i as int]));
            return false;
        }
        i = i + 1;
    }
    true
}

/// The candidate's name has the shape of a group of the app.
pub open spec fn group_hit(c: CandidateView) -> spec_fn(AppView) -> Option<
    (Seq<char>, Seq<char>),
> {
    |app: AppView|
        if c.parent_kind == EntryKind::GroupContainer && group_matches(
            lower_case(c.name),
            lower_case(app.owner.key),
        ) {
            Some(
                (
                    app.owner.key,
                    "`"@ + c.name + "` matches `"@ + app.owner.key + "` by group-id shape"@,
                ),
            )
        } else {
            None
        }
}

fn tier2_group_heuristic(owners: &Owners, candidate: &Candidate) -> (r: Vec<OwnerHit>)
    ensures
        r.deep_view() == owners@.apps.filter_map(group_hit(candidate@)),
{
    let ghost all = owners@.apps;
    let ghost pick = group_hit(candidate@);
    let low = to_lower_case(candidate.name.as_str());
    let mut hits: Vec<OwnerHit> = Vec::new();
    let mut i: usize = 0;
    proof {
        assert(all.take(0) =~= seq![]);
        reveal(Seq::filter_map);
        assert(hits.deep_view() =~= all.take(0).filter_map(pick));
    }
    while i < owners.apps.len()
        invariant
            i <= owners.apps.len(),
            all == owners@.apps,
            pick == group_hit(candidate@),
            low@ == lower_case(candidate@.name),
            hits.deep_view() == all.take(i as int).filter_map(pick),
        decreases owners.apps.len() - i,
    {
        let app = &owners.apps[i];
        proof {
            assert(all[i as int] == app.deep_view());
            all.lemma_filter_map_take_succ(pick, i as int);
        }
        let key = app.owner.key.as_str();
        let low_key = to_lower_case(key);
        if candidate.parent_kind == EntryKind::GroupContainer && group_heuristic_matches(
            low.as_str(),
            low_key.as_str(),
        ) {
            let mut evidence = cat4("`", candidate.name.as_str(), "` matches `", key);
            evidence.append("` by group-id shape");
            put_hit(&mut hits, key, evidence);
        }
        assert(hits.deep_view() =~= all.take(i + 1).filter_map(pick));
        i = i + 1;
    }
    assert(all.take(i as int) =~= all);
    hits
}

/// The characters that names are compared by: no spaces, hyphens, underscores or dots.
pub open spec fn telling() -> spec_fn(char) -> bool {
    |c: char| c != ' ' && c != '-' && c != '_' && c != '.'
}

/// A name as names are compared: in small letters, without spaces, hyphens, underscores and dots.
pub open spec fn normal(s: Seq<char>) -> Seq<char> {
    lower_case(s).filter(telling())
}

/// The name as names are compared: in small letters, without spaces, hyphens, underscores and
/// dots.
pub fn normalise(s: &str) -> (r: String)
    ensures
        r@ == normal(s@),
{
    let low = to_lower_case(s);
    let c = chars_of(low.as_str());
    let mut out = String::new();
    let mut i: usize = 0;
    proof {
        reveal(Seq::filter);
        assert(out@ =~= c@.take(0).filter(telling()));
    }
    while i < c.len()
        invariant
            i <= c.len(),
            out@ == c@.take(i as int).filter(telling()),
        decreases c.len() - i,
    {
        proof {
            assert(c@.take(i + 1).drop_last() =~= c@.take(i as int));
            assert(c@.take(i + 1).last() == c@[i as int]);
            reveal(Seq::filter);
        }
        let x = c[i];
        if x != ' ' && x != '-' && x != '_' && x != '.' {
            out.push(x);
        }
        i = i + 1;
    }
    assert(c@.take(i as int) =~= c@);
    out
}

/// Whether one of two names holds the other, which has at least four bytes.
pub open spec fn are_related(a: Seq<char>, b: Seq<char>) -> bool {
    if byte_len(a) <= byte_len(b) {
        byte_len(a) >= 4 && has_text(b, a)
    } else {
        byte_len(b) >= 4 && has_text(a, b)
    }
}

fn contains_text(s: &str, p: &str) -> (r: bool)
    ensures
        r == has_text(s@, p@),
{
    let c = chars_of(s);
    find_text(c.as_slice(), p, 0).is_some()
}

fn related(a: &str, b: &str) -> (r: bool)
    ensures
        r == are_related(a@, b@),
{
    if a.len() <= b.len() {
        a.len() >= 4 && contains_text(b, a)
    } else {
        b.len() >= 4 && contains_text(a, b)
    }
}

/// The vendor in a bundle id: its second piece.
pub open spec fn vendor_of(id: Seq<char>) -> Option<Seq<char>> {
    let p = split(id, '.');
    if p.len() >= 2 {
        Some(p[1])
    } else {
        None
    }
}

fn vendor_component(id: &str) -> (r: Option<String>)
    ensures
        r.deep_view() == vendor_of(id@),
{
    let c = chars_of(id);
    let pieces = split_at_char(c.as_slice(), '.');
    if pieces.len() >= 2 {
        assert(split(id@, '.')[1] == pieces@[1]@);
        Some(pieces[1].clone())
    } else {
        None
    }
}

/// The last piece of a bundle id.
pub open spec fn last_piece(id: Seq<char>) -> Seq<char> {
    id.skip(after_last(id, '.') as int)
}

fn last_component(id: &str) -> (r: String)
    ensures
        r@ == last_piece(id@),
{
    let c = chars_of(id);
    let k = find_last(c.as_slice(), '.');
    let rest = slice_subrange(c.as_slice(), k, c.len());
    assert(rest@ =~= id@.skip(k as int));
    string_of(rest)
}

/// A list of what is there.
pub open spec fn opt_list(s: Option<Seq<char>>) -> Seq<Seq<char>> {
    match s {
        Some(x) => seq![x],
        None => seq![],
    }
}

/// The bundle's file name without its ending.
pub open spec fn bundle_stem(app: AppView) -> Option<Seq<char>> {
    match app.owner.path {
        Some(p) => match file_name(p) {
            Some(n) => Some(stem_of(n)),
            None => None,
        },
        None => None,
    }
}

/// The names that an app's bundle tells.
pub open spec fn own_names(app: AppView) -> Seq<Seq<char>> {
    opt_list(app.bundle_name) + opt_list(app.display_name) + opt_list(app.executable) + opt_list(
        bundle_stem(app),
    )
}

/// Whether one of the names is related to `w`, both as names are compared.
pub open spec fn any_related(names: Seq<Seq<char>>, w: Seq<char>) -> bool {
    exists|i: int| 0 <= i < names.len() && are_related(normal(#[trigger] names[i]), w)
}

/// Whether one of the names is `w`, as names are compared.
pub open spec fn any_normal(names: Seq<Seq<char>>, w: Seq<char>) -> bool {
    exists|i: int| 0 <= i < names.len() && normal(#[trigger] names[i]) == w
}

/// The names of an app: what its bundle tells, the last piece of its bundle id where that is
/// related to one of them, and its casks.
pub open spec fn app_names(app: AppView) -> Seq<Seq<char>> {
    let last = last_piece(app.owner.key);
    own_names(app) + (if any_related(own_names(app), normal(last)) {
        seq![last]
    } else {
        seq![]
    }) + app.cask_names
}

/// Whether an app's name, and the vendor where there is one, are the candidate's.
pub open spec fn app_named(app: AppView, c: CandidateView) -> bool {
    any_normal(app_names(app), normal(c.name)) && (match c.vendor {
        Some(v) => vendor_of(app.owner.key) is Some && normal(vendor_of(app.owner.key)->0)
            == normal(v),
        None => true,
    })
}

/// Whether the app's bundle itself is named like the candidate.
pub open spec fn app_called(app: AppView, c: CandidateView) -> bool {
    app_named(app, c) && bundle_stem(app) is Some && normal(bundle_stem(app)->0) == normal(c.name)
}

/// Whether some app's bundle is named like the candidate.
pub open spec fn someone_called(apps: Seq<AppView>, c: CandidateView) -> bool {
    exists|i: int| 0 <= i < apps.len() && app_called(#[trigger] apps[i], c)
}

/// The app bears the candidate's name; where some bundle is called that, only such bundles count.
pub open spec fn app_name_hit(apps: Seq<AppView>, c: CandidateView) -> spec_fn(AppView) -> Option<
    (Seq<char>, Seq<char>),
> {
    |app: AppView|
        if app_named(app, c) && (app_called(app, c) || !someone_called(apps, c)) {
            Some((app.owner.key, "`"@ + c.name + "` matches the app's name"@))
        } else {
            None
        }
}

/// The formula, or one of its programs, bears the candidate's name.
pub open spec fn formula_hit(c: CandidateView) -> spec_fn(FormulaView) -> Option<
    (Seq<char>, Seq<char>),
> {
    |f: FormulaView|
        if normal(f.owner.name) == normal(c.name) || any_normal(f.bin_names, normal(c.name)) {
            Some((f.owner.key, "`"@ + c.name + "` matches the formula name"@))
        } else {
            None
        }
}

/// The tool bears the candidate's name.
pub open spec fn tool_hit(c: CandidateView) -> spec_fn(ToolView) -> Option<
    (Seq<char>, Seq<char>),
> {
    |t: ToolView|
        if normal(t.owner.name) == normal(c.name) {
            Some((t.owner.key, "`"@ + c.name + "` matches the tool name"@))
        } else {
            None
        }
}

/// Whether a path leads through a hidden directory.
pub open spec fn unix_style(p: Seq<Seq<char>>) -> bool {
    exists|i: int| 0 <= i < p.len() && (#[trigger] p[i]).len() > 0 && p[i][0] == '.'
}

/// The owners that bear the candidate's name: apps, or formulae and tools. Where both do, the
/// place decides: apps write below `Library`, the others into hidden directories.
pub open spec fn name_hits(owners: OwnersView, c: CandidateView) -> Seq<(Seq<char>, Seq<char>)> {
    let apps = owners.apps.filter_map(app_name_hit(owners.apps, c));
    let cli = owners.formulae.filter_map(formula_hit(c)) + owners.tools.filter_map(tool_hit(c));
    if apps.len() == 0 || (cli.len() > 0 && unix_style(c.path)) {
        cli
    } else {
        apps
    }
}

fn lists_normal(names: &Vec<String>, w: &str) -> (r: bool)
    ensures
        r == any_normal(names.deep_view(), w@),
{
    let mut i: usize = 0;
    while i < names.len()
        invariant
            i <= names.len(),
            forall|j: int| 0 <= j < i ==> normal(#[trigger] names.deep_view()[j]) != w@,
        decreases names.len() - i,
    {
        assert(names.deep_view()[i as int] == names@[i as int]@);
        let n = normalise(names[i].as_str());
        if same(n.as_str(), w) {
            return true;
        }
        i = i + 1;
    }
    false
}

fn lists_related(names: &Vec<String>, w: &str) -> (r: bool)
    ensures
        r == any_related(names.deep_view(), w@),
{
    let mut i: usize = 0;
    while i < names.len()
        invariant
            i <= names.len(),
            forall|j: int| 0 <= j < i ==> !are_related(normal(#[trigger] names.deep_view()[j]), w@),
        decreases names.len() - i,
    {
        assert(names.deep_view()[i as int] == names@[i as int]@);
        let n = normalise(names[i].as_str());
        if related(n.as_str(), w) {
            return true;
        }
        i = i + 1;
    }
    false
}

fn put_name(names: &mut Vec<String>, name: &Option<String>)
    ensures
        final(names).deep_view() == old(names).deep_view() + opt_list(name.deep_view()),
{
    let ghost was = names.deep_view();
    match name {
        Some(n) => {
            names.push(n.clone());
            assert(names.deep_view() =~= was + seq![n@]);
        },
        None => {
            assert(names.deep_view() =~= was + seq![]);
        },
    }
}

fn stem_name(app: &AppOwner) -> (r: Option<String>)
    ensures
        r.deep_view() == bundle_stem(app.deep_view()),
{
    match &app.owner.path {
        Some(p) => match p.file_name() {
            Some(n) => Some(stem(n)),
            None => None,
        },
        None => None,
    }
}

fn names_of(app: &AppOwner) -> (r: Vec<String>)
    ensures
        r.deep_view() == app_names(app.deep_view()),
{
    let mut names: Vec<String> = Vec::new();
    assert(names.deep_view() =~= seq![]);
    put_name(&mut names, &app.bundle_name);
    put_name(&mut names, &app.display_name);
    put_name(&mut names, &app.executable);
    put_name(&mut names, &stem_name(app));
    assert(names.deep_view() =~= own_names(app.deep_view()));
    let last = last_component(app.owner.key.as_str());
    let last_normal = normalise(last.as_str());
    if lists_related(&names, last_normal.as_str()) {
        put_name(&mut names, &Some(last));
    }
    let ghost before = names.deep_view();
    let mut i: usize = 0;
    assert(before + app.cask_names.deep_view().take(0) =~= before);
    while i < app.cask_names.len()
        invariant
            i <= app.cask_names.len(),
            names.deep_view() == before + app.cask_names.deep_view().take(i as int),
        decreases app.cask_names.len() - i,
    {
        let ghost was = names.deep_view();
        let n = app.cask_names[i].clone();
        names.push(n);
        assert(names.deep_view() =~= was.push(n@));
        assert(names.deep_view() =~= before + app.cask_names.deep_view().take(i + 1));
        i = i + 1;
    }
    assert(app.cask_names.deep_view().take(i as int) =~= app.cask_names.deep_view());
    assert(names.deep_view() =~= app_names(app.deep_view()));
    names
}

fn is_named(app: &AppOwner, candidate: &Candidate) -> (r: bool)
    ensures
        r == app_named(app.deep_view(), candidate@),
{
    let w = normalise(candidate.name.as_str());
    let names = names_of(app);
    if !lists_normal(&names, w.as_str()) {
        return false;
    }
    match &candidate.vendor {
        Some(v) => match vendor_component(app.owner.key.as_str()) {
            Some(have) => {
                let a = normalise(have.as_str());
                let b = normalise(v.as_str());
                same(a.as_str(), b.as_str())
            },
            None => false,
        },
        None => true,
    }
}

fn is_called(app: &AppOwner, candidate: &Candidate) -> (r: bool)
    ensures
        r == app_called(app.deep_view(), candidate@),
{
    if !is_named(app, candidate) {
        return false;
    }
    match stem_name(app) {
        Some(s) => {
            let a = normalise(s.as_str());
            let b = normalise(candidate.name.as_str());
            same(a.as_str(), b.as_str())
        },
        None => false,
    }
}

fn has_called(apps: &Vec<AppOwner>, candidate: &Candidate) -> (r: bool)
    ensures
        r == someone_called(apps.deep_view(), candidate@),
{
    let mut i: usize = 0;
    while i < apps.len()
        invariant
            i <= apps.len(),
            forall|j: int| 0 <= j < i ==> !app_called(#[trigger] apps.deep_view()[j], candidate@),
        decreases apps.len() - i,
    {
        assert(apps.deep_view()[i as int] == apps@[i as int].deep_view());
        if is_called(&apps[i], candidate) {
            return true;
        }
        i = i + 1;
    }
    false
}

fn app_hits(owners: &Owners, candidate: &Candidate) -> (r: Vec<OwnerHit>)
    ensures
        r.deep_view() == owners@.apps.filter_map(app_name_hit(owners@.apps, candidate@)),
{
    let ghost all = owners@.apps;
    let ghost pick = app_name_hit(all, candidate@);
    let only_called = has_called(&owners.apps, candidate);
    let mut hits: Vec<OwnerHit> = Vec::new();
    let mut i: usize = 0;
    proof {
        assert(all.take(0) =~= seq![]);
        reveal(Seq::filter_map);
        assert(hits.deep_view() =~= all.take(0).filter_map(pick));
    }
    while i < owners.apps.len()
        invariant
            i <= owners.apps.len(),
            all == owners@.apps,
            pick == app_name_hit(all, candidate@),
            only_called == someone_called(all, candidate@),
            hits.deep_view() == all.take(i as int).filter_map(pick),
        decreases owners.apps.len() - i,
    {
        let app = &owners.apps[i];
        proof {
            assert(all[i as int] == app.deep_view());
            all.lemma_filter_map_take_succ(pick, i as int);
        }
        if is_named(app, candidate) && (!only_called || is_called(app, candidate)) {
            put_hit(
                &mut hits,
                app.owner.key.as_str(),
                cat3("`", candidate.name.as_str(), "` matches the app's name"),
            );
        }
        assert(hits.deep_view() =~= all.take(i + 1).filter_map(pick));
        i = i + 1;
    }
    assert(all.take(i as int) =~= all);
    hits
}

fn cli_hits(owners: &Owners, candidate: &Candidate) -> (r: Vec<OwnerHit>)
    ensures
        r.deep_view() == owners@.formulae.filter_map(formula_hit(candidate@))
            + owners@.tools.filter_map(tool_hit(candidate@)),
{
    let w = normalise(candidate.name.as_str());
    let ghost fs = owners@.formulae;
    let ghost ts = owners@.tools;
    let ghost pick_f = formula_hit(candidate@);
    let ghost pick_t = tool_hit(candidate@);
    let mut hits: Vec<OwnerHit> = Vec::new();
    let mut i: usize = 0;
    proof {
        assert(fs.take(0) =~= seq![]);
        assert(ts.take(0) =~= seq![]);
        reveal(Seq::filter_map);
        assert(hits.deep_view() =~= fs.take(0).filter_map(pick_f));
    }
    while i < owners.formulae.len()
        invariant
            i <= owners.formulae.len(),
            fs == owners@.formulae,
            pick_f == formula_hit(candidate@),
            w@ == normal(candidate@.name),
            hits.deep_view() == fs.take(i as int).filter_map(pick_f),
        decreases owners.formulae.len() - i,
    {
        let f = &owners.formulae[i];
        proof {
            assert(fs[i as int] == f.deep_view());
            fs.lemma_filter_map_take_succ(pick_f, i as int);
        }
        let n = normalise(f.owner.name.as_str());
        if same(n.as_str(), w.as_str()) || lists_normal(&f.bin_names, w.as_str()) {
            put_hit(
                &mut hits,
                f.owner.key.as_str(),
                cat3("`", candidate.name.as_str(), "` matches the formula name"),
            );
        }
        assert(hits.deep_view() =~= fs.take(i + 1).filter_map(pick_f));
        i = i + 1;
    }
    assert(fs.take(i as int) =~= fs);
    let ghost first = hits.deep_view();
    let mut k: usize = 0;
    proof {
        reveal(Seq::filter_map);
        assert(first + ts.take(0).filter_map(pick_t) =~= first);
    }
    while k < owners.tools.len()
        invariant
            k <= owners.tools.len(),
            ts == owners@.tools,
            pick_t == tool_hit(candidate@),
            w@ == normal(candidate@.name),
            hits.deep_view() == first + ts.take(k as int).filter_map(pick_t),
        decreases owners.tools.len() - k,
    {
        let t = &owners.tools[k];
        proof {
            assert(ts[k as int] == t.deep_view());
            ts.lemma_filter_map_take_succ(pick_t, k as int);
        }
        let n = normalise(t.owner.name.as_str());
        if same(n.as_str(), w.as_str()) {
            put_hit(
                &mut hits,
                t.owner.key.as_str(),
                cat3("`", candidate.name.as_str(), "` matches the tool name"),
            );
        }
        assert(hits.deep_view() =~= first + ts.take(k + 1).filter_map(pick_t));
        k = k + 1;
    }
    assert(ts.take(k as int) =~= ts);
    hits
}

fn is_unix_style(path: &FilePath) -> (r: bool)
    ensures
        r == unix_style(path@),
{
    let mut i: usize = 0;
    while i < path.comps.len()
        invariant
            i <= path.comps.len(),
            forall|j: int|
                0 <= j < i ==> !((#[trigger] path@[j]).len() > 0 && path@[j][0] == '.'),
        decreases path.comps.len() - i,
    {
        assert(path@[i as int] == path.comps@[i as int]@);
        let c = chars_of(path.comps[i].as_str());
        if c.len() > 0 && c[0] == '.' {
            return true;
        }
        i = i + 1;
    }
    false
}

fn tier3_name_match(owners: &Owners, candidate: &Candidate) -> (r: Vec<OwnerHit>)
    ensures
        r.deep_view() == name_hits(owners@, candidate@),
{
    let apps = app_hits(owners, candidate);
    let cli = cli_hits(owners, candidate);
    proof {
        assert(apps.deep_view().len() == apps.len());
        assert(cli.deep_view().len() == cli.len());
    }
    if apps.len() == 0 {
        cli
    } else if cli.len() > 0 && is_unix_style(&candidate.path) {
        cli
    } else {
        apps
    }
}

/// Pairs of an owner and a path that a running process of the owner has open.
pub open spec fn open_hit(c: CandidateView) -> spec_fn((Seq<char>, Seq<Seq<char>>)) -> Option<
    (Seq<char>, Seq<char>),
> {
    |o: (Seq<char>, Seq<Seq<char>>)|
        if o.1 == c.path {
            Some((o.0, "a running process of this app has it open"@))
        } else {
            None
        }
}

fn tier4_observed(observed: &Vec<(String, FilePath)>, candidate: &Candidate) -> (r: Vec<OwnerHit>)
    ensures
        r.deep_view() == observed.deep_view().filter_map(open_hit(candidate@)),
{
    let ghost all = observed.deep_view();
    let ghost pick = open_hit(candidate@);
    let mut hits: Vec<OwnerHit> = Vec::new();
    let mut i: usize = 0;
    proof {
        assert(all.take(0) =~= seq![]);
        reveal(Seq::filter_map);
        assert(hits.deep_view() =~= all.take(0).filter_map(pick));
    }
    while i < observed.len()
        invariant
            i <= observed.len(),
            all == observed.deep_view(),
            pick == open_hit(candidate@),
            hits.deep_view() == all.take(i as int).filter_map(pick),
        decreases observed.len() - i,
    {
        proof {
            assert(all[i as int] == observed@[i as int].deep_view());
            all.lemma_filter_map_take_succ(pick, i as int);
        }
        if observed[i].1.same(&candidate.path) {
            put_hit(
                &mut hits,
                observed[i].0.as_str(),
                "a running process of this app has it open".to_owned(),
            );
        }
        assert(hits.deep_view() =~= all.take(i + 1).filter_map(pick));
        i = i + 1;
    }
    assert(all.take(i as int) =~= all);
    hits
}

/// Whether an owner with this key was found.
pub open spec fn is_owner(owners: OwnersView, key: Seq<char>) -> bool {
    (exists|i: int| 0 <= i < owners.apps.len() && (#[trigger] owners.apps[i]).owner.key == key) || (
    exists|i: int|
        0 <= i < owners.formulae.len() && (#[trigger] owners.formulae[i]).owner.key == key) || (
    exists|i: int| 0 <= i < owners.tools.len() && (#[trigger] owners.tools[i]).owner.key == key)
        || (owners.homebrew is Some && owners.homebrew->0.key == key)
}

fn owner_exists(owners: &Owners, key: &str) -> (r: bool)
    ensures
        r == is_owner(owners@, key@),
{
    let mut i: usize = 0;
    while i < owners.apps.len()
        invariant
            i <= owners.apps.len(),
            forall|j: int| 0 <= j < i ==> (#[trigger] owners@.apps[j]).owner.key != key@,
        decreases owners.apps.len() - i,
    {
        assert(owners@.apps[i as int] == owners.apps@[i as int].deep_view());
        if same(owners.apps[i].owner.key.as_str(), key) {
            return true;
        }
        i = i + 1;
    }
    let mut k: usize = 0;
    while k < owners.formulae.len()
        invariant
            k <= owners.formulae.len(),
            forall|j: int| 0 <= j < k ==> (#[trigger] owners@.formulae[j]).owner.key != key@,
        decreases owners.formulae.len() - k,
    {
        assert(owners@.formulae[k as int] == owners.formulae@[k as int].deep_view());
        if same(owners.formulae[k].owner.key.as_str(), key) {
            return true;
        }
        k = k + 1;
    }
    let mut n: usize = 0;
    while n < owners.tools.len()
        invariant
            n <= owners.tools.len(),
            forall|j: int| 0 <= j < n ==> (#[trigger] owners@.tools[j]).owner.key != key@,
        decreases owners.tools.len() - n,
    {
        assert(owners@.tools[n as int] == owners.tools@[n as int].deep_view());
        if same(owners.tools[n].owner.key.as_str(), key) {
            return true;
        }
        n = n + 1;
    }
    match &owners.homebrew {
        Some(h) => same(h.key.as_str(), key),
        None => false,
    }
}

/// The name that the table is asked for: the vendor's where there is one.
pub open spec fn table_name(c: CandidateView) -> Seq<char> {
    match c.vendor {
        Some(v) => v,
        None => c.name,
    }
}

/// What an app gets from a row for a vendor.
pub open spec fn vendor_hit(prefix: Seq<char>, evidence: Seq<char>) -> spec_fn(AppView) -> Option<
    (Seq<char>, Seq<char>),
> {
    |app: AppView|
        if starts(app.owner.key, prefix) {
            Some((app.owner.key, evidence))
        } else {
            None
        }
}

/// The owners that a row of the table gives a candidate to.
pub open spec fn row_hits(owners: OwnersView, c: CandidateView, row: CuratedView) -> Seq<
    (Seq<char>, Seq<char>),
> {
    let evidence = "`"@ + table_name(c) + "` — "@ + row.reason;
    if lower_case(row.name) != lower_case(table_name(c)) {
        seq![]
    } else {
        match row.target {
            TargetView::Owner(key) => if is_owner(owners, key) {
                seq![(key, evidence)]
            } else {
                seq![]
            },
            TargetView::VendorPrefix(p) => owners.apps.filter_map(vendor_hit(p, evidence)),
        }
    }
}

/// The owners that the table gives a candidate to.
pub open spec fn table_hits(owners: OwnersView, c: CandidateView, rows: Seq<CuratedView>) -> Seq<
    (Seq<char>, Seq<char>),
>
    decreases rows.len(),
{
    if rows.len() == 0 {
        seq![]
    } else {
        table_hits(owners, c, rows.drop_last()) + row_hits(owners, c, rows.last())
    }
}

fn vendor_hits(owners: &Owners, prefix: &str, evidence: &str, hits: &mut Vec<OwnerHit>)
    ensures
        final(hits).deep_view() == old(hits).deep_view() + owners@.apps.filter_map(
            vendor_hit(prefix@, evidence@),
        ),
{
    let ghost all = owners@.apps;
    let ghost pick = vendor_hit(prefix@, evidence@);
    let ghost was = hits.deep_view();
    let mut i: usize = 0;
    proof {
        assert(all.take(0) =~= seq![]);
        reveal(Seq::filter_map);
        assert(was + all.take(0).filter_map(pick) =~= was);
    }
    while i < owners.apps.len()
        invariant
            i <= owners.apps.len(),
            all == owners@.apps,
            pick == vendor_hit(prefix@, evidence@),
            hits.deep_view() == was + all.take(i as int).filter_map(pick),
        decreases owners.apps.len() - i,
    {
        let app = &owners.apps[i];
        proof {
            assert(all[i as int] == app.deep_view());
            all.lemma_filter_map_take_succ(pick, i as int);
        }
        if str_starts(app.owner.key.as_str(), prefix) {
            put_hit(hits, app.owner.key.as_str(), evidence.to_owned());
        }
        assert(hits.deep_view() =~= was + all.take(i + 1).filter_map(pick));
        i = i + 1;
    }
    assert(all.take(i as int) =~= all);
}

fn tier5_curated(owners: &Owners, candidate: &Candidate) -> (r: Vec<OwnerHit>)
    ensures
        r.deep_view() == table_hits(owners@, candidate@, curated_table(owners@.agent)),
{
    let rows = curated_rows(owners.agent);
    let ghost all = curated_table(owners@.agent);
    let name = match &candidate.vendor {
        Some(v) => v.as_str(),
        None => candidate.name.as_str(),
    };
    let low = to_lower_case(name);
    let mut hits: Vec<OwnerHit> = Vec::new();
    let mut i: usize = 0;
    assert(hits.deep_view() =~= table_hits(owners@, candidate@, all.take(0)));
    assert(rows.deep_view().len() == rows.len());
    while i < rows.len()
        invariant
            i <= rows.len(),
            rows.deep_view() == all,
            name@ == table_name(candidate@),
            low@ == lower_case(name@),
            hits.deep_view() == table_hits(owners@, candidate@, all.take(i as int)),
        decreases rows.len() - i,
    {
        let row = &rows[i];
        let ghost was = hits.deep_view();
        proof {
            assert(all[i as int] == rows@[i as int].deep_view());
            assert(all.take(i + 1).drop_last() =~= all.take(i as int));
            assert(all.take(i + 1).last() == row.deep_view());
        }
        let row_low = to_lower_case(row.name);
        if same(row_low.as_str(), low.as_str()) {
            let evidence = cat4("`", name, "` — ", row.reason);
            match row.target {
                CuratedTarget::Owner(key) => {
                    if owner_exists(owners, key) {
                        put_hit(&mut hits, key, evidence);
                    }
                },
                CuratedTarget::VendorPrefix(p) => {
                    vendor_hits(owners, p, evidence.as_str(), &mut hits);
                },
            }
        }
        assert(hits.deep_view() =~= was + row_hits(owners@, candidate@, all[i as int]));
        i = i + 1;
    }
    assert(all.take(i as int) =~= all);
    hits
}

/// The owners of a candidate and how sure that is: the first kind of evidence that finds any.
pub open spec fn resolution(
    owners: OwnersView,
    groups: Groups,
    observed: Seq<(Seq<char>, Seq<Seq<char>>)>,
    c: CandidateView,
) -> (Seq<(Seq<char>, Seq<char>)>, EvidenceTier) {
    let exact = owners.apps.filter_map(exact_hit(groups, c));
    let group = owners.apps.filter_map(group_hit(c));
    let named = name_hits(owners, c);
    let open = observed.filter_map(open_hit(c));
    if exact.len() > 0 {
        (exact, EvidenceTier::Exact)
    } else if group.len() > 0 {
        (group, EvidenceTier::Exact)
    } else if named.len() > 0 {
        (named, EvidenceTier::NameMatch)
    } else if open.len() > 0 {
        (open, EvidenceTier::Observed)
    } else {
        (table_hits(owners, c, curated_table(owners.agent)), EvidenceTier::Curated)
    }
}

/// Which owners a candidate belongs to, and how sure that is.
pub fn resolve_candidate(
    owners: &Owners,
    groups: &PathMap<Vec<String>>,
    observed: &Vec<(String, FilePath)>,
    candidate: &Candidate,
) -> (r: (Vec<OwnerHit>, EvidenceTier))
    requires
        groups.wf(),
    ensures
        (r.0.deep_view(), r.1) == resolution(owners@, groups@, observed.deep_view(), candidate@),
{
    let hits = tier1_exact(owners, groups, candidate);
    assert(hits.deep_view().len() == hits.len());
    if hits.len() > 0 {
        return (hits, EvidenceTier::Exact);
    }
    let hits = tier2_group_heuristic(owners, candidate);
    assert(hits.deep_view().len() == hits.len());
    if hits.len() > 0 {
        return (hits, EvidenceTier::Exact);
    }
    let hits = tier3_name_match(owners, candidate);
    assert(hits.deep_view().len() == hits.len());
    if hits.len() > 0 {
        return (hits, EvidenceTier::NameMatch);
    }
    let hits = tier4_observed(observed, candidate);
    assert(hits.deep_view().len() == hits.len());
    if hits.len() > 0 {
        return (hits, EvidenceTier::Observed);
    }
    (tier5_curated(owners, candidate), EvidenceTier::Curated)
}

/// The claim on a candidate that nobody owns.
pub open spec fn orphan_claim(c: CandidateView) -> ClaimView {
    plain_claim(
        c.path,
        UNATTRIBUTED_OWNER@,
        c.parent_kind,
        EvidenceTier::Curated,
        if starts(c.name, "com.apple."@) {
            "macOS system component"@
        } else {
            "no owner matched `"@ + c.name + "`"@
        },
    ).labelled(c.name)
}

/// The claim on a candidate that nobody owns.
pub fn unattributed_claim(candidate: &Candidate) -> (r: Claim)
    ensures
        r@ == orphan_claim(candidate@),
{
    let name = candidate.name.as_str();
    let reason = if str_starts(name, "com.apple.") {
        "macOS system component".to_owned()
    } else {
        cat3("no owner matched `", name, "`")
    };
    Claim::new(
        candidate.path.copy(),
        UNATTRIBUTED_OWNER,
        candidate.parent_kind,
        EvidenceTier::Curated,
        reason.as_str(),
    ).label(name)
}

/// The claims of the first `n` owners of a candidate.
pub open spec fn hit_claims(
    c: CandidateView,
    hits: Seq<(Seq<char>, Seq<char>)>,
    tier: EvidenceTier,
) -> Seq<ClaimView> {
    Seq::new(
        hits.len(),
        |i: int|
            plain_claim(c.path, hits[i].0, c.parent_kind, tier, hits[i].1).labelled(c.name),
    )
}

/// Whether somebody owns a candidate.
pub open spec fn is_claimed(
    owners: OwnersView,
    groups: Groups,
    observed: Seq<(Seq<char>, Seq<Seq<char>>)>,
    c: CandidateView,
) -> bool {
    resolution(owners, groups, observed, c).0.len() > 0
}

/// The claims of the candidates' owners.
pub open spec fn owned_claims(
    owners: OwnersView,
    groups: Groups,
    observed: Seq<(Seq<char>, Seq<Seq<char>>)>,
    cs: Seq<CandidateView>,
) -> Seq<ClaimView>
    decreases cs.len(),
{
    if cs.len() == 0 {
        seq![]
    } else {
        let c = cs.last();
        let r = resolution(owners, groups, observed, c);
        owned_claims(owners, groups, observed, cs.drop_last()) + hit_claims(c, r.0, r.1)
    }
}

/// Whether somebody owns a candidate that `p` lies directly in.
pub open spec fn in_claimed(
    owners: OwnersView,
    groups: Groups,
    observed: Seq<(Seq<char>, Seq<Seq<char>>)>,
    cs: Seq<CandidateView>,
    p: Seq<Seq<char>>,
) -> bool {
    parent(p) is Some && exists|i: int|
        0 <= i < cs.len() && (#[trigger] cs[i]).path == parent(p)->0 && is_claimed(
            owners,
            groups,
            observed,
            cs[i],
        )
}

/// The claims on candidates that nobody owns, but for those inside a candidate that somebody
/// owns: they are part of it.
pub open spec fn orphan_claims(
    owners: OwnersView,
    groups: Groups,
    observed: Seq<(Seq<char>, Seq<Seq<char>>)>,
    all: Seq<CandidateView>,
    cs: Seq<CandidateView>,
) -> Seq<ClaimView>
    decreases cs.len(),
{
    if cs.len() == 0 {
        seq![]
    } else {
        let c = cs.last();
        let before = orphan_claims(owners, groups, observed, all, cs.drop_last());
        if !is_claimed(owners, groups, observed, c) && !in_claimed(
            owners,
            groups,
            observed,
            all,
            c.path,
        ) {
            before.push(orphan_claim(c))
        } else {
            before
        }
    }
}

/// The claim of an owner on its own place.
pub open spec fn own_claim(o: OwnerView, evidence: Seq<char>) -> Option<ClaimView> {
    match o.path {
        Some(p) => Some(
            plain_claim(p, o.key, EntryKind::AppBundle, EvidenceTier::Exact, evidence).labelled(
                o.name,
            ),
        ),
        None => None,
    }
}

/// A tool's claims: on its place and on its stores.
pub open spec fn tool_claims(t: ToolView) -> Seq<ClaimView> {
    (match own_claim(t.owner, "install directory"@) {
        Some(c) => seq![c],
        None => seq![],
    }) + Seq::new(
        t.extra_paths.len(),
        |i: int|
            plain_claim(
                t.extra_paths[i],
                t.owner.key,
                EntryKind::AppBundle,
                EvidenceTier::Exact,
                "shared store directory"@,
            ).labelled(t.owner.name),
    )
}

/// The claims of several tools.
pub open spec fn tools_claims(ts: Seq<ToolView>) -> Seq<ClaimView>
    decreases ts.len(),
{
    if ts.len() == 0 {
        seq![]
    } else {
        tools_claims(ts.drop_last()) + tool_claims(ts.last())
    }
}

/// The directories of Homebrew's prefix that are Homebrew's own.
pub open spec fn prefix_dirs() -> Seq<Seq<char>> {
    seq![
        "bin"@,
        "lib"@,
        "share"@,
        "opt"@,
        "var"@,
        "etc"@,
        "Library"@,
        "Frameworks"@,
        "include"@,
        "sbin"@,
        "Homebrew"@,
    ]
}

/// Homebrew's own claims: its cache, its logs, and the directories of its prefix.
pub open spec fn homebrew_claims(home: Seq<Seq<char>>, h: OwnerView) -> Seq<ClaimView> {
    seq![
        plain_claim(
            child(home, "Library/Caches/Homebrew"@),
            h.key,
            EntryKind::Cache,
            EvidenceTier::Exact,
            "Homebrew's own cache"@,
        ).labelled("Homebrew"@),
        plain_claim(
            child(home, "Library/Logs/Homebrew"@),
            h.key,
            EntryKind::Logs,
            EvidenceTier::Exact,
            "Homebrew's own logs"@,
        ).labelled("Homebrew"@),
    ] + (match h.path {
        Some(p) => Seq::new(
            prefix_dirs().len(),
            |i: int|
                plain_claim(
                    child(p, prefix_dirs()[i]),
                    h.key,
                    EntryKind::AppBundle,
                    EvidenceTier::Exact,
                    "Homebrew prefix"@,
                ).labelled("Homebrew"@),
        ),
        None => seq![],
    })
}

/// An app's claim on its bundle.
pub open spec fn bundle_claim() -> spec_fn(AppView) -> Option<ClaimView> {
    |a: AppView| own_claim(a.owner, "the app bundle"@)
}

/// A formula's claim on its directory.
pub open spec fn cellar_claim() -> spec_fn(FormulaView) -> Option<ClaimView> {
    |f: FormulaView| own_claim(f.owner, "Cellar"@)
}

/// The claims of all owners on their own places.
pub open spec fn own_claims(home: Seq<Seq<char>>, owners: OwnersView) -> Seq<ClaimView> {
    owners.apps.filter_map(bundle_claim()) + owners.formulae.filter_map(cellar_claim())
        + tools_claims(owners.tools) + (match owners.homebrew {
        Some(h) => homebrew_claims(home, h),
        None => seq![],
    })
}

fn owner_claim(
    path: &FilePath,
    owner: &crate::attribution::model::Owner,
    kind: EntryKind,
    evidence: &str,
) -> (r: Claim)
    ensures
        r@ == plain_claim(path@, owner@.key, kind, EvidenceTier::Exact, evidence@).labelled(
            owner@.name,
        ),
{
    Claim::new(path.copy(), owner.key.as_str(), kind, EvidenceTier::Exact, evidence).label(
        owner.name.as_str(),
    )
}

fn put_homebrew(home: &FilePath, h: &crate::attribution::model::Owner, claims: &mut Vec<Claim>)
    ensures
        final(claims).deep_view() == old(claims).deep_view() + homebrew_claims(home@, h@),
{
    let ghost was = claims.deep_view();
    let key = h.key.as_str();
    put(
        claims,
        Claim::new(
            home.child("Library/Caches/Homebrew"),
            key,
            EntryKind::Cache,
            EvidenceTier::Exact,
            "Homebrew's own cache",
        ).label("Homebrew"),
    );
    put(
        claims,
        Claim::new(
            home.child("Library/Logs/Homebrew"),
            key,
            EntryKind::Logs,
            EvidenceTier::Exact,
            "Homebrew's own logs",
        ).label("Homebrew"),
    );
    if let Some(p) = &h.path {
        let dirs = vec![
            "bin",
            "lib",
            "share",
            "opt",
            "var",
            "etc",
            "Library",
            "Frameworks",
            "include",
            "sbin",
            "Homebrew",
        ];
        assert(dirs.deep_view() =~= prefix_dirs());
        let ghost two = claims.deep_view();
        let ghost rest = Seq::new(
            prefix_dirs().len(),
            |i: int|
                plain_claim(
                    child(p@, prefix_dirs()[i]),
                    h@.key,
                    EntryKind::AppBundle,
                    EvidenceTier::Exact,
                    "Homebrew prefix"@,
                ).labelled("Homebrew"@),
        );
        let mut i: usize = 0;
        assert(two + rest.take(0) =~= two);
        assert(dirs.deep_view().len() == dirs.len());
        while i < dirs.len()
            invariant
                i <= dirs.len(),
                key@ == h@.key,
                dirs.deep_view() == prefix_dirs(),
                rest == Seq::new(
                    prefix_dirs().len(),
                    |i: int|
                        plain_claim(
                            child(p@, prefix_dirs()[i]),
                            h@.key,
                            EntryKind::AppBundle,
                            EvidenceTier::Exact,
                            "Homebrew prefix"@,
                        ).labelled("Homebrew"@),
                ),
                claims.deep_view() == two + rest.take(i as int),
            decreases dirs.len() - i,
        {
            assert(dirs.deep_view()[i as int] == dirs@[i as int]@);
            put(
                claims,
                Claim::new(
                    p.child(dirs[i]),
                    key,
                    EntryKind::AppBundle,
                    EvidenceTier::Exact,
                    "Homebrew prefix",
                ).label("Homebrew"),
            );
            assert(claims.deep_view() =~= two + rest.take(i + 1));
            i = i + 1;
        }
        assert(rest.take(i as int) =~= rest);
    }
    assert(claims.deep_view() =~= was + homebrew_claims(home@, h@));
}

fn put_tools(owners: &Owners, claims: &mut Vec<Claim>)
    ensures
        final(claims).deep_view() == old(claims).deep_view() + tools_claims(owners@.tools),
{
    let ghost was = claims.deep_view();
    let ghost all = owners@.tools;
    let mut i: usize = 0;
    assert(was + tools_claims(all.take(0)) =~= was);
    while i < owners.tools.len()
        invariant
            i <= owners.tools.len(),
            all == owners@.tools,
            claims.deep_view() == was + tools_claims(all.take(i as int)),
        decreases owners.tools.len() - i,
    {
        let t = &owners.tools[i];
        let ghost tv = all[i as int];
        let ghost before = claims.deep_view();
        proof {
            assert(tv == t.deep_view());
            assert(all.take(i + 1).drop_last() =~= all.take(i as int));
            assert(all.take(i + 1).last() == tv);
        }
        if let Some(p) = &t.owner.path {
            put(claims, owner_claim(p, &t.owner, EntryKind::AppBundle, "install directory"));
        }
        let ghost first = claims.deep_view();
        let ghost extra = Seq::new(
            tv.extra_paths.len(),
            |i: int|
                plain_claim(
                    tv.extra_paths[i],
                    tv.owner.key,
                    EntryKind::AppBundle,
                    EvidenceTier::Exact,
                    "shared store directory"@,
                ).labelled(tv.owner.name),
        );
        let mut k: usize = 0;
        assert(first + extra.take(0) =~= first);
        while k < t.extra_paths.len()
            invariant
                k <= t.extra_paths.len(),
                tv == t.deep_view(),
                extra == Seq::new(
                    tv.extra_paths.len(),
                    |i: int|
                        plain_claim(
                            tv.extra_paths[i],
                            tv.owner.key,
                            EntryKind::AppBundle,
                            EvidenceTier::Exact,
                            "shared store directory"@,
                        ).labelled(tv.owner.name),
                ),
                claims.deep_view() == first + extra.take(k as int),
            decreases t.extra_paths.len() - k,
        {
            assert(tv.extra_paths[k as int] == t.extra_paths@[k as int]@);
            put(
                claims,
                owner_claim(
                    &t.extra_paths[k],
                    &t.owner,
                    EntryKind::AppBundle,
                    "shared store directory",
                ),
            );
            assert(claims.deep_view() =~= first + extra.take(k + 1));
            k = k + 1;
        }
        assert(extra.take(k as int) =~= extra);
        assert(claims.deep_view() =~= before + tool_claims(tv));
        assert(claims.deep_view() =~= was + tools_claims(all.take(i + 1)));
        i = i + 1;
    }
    assert(all.take(i as int) =~= all);
}

/// The claims of all owners on their own places.
fn owner_own_claims(home: &FilePath, owners: &Owners) -> (r: Vec<Claim>)
    ensures
        r.deep_view() == own_claims(home@, owners@),
{
    let mut claims: Vec<Claim> = Vec::new();
    let ghost apps = owners@.apps;
    let ghost fs = owners@.formulae;
    let mut i: usize = 0;
    proof {
        assert(apps.take(0) =~= seq![]);
        assert(fs.take(0) =~= seq![]);
        reveal(Seq::filter_map);
        assert(claims.deep_view() =~= apps.take(0).filter_map(bundle_claim()));
    }
    while i < owners.apps.len()
        invariant
            i <= owners.apps.len(),
            apps == owners@.apps,
            claims.deep_view() == apps.take(i as int).filter_map(bundle_claim()),
        decreases owners.apps.len() - i,
    {
        let a = &owners.apps[i];
        proof {
            assert(apps[i as int] == a.deep_view());
            apps.lemma_filter_map_take_succ(bundle_claim(), i as int);
        }
        if let Some(p) = &a.owner.path {
            put(&mut claims, owner_claim(p, &a.owner, EntryKind::AppBundle, "the app bundle"));
        }
        assert(claims.deep_view() =~= apps.take(i + 1).filter_map(bundle_claim()));
        i = i + 1;
    }
    assert(apps.take(i as int) =~= apps);
    let ghost first = claims.deep_view();
    let mut k: usize = 0;
    proof {
        reveal(Seq::filter_map);
        assert(first + fs.take(0).filter_map(cellar_claim()) =~= first);
    }
    while k < owners.formulae.len()
        invariant
            k <= owners.formulae.len(),
            fs == owners@.formulae,
            claims.deep_view() == first + fs.take(k as int).filter_map(cellar_claim()),
        decreases owners.formulae.len() - k,
    {
        let f = &owners.formulae[k];
        proof {
            assert(fs[k as int] == f.deep_view());
            fs.lemma_filter_map_take_succ(cellar_claim(), k as int);
        }
        if let Some(p) = &f.owner.path {
            put(&mut claims, owner_claim(p, &f.owner, EntryKind::AppBundle, "Cellar"));
        }
        assert(claims.deep_view() =~= first + fs.take(k + 1).filter_map(cellar_claim()));
        k = k + 1;
    }
    assert(fs.take(k as int) =~= fs);
    put_tools(owners, &mut claims);
    if let Some(h) = &owners.homebrew {
        put_homebrew(home, h, &mut claims);
    }
    assert(claims.deep_view() =~= own_claims(home@, owners@));
    claims
}

/// The first formula with this name.
pub open spec fn formula_named(fs: Seq<FormulaView>, name: Seq<char>) -> Option<FormulaView>
    decreases fs.len(),
{
    if fs.len() == 0 {
        None
    } else if fs[0].owner.name == name {
        Some(fs[0])
    } else {
        formula_named(fs.skip(1), name)
    }
}

/// What a formula that needs `f` claims of it.
pub open spec fn dependent_claim(all: Seq<FormulaView>, f: FormulaView) -> spec_fn(
    Seq<char>,
) -> Option<ClaimView> {
    |name: Seq<char>|
        match (f.owner.path, formula_named(all, name)) {
            (Some(p), Some(d)) => Some(
                plain_claim(
                    p,
                    d.owner.key,
                    EntryKind::AppBundle,
                    EvidenceTier::Exact,
                    "dependency of "@ + name,
                ).labelled(f.owner.name),
            ),
            _ => None,
        }
}

/// What formulae claim of the formulae that they need, so that these are shared among them.
pub open spec fn sharing_claims(all: Seq<FormulaView>, fs: Seq<FormulaView>) -> Seq<ClaimView>
    decreases fs.len(),
{
    if fs.len() == 0 {
        seq![]
    } else {
        sharing_claims(all, fs.drop_last()) + fs.last().dependents.filter_map(
            dependent_claim(all, fs.last()),
        )
    }
}

fn find_formula<'a>(
    fs: &'a Vec<crate::attribution::apps::owners::FormulaOwner>,
    name: &str,
) -> (r: Option<&'a crate::attribution::apps::owners::FormulaOwner>)
    ensures
        r is Some <==> formula_named(fs.deep_view(), name@) is Some,
        r is Some ==> r->0.deep_view() == formula_named(fs.deep_view(), name@)->0,
{
    let ghost all = fs.deep_view();
    let mut i: usize = 0;
    assert(all.skip(0) =~= all);
    while i < fs.len()
        invariant
            i <= fs.len(),
            all == fs.deep_view(),
            formula_named(all, name@) == formula_named(all.skip(i as int), name@),
        decreases fs.len() - i,
    {
        assert(all.skip(i as int)[0] == fs@[i as int].deep_view());
        assert(all.skip(i as int).skip(1) =~= all.skip(i + 1));
        if same(fs[i].owner.name.as_str(), name) {
            return Some(&fs[i]);
        }
        i = i + 1;
    }
    None
}

/// What formulae claim of the formulae that they need, so that these are shared among them.
pub fn formula_sharing_claims(owners: &Owners) -> (r: Vec<Claim>)
    ensures
        r.deep_view() == sharing_claims(owners@.formulae, owners@.formulae),
{
    let ghost fs = owners@.formulae;
    let mut claims: Vec<Claim> = Vec::new();
    let mut i: usize = 0;
    assert(claims.deep_view() =~= sharing_claims(fs, fs.take(0)));
    while i < owners.formulae.len()
        invariant
            i <= owners.formulae.len(),
            fs == owners@.formulae,
            fs == owners.formulae.deep_view(),
            claims.deep_view() == sharing_claims(fs, fs.take(i as int)),
        decreases owners.formulae.len() - i,
    {
        let f = &owners.formulae[i];
        let ghost fv = fs[i as int];
        let ghost before = claims.deep_view();
        let ghost deps = fv.dependents;
        let ghost pick = dependent_claim(fs, fv);
        proof {
            assert(fv == f.deep_view());
            assert(fs.take(i + 1).drop_last() =~= fs.take(i as int));
            assert(fs.take(i + 1).last() == fv);
            assert(deps.take(0) =~= seq![]);
            reveal(Seq::filter_map);
            assert(before + deps.take(0).filter_map(pick) =~= before);
        }
        let mut k: usize = 0;
        while k < f.dependents.len()
            invariant
                k <= f.dependents.len(),
                fs == owners.formulae.deep_view(),
                fv == f.deep_view(),
                deps == fv.dependents,
                pick == dependent_claim(fs, fv),
                claims.deep_view() == before + deps.take(k as int).filter_map(pick),
            decreases f.dependents.len() - k,
        {
            let name = f.dependents[k].as_str();
            proof {
                assert(deps[k as int] == name@);
                deps.lemma_filter_map_take_succ(pick, k as int);
            }
            if let Some(p) = &f.owner.path {
                if let Some(d) = find_formula(&owners.formulae, name) {
                    put(
                        &mut claims,
                        Claim::new(
                            p.copy(),
                            d.owner.key.as_str(),
                            EntryKind::AppBundle,
                            EvidenceTier::Exact,
                            cat2("dependency of ", name).as_str(),
                        ).label(f.owner.name.as_str()),
                    );
                }
            }
            assert(claims.deep_view() =~= before + deps.take(k + 1).filter_map(pick));
            k = k + 1;
        }
        assert(deps.take(k as int) =~= deps);
        i = i + 1;
    }
    assert(fs.take(i as int) =~= fs);
    claims
}

/// All claims of the app axis but for Apple's data: the candidates' owners, the candidates that
/// nobody owns, the owners' own places, and what formulae share.
pub open spec fn linked(
    home: Seq<Seq<char>>,
    owners: OwnersView,
    groups: Groups,
    observed: Seq<(Seq<char>, Seq<Seq<char>>)>,
    cs: Seq<CandidateView>,
) -> Seq<ClaimView> {
    owned_claims(owners, groups, observed, cs) + orphan_claims(owners, groups, observed, cs, cs)
        + own_claims(home, owners) + sharing_claims(owners.formulae, owners.formulae)
}

fn put_hits(candidate: &Candidate, hits: &Vec<OwnerHit>, tier: EvidenceTier, claims: &mut Vec<Claim>)
    ensures
        final(claims).deep_view() == old(claims).deep_view() + hit_claims(
            candidate@,
            hits.deep_view(),
            tier,
        ),
{
    let ghost was = claims.deep_view();
    let ghost want = hit_claims(candidate@, hits.deep_view(), tier);
    let mut i: usize = 0;
    assert(was + want.take(0) =~= was);
    while i < hits.len()
        invariant
            i <= hits.len(),
            want == hit_claims(candidate@, hits.deep_view(), tier),
            claims.deep_view() == was + want.take(i as int),
        decreases hits.len() - i,
    {
        assert(hits.deep_view()[i as int] == hits@[i as int].deep_view());
        put(
            claims,
            Claim::new(
                candidate.path.copy(),
                hits[i].key.as_str(),
                candidate.parent_kind,
                tier,
                hits[i].evidence.as_str(),
            ).label(candidate.name.as_str()),
        );
        assert(claims.deep_view() =~= was + want.take(i + 1));
        i = i + 1;
    }
    assert(want.take(i as int) =~= want);
}

/// Link every candidate to its owners, and add what the owners have of themselves.
pub fn link(
    env: &ResolveEnv,
    owners: &Owners,
    candidates: &Vec<Candidate>,
    groups: &PathMap<Vec<String>>,
    observed: &Vec<(String, FilePath)>,
) -> (r: Vec<Claim>)
    requires
        groups.wf(),
    ensures
        r.deep_view() == linked(
            env@.home,
            owners@,
            groups@,
            observed.deep_view(),
            candidates.deep_view(),
        ),
{
    let ghost cs = candidates.deep_view();
    let ghost ov = owners@;
    let ghost gv = groups@;
    let ghost obs = observed.deep_view();
    let mut claims: Vec<Claim> = Vec::new();
    let mut claimed: PathMap<bool> = PathMap::new();
    let mut owned: Vec<bool> = Vec::new();
    let mut i: usize = 0;
    assert(claims.deep_view() =~= owned_claims(ov, gv, obs, cs.take(0)));
    while i < candidates.len()
        invariant
            i <= candidates.len(),
            groups.wf(),
            claimed.wf(),
            owned.len() == i,
            forall|j: int| 0 <= j < i ==> #[trigger] owned@[j] == is_claimed(ov, gv, obs, cs[j]),
            cs == candidates.deep_view(),
            ov == owners@,
            gv == groups@,
            obs == observed.deep_view(),
            claims.deep_view() == owned_claims(ov, gv, obs, cs.take(i as int)),
            forall|p: Seq<Seq<char>>| #[trigger]
                claimed@.contains_key(p) <==> exists|j: int|
                    0 <= j < i && (#[trigger] cs[j]).path == p && is_claimed(ov, gv, obs, cs[j]),
        decreases candidates.len() - i,
    {
        let c = &candidates[i];
        let ghost before = claimed@;
        proof {
            assert(cs[i as int] == c@);
            assert(cs.take(i + 1).drop_last() =~= cs.take(i as int));
            assert(cs.take(i + 1).last() == c@);
        }
        let (hits, tier) = resolve_candidate(owners, groups, observed, c);
        assert(hits.deep_view().len() == hits.len());
        put_hits(c, &hits, tier, &mut claims);
        owned.push(hits.len() > 0);
        if hits.len() > 0 {
            claimed.set(c.path.copy(), true);
            proof {
                assert forall|p: Seq<Seq<char>>| #[trigger] claimed@.contains_key(p) <==> exists|j: int|
                    0 <= j < i + 1 && (#[trigger] cs[j]).path == p && is_claimed(ov, gv, obs, cs[j]) by {
                    if p == c@.path {
                        assert(cs[i as int].path == p && is_claimed(ov, gv, obs, cs[i as int]));
                    } else if before.contains_key(p) {
                        let j = choose|j: int|
                            0 <= j < i && (#[trigger] cs[j]).path == p && is_claimed(
                                ov,
                                gv,
                                obs,
                                cs[j],
                            );
                        assert(j < i + 1);
                    }
                }
            }
        } else {
            proof {
                assert forall|p: Seq<Seq<char>>| #[trigger] claimed@.contains_key(p) <==> exists|j: int|
                    0 <= j < i + 1 && (#[trigger] cs[j]).path == p && is_claimed(ov, gv, obs, cs[j]) by {
                    if before.contains_key(p) {
                        let j = choose|j: int|
                            0 <= j < i && (#[trigger] cs[j]).path == p && is_claimed(
                                ov,
                                gv,
                                obs,
                                cs[j],
                            );
                        assert(j < i + 1);
                    }
                }
            }
        }
        i = i + 1;
    }
    assert(cs.take(i as int) =~= cs);
    let ghost first = claims.deep_view();
    let mut k: usize = 0;
    assert(first + orphan_claims(ov, gv, obs, cs, cs.take(0)) =~= first);
    while k < candidates.len()
        invariant
            k <= candidates.len(),
            claimed.wf(),
            owned.len() == cs.len(),
            forall|j: int|
                0 <= j < cs.len() ==> #[trigger] owned@[j] == is_claimed(ov, gv, obs, cs[j]),
            cs == candidates.deep_view(),
            ov == owners@,
            gv == groups@,
            obs == observed.deep_view(),
            claims.deep_view() == first + orphan_claims(ov, gv, obs, cs, cs.take(k as int)),
            forall|p: Seq<Seq<char>>| #[trigger]
                claimed@.contains_key(p) <==> exists|j: int|
                    0 <= j < cs.len() && (#[trigger] cs[j]).path == p && is_claimed(
                        ov,
                        gv,
                        obs,
                        cs[j],
                    ),
        decreases candidates.len() - k,
    {
        let c = &candidates[k];
        proof {
            assert(cs[k as int] == c@);
            assert(cs.take(k + 1).drop_last() =~= cs.take(k as int));
            assert(cs.take(k + 1).last() == c@);
        }
        if !owned[k] {
            let inside = match c.path.parent() {
                Some(up) => claimed.has(&up),
                None => false,
            };
            assert(inside == in_claimed(ov, gv, obs, cs, c@.path));
            if !inside {
                put(&mut claims, unattributed_claim(c));
            }
        }
        assert(claims.deep_view() =~= first + orphan_claims(ov, gv, obs, cs, cs.take(k + 1)));
        k = k + 1;
    }
    assert(cs.take(k as int) =~= cs);
    put_all(&mut claims, owner_own_claims(&env.home, owners));
    put_all(&mut claims, formula_sharing_claims(owners));
    assert(claims.deep_view() =~= linked(env@.home, ov, gv, obs, cs));
    claims
}

/// A row of `ps -axo pid,comm`: the number, one white space, and the program, with the white
/// space around it dropped.
pub open spec fn ps_row() -> spec_fn(Seq<char>) -> Option<(u32, Seq<char>)> {
    |line: Seq<char>|
        {
            let t = trim_start(line);
            let k = span(t, nonspaces());
            if k >= t.len() {
                None
            } else {
                match unsigned(t.take(k as int)) {
                    Some(n) => if n <= u32::MAX {
                        Some((n as u32, trim(t.skip(k as int + 1))))
                    } else {
                        None
                    },
                    None => None,
                }
            }
        }
}

/// What follows the first of the lines.
pub open spec fn behind_header(l: Seq<Seq<char>>) -> Seq<Seq<char>> {
    if l.len() == 0 {
        l
    } else {
        l.skip(1)
    }
}

/// The processes that `ps -axo pid,comm` lists below its header.
pub open spec fn ps_rows(output: Seq<char>) -> Seq<(u32, Seq<char>)> {
    behind_header(lines(output)).filter_map(ps_row())
}

fn parse_ps_line(line: &[char]) -> (r: Option<(u32, String)>)
    ensures
        r.deep_view() == ps_row()(line@),
{
    let t = trimmed_start(line);
    let mut k: usize = 0;
    while k < t.len() && !space_char(t[k])
        invariant
            k <= t.len(),
            forall|j: int| 0 <= j < k ==> !is_space(#[trigger] t@[j]),
        decreases t.len() - k,
    {
        k = k + 1;
    }
    proof {
        lemma_span_is(t@, nonspaces(), k as nat);
    }
    if k >= t.len() {
        return None;
    }
    let head = slice_subrange(t, 0, k);
    let rest = slice_subrange(t, k + 1, t.len());
    assert(head@ =~= t@.take(k as int));
    assert(rest@ =~= t@.skip(k + 1));
    match parse_unsigned(head, u32::MAX as u64) {
        Some(n) => Some((n as u32, string_of(trimmed(rest)))),
        None => None,
    }
}

/// The processes that `ps -axo pid,comm` lists, each with its program. A program's path may hold
/// spaces: only the number before it is split off.
pub fn parse_ps_pid_comm(output: &str) -> (r: Vec<(u32, String)>)
    ensures
        r.deep_view() == ps_rows(output@),
{
    let c = chars_of(output);
    let mut it = Lines::new(c.as_slice());
    let mut out: Vec<(u32, String)> = Vec::new();
    let ghost l = behind_header(lines(output@));
    if it.next().is_none() {
        proof {
            reveal(Seq::filter_map);
            assert(out.deep_view() =~= ps_rows(output@));
        }
        return out;
    }
    let ghost mut n: int = 0;
    proof {
        assert(lines(it.rest@) =~= l.skip(0));
        assert(l.take(0) =~= seq![]);
        reveal(Seq::filter_map);
        assert(out.deep_view() =~= l.take(0).filter_map(ps_row()));
    }
    loop
        invariant
            0 <= n <= l.len(),
            lines(it.rest@) == l.skip(n),
            out.deep_view() == l.take(n).filter_map(ps_row()),
        ensures
            n == l.len(),
            out.deep_view() == l.take(n).filter_map(ps_row()),
        decreases it.rest@.len(),
    {
        match it.next() {
            Some(line) => {
                let ghost was = out.deep_view();
                proof {
                    assert(line@ == l[n]);
                    l.lemma_filter_map_take_succ(ps_row(), n);
                    assert(l.skip(n).skip(1) =~= l.skip(n + 1));
                }
                if let Some(row) = parse_ps_line(line) {
                    out.push(row);
                    assert(out.deep_view() =~= was.push(row.deep_view()));
                }
                assert(out.deep_view() =~= l.take(n + 1).filter_map(ps_row()));
                proof {
                    n = n + 1;
                }
            },
            None => {
                break;
            },
        }
    }
    assert(l.take(n) =~= l);
    out
}

/// The process number that a text spells.
pub open spec fn pid_of(s: Seq<char>) -> Option<u32> {
    match unsigned(s) {
        Some(n) => if n <= u32::MAX {
            Some(n as u32)
        } else {
            None
        },
        None => None,
    }
}

/// The files that the lines of `lsof -F pn` list, each with the last process number before it.
pub open spec fn open_rows(l: Seq<Seq<char>>, pid: Option<u32>) -> Seq<(u32, Seq<Seq<char>>)>
    decreases l.len(),
{
    if l.len() == 0 {
        seq![]
    } else {
        let line = l[0];
        let rest = l.skip(1);
        if line.len() > 0 && line[0] == 'p' {
            open_rows(rest, pid_of(trim(line.skip(1))))
        } else if line.len() > 0 && line[0] == 'n' && pid is Some {
            seq![(pid->0, path_of(line.skip(1)))] + open_rows(rest, pid)
        } else {
            open_rows(rest, pid)
        }
    }
}

/// The files that `lsof -F pn` lists, each with the process that has it open.
pub fn parse_lsof_pn(output: &str) -> (r: Vec<(u32, FilePath)>)
    ensures
        r.deep_view() == open_rows(lines(output@), None),
{
    let c = chars_of(output);
    let mut it = Lines::new(c.as_slice());
    let mut out: Vec<(u32, FilePath)> = Vec::new();
    let mut pid: Option<u32> = None;
    assert(out.deep_view() + open_rows(lines(output@), None) =~= open_rows(lines(output@), None));
    loop
        invariant
            out.deep_view() + open_rows(lines(it.rest@), pid) == open_rows(lines(output@), None),
        ensures
            out.deep_view() == open_rows(lines(output@), None),
        decreases it.rest@.len(),
    {
        let ghost l = lines(it.rest@);
        match it.next() {
            Some(line) => {
                let ghost was = out.deep_view();
                if line.len() > 0 && line[0] == 'p' {
                    let rest = slice_subrange(line, 1, line.len());
                    assert(rest@ =~= line@.skip(1));
                    pid = match parse_unsigned(trimmed(rest), u32::MAX as u64) {
                        Some(n) => Some(n as u32),
                        None => None,
                    };
                } else if line.len() > 0 && line[0] == 'n' {
                    let rest = slice_subrange(line, 1, line.len());
                    assert(rest@ =~= line@.skip(1));
                    if let Some(p) = pid {
                        let row = (p, FilePath::from_text(string_of(rest).as_str()));
                        out.push(row);
                        assert(out.deep_view() =~= was.push(row.deep_view()));
                    }
                }
                assert(out.deep_view() + open_rows(l.skip(1), pid) =~= open_rows(
                    lines(output@),
                    None,
                )) by {
                    if line@.len() > 0 && line@[0] == 'n' && pid is Some {
                        assert(out.deep_view() + open_rows(l.skip(1), pid) =~= was + open_rows(
                            l,
                            pid,
                        ));
                    }
                }
            },
            None => {
                assert(open_rows(l, pid) =~= seq![]);
                assert(out.deep_view() + seq![] =~= out.deep_view());
                break;
            },
        }
    }
    out
}

/// The first app whose bundle the program lies in.
pub open spec fn program_owner(apps: Seq<AppView>, comm: Seq<char>) -> Option<Seq<char>>
    decreases apps.len(),
{
    if apps.len() == 0 {
        None
    } else if apps[0].owner.path is Some && starts(comm, path_text(apps[0].owner.path->0)) {
        Some(apps[0].owner.key)
    } else {
        program_owner(apps.skip(1), comm)
    }
}

/// The owner of a process: by the last listed program of that number that some app owns.
pub open spec fn process_owner(
    apps: Seq<AppView>,
    procs: Seq<(u32, Seq<char>)>,
    pid: u32,
) -> Option<Seq<char>>
    decreases procs.len(),
{
    if procs.len() == 0 {
        None
    } else if procs.last().0 == pid && program_owner(apps, procs.last().1) is Some {
        program_owner(apps, procs.last().1)
    } else {
        process_owner(apps, procs.drop_last(), pid)
    }
}

/// Whether a process of `key` has something open that is the candidate path `p` or below it.
pub open spec fn has_open(
    apps: Seq<AppView>,
    procs: Seq<(u32, Seq<char>)>,
    opens: Seq<(u32, Seq<Seq<char>>)>,
    cs: Seq<CandidateView>,
    key: Seq<char>,
    p: Seq<Seq<char>>,
) -> bool {
    exists|i: int, j: int|
        0 <= i < opens.len() && 0 <= j < cs.len() && process_owner(
            apps,
            procs,
            (#[trigger] opens[i]).0,
        ) == Some(key) && under(opens[i].1, (#[trigger] cs[j]).path) && cs[j].path == p
}

fn owner_of_program(apps: &Vec<AppOwner>, comm: &str) -> (r: Option<String>)
    ensures
        r.deep_view() == program_owner(apps.deep_view(), comm@),
{
    let ghost all = apps.deep_view();
    let mut i: usize = 0;
    assert(all.skip(0) =~= all);
    while i < apps.len()
        invariant
            i <= apps.len(),
            all == apps.deep_view(),
            program_owner(all, comm@) == program_owner(all.skip(i as int), comm@),
        decreases apps.len() - i,
    {
        assert(all.skip(i as int)[0] == apps@[i as int].deep_view());
        assert(all.skip(i as int).skip(1) =~= all.skip(i + 1));
        if let Some(p) = &apps[i].owner.path {
            let t = p.text();
            if str_starts(comm, t.as_str()) {
                return Some(apps[i].owner.key.clone());
            }
        }
        i = i + 1;
    }
    None
}

fn owner_of_process(apps: &Vec<AppOwner>, procs: &Vec<(u32, String)>, pid: u32) -> (r: Option<
    String,
>)
    ensures
        r.deep_view() == process_owner(apps.deep_view(), procs.deep_view(), pid),
{
    let ghost all = procs.deep_view();
    let mut n: usize = procs.len();
    assert(all.take(n as int) =~= all);
    while n > 0
        invariant
            n <= procs.len(),
            all == procs.deep_view(),
            process_owner(apps.deep_view(), all, pid) == process_owner(
                apps.deep_view(),
                all.take(n as int),
                pid,
            ),
        decreases n,
    {
        assert(all.take(n as int).last() == procs@[n - 1].deep_view());
        assert(all.take(n as int).drop_last() =~= all.take(n - 1));
        if procs[n - 1].0 == pid {
            if let Some(key) = owner_of_program(apps, procs[n - 1].1.as_str()) {
                return Some(key);
            }
        }
        n = n - 1;
    }
    None
}

fn has_pair(list: &Vec<(String, FilePath)>, key: &str, p: &FilePath) -> (r: bool)
    ensures
        r == list.deep_view().contains((key@, p@)),
{
    let mut i: usize = 0;
    while i < list.len()
        invariant
            i <= list.len(),
            forall|j: int| 0 <= j < i ==> #[trigger] list.deep_view()[j] != (key@, p@),
        decreases list.len() - i,
    {
        assert(list.deep_view()[i as int] == list@[i as int].deep_view());
        if same(list[i].0.as_str(), key) && list[i].1.same(p) {
            assert(list.deep_view()[i as int] == (key@, p@));
            return true;
        }
        i = i + 1;
    }
    false
}

/// Which owners have which candidates open, each pair once: from what `ps -axo pid,comm` and
/// `lsof -F pn` print.
pub fn observed_opens(
    owners: &Owners,
    candidates: &Vec<Candidate>,
    ps_output: &str,
    lsof_output: &str,
) -> (r: Vec<(String, FilePath)>)
    ensures
        r.deep_view().no_duplicates(),
        forall|key: Seq<char>, p: Seq<Seq<char>>| #[trigger]
            r.deep_view().contains((key, p)) <==> has_open(
                owners@.apps,
                ps_rows(ps_output@),
                open_rows(lines(lsof_output@), None),
                candidates.deep_view(),
                key,
                p,
            ),
{
    let procs = parse_ps_pid_comm(ps_output);
    let opens = parse_lsof_pn(lsof_output);
    let ghost apps = owners@.apps;
    let ghost pv = procs.deep_view();
    let ghost ov = opens.deep_view();
    let ghost cs = candidates.deep_view();
    let mut out: Vec<(String, FilePath)> = Vec::new();
    let mut i: usize = 0;
    while i < opens.len()
        invariant
            i <= opens.len(),
            apps == owners@.apps,
            pv == procs.deep_view(),
            ov == opens.deep_view(),
            cs == candidates.deep_view(),
            out.deep_view().no_duplicates(),
            forall|key: Seq<char>, p: Seq<Seq<char>>| #[trigger]
                out.deep_view().contains((key, p)) <==> has_open(
                    apps,
                    pv,
                    ov.take(i as int),
                    cs,
                    key,
                    p,
                ),
        decreases opens.len() - i,
    {
        let ghost before = out.deep_view();
        let ghost o = ov[i as int];
        assert(o == opens@[i as int].deep_view());
        let owner = owner_of_process(&owners.apps, &procs, opens[i].0);
        let ghost who = process_owner(apps, pv, o.0);
        if let Some(key) = owner {
            let mut k: usize = 0;
            while k < candidates.len()
                invariant
                    i < opens.len(),
                    k <= candidates.len(),
                    cs == candidates.deep_view(),
                    o == opens@[i as int].deep_view(),
                    out.deep_view().no_duplicates(),
                    forall|x: (Seq<char>, Seq<Seq<char>>)| #[trigger]
                        out.deep_view().contains(x) <==> before.contains(x) || (x.0 == key@
                            && exists|j: int|
                            0 <= j < k && under(o.1, (#[trigger] cs[j]).path) && cs[j].path == x.1),
                decreases candidates.len() - k,
            {
                let c = &candidates[k];
                assert(cs[k as int] == c@);
                let ghost was = out.deep_view();
                if opens[i].1.under(&c.path) {
                    if !has_pair(&out, key.as_str(), &c.path) {
                        let pair = (key.clone(), c.path.copy());
                        out.push(pair);
                        proof {
                            let now = out.deep_view();
                            assert(now =~= was.push((key@, c@.path)));
                            assert forall|x: (Seq<char>, Seq<Seq<char>>)| #[trigger] now.contains(x)
                                <==> was.contains(x) || x == (key@, c@.path) by {
                                if was.contains(x) {
                                    let n = choose|n: int| 0 <= n < was.len() && was[n] == x;
                                    assert(now[n] == x);
                                }
                                if x == (key@, c@.path) {
                                    assert(now[was.len() as int] == x);
                                }
                            }
                        }
                    }
                    proof {
                        assert(under(o.1, cs[k as int].path));
                    }
                }
                k = k + 1;
            }
        }
        proof {
            let t0 = ov.take(i as int);
            let t1 = ov.take(i + 1);
            assert forall|key: Seq<char>, p: Seq<Seq<char>>| #[trigger] out.deep_view().contains(
                (key, p),
            ) <==> has_open(apps, pv, t1, cs, key, p) by {
                let x = (key, p);
                assert(before.contains(x) <==> has_open(apps, pv, t0, cs, key, p));
                if has_open(apps, pv, t0, cs, key, p) {
                    let (a, b) = choose|a: int, b: int|
                        0 <= a < t0.len() && 0 <= b < cs.len() && process_owner(
                            apps,
                            pv,
                            (#[trigger] t0[a]).0,
                        ) == Some(key) && under(t0[a].1, (#[trigger] cs[b]).path) && cs[b].path == p;
                    assert(t1[a] == t0[a]);
                }
                if who == Some(key) && exists|j: int|
                    0 <= j < cs.len() && under(o.1, (#[trigger] cs[j]).path) && cs[j].path == p {
                    let j = choose|j: int|
                        0 <= j < cs.len() && under(o.1, (#[trigger] cs[j]).path) && cs[j].path == p;
                    assert(t1[i as int] == o);
                }
                if has_open(apps, pv, t1, cs, key, p) {
                    let (a, b) = choose|a: int, b: int|
                        0 <= a < t1.len() && 0 <= b < cs.len() && process_owner(
                            apps,
                            pv,
                            (#[trigger] t1[a]).0,
                        ) == Some(key) && under(t1[a].1, (#[trigger] cs[b]).path) && cs[b].path == p;
                    if a < i {
                        assert(t0[a] == t1[a]);
                        assert(has_open(apps, pv, t0, cs, key, p));
                    } else {
                        assert(t1[a] == o);
                    }
                }
            }
        }
        i = i + 1;
    }
    assert(ov.take(i as int) =~= ov);
    out
}

} // verus!
